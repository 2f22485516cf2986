//! The store document codec.
//!
//! The generation store is persisted as a single JSON document holding the
//! full generation sequence.  Both directions are implemented here and
//! verified against one mathematical grammar: [`ser_document`] says exactly
//! which character sequence a store serializes to, the `ps_*` functions say
//! exactly what a character sequence parses to, and the round-trip law
//! ([`lemma_document_roundtrip`]) proves that parsing a serialized store
//! yields the identical generation sequence.
//!
//! The writer always produces a canonical form: fields in a fixed order, no
//! insignificant whitespace, and only `\"` and `\\` as string escapes.  The
//! parser accepts exactly that canonical form.

use vstd::prelude::*;
use vstd::string::StrSliceExecFns;
use vstd::string::StringExecFns;

use crate::store::Generation;
use crate::store::GenerationRecord;
use crate::store::GenerationSymlink;
use crate::store::SymlinkRecord;

verus! {

// ---------------------------------------------------------------------------
// The serialized form, as a function of the store's mathematical contents.
// ---------------------------------------------------------------------------
/// The decimal digit character for `d` (0 through 9).
pub open spec fn dec_digit(d: int) -> char {
    if d == 0 {
        '0'
    } else if d == 1 {
        '1'
    } else if d == 2 {
        '2'
    } else if d == 3 {
        '3'
    } else if d == 4 {
        '4'
    } else if d == 5 {
        '5'
    } else if d == 6 {
        '6'
    } else if d == 7 {
        '7'
    } else if d == 8 {
        '8'
    } else {
        '9'
    }
}

/// The decimal representation of `n`, without sign or leading zeros.
pub open spec fn dec_rep(n: int) -> Seq<char>
    recommends
        n >= 0,
    decreases n,
{
    if n < 10 {
        seq![dec_digit(n)]
    } else {
        dec_rep(n / 10) + seq![dec_digit(n % 10)]
    }
}

/// How one character is written inside a string literal: a backslash is put
/// before `"` and `\`, every other character stands for itself.
pub open spec fn esc_char(c: char) -> Seq<char> {
    if c == '\\' || c == '"' {
        seq!['\\', c]
    } else {
        seq![c]
    }
}

/// The escaped form of a whole string.
pub open spec fn escape(s: Seq<char>) -> Seq<char>
    decreases s.len(),
{
    if s.len() == 0 {
        Seq::empty()
    } else {
        esc_char(s[0]) + escape(s.drop_first())
    }
}

/// A string literal: the escaped string between double quotes.
pub open spec fn quoted(s: Seq<char>) -> Seq<char> {
    seq!['"'] + escape(s) + seq!['"']
}

/// `true` or `false`.
pub open spec fn bool_rep(b: bool) -> Seq<char> {
    if b {
        "true"@
    } else {
        "false"@
    }
}

/// One serialized binding record.
pub open spec fn ser_symlink(v: SymlinkRecord) -> Seq<char> {
    "{\"source\":"@ + quoted(v.source) + ",\"target\":"@ + quoted(v.target)
        + ",\"backup_path\":"@ + (match v.backup_path {
        Some(p) => quoted(p),
        None => "null"@,
    }) + "}"@
}

/// The members of a binding list after the first, each preceded by a comma.
pub open spec fn ser_symlinks_tail(vs: Seq<SymlinkRecord>) -> Seq<char>
    decreases vs.len(),
{
    if vs.len() == 0 {
        Seq::empty()
    } else {
        seq![','] + ser_symlink(vs[0]) + ser_symlinks_tail(vs.drop_first())
    }
}

/// A comma-separated binding list, without the surrounding brackets.
pub open spec fn ser_symlinks(vs: Seq<SymlinkRecord>) -> Seq<char> {
    if vs.len() == 0 {
        Seq::empty()
    } else {
        ser_symlink(vs[0]) + ser_symlinks_tail(vs.drop_first())
    }
}

/// One serialized generation.
pub open spec fn ser_generation(g: GenerationRecord) -> Seq<char> {
    "{\"number\":"@ + dec_rep(g.number as int) + ",\"created_at\":"@ + dec_rep(
        g.created_at as int,
    ) + ",\"config_path\":"@ + quoted(g.config_path) + ",\"symlinks\":["@ + ser_symlinks(
        g.symlinks,
    ) + "],\"active\":"@ + bool_rep(g.active) + "}"@
}

/// The members of the generation list after the first, each preceded by a
/// comma.
pub open spec fn ser_generations_tail(gs: Seq<GenerationRecord>) -> Seq<char>
    decreases gs.len(),
{
    if gs.len() == 0 {
        Seq::empty()
    } else {
        seq![','] + ser_generation(gs[0]) + ser_generations_tail(gs.drop_first())
    }
}

/// A comma-separated generation list, without the surrounding brackets.
pub open spec fn ser_generations(gs: Seq<GenerationRecord>) -> Seq<char> {
    if gs.len() == 0 {
        Seq::empty()
    } else {
        ser_generation(gs[0]) + ser_generations_tail(gs.drop_first())
    }
}

/// The whole store document: the generation list between brackets.
pub open spec fn ser_document(gs: Seq<GenerationRecord>) -> Seq<char> {
    seq!['['] + ser_generations(gs) + seq![']']
}

// ---------------------------------------------------------------------------
// The serializer.
// ---------------------------------------------------------------------------
/// The one-character string for a decimal digit.
fn digit_str(d: u64) -> (r: &'static str)
    requires
        d < 10,
    ensures
        r@ == seq![dec_digit(d as int)],
{
    proof {
        reveal_strlit("0");
        reveal_strlit("1");
        reveal_strlit("2");
        reveal_strlit("3");
        reveal_strlit("4");
        reveal_strlit("5");
        reveal_strlit("6");
        reveal_strlit("7");
        reveal_strlit("8");
        reveal_strlit("9");
    }
    let r = if d == 0 {
        "0"
    } else if d == 1 {
        "1"
    } else if d == 2 {
        "2"
    } else if d == 3 {
        "3"
    } else if d == 4 {
        "4"
    } else if d == 5 {
        "5"
    } else if d == 6 {
        "6"
    } else if d == 7 {
        "7"
    } else if d == 8 {
        "8"
    } else {
        "9"
    };
    proof {
        assert(r@ =~= seq![dec_digit(d as int)]);
    }
    r
}

/// Appends the decimal representation of `n`.
fn push_u64(out: &mut String, n: u64)
    ensures
        final(out)@ == old(out)@ + dec_rep(n as int),
    decreases n,
{
    if n >= 10 {
        push_u64(out, n / 10);
    }
    out.append(digit_str(n % 10));
    proof {
        if n < 10 {
            assert(final(out)@ =~= old(out)@ + dec_rep(n as int));
        } else {
            assert(final(out)@ =~= old(out)@ + (dec_rep(n as int / 10) + seq![
                dec_digit(n as int % 10),
            ]));
        }
    }
}

/// The escaped form of a single character is that character's escape.
proof fn lemma_escape_singleton(c: char)
    ensures
        escape(seq![c]) == esc_char(c),
{
    let s = seq![c];
    assert(s.drop_first() =~= Seq::<char>::empty());
    assert(escape(Seq::<char>::empty()) =~= Seq::<char>::empty());
    assert(escape(s) =~= esc_char(c));
}

/// The decimal string for `n`.
pub fn u64_to_string(n: u64) -> (r: String)
    ensures
        r@ == dec_rep(n as int),
{
    let mut s = String::new();
    push_u64(&mut s, n);
    proof {
        assert(s@ =~= dec_rep(n as int));
    }
    s
}

/// `escape` distributes over concatenation.
proof fn lemma_escape_append(a: Seq<char>, b: Seq<char>)
    ensures
        escape(a + b) == escape(a) + escape(b),
    decreases a.len(),
{
    if a.len() == 0 {
        assert(a + b =~= b);
        assert(escape(a) + escape(b) =~= escape(b));
    } else {
        lemma_escape_append(a.drop_first(), b);
        assert((a + b).drop_first() =~= a.drop_first() + b);
        assert((a + b)[0] == a[0]);
        assert(escape(a + b) =~= escape(a) + escape(b));
    }
}

/// Appends a quoted, escaped string literal.
fn push_quoted(out: &mut String, s: &str)
    ensures
        final(out)@ == old(out)@ + quoted(s@),
{
    out.append("\"");
    proof {
        reveal_strlit("\"");
        assert("\""@ =~= seq!['"']);
    }
    let n = s.unicode_len();
    let mut i: usize = 0;
    while i < n
        invariant
            n == s@.len(),
            0 <= i <= n,
            out@ == old(out)@ + seq!['"'] + escape(s@.take(i as int)),
        decreases n - i,
    {
        let ghost prefix = s@.take(i as int);
        let c = s.get_char(i);
        if c == '\\' || c == '"' {
            out.append("\\");
            proof {
                reveal_strlit("\\");
                assert("\\"@ =~= seq!['\\']);
            }
        }
        out.append(s.substring_char(i, i + 1));
        proof {
            assert(s@.subrange(i as int, i + 1) =~= seq![s@[i as int]]);
            lemma_escape_append(prefix, seq![s@[i as int]]);
            assert(s@.take(i + 1) =~= prefix + seq![s@[i as int]]);
            lemma_escape_singleton(s@[i as int]);
            assert(out@ =~= old(out)@ + seq!['"'] + escape(s@.take(i + 1)));
        }
        i += 1;
    }
    out.append("\"");
    proof {
        assert(s@.take(n as int) =~= s@);
        assert(final(out)@ =~= old(out)@ + quoted(s@));
    }
}

/// Appends `true` or `false`.
fn push_bool(out: &mut String, b: bool)
    ensures
        final(out)@ == old(out)@ + bool_rep(b),
{
    if b {
        out.append("true");
    } else {
        out.append("false");
    }
}

/// Appends one serialized binding record.
fn push_symlink(out: &mut String, v: &GenerationSymlink)
    ensures
        final(out)@ == old(out)@ + ser_symlink(v@),
{
    out.append("{\"source\":");
    push_quoted(out, self_str(&v.source));
    out.append(",\"target\":");
    push_quoted(out, self_str(&v.target));
    out.append(",\"backup_path\":");
    match &v.backup_path {
        Some(p) => push_quoted(out, self_str(p)),
        None => out.append("null"),
    }
    out.append("}");
    proof {
        assert(final(out)@ =~= old(out)@ + ser_symlink(v@));
    }
}

/// A `&str` view of a `String`.
fn self_str(s: &String) -> (r: &str)
    ensures
        r@ == s@,
{
    s.as_str()
}

/// Appends one serialized generation.
#[verifier::rlimit(50)]
fn push_generation(out: &mut String, g: &Generation)
    ensures
        final(out)@ == old(out)@ + ser_generation(g@),
{
    out.append("{\"number\":");
    push_u64(out, g.number);
    out.append(",\"created_at\":");
    push_u64(out, g.created_at);
    out.append(",\"config_path\":");
    push_quoted(out, self_str(&g.config_path));
    out.append(",\"symlinks\":[");
    proof {
        assert(out@ =~= old(out)@ + ("{\"number\":"@ + dec_rep(g@.number as int)
            + ",\"created_at\":"@ + dec_rep(g@.created_at as int) + ",\"config_path\":"@
            + quoted(g@.config_path) + ",\"symlinks\":["@));
    }
    let ghost head = out@;
    let mut i: usize = 0;
    proof {
        assert(g@.symlinks.take(0) =~= Seq::<SymlinkRecord>::empty());
        assert(out@ =~= head + ser_symlinks(g@.symlinks.take(0)));
    }
    while i < g.symlinks.len()
        invariant
            0 <= i <= g.symlinks.len(),
            g@.symlinks.len() == g.symlinks.len(),
            out@ == head + ser_symlinks(g@.symlinks.take(i as int)),
        decreases g.symlinks.len() - i,
    {
        if i > 0 {
            out.append(",");
            proof {
                reveal_strlit(",");
                assert(","@ =~= seq![',']);
            }
        }
        push_symlink(out, &g.symlinks[i]);
        proof {
            assert(g@.symlinks[i as int] == g.symlinks@[i as int]@);
            lemma_ser_symlinks_snoc(g@.symlinks, i as int);
            assert(out@ =~= head + ser_symlinks(g@.symlinks.take(i + 1)));
        }
        i += 1;
    }
    proof {
        assert(g@.symlinks.take(g.symlinks.len() as int) =~= g@.symlinks);
    }
    out.append("],\"active\":");
    push_bool(out, g.active);
    out.append("}");
    proof {
        assert(final(out)@ =~= old(out)@ + ser_generation(g@));
    }
}

/// Serializing one more list member appends a comma (except before the
/// first) and the member's serialization.
proof fn lemma_ser_symlinks_snoc(vs: Seq<SymlinkRecord>, i: int)
    requires
        0 <= i < vs.len(),
    ensures
        ser_symlinks(vs.take(i + 1)) == ser_symlinks(vs.take(i)) + (if i == 0 {
            ser_symlink(vs[i])
        } else {
            seq![','] + ser_symlink(vs[i])
        }),
{
    if i == 0 {
        assert(vs.take(1) =~= seq![vs[0]]);
        assert(vs.take(1).drop_first() =~= Seq::<SymlinkRecord>::empty());
        assert(vs.take(0) =~= Seq::<SymlinkRecord>::empty());
        assert(ser_symlinks(vs.take(1)) =~= ser_symlinks(vs.take(0)) + ser_symlink(vs[0]));
    } else {
        assert(vs.take(i + 1)[0] == vs[0]);
        assert(vs.take(i + 1).drop_first() =~= vs.drop_first().take(i));
        assert(vs.take(i)[0] == vs[0]);
        assert(vs.take(i).drop_first() =~= vs.drop_first().take(i - 1));
        lemma_ser_symlinks_tail_snoc(vs.drop_first(), i - 1);
        assert(vs.drop_first()[i - 1] == vs[i]);
        assert(ser_symlinks(vs.take(i + 1)) =~= ser_symlinks(vs.take(i)) + (seq![',']
            + ser_symlink(vs[i])));
    }
}

proof fn lemma_ser_symlinks_tail_snoc(vs: Seq<SymlinkRecord>, i: int)
    requires
        0 <= i < vs.len(),
    ensures
        ser_symlinks_tail(vs.take(i + 1)) == ser_symlinks_tail(vs.take(i)) + seq![',']
            + ser_symlink(vs[i]),
    decreases i,
{
    if i == 0 {
        assert(vs.take(1) =~= seq![vs[0]]);
        assert(vs.take(1).drop_first() =~= Seq::<SymlinkRecord>::empty());
        assert(vs.take(0) =~= Seq::<SymlinkRecord>::empty());
        assert(ser_symlinks_tail(vs.take(1)) =~= ser_symlinks_tail(vs.take(0)) + seq![',']
            + ser_symlink(vs[0]));
    } else {
        assert(vs.take(i + 1)[0] == vs[0]);
        assert(vs.take(i + 1).drop_first() =~= vs.drop_first().take(i));
        assert(vs.take(i)[0] == vs[0]);
        assert(vs.take(i).drop_first() =~= vs.drop_first().take(i - 1));
        lemma_ser_symlinks_tail_snoc(vs.drop_first(), i - 1);
        assert(vs.drop_first()[i - 1] == vs[i]);
        assert(ser_symlinks_tail(vs.take(i + 1)) =~= ser_symlinks_tail(vs.take(i)) + seq![',']
            + ser_symlink(vs[i]));
    }
}

proof fn lemma_ser_generations_snoc(gs: Seq<GenerationRecord>, i: int)
    requires
        0 <= i < gs.len(),
    ensures
        ser_generations(gs.take(i + 1)) == ser_generations(gs.take(i)) + (if i == 0 {
            ser_generation(gs[i])
        } else {
            seq![','] + ser_generation(gs[i])
        }),
{
    if i == 0 {
        assert(gs.take(1) =~= seq![gs[0]]);
        assert(gs.take(1).drop_first() =~= Seq::<GenerationRecord>::empty());
        assert(gs.take(0) =~= Seq::<GenerationRecord>::empty());
        assert(ser_generations(gs.take(1)) =~= ser_generations(gs.take(0)) + ser_generation(
            gs[0],
        ));
    } else {
        assert(gs.take(i + 1)[0] == gs[0]);
        assert(gs.take(i + 1).drop_first() =~= gs.drop_first().take(i));
        assert(gs.take(i)[0] == gs[0]);
        assert(gs.take(i).drop_first() =~= gs.drop_first().take(i - 1));
        lemma_ser_generations_tail_snoc(gs.drop_first(), i - 1);
        assert(gs.drop_first()[i - 1] == gs[i]);
        assert(ser_generations(gs.take(i + 1)) =~= ser_generations(gs.take(i)) + (seq![',']
            + ser_generation(gs[i])));
    }
}

proof fn lemma_ser_generations_tail_snoc(gs: Seq<GenerationRecord>, i: int)
    requires
        0 <= i < gs.len(),
    ensures
        ser_generations_tail(gs.take(i + 1)) == ser_generations_tail(gs.take(i)) + seq![',']
            + ser_generation(gs[i]),
    decreases i,
{
    if i == 0 {
        assert(gs.take(1) =~= seq![gs[0]]);
        assert(gs.take(1).drop_first() =~= Seq::<GenerationRecord>::empty());
        assert(gs.take(0) =~= Seq::<GenerationRecord>::empty());
        assert(ser_generations_tail(gs.take(1)) =~= ser_generations_tail(gs.take(0)) + seq![
            ',',
        ] + ser_generation(gs[0]));
    } else {
        assert(gs.take(i + 1)[0] == gs[0]);
        assert(gs.take(i + 1).drop_first() =~= gs.drop_first().take(i));
        assert(gs.take(i)[0] == gs[0]);
        assert(gs.take(i).drop_first() =~= gs.drop_first().take(i - 1));
        lemma_ser_generations_tail_snoc(gs.drop_first(), i - 1);
        assert(gs.drop_first()[i - 1] == gs[i]);
        assert(ser_generations_tail(gs.take(i + 1)) =~= ser_generations_tail(gs.take(i))
            + seq![','] + ser_generation(gs[i]));
    }
}

/// Serializes a generation sequence as the store document.
pub fn store_document(gens: &Vec<Generation>) -> (r: String)
    ensures
        r@ == ser_document(gens@.map_values(|g: Generation| g@)),
{
    let ghost gv = gens@.map_values(|g: Generation| g@);
    let mut out = String::new();
    out.append("[");
    proof {
        reveal_strlit("[");
        assert("["@ =~= seq!['[']);
    }
    let mut i: usize = 0;
    while i < gens.len()
        invariant
            0 <= i <= gens.len(),
            gv == gens@.map_values(|g: Generation| g@),
            gv.len() == gens.len(),
            out@ == seq!['['] + ser_generations(gv.take(i as int)),
        decreases gens.len() - i,
    {
        if i > 0 {
            out.append(",");
            proof {
                reveal_strlit(",");
                assert(","@ =~= seq![',']);
            }
        }
        push_generation(&mut out, &gens[i]);
        proof {
            assert(gv[i as int] == gens@[i as int]@);
            lemma_ser_generations_snoc(gv, i as int);
            assert(out@ =~= seq!['['] + ser_generations(gv.take(i + 1)));
        }
        i += 1;
    }
    out.append("]");
    proof {
        reveal_strlit("]");
        assert("]"@ =~= seq![']']);
        assert(gv.take(gens.len() as int) =~= gv);
        assert(out@ =~= ser_document(gv));
    }
    out
}

// ---------------------------------------------------------------------------
// The grammar's parsing functions: each consumes a prefix of the character
// sequence and yields the parsed value and the remaining suffix.
// ---------------------------------------------------------------------------
/// Consumes the literal `lit`.
pub open spec fn ps_lit(s: Seq<char>, lit: Seq<char>) -> Option<Seq<char>> {
    if lit.len() <= s.len() && s.take(lit.len() as int) == lit {
        Some(s.skip(lit.len() as int))
    } else {
        None
    }
}

/// Whether `c` is a decimal digit.
pub open spec fn is_digit(c: char) -> bool {
    c == '0' || c == '1' || c == '2' || c == '3' || c == '4' || c == '5' || c == '6' || c
        == '7' || c == '8' || c == '9'
}

/// The value of a decimal digit character.
pub open spec fn digit_val(c: char) -> int {
    if c == '0' {
        0
    } else if c == '1' {
        1
    } else if c == '2' {
        2
    } else if c == '3' {
        3
    } else if c == '4' {
        4
    } else if c == '5' {
        5
    } else if c == '6' {
        6
    } else if c == '7' {
        7
    } else if c == '8' {
        8
    } else {
        9
    }
}

/// Consumes a maximal run of digits, folding them onto `acc`.
pub open spec fn ps_digits(s: Seq<char>, acc: int) -> (int, Seq<char>)
    decreases s.len(),
{
    if s.len() > 0 && is_digit(s[0]) {
        ps_digits(s.drop_first(), acc * 10 + digit_val(s[0]))
    } else {
        (acc, s)
    }
}

/// Consumes a non-empty digit run as a `u64`; fails when the value does not
/// fit.
pub open spec fn ps_u64(s: Seq<char>) -> Option<(u64, Seq<char>)> {
    if s.len() > 0 && is_digit(s[0]) {
        let (v, rest) = ps_digits(s, 0);
        if v <= u64::MAX {
            Some((v as u64, rest))
        } else {
            None
        }
    } else {
        None
    }
}

/// Consumes the body of a string literal up to and including the closing
/// quote, undoing the two escapes.
pub open spec fn ps_string_body(s: Seq<char>) -> Option<(Seq<char>, Seq<char>)>
    decreases s.len(),
{
    if s.len() == 0 {
        None
    } else if s[0] == '"' {
        Some((Seq::empty(), s.drop_first()))
    } else if s[0] == '\\' {
        if s.len() >= 2 && (s[1] == '\\' || s[1] == '"') {
            match ps_string_body(s.skip(2)) {
                Some((v, rest)) => Some((seq![s[1]] + v, rest)),
                None => None,
            }
        } else {
            None
        }
    } else {
        match ps_string_body(s.drop_first()) {
            Some((v, rest)) => Some((seq![s[0]] + v, rest)),
            None => None,
        }
    }
}

/// Consumes a quoted string literal.
pub open spec fn ps_quoted(s: Seq<char>) -> Option<(Seq<char>, Seq<char>)> {
    if s.len() > 0 && s[0] == '"' {
        ps_string_body(s.drop_first())
    } else {
        None
    }
}

/// Consumes `true` or `false`.
pub open spec fn ps_bool(s: Seq<char>) -> Option<(bool, Seq<char>)> {
    match ps_lit(s, "true"@) {
        Some(rest) => Some((true, rest)),
        None => match ps_lit(s, "false"@) {
            Some(rest) => Some((false, rest)),
            None => None,
        },
    }
}

/// Consumes `null` or a quoted string: the backup path field.
pub open spec fn ps_backup(s: Seq<char>) -> Option<(Option<Seq<char>>, Seq<char>)> {
    match ps_lit(s, "null"@) {
        Some(rest) => Some((None, rest)),
        None => match ps_quoted(s) {
            Some((p, rest)) => Some((Some(p), rest)),
            None => None,
        },
    }
}

/// Consumes one serialized binding record.
pub open spec fn ps_symlink(s: Seq<char>) -> Option<(SymlinkRecord, Seq<char>)> {
    match ps_lit(s, "{\"source\":"@) {
        None => None,
        Some(s1) => match ps_quoted(s1) {
            None => None,
            Some((source, s2)) => match ps_lit(s2, ",\"target\":"@) {
                None => None,
                Some(s3) => match ps_quoted(s3) {
                    None => None,
                    Some((target, s4)) => match ps_lit(s4, ",\"backup_path\":"@) {
                        None => None,
                        Some(s5) => match ps_backup(s5) {
                            None => None,
                            Some((backup_path, s6)) => match ps_lit(s6, "}"@) {
                                None => None,
                                Some(s7) => Some(
                                    (SymlinkRecord { source, target, backup_path }, s7),
                                ),
                            },
                        },
                    },
                },
            },
        },
    }
}

/// A run of digits leaves at most the input behind.
proof fn lemma_ps_digits_rest(s: Seq<char>, acc: int)
    ensures
        ps_digits(s, acc).1.len() <= s.len(),
    decreases s.len(),
{
    if s.len() > 0 && is_digit(s[0]) {
        lemma_ps_digits_rest(s.drop_first(), acc * 10 + digit_val(s[0]));
    }
}

/// A successful number parse consumes at least one character.
proof fn lemma_ps_u64_advances(s: Seq<char>)
    ensures
        ps_u64(s) matches Some((v, rest)) ==> rest.len() < s.len(),
{
    if s.len() > 0 && is_digit(s[0]) {
        lemma_ps_digits_rest(s.drop_first(), digit_val(s[0]));
    }
}

/// A successful string-body parse consumes at least one character.
proof fn lemma_ps_string_body_advances(s: Seq<char>)
    ensures
        ps_string_body(s) matches Some((v, rest)) ==> rest.len() < s.len(),
    decreases s.len(),
{
    if s.len() > 0 && s[0] != '"' {
        if s[0] == '\\' {
            if s.len() >= 2 && (s[1] == '\\' || s[1] == '"') {
                lemma_ps_string_body_advances(s.skip(2));
            }
        } else {
            lemma_ps_string_body_advances(s.drop_first());
        }
    }
}

/// A successful quoted-string parse consumes at least one character.
proof fn lemma_ps_quoted_advances(s: Seq<char>)
    ensures
        ps_quoted(s) matches Some((v, rest)) ==> rest.len() < s.len(),
{
    if s.len() > 0 && s[0] == '"' {
        lemma_ps_string_body_advances(s.drop_first());
    }
}

/// A successful binding-record parse consumes at least one character.
proof fn lemma_ps_symlink_advances(s: Seq<char>)
    ensures
        ps_symlink(s) matches Some((v, rest)) ==> rest.len() < s.len(),
{
    reveal_strlit("{\"source\":");
    reveal_strlit(",\"target\":");
    reveal_strlit(",\"backup_path\":");
    reveal_strlit("null");
    reveal_strlit("}");
    if ps_symlink(s) is Some {
        let s1 = ps_lit(s, "{\"source\":"@)->Some_0;
        lemma_ps_quoted_advances(s1);
        let (source, s2) = ps_quoted(s1)->Some_0;
        let s3 = ps_lit(s2, ",\"target\":"@)->Some_0;
        lemma_ps_quoted_advances(s3);
        let (target, s4) = ps_quoted(s3)->Some_0;
        let s5 = ps_lit(s4, ",\"backup_path\":"@)->Some_0;
        lemma_ps_quoted_advances(s5);
        let (backup, s6) = ps_backup(s5)->Some_0;
        let s7 = ps_lit(s6, "}"@)->Some_0;
        assert(s7.len() < s.len());
    }
}

/// Consumes a binding list together with its closing bracket.
pub open spec fn ps_symlinks(s: Seq<char>) -> Option<(Seq<SymlinkRecord>, Seq<char>)> {
    if s.len() > 0 && s[0] == ']' {
        Some((Seq::empty(), s.drop_first()))
    } else {
        match ps_symlink(s) {
            None => None,
            Some((v, s1)) => match ps_symlinks_tail(s1) {
                None => None,
                Some((vs, s2)) => Some((seq![v] + vs, s2)),
            },
        }
    }
}

/// Consumes the rest of a binding list: comma-prefixed members up to and
/// including the closing bracket.
pub open spec fn ps_symlinks_tail(s: Seq<char>) -> Option<(Seq<SymlinkRecord>, Seq<char>)>
    decreases s.len(),
    via ps_symlinks_tail_dec
{
    if s.len() > 0 && s[0] == ']' {
        Some((Seq::empty(), s.drop_first()))
    } else if s.len() > 0 && s[0] == ',' {
        match ps_symlink(s.drop_first()) {
            None => None,
            Some((v, s1)) => match ps_symlinks_tail(s1) {
                None => None,
                Some((vs, s2)) => Some((seq![v] + vs, s2)),
            },
        }
    } else {
        None
    }
}

#[via_fn]
proof fn ps_symlinks_tail_dec(s: Seq<char>) {
    lemma_ps_symlink_advances(s.drop_first());
}

/// A successful binding-list parse consumes at least one character.
proof fn lemma_ps_symlinks_tail_advances(s: Seq<char>)
    ensures
        ps_symlinks_tail(s) matches Some((v, rest)) ==> rest.len() < s.len(),
    decreases s.len(),
{
    if s.len() > 0 && s[0] != ']' && s[0] == ',' {
        lemma_ps_symlink_advances(s.drop_first());
        if ps_symlink(s.drop_first()) is Some {
            let (v, s1) = ps_symlink(s.drop_first())->Some_0;
            lemma_ps_symlinks_tail_advances(s1);
        }
    }
}

proof fn lemma_ps_symlinks_advances(s: Seq<char>)
    ensures
        ps_symlinks(s) matches Some((v, rest)) ==> rest.len() < s.len(),
{
    if !(s.len() > 0 && s[0] == ']') {
        lemma_ps_symlink_advances(s);
        if ps_symlink(s) is Some {
            let (v, s1) = ps_symlink(s)->Some_0;
            lemma_ps_symlinks_tail_advances(s1);
        }
    }
}

/// Consumes one serialized generation.
pub open spec fn ps_generation(s: Seq<char>) -> Option<(GenerationRecord, Seq<char>)> {
    match ps_lit(s, "{\"number\":"@) {
        None => None,
        Some(s1) => match ps_u64(s1) {
            None => None,
            Some((number, s2)) => match ps_lit(s2, ",\"created_at\":"@) {
                None => None,
                Some(s3) => match ps_u64(s3) {
                    None => None,
                    Some((created_at, s4)) => match ps_lit(s4, ",\"config_path\":"@) {
                        None => None,
                        Some(s5) => match ps_quoted(s5) {
                            None => None,
                            Some((config_path, s6)) => match ps_lit(s6, ",\"symlinks\":["@) {
                                None => None,
                                Some(s7) => match ps_symlinks(s7) {
                                    None => None,
                                    Some((symlinks, s8)) => match ps_lit(s8, ",\"active\":"@) {
                                        None => None,
                                        Some(s9) => match ps_bool(s9) {
                                            None => None,
                                            Some((active, s10)) => match ps_lit(s10, "}"@) {
                                                None => None,
                                                Some(s11) => Some(
                                                    (
                                                        GenerationRecord {
                                                            number,
                                                            created_at,
                                                            config_path,
                                                            symlinks,
                                                            active,
                                                        },
                                                        s11,
                                                    ),
                                                ),
                                            },
                                        },
                                    },
                                },
                            },
                        },
                    },
                },
            },
        },
    }
}

/// A successful generation parse consumes at least one character.
proof fn lemma_ps_generation_advances(s: Seq<char>)
    ensures
        ps_generation(s) matches Some((v, rest)) ==> rest.len() < s.len(),
{
    reveal_strlit("{\"number\":");
    reveal_strlit(",\"created_at\":");
    reveal_strlit(",\"config_path\":");
    reveal_strlit(",\"symlinks\":[");
    reveal_strlit(",\"active\":");
    reveal_strlit("true");
    reveal_strlit("false");
    reveal_strlit("}");
    if ps_generation(s) is Some {
        let s1 = ps_lit(s, "{\"number\":"@)->Some_0;
        lemma_ps_u64_advances(s1);
        let (number, s2) = ps_u64(s1)->Some_0;
        let s3 = ps_lit(s2, ",\"created_at\":"@)->Some_0;
        lemma_ps_u64_advances(s3);
        let (created_at, s4) = ps_u64(s3)->Some_0;
        let s5 = ps_lit(s4, ",\"config_path\":"@)->Some_0;
        lemma_ps_quoted_advances(s5);
        let (config_path, s6) = ps_quoted(s5)->Some_0;
        let s7 = ps_lit(s6, ",\"symlinks\":["@)->Some_0;
        lemma_ps_symlinks_advances(s7);
        let (symlinks, s8) = ps_symlinks(s7)->Some_0;
        let s9 = ps_lit(s8, ",\"active\":"@)->Some_0;
        let (active, s10) = ps_bool(s9)->Some_0;
        let s11 = ps_lit(s10, "}"@)->Some_0;
        assert(s11.len() < s.len());
    }
}

/// Consumes a generation list together with its closing bracket.
pub open spec fn ps_generations(s: Seq<char>) -> Option<(Seq<GenerationRecord>, Seq<char>)> {
    if s.len() > 0 && s[0] == ']' {
        Some((Seq::empty(), s.drop_first()))
    } else {
        match ps_generation(s) {
            None => None,
            Some((g, s1)) => match ps_generations_tail(s1) {
                None => None,
                Some((gs, s2)) => Some((seq![g] + gs, s2)),
            },
        }
    }
}

/// Consumes the rest of a generation list: comma-prefixed members up to and
/// including the closing bracket.
pub open spec fn ps_generations_tail(s: Seq<char>) -> Option<
    (Seq<GenerationRecord>, Seq<char>),
>
    decreases s.len(),
    via ps_generations_tail_dec
{
    if s.len() > 0 && s[0] == ']' {
        Some((Seq::empty(), s.drop_first()))
    } else if s.len() > 0 && s[0] == ',' {
        match ps_generation(s.drop_first()) {
            None => None,
            Some((g, s1)) => match ps_generations_tail(s1) {
                None => None,
                Some((gs, s2)) => Some((seq![g] + gs, s2)),
            },
        }
    } else {
        None
    }
}

#[via_fn]
proof fn ps_generations_tail_dec(s: Seq<char>) {
    lemma_ps_generation_advances(s.drop_first());
}

/// Parses the whole store document: the generation list between brackets,
/// with nothing following.
pub open spec fn ps_document(s: Seq<char>) -> Option<Seq<GenerationRecord>> {
    match ps_lit(s, "["@) {
        None => None,
        Some(s1) => match ps_generations(s1) {
            None => None,
            Some((gs, rest)) => if rest.len() == 0 {
                Some(gs)
            } else {
                None
            },
        },
    }
}

// ---------------------------------------------------------------------------
// The parser.  Each function reads `t` from character position `i` and
// refines the corresponding `ps_*` function on the suffix `t@.skip(i)`.
// ---------------------------------------------------------------------------
/// Whether `c` is a decimal digit.
fn is_digit_ch(c: char) -> (r: bool)
    ensures
        r == is_digit(c),
{
    c == '0' || c == '1' || c == '2' || c == '3' || c == '4' || c == '5' || c == '6' || c
        == '7' || c == '8' || c == '9'
}

/// The value of a decimal digit character.
fn digit_val_ch(c: char) -> (r: u64)
    requires
        is_digit(c),
    ensures
        r as int == digit_val(c),
        r < 10,
{
    if c == '0' {
        0
    } else if c == '1' {
        1
    } else if c == '2' {
        2
    } else if c == '3' {
        3
    } else if c == '4' {
        4
    } else if c == '5' {
        5
    } else if c == '6' {
        6
    } else if c == '7' {
        7
    } else if c == '8' {
        8
    } else {
        9
    }
}

/// Consumes the literal `lit` at position `i`.
fn expect_lit(t: &str, i: usize, lit: &str) -> (r: Option<usize>)
    requires
        i <= t@.len(),
    ensures
        match r {
            Some(j) => i <= j <= t@.len() && ps_lit(t@.skip(i as int), lit@) == Some(
                t@.skip(j as int),
            ),
            None => ps_lit(t@.skip(i as int), lit@) is None,
        },
{
    let ghost s = t@.skip(i as int);
    let tn = t.unicode_len();
    let ln = lit.unicode_len();
    if ln > tn - i {
        return None;
    }
    let mut k: usize = 0;
    while k < ln
        invariant
            tn == t@.len(),
            ln == lit@.len(),
            i <= t@.len(),
            ln <= tn - i,
            0 <= k <= ln,
            s == t@.skip(i as int),
            s.take(k as int) == lit@.take(k as int),
        decreases ln - k,
    {
        let c = t.get_char(i + k);
        let lc = lit.get_char(k);
        proof {
            assert(s[k as int] == t@[i + k]);
        }
        if c != lc {
            proof {
                assert(s.take(ln as int)[k as int] != lit@[k as int]);
                assert(s.take(ln as int) != lit@);
            }
            return None;
        }
        proof {
            assert(s.take(k + 1) =~= s.take(k as int).push(s[k as int]));
            assert(lit@.take(k + 1) =~= lit@.take(k as int).push(lit@[k as int]));
        }
        k += 1;
    }
    proof {
        assert(s.take(ln as int) =~= lit@.take(ln as int));
        assert(lit@.take(ln as int) =~= lit@);
        assert(t@.skip(i as int).skip(ln as int) =~= t@.skip(i + ln));
    }
    Some(i + ln)
}

/// The folded value of a digit run never falls below its accumulator.
proof fn lemma_ps_digits_lower(s: Seq<char>, acc: int)
    requires
        acc >= 0,
    ensures
        ps_digits(s, acc).0 >= acc,
    decreases s.len(),
{
    if s.len() > 0 && is_digit(s[0]) {
        lemma_ps_digits_lower(s.drop_first(), acc * 10 + digit_val(s[0]));
    }
}

/// Consumes a non-empty digit run as a `u64` at position `i`.
fn parse_u64(t: &str, i: usize) -> (r: Option<(u64, usize)>)
    requires
        i <= t@.len(),
    ensures
        match r {
            Some((v, j)) => i < j <= t@.len() && ps_u64(t@.skip(i as int)) == Some(
                (v, t@.skip(j as int)),
            ),
            None => ps_u64(t@.skip(i as int)) is None,
        },
{
    let ghost s = t@.skip(i as int);
    let tn = t.unicode_len();
    if i >= tn {
        return None;
    }
    let c0 = t.get_char(i);
    proof {
        assert(s[0] == t@[i as int]);
    }
    if !is_digit_ch(c0) {
        return None;
    }
    let mut acc: u64 = digit_val_ch(c0);
    let mut j: usize = i + 1;
    proof {
        assert(s.drop_first() =~= t@.skip(i + 1));
    }
    loop
        invariant
            tn == t@.len(),
            i < j <= tn,
            is_digit(t@[i as int]),
            s == t@.skip(i as int),
            ps_digits(s, 0) == ps_digits(t@.skip(j as int), acc as int),
        decreases tn - j,
    {
        if j >= tn {
            proof {
                assert(t@.skip(j as int).len() == 0);
                assert(ps_digits(t@.skip(j as int), acc as int) == (
                    acc as int,
                    t@.skip(j as int),
                ));
            }
            return Some((acc, j));
        }
        let c = t.get_char(j);
        proof {
            assert(t@.skip(j as int)[0] == t@[j as int]);
            assert(t@.skip(j as int).drop_first() =~= t@.skip(j + 1));
        }
        if !is_digit_ch(c) {
            proof {
                assert(ps_digits(t@.skip(j as int), acc as int) == (
                    acc as int,
                    t@.skip(j as int),
                ));
            }
            return Some((acc, j));
        }
        let d = digit_val_ch(c);
        if acc > (u64::MAX - d) / 10 {
            proof {
                assert(acc as int * 10 + d as int > u64::MAX) by (nonlinear_arith)
                    requires
                        acc as int > (u64::MAX as int - d as int) / 10,
                        d < 10,
                ;
                lemma_ps_digits_lower(
                    t@.skip(j + 1),
                    acc as int * 10 + digit_val(t@[j as int]),
                );
            }
            return None;
        }
        proof {
            assert(acc as int * 10 + d as int <= u64::MAX) by (nonlinear_arith)
                requires
                    acc as int <= (u64::MAX as int - d as int) / 10,
                    d < 10,
            ;
        }
        acc = acc * 10 + d;
        j += 1;
    }
}

/// `res` with `prefix` prepended onto a successfully parsed value.
spec fn body_cont(res: Option<(Seq<char>, Seq<char>)>, prefix: Seq<char>) -> Option<
    (Seq<char>, Seq<char>),
> {
    match res {
        Some((v, rest)) => Some((prefix + v, rest)),
        None => None,
    }
}

proof fn lemma_cont_cont(res: Option<(Seq<char>, Seq<char>)>, a: Seq<char>, b: Seq<char>)
    ensures
        body_cont(body_cont(res, b), a) == body_cont(res, a + b),
{
    if res is Some {
        let (v, rest) = res->Some_0;
        assert(a + (b + v) =~= (a + b) + v);
    }
}

/// Unfolding of `ps_string_body` at an unescaped ordinary character.
proof fn lemma_body_step_char(t: Seq<char>, j: int)
    requires
        0 <= j < t.len(),
        t[j] != '"',
        t[j] != '\\',
    ensures
        ps_string_body(t.skip(j)) == body_cont(ps_string_body(t.skip(j + 1)), seq![t[j]]),
{
    assert(t.skip(j)[0] == t[j]);
    assert(t.skip(j).drop_first() =~= t.skip(j + 1));
}

/// Unfolding of `ps_string_body` at an escape pair.
proof fn lemma_body_step_esc(t: Seq<char>, j: int)
    requires
        0 <= j,
        j + 1 < t.len(),
        t[j] == '\\',
        t[j + 1] == '\\' || t[j + 1] == '"',
    ensures
        ps_string_body(t.skip(j)) == body_cont(ps_string_body(t.skip(j + 2)), seq![t[j + 1]]),
{
    assert(t.skip(j)[0] == t[j]);
    assert(t.skip(j)[1] == t[j + 1]);
    assert(t.skip(j).skip(2) =~= t.skip(j + 2));
}

/// Unfolding of `ps_string_body` at the closing quote.
proof fn lemma_body_step_quote(t: Seq<char>, j: int)
    requires
        0 <= j < t.len(),
        t[j] == '"',
    ensures
        ps_string_body(t.skip(j)) == Some((Seq::<char>::empty(), t.skip(j + 1))),
{
    assert(t.skip(j)[0] == t[j]);
    assert(t.skip(j).drop_first() =~= t.skip(j + 1));
}

/// `ps_string_body` fails at the end of input and at a bad escape.
proof fn lemma_body_step_fail(t: Seq<char>, j: int)
    requires
        0 <= j <= t.len(),
        j == t.len() || (t[j] == '\\' && (j + 1 >= t.len() || (t[j + 1] != '\\' && t[j + 1]
            != '"'))),
    ensures
        ps_string_body(t.skip(j)) is None,
{
    if j == t.len() {
        assert(t.skip(j).len() == 0);
    } else {
        assert(t.skip(j)[0] == t[j]);
        if j + 1 < t.len() {
            assert(t.skip(j)[1] == t[j + 1]);
        }
    }
}

/// Consumes a quoted string literal at position `i`.
fn parse_quoted(t: &str, i: usize) -> (r: Option<(String, usize)>)
    requires
        i <= t@.len(),
    ensures
        match r {
            Some((v, j)) => i < j <= t@.len() && ps_quoted(t@.skip(i as int)) == Some(
                (v@, t@.skip(j as int)),
            ),
            None => ps_quoted(t@.skip(i as int)) is None,
        },
{
    let tn = t.unicode_len();
    if i >= tn {
        return None;
    }
    proof {
        assert(t@.skip(i as int)[0] == t@[i as int]);
        assert(t@.skip(i as int).drop_first() =~= t@.skip(i + 1));
    }
    if t.get_char(i) != '"' {
        return None;
    }
    let ghost body = t@.skip(i + 1);
    let ghost target = ps_string_body(body);
    proof {
        assert(ps_quoted(t@.skip(i as int)) == target);
    }
    let mut out = String::new();
    let mut j: usize = i + 1;
    proof {
        assert(out@ =~= Seq::<char>::empty());
        if target is Some {
            let (v, rest) = target->Some_0;
            assert(out@ + v =~= v);
        }
        assert(target == body_cont(ps_string_body(t@.skip(j as int)), out@));
    }
    loop
        invariant
            tn == t@.len(),
            i < j <= tn,
            target == ps_quoted(t@.skip(i as int)),
            target == body_cont(ps_string_body(t@.skip(j as int)), out@),
        decreases tn - j,
    {
        if j >= tn {
            proof {
                lemma_body_step_fail(t@, j as int);
            }
            return None;
        }
        let c = t.get_char(j);
        if c == '"' {
            proof {
                lemma_body_step_quote(t@, j as int);
                assert(out@ + Seq::<char>::empty() =~= out@);
            }
            return Some((out, j + 1));
        }
        if c == '\\' {
            if j + 1 >= tn {
                proof {
                    lemma_body_step_fail(t@, j as int);
                }
                return None;
            }
            let c2 = t.get_char(j + 1);
            if c2 == '\\' || c2 == '"' {
                let ghost prev = out@;
                out.append(t.substring_char(j + 1, j + 2));
                proof {
                    lemma_body_step_esc(t@, j as int);
                    lemma_cont_cont(ps_string_body(t@.skip(j + 2)), prev, seq![t@[j + 1]]);
                    assert(t@.subrange(j + 1, j + 2) =~= seq![t@[j + 1]]);
                    assert(out@ =~= prev + seq![t@[j + 1]]);
                }
                j += 2;
            } else {
                proof {
                    lemma_body_step_fail(t@, j as int);
                }
                return None;
            }
        } else {
            let ghost prev = out@;
            out.append(t.substring_char(j, j + 1));
            proof {
                lemma_body_step_char(t@, j as int);
                lemma_cont_cont(ps_string_body(t@.skip(j + 1)), prev, seq![t@[j as int]]);
                assert(t@.subrange(j as int, j + 1) =~= seq![t@[j as int]]);
                assert(out@ =~= prev + seq![t@[j as int]]);
            }
            j += 1;
        }
    }
}

/// Consumes `true` or `false` at position `i`.
fn parse_bool(t: &str, i: usize) -> (r: Option<(bool, usize)>)
    requires
        i <= t@.len(),
    ensures
        match r {
            Some((v, j)) => i <= j <= t@.len() && ps_bool(t@.skip(i as int)) == Some(
                (v, t@.skip(j as int)),
            ),
            None => ps_bool(t@.skip(i as int)) is None,
        },
{
    match expect_lit(t, i, "true") {
        Some(j) => Some((true, j)),
        None => match expect_lit(t, i, "false") {
            Some(j) => Some((false, j)),
            None => None,
        },
    }
}

/// Consumes `null` or a quoted string at position `i`.
fn parse_backup(t: &str, i: usize) -> (r: Option<(Option<String>, usize)>)
    requires
        i <= t@.len(),
    ensures
        match r {
            Some((v, j)) => i <= j <= t@.len() && ps_backup(t@.skip(i as int)) == Some(
                (
                    match v {
                        Some(p) => Some(p@),
                        None => None::<Seq<char>>,
                    },
                    t@.skip(j as int),
                ),
            ),
            None => ps_backup(t@.skip(i as int)) is None,
        },
{
    match expect_lit(t, i, "null") {
        Some(j) => Some((None, j)),
        None => match parse_quoted(t, i) {
            Some((p, j)) => Some((Some(p), j)),
            None => None,
        },
    }
}

/// Consumes one serialized binding record at position `i`.
#[verifier::rlimit(50)]
fn parse_symlink(t: &str, i: usize) -> (r: Option<(GenerationSymlink, usize)>)
    requires
        i <= t@.len(),
    ensures
        match r {
            Some((v, j)) => i <= j <= t@.len() && ps_symlink(t@.skip(i as int)) == Some(
                (v@, t@.skip(j as int)),
            ),
            None => ps_symlink(t@.skip(i as int)) is None,
        },
{
    let j1 = match expect_lit(t, i, "{\"source\":") {
        Some(j) => j,
        None => {
            return None;
        },
    };
    let (source, j2) = match parse_quoted(t, j1) {
        Some(p) => p,
        None => {
            return None;
        },
    };
    let j3 = match expect_lit(t, j2, ",\"target\":") {
        Some(j) => j,
        None => {
            return None;
        },
    };
    let (target, j4) = match parse_quoted(t, j3) {
        Some(p) => p,
        None => {
            return None;
        },
    };
    let j5 = match expect_lit(t, j4, ",\"backup_path\":") {
        Some(j) => j,
        None => {
            return None;
        },
    };
    let (backup_path, j6) = match parse_backup(t, j5) {
        Some(p) => p,
        None => {
            return None;
        },
    };
    let j7 = match expect_lit(t, j6, "}") {
        Some(j) => j,
        None => {
            return None;
        },
    };
    Some((GenerationSymlink { source, target, backup_path }, j7))
}

/// Consumes a binding list (after the opening bracket) at position `i`.
fn parse_symlinks(t: &str, i: usize) -> (r: Option<(Vec<GenerationSymlink>, usize)>)
    requires
        i <= t@.len(),
    ensures
        match r {
            Some((v, j)) => i <= j <= t@.len() && ps_symlinks(t@.skip(i as int)) == Some(
                (v@.map_values(|x: GenerationSymlink| x@), t@.skip(j as int)),
            ),
            None => ps_symlinks(t@.skip(i as int)) is None,
        },
{
    let tn = t.unicode_len();
    if i < tn {
        proof {
            assert(t@.skip(i as int)[0] == t@[i as int]);
            assert(t@.skip(i as int).drop_first() =~= t@.skip(i + 1));
        }
        if t.get_char(i) == ']' {
            let r: Vec<GenerationSymlink> = Vec::new();
            proof {
                assert(r@.map_values(|x: GenerationSymlink| x@) =~= Seq::<
                    SymlinkRecord,
                >::empty());
            }
            return Some((r, i + 1));
        }
    } else {
        proof {
            assert(t@.skip(i as int).len() == 0);
            assert(ps_symlink(t@.skip(i as int)) is None) by {
                reveal_strlit("{\"source\":");
            }
        }
        return None;
    }
    let (first, mut j) = match parse_symlink(t, i) {
        Some(p) => p,
        None => {
            return None;
        },
    };
    let mut acc: Vec<GenerationSymlink> = Vec::new();
    acc.push(first);
    loop
        invariant
            i <= t@.len(),
            i as int <= j as int <= t@.len(),
            tn == t@.len(),
            ps_symlinks(t@.skip(i as int)) == match ps_symlinks_tail(t@.skip(j as int)) {
                Some((vs, rest)) => Some(
                    (acc@.map_values(|x: GenerationSymlink| x@) + vs, rest),
                ),
                None => None::<(Seq<SymlinkRecord>, Seq<char>)>,
            },
        decreases t@.len() - j,
    {
        let ghost sj = t@.skip(j as int);
        if j >= tn {
            proof {
                assert(sj.len() == 0);
            }
            return None;
        }
        proof {
            assert(sj[0] == t@[j as int]);
            assert(sj.drop_first() =~= t@.skip(j + 1));
        }
        let c = t.get_char(j);
        if c == ']' {
            proof {
                assert(acc@.map_values(|x: GenerationSymlink| x@) + Seq::<
                    SymlinkRecord,
                >::empty() =~= acc@.map_values(|x: GenerationSymlink| x@));
            }
            return Some((acc, j + 1));
        }
        if c != ',' {
            return None;
        }
        let (v, j2) = match parse_symlink(t, j + 1) {
            Some(p) => p,
            None => {
                return None;
            },
        };
        let ghost prevmap = acc@.map_values(|x: GenerationSymlink| x@);
        acc.push(v);
        proof {
            assert(acc@.map_values(|x: GenerationSymlink| x@) =~= prevmap.push(v@));
            assert forall|vs: Seq<SymlinkRecord>|
                true implies prevmap + (seq![v@] + vs) =~= prevmap.push(v@) + vs by {}
        }
        j = j2;
        proof {
            lemma_ps_symlink_advances(t@.skip(j as int));
        }
    }
}

/// Consumes one serialized generation at position `i`.
#[verifier::rlimit(50)]
fn parse_generation(t: &str, i: usize) -> (r: Option<(Generation, usize)>)
    requires
        i <= t@.len(),
    ensures
        match r {
            Some((v, j)) => i <= j <= t@.len() && ps_generation(t@.skip(i as int)) == Some(
                (v@, t@.skip(j as int)),
            ),
            None => ps_generation(t@.skip(i as int)) is None,
        },
{
    let j1 = match expect_lit(t, i, "{\"number\":") {
        Some(j) => j,
        None => {
            return None;
        },
    };
    let (number, j2) = match parse_u64(t, j1) {
        Some(p) => p,
        None => {
            return None;
        },
    };
    let j3 = match expect_lit(t, j2, ",\"created_at\":") {
        Some(j) => j,
        None => {
            return None;
        },
    };
    let (created_at, j4) = match parse_u64(t, j3) {
        Some(p) => p,
        None => {
            return None;
        },
    };
    let j5 = match expect_lit(t, j4, ",\"config_path\":") {
        Some(j) => j,
        None => {
            return None;
        },
    };
    let (config_path, j6) = match parse_quoted(t, j5) {
        Some(p) => p,
        None => {
            return None;
        },
    };
    let j7 = match expect_lit(t, j6, ",\"symlinks\":[") {
        Some(j) => j,
        None => {
            return None;
        },
    };
    let (symlinks, j8) = match parse_symlinks(t, j7) {
        Some(p) => p,
        None => {
            return None;
        },
    };
    let j9 = match expect_lit(t, j8, ",\"active\":") {
        Some(j) => j,
        None => {
            return None;
        },
    };
    let (active, j10) = match parse_bool(t, j9) {
        Some(p) => p,
        None => {
            return None;
        },
    };
    let j11 = match expect_lit(t, j10, "}") {
        Some(j) => j,
        None => {
            return None;
        },
    };
    Some((Generation { number, created_at, config_path, symlinks, active }, j11))
}

/// Consumes a generation list (after the opening bracket) at position `i`.
fn parse_generations(t: &str, i: usize) -> (r: Option<(Vec<Generation>, usize)>)
    requires
        i <= t@.len(),
    ensures
        match r {
            Some((v, j)) => i <= j <= t@.len() && ps_generations(t@.skip(i as int)) == Some(
                (v@.map_values(|x: Generation| x@), t@.skip(j as int)),
            ),
            None => ps_generations(t@.skip(i as int)) is None,
        },
{
    let tn = t.unicode_len();
    if i < tn {
        proof {
            assert(t@.skip(i as int)[0] == t@[i as int]);
            assert(t@.skip(i as int).drop_first() =~= t@.skip(i + 1));
        }
        if t.get_char(i) == ']' {
            let r: Vec<Generation> = Vec::new();
            proof {
                assert(r@.map_values(|x: Generation| x@) =~= Seq::<
                    GenerationRecord,
                >::empty());
            }
            return Some((r, i + 1));
        }
    } else {
        proof {
            assert(t@.skip(i as int).len() == 0);
            assert(ps_generation(t@.skip(i as int)) is None) by {
                reveal_strlit("{\"number\":");
            }
        }
        return None;
    }
    let (first, mut j) = match parse_generation(t, i) {
        Some(p) => p,
        None => {
            return None;
        },
    };
    let mut acc: Vec<Generation> = Vec::new();
    acc.push(first);
    loop
        invariant
            i <= t@.len(),
            i as int <= j as int <= t@.len(),
            tn == t@.len(),
            ps_generations(t@.skip(i as int)) == match ps_generations_tail(
                t@.skip(j as int),
            ) {
                Some((gs, rest)) => Some((acc@.map_values(|x: Generation| x@) + gs, rest)),
                None => None::<(Seq<GenerationRecord>, Seq<char>)>,
            },
        decreases t@.len() - j,
    {
        let ghost sj = t@.skip(j as int);
        if j >= tn {
            proof {
                assert(sj.len() == 0);
            }
            return None;
        }
        proof {
            assert(sj[0] == t@[j as int]);
            assert(sj.drop_first() =~= t@.skip(j + 1));
        }
        let c = t.get_char(j);
        if c == ']' {
            proof {
                assert(acc@.map_values(|x: Generation| x@) + Seq::<
                    GenerationRecord,
                >::empty() =~= acc@.map_values(|x: Generation| x@));
            }
            return Some((acc, j + 1));
        }
        if c != ',' {
            return None;
        }
        let (v, j2) = match parse_generation(t, j + 1) {
            Some(p) => p,
            None => {
                return None;
            },
        };
        let ghost prevmap = acc@.map_values(|x: Generation| x@);
        acc.push(v);
        proof {
            assert(acc@.map_values(|x: Generation| x@) =~= prevmap.push(v@));
            assert forall|gs: Seq<GenerationRecord>|
                true implies prevmap + (seq![v@] + gs) =~= prevmap.push(v@) + gs by {}
        }
        j = j2;
        proof {
            lemma_ps_generation_advances(t@.skip(j as int));
        }
    }
}

// ---------------------------------------------------------------------------
// Round-trip: parsing a serialized value yields the value back.
// ---------------------------------------------------------------------------
/// Parsing a literal it just wrote succeeds and leaves the suffix.
proof fn lemma_ps_lit_inv(lit: Seq<char>, rest: Seq<char>)
    ensures
        ps_lit(lit + rest, lit) == Some(rest),
{
    let s = lit + rest;
    assert(s.take(lit.len() as int) =~= lit);
    assert(s.skip(lit.len() as int) =~= rest);
}

/// Powers of ten.
spec fn pow10(k: nat) -> int
    decreases k,
{
    if k == 0 {
        1
    } else {
        10 * pow10((k - 1) as nat)
    }
}

/// The decimal representation consists of digit characters.
proof fn lemma_dec_rep_digits(n: int, i: int)
    requires
        n >= 0,
        0 <= i < dec_rep(n).len(),
    ensures
        is_digit(dec_rep(n)[i]),
    decreases n,
{
    if n < 10 {
    } else {
        if i < dec_rep(n / 10).len() {
            lemma_dec_rep_digits(n / 10, i);
            assert(dec_rep(n)[i] == dec_rep(n / 10)[i]);
        } else {
            assert(dec_rep(n)[i] == dec_digit(n % 10));
        }
    }
}

/// Parsing the digits of `n` folds `n` onto the accumulator.
proof fn lemma_ps_digits_dec(n: int, acc: int, rest: Seq<char>)
    requires
        n >= 0,
        acc >= 0,
    ensures
        ps_digits(dec_rep(n) + rest, acc) == ps_digits(
            rest,
            acc * pow10(dec_rep(n).len() as nat) + n,
        ),
    decreases n,
{
    let s = dec_rep(n) + rest;
    if n < 10 {
        assert(s[0] == dec_digit(n));
        assert(is_digit(dec_digit(n)));
        assert(digit_val(dec_digit(n)) == n);
        assert(s.drop_first() =~= rest);
        assert(pow10(0) == 1);
        assert(pow10(1) == 10);
        assert(ps_digits(s, acc) == ps_digits(rest, acc * 10 + n));
    } else {
        let d = dec_digit(n % 10);
        let k = dec_rep(n / 10).len();
        assert(dec_rep(n) =~= dec_rep(n / 10) + seq![d]);
        assert(s =~= dec_rep(n / 10) + (seq![d] + rest));
        lemma_ps_digits_dec(n / 10, acc, seq![d] + rest);
        let mid = acc * pow10(k as nat) + n / 10;
        lemma_pow10_pos(k as nat);
        assert(mid >= 0) by (nonlinear_arith)
            requires
                acc >= 0,
                n >= 10,
                pow10(k as nat) >= 1,
                mid == acc * pow10(k as nat) + n / 10,
        ;
        let srest = seq![d] + rest;
        assert(srest[0] == d);
        assert(is_digit(d));
        assert(digit_val(d) == n % 10);
        assert(srest.drop_first() =~= rest);
        assert(ps_digits(srest, mid) == ps_digits(rest, mid * 10 + n % 10));
        assert(mid * 10 + n % 10 == acc * pow10((k + 1) as nat) + n) by (nonlinear_arith)
            requires
                mid == acc * pow10(k as nat) + n / 10,
                pow10((k + 1) as nat) == 10 * pow10(k as nat),
                n >= 10,
        ;
        assert(pow10((k + 1) as nat) == 10 * pow10(k as nat));
        assert(dec_rep(n).len() == k + 1);
    }
}

proof fn lemma_pow10_pos(k: nat)
    ensures
        pow10(k) >= 1,
    decreases k,
{
    if k > 0 {
        lemma_pow10_pos((k - 1) as nat);
    }
}

/// Parsing the decimal representation of `n` yields `n` back.
proof fn lemma_ps_u64_inv(n: int, rest: Seq<char>)
    requires
        0 <= n <= u64::MAX,
        rest.len() == 0 || !is_digit(rest[0]),
    ensures
        ps_u64(dec_rep(n) + rest) == Some((n as u64, rest)),
{
    let s = dec_rep(n) + rest;
    lemma_dec_rep_digits(n, 0);
    assert(s[0] == dec_rep(n)[0]);
    lemma_ps_digits_dec(n, 0, rest);
    lemma_pow10_pos(dec_rep(n).len() as nat);
    assert(0 * pow10(dec_rep(n).len() as nat) + n == n) by (nonlinear_arith);
    if rest.len() > 0 {
        assert(ps_digits(rest, n) == (n, rest));
    } else {
        assert(rest.len() == 0);
        assert(ps_digits(rest, n) == (n, rest));
    }
}

/// Parsing an escaped, quoted string body yields the string back.
proof fn lemma_ps_string_body_inv(v: Seq<char>, rest: Seq<char>)
    ensures
        ps_string_body(escape(v) + seq!['"'] + rest) == Some((v, rest)),
    decreases v.len(),
{
    let s = escape(v) + seq!['"'] + rest;
    if v.len() == 0 {
        assert(s =~= seq!['"'] + rest);
        assert(s[0] == '"');
        assert(s.drop_first() =~= rest);
    } else {
        let c = v[0];
        let v1 = v.drop_first();
        assert(escape(v) == esc_char(c) + escape(v1));
        lemma_ps_string_body_inv(v1, rest);
        if c == '\\' || c == '"' {
            assert(s[0] == '\\');
            assert(s[1] == c);
            assert(s.len() >= 2);
            assert(s.skip(2) =~= escape(v1) + seq!['"'] + rest);
            assert(seq![c] + v1 =~= v);
        } else {
            assert(s[0] == c);
            assert(s.drop_first() =~= escape(v1) + seq!['"'] + rest);
            assert(seq![c] + v1 =~= v);
        }
    }
}

/// Parsing a quoted string literal yields the string back.
proof fn lemma_ps_quoted_inv(v: Seq<char>, rest: Seq<char>)
    ensures
        ps_quoted(quoted(v) + rest) == Some((v, rest)),
{
    let s = quoted(v) + rest;
    assert(s[0] == '"');
    assert(s.len() > 0);
    assert(s.drop_first() =~= escape(v) + seq!['"'] + rest);
    lemma_ps_string_body_inv(v, rest);
}

/// Parsing a serialized boolean yields it back.
proof fn lemma_ps_bool_inv(b: bool, rest: Seq<char>)
    ensures
        ps_bool(bool_rep(b) + rest) == Some((b, rest)),
{
    reveal_strlit("true");
    reveal_strlit("false");
    let s = bool_rep(b) + rest;
    if b {
        lemma_ps_lit_inv("true"@, rest);
    } else {
        assert(s[0] == 'f');
        if ps_lit(s, "true"@) is Some {
            assert(s.take(4)[0] == s[0]);
            assert(false);
        }
        lemma_ps_lit_inv("false"@, rest);
    }
}

/// Parsing a serialized backup-path field yields it back.
proof fn lemma_ps_backup_inv(bp: Option<Seq<char>>, rest: Seq<char>)
    ensures
        ps_backup(
            (match bp {
                Some(p) => quoted(p),
                None => "null"@,
            }) + rest,
        ) == Some((bp, rest)),
{
    reveal_strlit("null");
    match bp {
        None => {
            lemma_ps_lit_inv("null"@, rest);
        },
        Some(p) => {
            let s = quoted(p) + rest;
            assert(s[0] == '"');
            if ps_lit(s, "null"@) is Some {
                assert(s.take(4)[0] == s[0]);
                assert(false);
            }
            lemma_ps_quoted_inv(p, rest);
        },
    }
}

/// Parsing a serialized binding record yields it back.
#[verifier::rlimit(100)]
proof fn lemma_ps_symlink_inv(v: SymlinkRecord, rest: Seq<char>)
    ensures
        ps_symlink(ser_symlink(v) + rest) == Some((v, rest)),
{
    let bser = match v.backup_path {
        Some(p) => quoted(p),
        None => "null"@,
    };
    let t7 = rest;
    let t6 = "}"@ + t7;
    let t5 = bser + t6;
    let t4 = ",\"backup_path\":"@ + t5;
    let t3 = quoted(v.target) + t4;
    let t2 = ",\"target\":"@ + t3;
    let t1 = quoted(v.source) + t2;
    let s = ser_symlink(v) + rest;
    assert(s =~= "{\"source\":"@ + t1);
    lemma_ps_lit_inv("{\"source\":"@, t1);
    lemma_ps_quoted_inv(v.source, t2);
    lemma_ps_lit_inv(",\"target\":"@, t3);
    lemma_ps_quoted_inv(v.target, t4);
    lemma_ps_lit_inv(",\"backup_path\":"@, t5);
    lemma_ps_backup_inv(v.backup_path, t6);
    lemma_ps_lit_inv("}"@, t7);
    assert(ps_symlink(s) == Some(
        (
            SymlinkRecord {
                source: v.source,
                target: v.target,
                backup_path: v.backup_path,
            },
            rest,
        ),
    ));
    assert(SymlinkRecord {
        source: v.source,
        target: v.target,
        backup_path: v.backup_path,
    } == v);
}

/// Parsing the serialized rest of a binding list yields the members back.
proof fn lemma_ps_symlinks_tail_inv(vs: Seq<SymlinkRecord>, rest: Seq<char>)
    ensures
        ps_symlinks_tail(ser_symlinks_tail(vs) + seq![']'] + rest) == Some((vs, rest)),
    decreases vs.len(),
{
    let s = ser_symlinks_tail(vs) + seq![']'] + rest;
    if vs.len() == 0 {
        assert(s =~= seq![']'] + rest);
        assert(s[0] == ']');
        assert(s.drop_first() =~= rest);
        assert(ps_symlinks_tail(s) == Some((Seq::<SymlinkRecord>::empty(), rest)));
    } else {
        reveal_strlit("{\"source\":");
        assert(s[0] == ',');
        assert(s.drop_first() =~= ser_symlink(vs[0]) + (ser_symlinks_tail(vs.drop_first())
            + seq![']'] + rest));
        lemma_ps_symlink_inv(vs[0], ser_symlinks_tail(vs.drop_first()) + seq![']'] + rest);
        lemma_ps_symlinks_tail_inv(vs.drop_first(), rest);
        assert(seq![vs[0]] + vs.drop_first() =~= vs);
    }
}

/// Parsing a serialized binding list yields the members back.
proof fn lemma_ps_symlinks_inv(vs: Seq<SymlinkRecord>, rest: Seq<char>)
    ensures
        ps_symlinks(ser_symlinks(vs) + seq![']'] + rest) == Some((vs, rest)),
{
    let s = ser_symlinks(vs) + seq![']'] + rest;
    if vs.len() == 0 {
        assert(s =~= seq![']'] + rest);
        assert(s[0] == ']');
        assert(s.drop_first() =~= rest);
    } else {
        reveal_strlit("{\"source\":");
        assert(ser_symlink(vs[0])[0] == '{');
        assert(s[0] == '{');
        assert(s =~= ser_symlink(vs[0]) + (ser_symlinks_tail(vs.drop_first()) + seq![']']
            + rest));
        lemma_ps_symlink_inv(vs[0], ser_symlinks_tail(vs.drop_first()) + seq![']'] + rest);
        lemma_ps_symlinks_tail_inv(vs.drop_first(), rest);
        assert(seq![vs[0]] + vs.drop_first() =~= vs);
    }
}

/// Parsing a serialized generation yields it back.
#[verifier::rlimit(100)]
proof fn lemma_ps_generation_inv(g: GenerationRecord, rest: Seq<char>)
    ensures
        ps_generation(ser_generation(g) + rest) == Some((g, rest)),
{
    let t11 = rest;
    let t10 = "}"@ + t11;
    let t9 = bool_rep(g.active) + t10;
    let t8 = ",\"active\":"@ + t9;
    let t7 = ser_symlinks(g.symlinks) + seq![']'] + t8;
    let t6 = ",\"symlinks\":["@ + t7;
    let t5 = quoted(g.config_path) + t6;
    let t4 = ",\"config_path\":"@ + t5;
    let t3 = dec_rep(g.created_at as int) + t4;
    let t2 = ",\"created_at\":"@ + t3;
    let t1 = dec_rep(g.number as int) + t2;
    let s = ser_generation(g) + rest;
    reveal_strlit("],\"active\":");
    reveal_strlit(",\"active\":");
    assert("],\"active\":"@ =~= seq![']'] + ",\"active\":"@);
    assert(s =~= "{\"number\":"@ + t1);
    lemma_ps_lit_inv("{\"number\":"@, t1);
    reveal_strlit(",\"created_at\":");
    assert(t2[0] == ',');
    assert(!is_digit(','));
    lemma_ps_u64_inv(g.number as int, t2);
    lemma_ps_lit_inv(",\"created_at\":"@, t3);
    reveal_strlit(",\"config_path\":");
    assert(t4[0] == ',');
    lemma_ps_u64_inv(g.created_at as int, t4);
    lemma_ps_lit_inv(",\"config_path\":"@, t5);
    lemma_ps_quoted_inv(g.config_path, t6);
    lemma_ps_lit_inv(",\"symlinks\":["@, t7);
    lemma_ps_symlinks_inv(g.symlinks, t8);
    lemma_ps_lit_inv(",\"active\":"@, t9);
    lemma_ps_bool_inv(g.active, t10);
    lemma_ps_lit_inv("}"@, t11);
    assert(GenerationRecord {
        number: g.number,
        created_at: g.created_at,
        config_path: g.config_path,
        symlinks: g.symlinks,
        active: g.active,
    } == g);
}

/// Parsing the serialized rest of a generation list yields the members back.
proof fn lemma_ps_generations_tail_inv(gs: Seq<GenerationRecord>, rest: Seq<char>)
    ensures
        ps_generations_tail(ser_generations_tail(gs) + seq![']'] + rest) == Some((gs, rest)),
    decreases gs.len(),
{
    let s = ser_generations_tail(gs) + seq![']'] + rest;
    if gs.len() == 0 {
        assert(s =~= seq![']'] + rest);
        assert(s[0] == ']');
        assert(s.drop_first() =~= rest);
        assert(ps_generations_tail(s) == Some((Seq::<GenerationRecord>::empty(), rest)));
    } else {
        reveal_strlit("{\"number\":");
        assert(s[0] == ',');
        assert(s.drop_first() =~= ser_generation(gs[0]) + (ser_generations_tail(
            gs.drop_first(),
        ) + seq![']'] + rest));
        lemma_ps_generation_inv(
            gs[0],
            ser_generations_tail(gs.drop_first()) + seq![']'] + rest,
        );
        lemma_ps_generations_tail_inv(gs.drop_first(), rest);
        assert(seq![gs[0]] + gs.drop_first() =~= gs);
    }
}

/// Parsing a serialized generation list yields the members back.
#[verifier::rlimit(100)]
proof fn lemma_ps_generations_inv(gs: Seq<GenerationRecord>, rest: Seq<char>)
    ensures
        ps_generations(ser_generations(gs) + seq![']'] + rest) == Some((gs, rest)),
{
    let s = ser_generations(gs) + seq![']'] + rest;
    if gs.len() == 0 {
        assert(s =~= seq![']'] + rest);
        assert(s[0] == ']');
        assert(s.drop_first() =~= rest);
    } else {
        reveal_strlit("{\"number\":");
        assert(ser_generation(gs[0])[0] == '{');
        assert(s[0] == '{');
        assert(s =~= ser_generation(gs[0]) + (ser_generations_tail(gs.drop_first()) + seq![
            ']',
        ] + rest));
        lemma_ps_generation_inv(
            gs[0],
            ser_generations_tail(gs.drop_first()) + seq![']'] + rest,
        );
        lemma_ps_generations_tail_inv(gs.drop_first(), rest);
        assert(seq![gs[0]] + gs.drop_first() =~= gs);
    }
}

/// Round trip of the store document: serializing any generation sequence and
/// parsing the result yields the identical sequence.
pub proof fn lemma_document_roundtrip(gs: Seq<GenerationRecord>)
    ensures
        ps_document(ser_document(gs)) == Some(gs),
{
    let s = ser_document(gs);
    reveal_strlit("[");
    assert("["@ =~= seq!['[']);
    assert(s =~= "["@ + (ser_generations(gs) + seq![']'] + Seq::<char>::empty()));
    lemma_ps_lit_inv("["@, ser_generations(gs) + seq![']'] + Seq::<char>::empty());
    lemma_ps_generations_inv(gs, Seq::<char>::empty());
}

/// Parses a store document.  Returns the generation sequence it holds, or
/// `None` when the text is not a canonical store document.
pub fn parse_store_document(text: &str) -> (r: Option<Vec<Generation>>)
    ensures
        match r {
            Some(v) => ps_document(text@) == Some(v@.map_values(|x: Generation| x@)),
            None => ps_document(text@) is None,
        },
{
    proof {
        assert(text@.skip(0) =~= text@);
    }
    let j1 = match expect_lit(text, 0, "[") {
        Some(j) => j,
        None => {
            return None;
        },
    };
    let (gens, j2) = match parse_generations(text, j1) {
        Some(p) => p,
        None => {
            return None;
        },
    };
    let tn = text.unicode_len();
    if j2 != tn {
        return None;
    }
    Some(gens)
}

} // verus!
