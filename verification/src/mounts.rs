//! Reading the live mount table.
//!
//! The kernel's mount table (one mount per line, fields separated by
//! blanks, the mount source first and the mount point second) is the sole
//! authority for whether a directory binding is in place.  The caller hands
//! the table's text in; everything here is pure: [`mount_entries`] says
//! which (source, mount point) pairs a text holds, and the two queries are
//! proved against it.

use vstd::prelude::*;
use vstd::string::StrSliceExecFns;
use vstd::string::StringExecFns;

verus! {

/// Whether `c` separates fields within a mount table line.
pub open spec fn is_space(c: char) -> bool {
    c == ' ' || c == '\t'
}

/// The first index of a field separator.
pub open spec fn first_space(s: Seq<char>) -> Option<int>
    decreases s.len(),
{
    if s.len() == 0 {
        None
    } else if is_space(s[0]) {
        Some(0)
    } else {
        match first_space(s.drop_first()) {
            Some(i) => Some(i + 1),
            None => None,
        }
    }
}

/// The first index of a line break.
pub open spec fn first_newline(s: Seq<char>) -> Option<int>
    decreases s.len(),
{
    if s.len() == 0 {
        None
    } else if s[0] == '\n' {
        Some(0)
    } else {
        match first_newline(s.drop_first()) {
            Some(i) => Some(i + 1),
            None => None,
        }
    }
}

proof fn lemma_first_space_bounds(s: Seq<char>)
    ensures
        first_space(s) matches Some(i) ==> 0 <= i < s.len() && is_space(s[i]),
    decreases s.len(),
{
    if s.len() > 0 && !is_space(s[0]) {
        lemma_first_space_bounds(s.drop_first());
    }
}

proof fn lemma_first_newline_bounds(s: Seq<char>)
    ensures
        first_newline(s) matches Some(i) ==> 0 <= i < s.len() && s[i] == '\n',
    decreases s.len(),
{
    if s.len() > 0 && s[0] != '\n' {
        lemma_first_newline_bounds(s.drop_first());
    }
}

/// Where the first field of `s` ends.
pub open spec fn token_end(s: Seq<char>) -> int {
    match first_space(s) {
        Some(i) => i,
        None => s.len() as int,
    }
}

proof fn lemma_token_end_bounds(s: Seq<char>)
    requires
        s.len() > 0,
        !is_space(s[0]),
    ensures
        1 <= token_end(s) <= s.len(),
{
    lemma_first_space_bounds(s);
}

/// The blank-separated fields of a line.
pub open spec fn split_fields(s: Seq<char>) -> Seq<Seq<char>>
    decreases s.len(),
    via split_fields_dec
{
    if s.len() == 0 {
        Seq::empty()
    } else if is_space(s[0]) {
        split_fields(s.drop_first())
    } else {
        seq![s.take(token_end(s))] + split_fields(s.skip(token_end(s)))
    }
}

#[via_fn]
proof fn split_fields_dec(s: Seq<char>) {
    if s.len() > 0 && !is_space(s[0]) {
        lemma_token_end_bounds(s);
    }
}

/// The (source, mount point) pairs of a mount table text: each line's first
/// two fields; lines with fewer fields are ignored.
pub open spec fn mount_entries(t: Seq<char>) -> Seq<(Seq<char>, Seq<char>)>
    decreases t.len(),
    via mount_entries_dec
{
    if t.len() == 0 {
        Seq::empty()
    } else {
        let line = match first_newline(t) {
            Some(i) => t.take(i),
            None => t,
        };
        let rest = match first_newline(t) {
            Some(i) => t.skip(i + 1),
            None => Seq::empty(),
        };
        let f = split_fields(line);
        (if f.len() >= 2 {
            seq![(f[0], f[1])]
        } else {
            Seq::empty()
        }) + mount_entries(rest)
    }
}

#[via_fn]
proof fn mount_entries_dec(t: Seq<char>) {
    lemma_first_newline_bounds(t);
}

/// Whether some entry's mount point is `path`.
pub open spec fn table_has_target(t: Seq<char>, path: Seq<char>) -> bool {
    exists|k: int| 0 <= k < mount_entries(t).len() && mount_entries(t)[k].1 == path
}

/// Whether the table holds the exact (source, mount point) pair.
pub open spec fn table_has_pair(t: Seq<char>, source: Seq<char>, target: Seq<char>) -> bool {
    exists|k: int|
        0 <= k < mount_entries(t).len() && mount_entries(t)[k].0 == source && mount_entries(
            t,
        )[k].1 == target
}

/// Whether two strings hold the same characters.
pub fn str_eq(a: &str, b: &str) -> (r: bool)
    ensures
        r == (a@ == b@),
{
    let an = a.unicode_len();
    let bn = b.unicode_len();
    if an != bn {
        return false;
    }
    let mut i: usize = 0;
    while i < an
        invariant
            an == a@.len(),
            bn == b@.len(),
            an == bn,
            0 <= i <= an,
            a@.take(i as int) == b@.take(i as int),
        decreases an - i,
    {
        if a.get_char(i) != b.get_char(i) {
            proof {
                assert(a@[i as int] != b@[i as int]);
            }
            return false;
        }
        proof {
            assert(a@.take(i + 1) =~= a@.take(i as int).push(a@[i as int]));
            assert(b@.take(i + 1) =~= b@.take(i as int).push(b@[i as int]));
        }
        i += 1;
    }
    proof {
        assert(a@.take(an as int) =~= a@);
        assert(b@.take(bn as int) =~= b@);
    }
    true
}

/// Whether `c` is a field separator.
fn is_space_ch(c: char) -> (r: bool)
    ensures
        r == is_space(c),
{
    c == ' ' || c == '\t'
}

/// The position right after the blanks starting at `j`.
fn skip_spaces(line: &str, j: usize) -> (r: usize)
    requires
        j <= line@.len(),
    ensures
        j <= r <= line@.len(),
        split_fields(line@.skip(j as int)) == split_fields(line@.skip(r as int)),
        r == line@.len() || !is_space(line@[r as int]),
{
    let n = line.unicode_len();
    let mut k: usize = j;
    while k < n
        invariant
            n == line@.len(),
            j <= k <= n,
            split_fields(line@.skip(j as int)) == split_fields(line@.skip(k as int)),
        decreases n - k,
    {
        proof {
            assert(line@.skip(k as int)[0] == line@[k as int]);
            assert(line@.skip(k as int).drop_first() =~= line@.skip(k + 1));
        }
        if !is_space_ch(line.get_char(k)) {
            return k;
        }
        k += 1;
    }
    proof {
        assert(line@.skip(n as int).len() == 0);
    }
    k
}

/// The end of the field starting at `j`.
fn scan_token(line: &str, j: usize) -> (r: usize)
    requires
        j < line@.len(),
        !is_space(line@[j as int]),
    ensures
        j < r <= line@.len(),
        r - j == token_end(line@.skip(j as int)),
        split_fields(line@.skip(j as int)) == seq![line@.subrange(j as int, r as int)]
            + split_fields(line@.skip(r as int)),
{
    let ghost s0 = line@.skip(j as int);
    let n = line.unicode_len();
    let mut k: usize = j;
    proof {
        assert(s0.skip(0) =~= s0);
    }
    while k < n
        invariant
            n == line@.len(),
            j <= k <= n,
            j < line@.len(),
            !is_space(line@[j as int]),
            s0 == line@.skip(j as int),
            first_space(s0) == match first_space(line@.skip(k as int)) {
                Some(i) => Some(i + (k - j)),
                None => None::<int>,
            },
        decreases n - k,
    {
        proof {
            assert(line@.skip(k as int)[0] == line@[k as int]);
            assert(line@.skip(k as int).drop_first() =~= line@.skip(k + 1));
        }
        if is_space_ch(line.get_char(k)) {
            proof {
                assert(first_space(line@.skip(k as int)) == Some(0int));
                assert(token_end(s0) == k - j);
                assert(s0[0] == line@[j as int]);
                lemma_token_end_bounds(s0);
                assert(s0.take(k - j) =~= line@.subrange(j as int, k as int));
                assert(s0.skip(k - j) =~= line@.skip(k as int));
                assert(split_fields(s0) == seq![s0.take(token_end(s0))] + split_fields(
                    s0.skip(token_end(s0)),
                ));
            }
            return k;
        }
        k += 1;
    }
    proof {
        assert(line@.skip(n as int).len() == 0);
        assert(first_space(line@.skip(n as int)) is None);
        assert(token_end(s0) == n - j);
        assert(s0[0] == line@[j as int]);
        lemma_token_end_bounds(s0);
        assert(s0.take(n - j) =~= line@.subrange(j as int, n as int));
        assert(s0.skip(n - j) =~= line@.skip(n as int));
        assert(split_fields(s0) == seq![s0.take(token_end(s0))] + split_fields(
            s0.skip(token_end(s0)),
        ));
    }
    n
}

/// The first two fields of a line, when it has at least two.
fn first_two_fields(line: &str) -> (r: Option<(String, String)>)
    ensures
        match r {
            Some((a, b)) => {
                &&& split_fields(line@).len() >= 2
                &&& a@ == split_fields(line@)[0]
                &&& b@ == split_fields(line@)[1]
            },
            None => split_fields(line@).len() < 2,
        },
{
    proof {
        assert(line@.skip(0) =~= line@);
    }
    let n = line.unicode_len();
    let j0 = skip_spaces(line, 0);
    if j0 >= n {
        proof {
            assert(line@.skip(n as int).len() == 0);
        }
        return None;
    }
    let j1 = scan_token(line, j0);
    let a = String::from_str(line.substring_char(j0, j1));
    let j2 = skip_spaces(line, j1);
    if j2 >= n {
        proof {
            assert(line@.skip(n as int).len() == 0);
            assert(split_fields(line@.skip(n as int)) =~= Seq::<Seq<char>>::empty());
            assert(split_fields(line@).len() == 1);
        }
        return None;
    }
    let j3 = scan_token(line, j2);
    let b = String::from_str(line.substring_char(j2, j3));
    proof {
        assert(split_fields(line@) == seq![line@.subrange(j0 as int, j1 as int)] + (seq![
            line@.subrange(j2 as int, j3 as int),
        ] + split_fields(line@.skip(j3 as int))));
        assert(split_fields(line@)[0] == line@.subrange(j0 as int, j1 as int));
        assert(split_fields(line@)[1] == line@.subrange(j2 as int, j3 as int));
    }
    Some((a, b))
}

/// One step of the line decomposition of `mount_entries`.
proof fn lemma_mount_entries_step(t: Seq<char>, p: int)
    requires
        0 <= p < t.len(),
    ensures
        ({
            let s = t.skip(p);
            let line = match first_newline(s) {
                Some(i) => s.take(i),
                None => s,
            };
            let rest = match first_newline(s) {
                Some(i) => s.skip(i + 1),
                None => Seq::<char>::empty(),
            };
            let f = split_fields(line);
            mount_entries(s) == (if f.len() >= 2 {
                seq![(f[0], f[1])]
            } else {
                Seq::<(Seq<char>, Seq<char>)>::empty()
            }) + mount_entries(rest)
        }),
{
    assert(t.skip(p).len() > 0);
}

/// Whether `path` is a mount point of the table: some line's second field
/// equals it.
pub fn is_mount_point_in(table: &str, path: &str) -> (r: bool)
    ensures
        r == table_has_target(table@, path@),
{
    let n = table.unicode_len();
    let mut p: usize = 0;
    let ghost mut processed: Seq<(Seq<char>, Seq<char>)> = Seq::empty();
    proof {
        assert(table@.skip(0) =~= table@);
        assert(processed + mount_entries(table@) =~= mount_entries(table@));
    }
    while p < n
        invariant
            n == table@.len(),
            0 <= p <= n,
            mount_entries(table@) == processed + mount_entries(table@.skip(p as int)),
            forall|k: int| 0 <= k < processed.len() ==> processed[k].1 != path@,
        decreases n - p,
    {
        let ghost s = table@.skip(p as int);
        let nl = find_newline(table, p);
        let line_end = match nl {
            Some(e) => e,
            None => n,
        };
        let line = table.substring_char(p, line_end);
        proof {
            lemma_mount_entries_step(table@, p as int);
            match first_newline(s) {
                Some(i) => {
                    assert(s.take(i) =~= table@.subrange(p as int, p + i));
                    assert(s.skip(i + 1) =~= table@.skip(p + i + 1));
                },
                None => {
                    assert(s =~= table@.subrange(p as int, n as int));
                },
            }
        }
        let matched = match first_two_fields(line) {
            Some((_a, b)) => str_eq(b.as_str(), path),
            None => false,
        };
        if matched {
            proof {
                let f = split_fields(line@);
                let idx = processed.len() as int;
                assert(mount_entries(table@)[idx].1 == path@);
            }
            return true;
        }
        proof {
            let f = split_fields(line@);
            if f.len() >= 2 {
                processed = processed + seq![(f[0], f[1])];
            }
            match first_newline(s) {
                Some(i) => {
                    assert(mount_entries(table@) == processed + mount_entries(
                        table@.skip(p + i + 1),
                    ));
                },
                None => {
                    assert(mount_entries(Seq::<char>::empty()) =~= Seq::<
                        (Seq<char>, Seq<char>),
                    >::empty());
                    assert(mount_entries(table@) == processed + mount_entries(
                        table@.skip(n as int),
                    ));
                },
            }
        }
        p = match nl {
            Some(e) => e + 1,
            None => n,
        };
    }
    proof {
        assert(table@.skip(n as int).len() == 0);
        assert(mount_entries(table@.skip(n as int)) =~= Seq::<(Seq<char>, Seq<char>)>::empty());
        assert(mount_entries(table@) =~= processed);
    }
    false
}

/// Whether the table holds the exact (source, mount point) pair.
pub fn mount_pair_in(table: &str, source: &str, target: &str) -> (r: bool)
    ensures
        r == table_has_pair(table@, source@, target@),
{
    let n = table.unicode_len();
    let mut p: usize = 0;
    let ghost mut processed: Seq<(Seq<char>, Seq<char>)> = Seq::empty();
    proof {
        assert(table@.skip(0) =~= table@);
        assert(processed + mount_entries(table@) =~= mount_entries(table@));
    }
    while p < n
        invariant
            n == table@.len(),
            0 <= p <= n,
            mount_entries(table@) == processed + mount_entries(table@.skip(p as int)),
            forall|k: int|
                0 <= k < processed.len() ==> !(processed[k].0 == source@ && processed[k].1
                    == target@),
        decreases n - p,
    {
        let ghost s = table@.skip(p as int);
        let nl = find_newline(table, p);
        let line_end = match nl {
            Some(e) => e,
            None => n,
        };
        let line = table.substring_char(p, line_end);
        proof {
            lemma_mount_entries_step(table@, p as int);
            match first_newline(s) {
                Some(i) => {
                    assert(s.take(i) =~= table@.subrange(p as int, p + i));
                    assert(s.skip(i + 1) =~= table@.skip(p + i + 1));
                },
                None => {
                    assert(s =~= table@.subrange(p as int, n as int));
                },
            }
        }
        let matched = match first_two_fields(line) {
            Some((a, b)) => str_eq(a.as_str(), source) && str_eq(b.as_str(), target),
            None => false,
        };
        if matched {
            proof {
                let idx = processed.len() as int;
                assert(mount_entries(table@)[idx].0 == source@ && mount_entries(
                    table@,
                )[idx].1 == target@);
            }
            return true;
        }
        proof {
            let f = split_fields(line@);
            if f.len() >= 2 {
                processed = processed + seq![(f[0], f[1])];
            }
            match first_newline(s) {
                Some(i) => {
                    assert(mount_entries(table@) == processed + mount_entries(
                        table@.skip(p + i + 1),
                    ));
                },
                None => {
                    assert(mount_entries(Seq::<char>::empty()) =~= Seq::<
                        (Seq<char>, Seq<char>),
                    >::empty());
                    assert(mount_entries(table@) == processed + mount_entries(
                        table@.skip(n as int),
                    ));
                },
            }
        }
        p = match nl {
            Some(e) => e + 1,
            None => n,
        };
    }
    proof {
        assert(table@.skip(n as int).len() == 0);
        assert(mount_entries(table@.skip(n as int)) =~= Seq::<(Seq<char>, Seq<char>)>::empty());
        assert(mount_entries(table@) =~= processed);
    }
    false
}

/// The first line break at or after `p`.
fn find_newline(t: &str, p: usize) -> (r: Option<usize>)
    requires
        p <= t@.len(),
    ensures
        match r {
            Some(e) => {
                &&& p <= e < t@.len()
                &&& first_newline(t@.skip(p as int)) == Some(e - p)
            },
            None => first_newline(t@.skip(p as int)) is None,
        },
{
    let ghost s0 = t@.skip(p as int);
    let n = t.unicode_len();
    let mut k: usize = p;
    proof {
        assert(s0.skip(0) =~= s0);
    }
    while k < n
        invariant
            n == t@.len(),
            p <= k <= n,
            s0 == t@.skip(p as int),
            first_newline(s0) == match first_newline(t@.skip(k as int)) {
                Some(i) => Some(i + (k - p)),
                None => None::<int>,
            },
        decreases n - k,
    {
        proof {
            assert(t@.skip(k as int)[0] == t@[k as int]);
            assert(t@.skip(k as int).drop_first() =~= t@.skip(k + 1));
        }
        if t.get_char(k) == '\n' {
            return Some(k);
        }
        k += 1;
    }
    proof {
        assert(t@.skip(n as int).len() == 0);
    }
    None
}

} // verus!
