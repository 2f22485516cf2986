//! The link engine's decisions.
//!
//! The engine materializes binding specifications as symbolic links and
//! bind mounts, removes recorded bindings, and verifies them against live
//! state.  Everything the engine *decides* — how a pre-existing target is
//! resolved, what a backup is named, which privilege and emptiness checks
//! gate a mount, what `remove` must undo, and which diagnostics `verify`
//! reports — is computed and verified here, over observations of the live
//! filesystem supplied by the caller; the caller performs the planned
//! actions in order.

use vstd::prelude::*;
use vstd::string::StrSliceExecFns;
use vstd::string::StringExecFns;

use crate::codec::dec_rep;
use crate::codec::u64_to_string;
use crate::config::opt_view;
use crate::config::Symlink;
use crate::mounts::table_has_pair;
use crate::mounts::table_has_target;
use crate::store::GenerationSymlink;
use crate::store::SymlinkRecord;

verus! {

// ---------------------------------------------------------------------------
// Path arithmetic.
// ---------------------------------------------------------------------------
/// The position right after the last path separator, or 0.
pub open spec fn last_slash_end(t: Seq<char>) -> int
    decreases t.len(),
{
    if t.len() == 0 {
        0
    } else if t.last() == '/' {
        t.len() as int
    } else {
        last_slash_end(t.drop_last())
    }
}

/// The last `.` strictly inside the file name (not as its first character),
/// if any.
pub open spec fn last_dot_after(t: Seq<char>, lo: int) -> Option<int>
    decreases t.len(),
{
    if t.len() == 0 {
        None
    } else if t.len() - 1 > lo && t.last() == '.' {
        Some(t.len() - 1)
    } else {
        last_dot_after(t.drop_last(), lo)
    }
}

/// The path without its extension: everything up to the last `.` of the
/// file name, the whole path when the file name has no extension.
pub open spec fn stem_of(t: Seq<char>) -> Seq<char> {
    match last_dot_after(t, last_slash_end(t)) {
        Some(k) => t.take(k),
        None => t,
    }
}

/// Where a pre-existing target is preserved: the target with its extension
/// replaced by `backup.` and the timestamp.
pub open spec fn backup_name(target: Seq<char>, stamp: Seq<char>) -> Seq<char> {
    stem_of(target) + ".backup."@ + stamp
}

/// The directory holding `t`: everything before the last separator (the
/// root when `t` sits directly under it), nothing when `t` has no
/// separator.
pub open spec fn parent_dir(t: Seq<char>) -> Option<Seq<char>> {
    let e = last_slash_end(t);
    if e == 0 {
        None
    } else if e == 1 {
        Some(t.take(1))
    } else {
        Some(t.take(e - 1))
    }
}

proof fn lemma_last_slash_end_bounds(t: Seq<char>)
    ensures
        0 <= last_slash_end(t) <= t.len(),
    decreases t.len(),
{
    if t.len() > 0 && t.last() != '/' {
        lemma_last_slash_end_bounds(t.drop_last());
    }
}

proof fn lemma_last_dot_after_bounds(t: Seq<char>, lo: int)
    ensures
        last_dot_after(t, lo) matches Some(k) ==> 0 <= k < t.len() && k > lo,
    decreases t.len(),
{
    if t.len() > 0 && !(t.len() - 1 > lo && t.last() == '.') {
        lemma_last_dot_after_bounds(t.drop_last(), lo);
    }
}

/// The position right after the last separator of `t`.
fn find_last_slash_end(t: &str) -> (r: usize)
    ensures
        r as int == last_slash_end(t@),
{
    let n = t.unicode_len();
    let mut k: usize = n;
    proof {
        assert(t@.take(n as int) =~= t@);
    }
    while k > 0
        invariant
            n == t@.len(),
            0 <= k <= n,
            last_slash_end(t@) == last_slash_end(t@.take(k as int)),
        decreases k,
    {
        proof {
            assert(t@.take(k as int).last() == t@[k - 1]);
            assert(t@.take(k as int).drop_last() =~= t@.take(k - 1));
        }
        if t.get_char(k - 1) == '/' {
            return k;
        }
        k -= 1;
    }
    proof {
        assert(t@.take(0).len() == 0);
    }
    0
}

/// The last qualifying `.` of `t` past position `lo`, if any.
fn find_last_dot_after(t: &str, lo: usize) -> (r: Option<usize>)
    ensures
        match r {
            Some(k) => last_dot_after(t@, lo as int) == Some(k as int) && lo < k < t@.len(),
            None => last_dot_after(t@, lo as int) is None,
        },
{
    let n = t.unicode_len();
    let mut k: usize = n;
    proof {
        assert(t@.take(n as int) =~= t@);
    }
    while k > 0
        invariant
            n == t@.len(),
            0 <= k <= n,
            last_dot_after(t@, lo as int) == last_dot_after(t@.take(k as int), lo as int),
        decreases k,
    {
        proof {
            assert(t@.take(k as int).last() == t@[k - 1]);
            assert(t@.take(k as int).drop_last() =~= t@.take(k - 1));
        }
        if k - 1 > lo && t.get_char(k - 1) == '.' {
            return Some(k - 1);
        }
        k -= 1;
    }
    proof {
        assert(t@.take(0).len() == 0);
    }
    None
}

/// The backup path for `target` under the given timestamp.
pub fn backup_path_for(target: &str, stamp: &str) -> (r: String)
    ensures
        r@ == backup_name(target@, stamp@),
{
    let e = find_last_slash_end(target);
    proof {
        lemma_last_slash_end_bounds(target@);
    }
    let n = target.unicode_len();
    let stem_end = match find_last_dot_after(target, e) {
        Some(k) => k,
        None => n,
    };
    let mut r = String::from_str(target.substring_char(0, stem_end));
    proof {
        assert(target@.subrange(0, stem_end as int) =~= target@.take(stem_end as int));
        if last_dot_after(target@, e as int) is None {
            assert(target@.take(n as int) =~= target@);
        }
    }
    r.append(".backup.");
    r.append(stamp);
    proof {
        assert(r@ =~= backup_name(target@, stamp@));
    }
    r
}

/// The directory holding `target`, when it has one.
pub fn parent_of(target: &str) -> (r: Option<String>)
    ensures
        match r {
            Some(p) => parent_dir(target@) == Some(p@),
            None => parent_dir(target@) is None,
        },
{
    let e = find_last_slash_end(target);
    proof {
        lemma_last_slash_end_bounds(target@);
    }
    if e == 0 {
        None
    } else if e == 1 {
        let p = String::from_str(target.substring_char(0, 1));
        proof {
            assert(target@.subrange(0, 1) =~= target@.take(1));
        }
        Some(p)
    } else {
        let p = String::from_str(target.substring_char(0, e - 1));
        proof {
            assert(target@.subrange(0, e - 1) =~= target@.take(e - 1));
        }
        Some(p)
    }
}

// ---------------------------------------------------------------------------
// Mode strings.
// ---------------------------------------------------------------------------
/// `s` without its leading `0o` markers.
pub open spec fn strip_octal_marker(s: Seq<char>) -> Seq<char>
    decreases s.len(),
{
    if s.len() >= 2 && s[0] == '0' && s[1] == 'o' {
        strip_octal_marker(s.skip(2))
    } else {
        s
    }
}

/// `s` without its leading zeros.
pub open spec fn strip_zeros(s: Seq<char>) -> Seq<char>
    decreases s.len(),
{
    if s.len() >= 1 && s[0] == '0' {
        strip_zeros(s.drop_first())
    } else {
        s
    }
}

/// A mode string as the octal parser sees it.
pub open spec fn stripped_mode(s: Seq<char>) -> Seq<char> {
    strip_zeros(strip_octal_marker(s))
}

/// Whether `c` is an octal digit.
pub open spec fn is_octal_digit(c: char) -> bool {
    c == '0' || c == '1' || c == '2' || c == '3' || c == '4' || c == '5' || c == '6' || c
        == '7'
}

/// The value of an octal digit character.
pub open spec fn octal_digit_val(c: char) -> int {
    if c == '0' {
        0
    } else if c == '1' {
        1
    } else if c == '2' {
        2
    } else if c == '3' {
        3
    } else if c == '4' {
        4
    } else if c == '5' {
        5
    } else if c == '6' {
        6
    } else {
        7
    }
}

/// Whether every character of `s` is an octal digit.
pub open spec fn all_octal(s: Seq<char>) -> bool {
    forall|i: int| 0 <= i < s.len() ==> is_octal_digit(s[i])
}

/// The value of an octal digit string.
pub open spec fn octal_value(s: Seq<char>) -> int
    decreases s.len(),
{
    if s.len() == 0 {
        0
    } else {
        octal_value(s.drop_last()) * 8 + octal_digit_val(s.last())
    }
}

/// Whether a mode string is valid: after stripping, a non-empty octal
/// numeral whose value fits a `u32`.
pub open spec fn mode_ok(s: Seq<char>) -> bool {
    &&& stripped_mode(s).len() > 0
    &&& all_octal(stripped_mode(s))
    &&& octal_value(stripped_mode(s)) <= u32::MAX
}

proof fn lemma_octal_value_nonneg(s: Seq<char>)
    requires
        all_octal(s),
    ensures
        octal_value(s) >= 0,
    decreases s.len(),
{
    if s.len() > 0 {
        assert(forall|i: int| 0 <= i < s.len() - 1 ==> s.drop_last()[i] == s[i]);
        lemma_octal_value_nonneg(s.drop_last());
    }
}

/// A prefix of an octal numeral never exceeds the whole numeral's value.
proof fn lemma_octal_prefix_le(s: Seq<char>, i: int)
    requires
        all_octal(s),
        0 <= i <= s.len(),
    ensures
        octal_value(s.take(i)) <= octal_value(s),
    decreases s.len() - i,
{
    if i == s.len() {
        assert(s.take(i) =~= s);
    } else {
        lemma_octal_prefix_le(s, i + 1);
        assert(s.take(i + 1).drop_last() =~= s.take(i));
        assert(s.take(i + 1).last() == s[i]);
        assert(forall|j: int| 0 <= j < i ==> s.take(i)[j] == s[j]);
        lemma_octal_value_nonneg_take(s, i);
    }
}

proof fn lemma_octal_value_nonneg_take(s: Seq<char>, i: int)
    requires
        all_octal(s),
        0 <= i <= s.len(),
    ensures
        octal_value(s.take(i)) >= 0,
{
    assert(forall|j: int| 0 <= j < i ==> s.take(i)[j] == s[j]);
    lemma_octal_value_nonneg(s.take(i));
}

/// An error of the link engine.
#[derive(Debug, Clone, PartialEq, Eq)]
pub enum EngineError {
    /// The binding's source could not be resolved to a real path.
    SourceResolution { source: String },
    /// A permission override is not a valid octal mode string.
    InvalidMode { given: String },
    /// A bind mount was asked for without the privilege to create it.
    MissingMountCapability { source: String, target: String, in_container: bool },
    /// A directory was about to be mounted over while it still had entries.
    TargetNotEmpty { target: String, entries: u64 },
}

/// Mathematical value of an [`EngineError`].
pub ghost enum EngineErrorSpec {
    SourceResolution { source: Seq<char> },
    InvalidMode { given: Seq<char> },
    MissingMountCapability { source: Seq<char>, target: Seq<char>, in_container: bool },
    TargetNotEmpty { target: Seq<char>, entries: u64 },
}

impl View for EngineError {
    type V = EngineErrorSpec;

    open spec fn view(&self) -> EngineErrorSpec {
        match self {
            EngineError::SourceResolution { source } => EngineErrorSpec::SourceResolution {
                source: source@,
            },
            EngineError::InvalidMode { given } => EngineErrorSpec::InvalidMode {
                given: given@,
            },
            EngineError::MissingMountCapability { source, target, in_container } =>
                EngineErrorSpec::MissingMountCapability {
                source: source@,
                target: target@,
                in_container: *in_container,
            },
            EngineError::TargetNotEmpty { target, entries } => EngineErrorSpec::TargetNotEmpty {
                target: target@,
                entries: *entries,
            },
        }
    }
}

/// The advice appended to a missing-capability error inside a container.
pub open spec fn container_advice() -> Seq<char> {
    " You appear to be running in a container: run it with --privileged, or add the SYS_ADMIN capability."@
}

/// The advice appended to a missing-capability error on a plain host.
pub open spec fn host_advice() -> Seq<char> {
    " Run as root, or grant the CAP_SYS_ADMIN capability to the binary."@
}

/// The description of an engine error.
pub open spec fn error_message(e: EngineErrorSpec) -> Seq<char> {
    match e {
        EngineErrorSpec::SourceResolution { source } => "Failed to resolve source path: "@
            + source,
        EngineErrorSpec::InvalidMode { given } => "Invalid mode string: "@ + given,
        EngineErrorSpec::MissingMountCapability { source, target, in_container } =>
            "Cannot create bind mount from "@ + source + " to "@ + target
            + ": Missing CAP_SYS_ADMIN capability."@ + (if in_container {
            container_advice()
        } else {
            host_advice()
        }),
        EngineErrorSpec::TargetNotEmpty { target, entries } => "Target directory "@ + target
            + " is not empty (contains "@ + dec_rep(entries as int) + " entries)."@,
    }
}

impl EngineError {
    /// A human-readable description of the error.
    pub fn message(&self) -> (r: String)
        ensures
            r@ == error_message(self@),
    {
        match self {
            EngineError::SourceResolution { source } => {
                let mut m = String::from_str("Failed to resolve source path: ");
                m.append(source.as_str());
                m
            },
            EngineError::InvalidMode { given } => {
                let mut m = String::from_str("Invalid mode string: ");
                m.append(given.as_str());
                m
            },
            EngineError::MissingMountCapability { source, target, in_container } => {
                let mut m = String::from_str("Cannot create bind mount from ");
                m.append(source.as_str());
                m.append(" to ");
                m.append(target.as_str());
                m.append(": Missing CAP_SYS_ADMIN capability.");
                if *in_container {
                    m.append(
                        " You appear to be running in a container: run it with --privileged, or add the SYS_ADMIN capability.",
                    );
                } else {
                    m.append(" Run as root, or grant the CAP_SYS_ADMIN capability to the binary.");
                }
                m
            },
            EngineError::TargetNotEmpty { target, entries } => {
                let mut m = String::from_str("Target directory ");
                m.append(target.as_str());
                m.append(" is not empty (contains ");
                let num = u64_to_string(*entries);
                m.append(num.as_str());
                m.append(" entries).");
                m
            },
        }
    }
}

/// The link engine.
pub struct SymlinkManager;

impl SymlinkManager {
    /// A link engine.
    pub fn new() -> SymlinkManager {
        SymlinkManager
    }

    /// Parses an octal mode string: leading `0o` markers and zeros are
    /// stripped, the remainder must be a non-empty octal numeral that fits
    /// a `u32`.
    pub fn parse_mode(&self, mode_str: &str) -> (r: Result<u32, EngineError>)
        ensures
            match r {
                Ok(v) => mode_ok(mode_str@) && v as int == octal_value(
                    stripped_mode(mode_str@),
                ),
                Err(e) => {
                    &&& !mode_ok(mode_str@)
                    &&& e@ == EngineErrorSpec::InvalidMode { given: stripped_mode(mode_str@) }
                },
            },
    {
        let n = mode_str.unicode_len();
        // Strip `0o` markers.
        let mut i: usize = 0;
        proof {
            assert(mode_str@.skip(0) =~= mode_str@);
        }
        while i < n && i + 1 < n && mode_str.get_char(i) == '0' && mode_str.get_char(i + 1)
            == 'o'
            invariant
                n == mode_str@.len(),
                0 <= i <= n,
                strip_octal_marker(mode_str@) == strip_octal_marker(mode_str@.skip(i as int)),
            decreases n - i,
        {
            proof {
                assert(mode_str@.skip(i as int)[0] == mode_str@[i as int]);
                assert(mode_str@.skip(i as int)[1] == mode_str@[i + 1]);
                assert(mode_str@.skip(i as int).skip(2) =~= mode_str@.skip(i + 2));
            }
            i += 2;
        }
        proof {
            if i < n {
                assert(mode_str@.skip(i as int)[0] == mode_str@[i as int]);
                if i + 1 < n {
                    assert(mode_str@.skip(i as int)[1] == mode_str@[i + 1]);
                }
            }
            assert(strip_octal_marker(mode_str@.skip(i as int)) == mode_str@.skip(i as int));
            assert(stripped_mode(mode_str@) == strip_zeros(mode_str@.skip(i as int)));
        }
        // Strip leading zeros.
        while i < n && mode_str.get_char(i) == '0'
            invariant
                n == mode_str@.len(),
                0 <= i <= n,
                stripped_mode(mode_str@) == strip_zeros(mode_str@.skip(i as int)),
            decreases n - i,
        {
            proof {
                assert(mode_str@.skip(i as int)[0] == mode_str@[i as int]);
                assert(mode_str@.skip(i as int).drop_first() =~= mode_str@.skip(i + 1));
            }
            i += 1;
        }
        let ghost stripped = stripped_mode(mode_str@);
        proof {
            if i < n {
                assert(mode_str@.skip(i as int)[0] == mode_str@[i as int]);
            } else {
                assert(mode_str@.skip(n as int).len() == 0);
            }
            assert(strip_zeros(mode_str@.skip(i as int)) == mode_str@.skip(i as int));
            assert(stripped =~= mode_str@.subrange(i as int, n as int));
        }
        if i == n {
            let given = String::from_str(mode_str.substring_char(i, n));
            return Err(EngineError::InvalidMode { given });
        }
        // Fold the octal digits.
        let mut acc: u32 = 0;
        let mut k: usize = i;
        while k < n
            invariant
                n == mode_str@.len(),
                i <= k <= n,
                stripped == stripped_mode(mode_str@),
                stripped == mode_str@.subrange(i as int, n as int),
                stripped.len() > 0,
                all_octal(stripped.take(k - i)),
                acc as int == octal_value(stripped.take(k - i)),
            decreases n - k,
        {
            let c = mode_str.get_char(k);
            proof {
                assert(stripped[k - i] == mode_str@[k as int]);
            }
            let d: u32 = if c == '0' {
                0
            } else if c == '1' {
                1
            } else if c == '2' {
                2
            } else if c == '3' {
                3
            } else if c == '4' {
                4
            } else if c == '5' {
                5
            } else if c == '6' {
                6
            } else if c == '7' {
                7
            } else {
                let given = String::from_str(mode_str.substring_char(i, n));
                proof {
                    assert(!is_octal_digit(stripped[k - i]));
                    assert(!all_octal(stripped));
                }
                return Err(EngineError::InvalidMode { given });
            };
            proof {
                assert(is_octal_digit(stripped[k - i]));
                assert(d as int == octal_digit_val(stripped[k - i]));
            }
            if acc > (u32::MAX - d) / 8 {
                let given = String::from_str(mode_str.substring_char(i, n));
                proof {
                    assert(acc as int * 8 + d as int > u32::MAX) by (nonlinear_arith)
                        requires
                            acc as int > (u32::MAX as int - d as int) / 8,
                            d < 8,
                    ;
                    assert(stripped.take(k - i + 1).drop_last() =~= stripped.take(k - i));
                    assert(stripped.take(k - i + 1).last() == stripped[k - i]);
                    assert(octal_value(stripped.take(k - i + 1)) > u32::MAX);
                    assert(forall|j: int|
                        0 <= j < k - i + 1 ==> stripped.take(k - i + 1)[j] == stripped[j]);
                    if all_octal(stripped) {
                        assert(forall|j: int|
                            0 <= j < stripped.len() ==> is_octal_digit(stripped[j]));
                        lemma_octal_prefix_le(stripped, k - i + 1);
                        assert(octal_value(stripped) > u32::MAX);
                    }
                }
                return Err(EngineError::InvalidMode { given });
            }
            proof {
                assert(acc as int * 8 + d as int <= u32::MAX) by (nonlinear_arith)
                    requires
                        acc as int <= (u32::MAX as int - d as int) / 8,
                        d < 8,
                ;
                assert(stripped.take(k - i + 1).drop_last() =~= stripped.take(k - i));
                assert(stripped.take(k - i + 1).last() == stripped[k - i]);
                assert(forall|j: int|
                    0 <= j < k - i ==> #[trigger] stripped.take(k - i + 1)[j] == stripped.take(
                        k - i,
                    )[j]);
            }
            acc = acc * 8 + d;
            k += 1;
        }
        proof {
            assert(stripped.take(n - i) =~= stripped);
        }
        Ok(acc)
    }
}

// ---------------------------------------------------------------------------
// Applying bindings.
// ---------------------------------------------------------------------------
/// What the caller observed at a binding's target before applying it.
#[derive(Debug, Clone, Copy, PartialEq, Eq, Structural)]
pub struct TargetObservation {
    /// Whether anything exists at the target (following symlinks).
    pub exists: bool,
    /// Whether the target is itself a symlink (even a dangling one).
    pub is_symlink: bool,
    /// Whether the target is a directory.
    pub is_dir: bool,
    /// Whether the target is a mount point of the live mount table.
    pub is_mount_point: bool,
}

/// How a pre-existing target is cleared before materializing a binding.
#[derive(Debug, Clone, Copy, PartialEq, Eq, Structural)]
pub enum ConflictAction {
    /// Nothing occupies the target.
    KeepNone,
    /// Recreate the target symlink under the backup name, then unlink it.
    BackupRelink,
    /// Rename the target to the backup name.
    BackupRename,
    /// Unlink the target symlink.
    RemoveSymlink,
    /// Unmount the target, then remove the directory tree.
    UnmountAndRemoveDir,
    /// Remove the target directory tree.
    RemoveDir,
    /// Remove the target file.
    RemoveFile,
}

/// The conflict decision: nothing when the target is vacant; preserve it
/// when backups are asked for (symlinks by relinking, everything else by
/// renaming); otherwise delete it by its kind, unmounting a mounted
/// directory first.
pub open spec fn conflict_decision(backup: bool, obs: TargetObservation) -> ConflictAction {
    if !obs.exists && !obs.is_symlink {
        ConflictAction::KeepNone
    } else if backup {
        if obs.is_symlink {
            ConflictAction::BackupRelink
        } else {
            ConflictAction::BackupRename
        }
    } else if obs.is_symlink {
        ConflictAction::RemoveSymlink
    } else if obs.is_dir {
        if obs.is_mount_point {
            ConflictAction::UnmountAndRemoveDir
        } else {
            ConflictAction::RemoveDir
        }
    } else {
        ConflictAction::RemoveFile
    }
}

/// The ordered actions realizing one binding.  The caller performs them in
/// field order: create the parent, resolve the conflict, then materialize
/// (for a mount: create the target directory with the source's mode and
/// ownership, apply the explicit overrides, require the target empty, and
/// bind-mount; for a file: create the symlink).
#[derive(Debug, Clone, PartialEq, Eq)]
pub struct ApplyPlan {
    /// The directory to create first (with all its ancestors), when parent
    /// creation is asked for and the target names a parent.
    pub create_parent: Option<String>,
    /// How the pre-existing target is cleared.
    pub conflict: ConflictAction,
    /// Where the pre-existing target is preserved, for the backup actions.
    pub backup_dest: Option<String>,
    /// Whether the binding is materialized as a bind mount (else a symlink).
    pub mount: bool,
    /// The explicit user to set on the target directory.
    pub chown_user: Option<String>,
    /// The explicit group to set on the target directory.
    pub chown_group: Option<String>,
    /// The explicit permission bits to set on the target directory.
    pub chmod_bits: Option<u32>,
    /// Whether the target must be empty right before mounting.
    pub require_empty: bool,
}

/// A planned binding: the actions, and the record to persist once they
/// succeed.
#[derive(Debug, Clone, PartialEq, Eq)]
pub struct PlannedBinding {
    pub plan: ApplyPlan,
    pub realized: GenerationSymlink,
}

/// What the caller observed before planning one binding.
#[derive(Debug, Clone, PartialEq, Eq)]
pub struct ApplyObservation {
    /// The binding's source after canonicalization; nothing when it could
    /// not be resolved (and, for a directory binding with a vacant source
    /// but occupied target, after the caller has first captured the target
    /// into the store, as `should_synthesize_source` directs).
    pub canonical_source: Option<String>,
    /// The state of the target.
    pub target: TargetObservation,
    /// Whether the process may create bind mounts.
    pub has_mount_capability: bool,
    /// Whether the process appears to run inside a container (shapes the
    /// privilege error's advice only).
    pub in_container: bool,
}

/// Whether the engine first synthesizes the source from the target: only
/// for a directory binding whose source is missing while its target
/// exists, so that a first run captures current content into the store.
pub open spec fn synthesize_decision(
    is_directory: bool,
    source_exists: bool,
    target_exists: bool,
) -> bool {
    is_directory && !source_exists && target_exists
}

/// Whether planning this binding fails.
pub open spec fn plan_fails(b: Symlink, obs: ApplyObservation) -> bool {
    ||| obs.canonical_source is None
    ||| (b.is_directory && (b.mode matches Some(m) && !mode_ok(m@)))
    ||| (b.is_directory && !obs.has_mount_capability)
}

/// The error planning this binding reports: an unresolvable source first,
/// then a bad mode string, then missing mount privilege.
pub open spec fn plan_error_spec(b: Symlink, obs: ApplyObservation) -> EngineErrorSpec {
    if obs.canonical_source is None {
        EngineErrorSpec::SourceResolution { source: b.source@ }
    } else if b.is_directory && (b.mode matches Some(m) && !mode_ok(m@)) {
        EngineErrorSpec::InvalidMode { given: stripped_mode(b.mode->Some_0@) }
    } else {
        EngineErrorSpec::MissingMountCapability {
            source: obs.canonical_source->Some_0@,
            target: b.target@,
            in_container: obs.in_container,
        }
    }
}

/// What a successful plan holds, field by field.
pub open spec fn binding_plan_ok(
    b: Symlink,
    obs: ApplyObservation,
    stamp: Seq<char>,
    pb: PlannedBinding,
) -> bool {
    let backs_up = (obs.target.exists || obs.target.is_symlink) && b.backup;
    &&& obs.canonical_source matches Some(cs) && pb.realized.source@ == cs@
    &&& pb.realized.target@ == b.target@
    &&& opt_view(pb.realized.backup_path) == (if backs_up {
        Some(backup_name(b.target@, stamp))
    } else {
        None::<Seq<char>>
    })
    &&& pb.plan.conflict == conflict_decision(b.backup, obs.target)
    &&& opt_view(pb.plan.backup_dest) == (if backs_up {
        Some(backup_name(b.target@, stamp))
    } else {
        None::<Seq<char>>
    })
    &&& opt_view(pb.plan.create_parent) == (if b.create_parents {
        parent_dir(b.target@)
    } else {
        None::<Seq<char>>
    })
    &&& pb.plan.mount == b.is_directory
    &&& pb.plan.require_empty == b.is_directory
    &&& opt_view(pb.plan.chown_user) == (if b.is_directory {
        opt_view(b.user)
    } else {
        None::<Seq<char>>
    })
    &&& opt_view(pb.plan.chown_group) == (if b.is_directory {
        opt_view(b.group)
    } else {
        None::<Seq<char>>
    })
    &&& pb.plan.chmod_bits == (if b.is_directory {
        match b.mode {
            Some(m) => Some((octal_value(stripped_mode(m@)) as u32)),
            None => None::<u32>,
        }
    } else {
        None::<u32>
    })
}

/// An equal copy of an optional string.
fn dup_opt_string(o: &Option<String>) -> (r: Option<String>)
    ensures
        opt_view(r) == opt_view(*o),
{
    match o {
        Some(s) => Some(s.clone()),
        None => None,
    }
}

impl SymlinkManager {
    /// Whether the engine first synthesizes the binding's source from its
    /// target (a first run capturing current ephemeral content): only for a
    /// directory binding whose source is missing while its target exists.
    /// The caller then creates the source directory, copying the target's
    /// mode and ownership, before canonicalizing the source.
    pub fn should_synthesize_source(
        &self,
        binding: &Symlink,
        source_exists: bool,
        target_exists: bool,
    ) -> (r: bool)
        ensures
            r == synthesize_decision(binding.is_directory, source_exists, target_exists),
    {
        !source_exists && target_exists && binding.is_directory
    }

    /// The conflict decision for one target.
    pub fn plan_conflict(&self, backup: bool, obs: &TargetObservation) -> (r: ConflictAction)
        ensures
            r == conflict_decision(backup, *obs),
    {
        if !obs.exists && !obs.is_symlink {
            ConflictAction::KeepNone
        } else if backup {
            if obs.is_symlink {
                ConflictAction::BackupRelink
            } else {
                ConflictAction::BackupRename
            }
        } else if obs.is_symlink {
            ConflictAction::RemoveSymlink
        } else if obs.is_dir {
            if obs.is_mount_point {
                ConflictAction::UnmountAndRemoveDir
            } else {
                ConflictAction::RemoveDir
            }
        } else {
            ConflictAction::RemoveFile
        }
    }

    /// Plans one binding from what was observed: either the full ordered
    /// action list and the record to persist, or the error that aborts the
    /// apply.  Precondition failures (unresolvable source, bad mode string,
    /// missing mount privilege) are all reported before any action is
    /// taken, in the order the engine meets them.
    pub fn plan_binding(
        &self,
        binding: &Symlink,
        obs: &ApplyObservation,
        stamp: &str,
    ) -> (r: Result<PlannedBinding, EngineError>)
        ensures
            match r {
                Ok(pb) => !plan_fails(*binding, *obs) && binding_plan_ok(
                    *binding,
                    *obs,
                    stamp@,
                    pb,
                ),
                Err(e) => plan_fails(*binding, *obs) && e@ == plan_error_spec(
                    *binding,
                    *obs,
                ),
            },
    {
        let cs = match &obs.canonical_source {
            Some(cs) => cs,
            None => {
                return Err(
                    EngineError::SourceResolution { source: binding.source.clone() },
                );
            },
        };
        let chmod_bits = if binding.is_directory {
            match &binding.mode {
                Some(m) => match self.parse_mode(m.as_str()) {
                    Ok(v) => Some(v),
                    Err(e) => {
                        return Err(e);
                    },
                },
                None => None,
            }
        } else {
            None
        };
        if binding.is_directory && !obs.has_mount_capability {
            return Err(
                EngineError::MissingMountCapability {
                    source: cs.clone(),
                    target: binding.target.clone(),
                    in_container: obs.in_container,
                },
            );
        }
        let conflict = self.plan_conflict(binding.backup, &obs.target);
        let backs_up = (obs.target.exists || obs.target.is_symlink) && binding.backup;
        let backup_dest = if backs_up {
            Some(backup_path_for(binding.target.as_str(), stamp))
        } else {
            None
        };
        let create_parent = if binding.create_parents {
            parent_of(binding.target.as_str())
        } else {
            None
        };
        let chown_user = if binding.is_directory {
            dup_opt_string(&binding.user)
        } else {
            None
        };
        let chown_group = if binding.is_directory {
            dup_opt_string(&binding.group)
        } else {
            None
        };
        let realized = GenerationSymlink {
            source: cs.clone(),
            target: binding.target.clone(),
            backup_path: dup_opt_string(&backup_dest),
        };
        let plan = ApplyPlan {
            create_parent,
            conflict,
            backup_dest,
            mount: binding.is_directory,
            chown_user,
            chown_group,
            chmod_bits,
            require_empty: binding.is_directory,
        };
        Ok(PlannedBinding { plan, realized })
    }

    /// The emptiness gate before a mount: succeeds exactly when the target
    /// directory has no entries.
    pub fn check_target_empty(&self, target: &str, entries: u64) -> (r: Result<
        (),
        EngineError,
    >)
        ensures
            match r {
                Ok(_) => entries == 0,
                Err(e) => entries > 0 && e@ == (EngineErrorSpec::TargetNotEmpty {
                    target: target@,
                    entries,
                }),
            },
    {
        if entries == 0 {
            Ok(())
        } else {
            Err(
                EngineError::TargetNotEmpty {
                    target: String::from_str(target),
                    entries,
                },
            )
        }
    }

    /// Plans a whole apply: one planned binding per specification, in input
    /// order, or the first error.
    pub fn apply(
        &self,
        bindings: &Vec<Symlink>,
        observations: &Vec<ApplyObservation>,
        stamps: &Vec<String>,
    ) -> (r: Result<Vec<PlannedBinding>, EngineError>)
        requires
            observations@.len() == bindings@.len(),
            stamps@.len() == bindings@.len(),
        ensures
            match r {
                Ok(pbs) => {
                    &&& pbs@.len() == bindings@.len()
                    &&& forall|i: int|
                        0 <= i < bindings@.len() ==> !plan_fails(
                            bindings@[i],
                            observations@[i],
                        ) && binding_plan_ok(
                            bindings@[i],
                            observations@[i],
                            stamps@[i]@,
                            #[trigger] pbs@[i],
                        )
                },
                Err(e) => exists|i: int|
                    {
                        &&& 0 <= i < bindings@.len()
                        &&& #[trigger] plan_fails(bindings@[i], observations@[i])
                        &&& e@ == plan_error_spec(bindings@[i], observations@[i])
                        &&& forall|j: int|
                            0 <= j < i ==> !plan_fails(bindings@[j], observations@[j])
                    },
            },
    {
        let mut r: Vec<PlannedBinding> = Vec::new();
        let mut i: usize = 0;
        while i < bindings.len()
            invariant
                0 <= i <= bindings@.len(),
                observations@.len() == bindings@.len(),
                stamps@.len() == bindings@.len(),
                r@.len() == i,
                forall|k: int| 0 <= k < i ==> !#[trigger] plan_fails(
                    bindings@[k],
                    observations@[k],
                ),
                forall|k: int|
                    0 <= k < i ==> binding_plan_ok(
                        bindings@[k],
                        observations@[k],
                        stamps@[k]@,
                        #[trigger] r@[k],
                    ),
            decreases bindings@.len() - i,
        {
            match self.plan_binding(&bindings[i], &observations[i], stamps[i].as_str()) {
                Ok(pb) => {
                    let ghost pbg = pb;
                    r.push(pb);
                    proof {
                        assert(r@[i as int] == pbg);
                        assert(binding_plan_ok(
                            bindings@[i as int],
                            observations@[i as int],
                            stamps@[i as int]@,
                            r@[i as int],
                        ));
                    }
                },
                Err(e) => {
                    proof {
                        assert(plan_fails(bindings@[i as int], observations@[i as int]));
                    }
                    return Err(e);
                },
            }
            i += 1;
        }
        Ok(r)
    }
}

// ---------------------------------------------------------------------------
// Removing bindings.
// ---------------------------------------------------------------------------
/// What the caller observed at a recorded binding before removing it.
#[derive(Debug, Clone, Copy, PartialEq, Eq, Structural)]
pub struct RemovalObservation {
    /// Whether the target is currently a mount point.
    pub is_mount_point: bool,
    /// Whether the target is a directory.
    pub is_dir: bool,
    /// Whether the target is a symlink.
    pub is_symlink: bool,
    /// Whether the recorded backup path still exists.
    pub backup_exists: bool,
}

/// How a recorded binding is undone.
#[derive(Debug, Clone, Copy, PartialEq, Eq, Structural)]
pub enum RemovalAction {
    /// Unmount the target.
    Unmount,
    /// Unlink the target symlink.
    Unlink,
    /// The binding is already absent: nothing to undo.
    NoAction,
}

/// The removal decision: a live mount point is unmounted, else a symlink is
/// unlinked, else the binding counts as already absent.
pub open spec fn removal_action(obs: RemovalObservation) -> RemovalAction {
    if obs.is_mount_point {
        RemovalAction::Unmount
    } else if obs.is_symlink {
        RemovalAction::Unlink
    } else {
        RemovalAction::NoAction
    }
}

/// Which backup is restored onto the target afterwards: the recorded one,
/// when the binding was actually undone and the backup still exists.
pub open spec fn removal_restores(b: SymlinkRecord, obs: RemovalObservation) -> Option<
    Seq<char>,
> {
    if (obs.is_mount_point || obs.is_symlink) && obs.backup_exists {
        b.backup_path
    } else {
        None
    }
}

/// The ordered actions undoing one recorded binding.  The caller performs
/// the action, then the best-effort directory removal, then the restore.
#[derive(Debug, Clone, PartialEq, Eq)]
pub struct RemovalStep {
    /// How the binding itself is undone.
    pub action: RemovalAction,
    /// Whether the now-empty directory is removed afterwards (failures of
    /// this cleanup alone are ignored).
    pub remove_empty_dir: bool,
    /// The backup to rename back onto the target, if any.
    pub restore_backup: Option<String>,
}

/// What a removal step must hold, field by field.
pub open spec fn removal_step_ok(
    b: SymlinkRecord,
    obs: RemovalObservation,
    step: RemovalStep,
) -> bool {
    &&& step.action == removal_action(obs)
    &&& step.remove_empty_dir == (obs.is_mount_point && obs.is_dir)
    &&& opt_view(step.restore_backup) == removal_restores(b, obs)
}

impl SymlinkManager {
    /// Plans the removal of one recorded binding from what was observed.
    pub fn plan_removal(
        &self,
        binding: &GenerationSymlink,
        obs: &RemovalObservation,
    ) -> (r: RemovalStep)
        ensures
            removal_step_ok(binding@, *obs, r),
    {
        let action = if obs.is_mount_point {
            RemovalAction::Unmount
        } else if obs.is_symlink {
            RemovalAction::Unlink
        } else {
            RemovalAction::NoAction
        };
        let restore_backup = if (obs.is_mount_point || obs.is_symlink) && obs.backup_exists {
            dup_opt_string(&binding.backup_path)
        } else {
            None
        };
        RemovalStep {
            action,
            remove_empty_dir: obs.is_mount_point && obs.is_dir,
            restore_backup,
        }
    }

    /// Plans the removal of a recorded binding list, in input order.
    pub fn remove(
        &self,
        bindings: &Vec<GenerationSymlink>,
        observations: &Vec<RemovalObservation>,
    ) -> (r: Vec<RemovalStep>)
        requires
            observations@.len() == bindings@.len(),
        ensures
            r@.len() == bindings@.len(),
            forall|i: int|
                0 <= i < bindings@.len() ==> removal_step_ok(
                    bindings@[i]@,
                    observations@[i],
                    #[trigger] r@[i],
                ),
    {
        let mut r: Vec<RemovalStep> = Vec::new();
        let mut i: usize = 0;
        while i < bindings.len()
            invariant
                0 <= i <= bindings@.len(),
                observations@.len() == bindings@.len(),
                r@.len() == i,
                forall|k: int|
                    0 <= k < i ==> removal_step_ok(
                        bindings@[k]@,
                        observations@[k],
                        #[trigger] r@[k],
                    ),
            decreases bindings@.len() - i,
        {
            let step = self.plan_removal(&bindings[i], &observations[i]);
            r.push(step);
            i += 1;
        }
        r
    }
}

// ---------------------------------------------------------------------------
// Verifying bindings.
// ---------------------------------------------------------------------------
/// What a symlink target holds, as read by the caller.
#[derive(Debug, Clone, PartialEq, Eq)]
pub enum LinkState {
    /// The target is not a symlink at all.
    NotSymlink,
    /// The target is a symlink with this link value.
    Points(String),
    /// The target is a symlink whose value could not be read; the error's
    /// description is carried.
    Unreadable(String),
}

/// What the caller observed at a recorded binding's target for
/// verification.
#[derive(Debug, Clone, PartialEq, Eq)]
pub enum VerifyObservation {
    /// The target is a directory: it must be mounted from the recorded
    /// source.  Carries the canonicalized target and source paths to hold
    /// against the mount table.
    Directory { canonical_target: String, canonical_source: String },
    /// The target is a directory whose target or source path could not be
    /// canonicalized for the mount check; the error's description is
    /// carried.  Verification never stops early: this deviation yields a
    /// diagnostic like every other.
    DirectoryUnresolved { error: String },
    /// The target is not a directory: it must be a symlink to the recorded
    /// source.
    NotDirectory { link: LinkState },
}

/// The diagnostic for a directory that is not a mount point.
pub open spec fn diag_not_mount(target: Seq<char>) -> Seq<char> {
    "Directory is not a mount point: "@ + target
}

/// The diagnostic for a directory mounted from the wrong source.
pub open spec fn diag_wrong_source(target: Seq<char>, source: Seq<char>) -> Seq<char> {
    "Directory is mounted but from wrong source: "@ + target + " (expected source: "@ + source
        + ")"@
}

/// The diagnostic for a file that is not a symlink.
pub open spec fn diag_not_symlink(target: Seq<char>) -> Seq<char> {
    "File is not a symlink: "@ + target
}

/// The diagnostic for a symlink pointing at the wrong place.
pub open spec fn diag_wrong_target(
    target: Seq<char>,
    link: Seq<char>,
    source: Seq<char>,
) -> Seq<char> {
    "Symlink points to wrong target: "@ + target + " -> "@ + link + " (expected: "@ + source
        + ")"@
}

/// The diagnostic for a symlink whose value could not be read.
pub open spec fn diag_unreadable(target: Seq<char>, err: Seq<char>) -> Seq<char> {
    "Failed to read symlink "@ + target + ": "@ + err
}

/// The diagnostic for a directory whose paths could not be canonicalized.
pub open spec fn diag_unresolved(target: Seq<char>, err: Seq<char>) -> Seq<char> {
    "Failed to resolve directory paths for "@ + target + ": "@ + err
}

/// The diagnostic one binding draws, if any: a directory target must be a
/// mount point whose table entry pairs the canonical source with the
/// canonical target; any other target must be a symlink whose value equals
/// the recorded source.
pub open spec fn verify_diag(
    b: SymlinkRecord,
    obs: VerifyObservation,
    table: Seq<char>,
) -> Option<Seq<char>> {
    match obs {
        VerifyObservation::Directory { canonical_target, canonical_source } => {
            if !table_has_target(table, canonical_target@) {
                Some(diag_not_mount(b.target))
            } else if !table_has_pair(table, canonical_source@, canonical_target@) {
                Some(diag_wrong_source(b.target, b.source))
            } else {
                None
            }
        },
        VerifyObservation::DirectoryUnresolved { error } => Some(
            diag_unresolved(b.target, error@),
        ),
        VerifyObservation::NotDirectory { link } => match link {
            LinkState::NotSymlink => Some(diag_not_symlink(b.target)),
            LinkState::Points(l) => if l@ != b.source {
                Some(diag_wrong_target(b.target, l@, b.source))
            } else {
                None
            },
            LinkState::Unreadable(err) => Some(diag_unreadable(b.target, err@)),
        },
    }
}

/// The diagnostics of the bindings from `i` on, in order.
pub open spec fn verify_diags(
    bs: Seq<SymlinkRecord>,
    obs: Seq<VerifyObservation>,
    table: Seq<char>,
    i: int,
) -> Seq<Seq<char>>
    decreases bs.len() - i,
{
    if 0 <= i < bs.len() {
        (match verify_diag(bs[i], obs[i], table) {
            Some(d) => seq![d],
            None => Seq::empty(),
        }) + verify_diags(bs, obs, table, i + 1)
    } else {
        Seq::empty()
    }
}

impl SymlinkManager {
    /// The diagnostic for one recorded binding, if any.
    pub fn verify_binding(
        &self,
        binding: &GenerationSymlink,
        obs: &VerifyObservation,
        mounts_text: &str,
    ) -> (r: Option<String>)
        ensures
            match r {
                Some(d) => verify_diag(binding@, *obs, mounts_text@) == Some(d@),
                None => verify_diag(binding@, *obs, mounts_text@) is None,
            },
    {
        match obs {
            VerifyObservation::Directory { canonical_target, canonical_source } => {
                if !crate::mounts::is_mount_point_in(mounts_text, canonical_target.as_str()) {
                    let mut m = String::from_str("Directory is not a mount point: ");
                    m.append(binding.target.as_str());
                    Some(m)
                } else if !crate::mounts::mount_pair_in(
                    mounts_text,
                    canonical_source.as_str(),
                    canonical_target.as_str(),
                ) {
                    let mut m = String::from_str("Directory is mounted but from wrong source: ");
                    m.append(binding.target.as_str());
                    m.append(" (expected source: ");
                    m.append(binding.source.as_str());
                    m.append(")");
                    Some(m)
                } else {
                    None
                }
            },
            VerifyObservation::DirectoryUnresolved { error } => {
                let mut m = String::from_str("Failed to resolve directory paths for ");
                m.append(binding.target.as_str());
                m.append(": ");
                m.append(error.as_str());
                Some(m)
            },
            VerifyObservation::NotDirectory { link } => match link {
                LinkState::NotSymlink => {
                    let mut m = String::from_str("File is not a symlink: ");
                    m.append(binding.target.as_str());
                    Some(m)
                },
                LinkState::Points(l) => {
                    if !crate::mounts::str_eq(l.as_str(), binding.source.as_str()) {
                        let mut m = String::from_str("Symlink points to wrong target: ");
                        m.append(binding.target.as_str());
                        m.append(" -> ");
                        m.append(l.as_str());
                        m.append(" (expected: ");
                        m.append(binding.source.as_str());
                        m.append(")");
                        Some(m)
                    } else {
                        None
                    }
                },
                LinkState::Unreadable(err) => {
                    let mut m = String::from_str("Failed to read symlink ");
                    m.append(binding.target.as_str());
                    m.append(": ");
                    m.append(err.as_str());
                    Some(m)
                },
            },
        }
    }

    /// Verifies a recorded binding list against the observations and the
    /// live mount table: one diagnostic per deviating binding, in input
    /// order; an empty result means fully consistent.  Never mutates state
    /// and never stops early.
    pub fn verify(
        &self,
        bindings: &Vec<GenerationSymlink>,
        observations: &Vec<VerifyObservation>,
        mounts_text: &str,
    ) -> (r: Vec<String>)
        requires
            observations@.len() == bindings@.len(),
        ensures
            r@.map_values(|s: String| s@) == verify_diags(
                bindings@.map_values(|b: GenerationSymlink| b@),
                observations@,
                mounts_text@,
                0,
            ),
    {
        let ghost bs = bindings@.map_values(|b: GenerationSymlink| b@);
        let mut r: Vec<String> = Vec::new();
        let mut i: usize = 0;
        proof {
            assert(r@.map_values(|s: String| s@) =~= Seq::<Seq<char>>::empty());
        }
        while i < bindings.len()
            invariant
                0 <= i <= bindings@.len(),
                observations@.len() == bindings@.len(),
                bs == bindings@.map_values(|b: GenerationSymlink| b@),
                bs.len() == bindings@.len(),
                verify_diags(bs, observations@, mounts_text@, 0) == r@.map_values(
                    |s: String| s@,
                ) + verify_diags(bs, observations@, mounts_text@, i as int),
            decreases bindings@.len() - i,
        {
            let ghost prev = r@.map_values(|s: String| s@);
            match self.verify_binding(&bindings[i], &observations[i], mounts_text) {
                Some(d) => {
                    r.push(d);
                    proof {
                        assert(r@.map_values(|s: String| s@) =~= prev.push(
                            verify_diag(bs[i as int], observations@[i as int], mounts_text@)
                                ->Some_0,
                        ));
                        assert(prev + (seq![
                            verify_diag(bs[i as int], observations@[i as int], mounts_text@)
                                ->Some_0,
                        ] + verify_diags(bs, observations@, mounts_text@, i + 1)) =~= (
                        r@.map_values(|s: String| s@)) + verify_diags(
                            bs,
                            observations@,
                            mounts_text@,
                            i + 1,
                        ));
                    }
                },
                None => {
                    proof {
                        assert(prev + (Seq::<Seq<char>>::empty() + verify_diags(
                            bs,
                            observations@,
                            mounts_text@,
                            i + 1,
                        )) =~= prev + verify_diags(bs, observations@, mounts_text@, i + 1));
                    }
                },
            }
            i += 1;
        }
        proof {
            assert(verify_diags(bs, observations@, mounts_text@, bindings@.len() as int)
                =~= Seq::<Seq<char>>::empty());
            assert(r@.map_values(|s: String| s@) + Seq::<Seq<char>>::empty() =~= r@.map_values(
                |s: String| s@,
            ));
        }
        r
    }
}

} // verus!
