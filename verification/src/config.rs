//! The configuration model: persistence entries and their normalization
//! into a flat list of binding specifications.
//!
//! A configuration names persistence directories, each with the directories
//! and files whose contents should live there.  [`Config::to_symlinks`]
//! turns that declarative form into the ordered binding list the link
//! engine works through: for every entry, the binding's source is the
//! target's path re-rooted under the persistence directory.

use vstd::prelude::*;
use vstd::string::StrSliceExecFns;
use vstd::string::StringExecFns;

verus! {

/// Settings for a file's parent directory.
#[derive(Debug, Clone, PartialEq, Eq)]
pub struct ParentDirectoryConfig {
    pub mode: Option<String>,
}

/// A directory to persist: either a bare path, or a path with ownership and
/// permission overrides.
#[derive(Debug, Clone, PartialEq, Eq)]
pub enum DirectoryEntry {
    Simple(String),
    Detailed {
        directory: String,
        user: Option<String>,
        group: Option<String>,
        mode: Option<String>,
    },
}

/// A file to persist: either a bare path, or a path with parent-directory
/// settings.
#[derive(Debug, Clone, PartialEq, Eq)]
pub enum FileEntry {
    Simple(String),
    Detailed { file: String, parent_directory: Option<ParentDirectoryConfig> },
}

/// What one persistence directory holds.
#[derive(Debug, Clone, PartialEq, Eq)]
pub struct PersistenceConfig {
    pub hide_mounts: bool,
    pub directories: Vec<DirectoryEntry>,
    pub files: Vec<FileEntry>,
}

/// One persistence directory with its contents.
#[derive(Debug, Clone, PartialEq, Eq)]
pub struct PersistenceEntry {
    pub persist_dir: String,
    pub config: PersistenceConfig,
}

/// The whole configuration: the persistence entries in declaration order
/// (each persistence directory appearing once — [`distinct_persist_dirs`]),
/// and where generation state is kept.
#[derive(Debug, Clone, PartialEq, Eq)]
pub struct Config {
    pub persistence: Vec<PersistenceEntry>,
    pub state_dir: String,
}

/// A binding specification: one declared source→target relationship, the
/// strategy that realizes it, and its options.  Never mutated after
/// construction.
#[derive(Debug, Clone, PartialEq, Eq)]
pub struct Symlink {
    /// The real-store location.
    pub source: String,
    /// The ephemeral location to populate.
    pub target: String,
    /// Selects bind mount (true) against symbolic link (false).
    pub is_directory: bool,
    /// Whether missing ancestors of `target` are created.
    pub create_parents: bool,
    /// Whether a pre-existing `target` is preserved rather than deleted.
    pub backup: bool,
    /// Explicit ownership override.
    pub user: Option<String>,
    /// Explicit group override.
    pub group: Option<String>,
    /// Explicit permission override, as an octal mode string.
    pub mode: Option<String>,
}

/// Mathematical value of a [`Symlink`].
pub ghost struct SymlinkSpec {
    pub source: Seq<char>,
    pub target: Seq<char>,
    pub is_directory: bool,
    pub create_parents: bool,
    pub backup: bool,
    pub user: Option<Seq<char>>,
    pub group: Option<Seq<char>>,
    pub mode: Option<Seq<char>>,
}

/// The view of an optional string.
pub open spec fn opt_view(o: Option<String>) -> Option<Seq<char>> {
    match o {
        Some(s) => Some(s@),
        None => None,
    }
}

impl View for Symlink {
    type V = SymlinkSpec;

    open spec fn view(&self) -> SymlinkSpec {
        SymlinkSpec {
            source: self.source@,
            target: self.target@,
            is_directory: self.is_directory,
            create_parents: self.create_parents,
            backup: self.backup,
            user: opt_view(self.user),
            group: opt_view(self.group),
            mode: opt_view(self.mode),
        }
    }
}

impl DirectoryEntry {
    /// The directory's path.
    pub open spec fn spec_path(&self) -> Seq<char> {
        match self {
            DirectoryEntry::Simple(p) => p@,
            DirectoryEntry::Detailed { directory, .. } => directory@,
        }
    }

    /// The user override, if any.
    pub open spec fn spec_user(&self) -> Option<Seq<char>> {
        match self {
            DirectoryEntry::Simple(_) => None,
            DirectoryEntry::Detailed { user, .. } => opt_view(*user),
        }
    }

    /// The group override, if any.
    pub open spec fn spec_group(&self) -> Option<Seq<char>> {
        match self {
            DirectoryEntry::Simple(_) => None,
            DirectoryEntry::Detailed { group, .. } => opt_view(*group),
        }
    }

    /// The mode override, if any.
    pub open spec fn spec_mode(&self) -> Option<Seq<char>> {
        match self {
            DirectoryEntry::Simple(_) => None,
            DirectoryEntry::Detailed { mode, .. } => opt_view(*mode),
        }
    }

    /// The directory's path.
    pub fn path(&self) -> (r: &str)
        ensures
            r@ == self.spec_path(),
    {
        match self {
            DirectoryEntry::Simple(p) => p.as_str(),
            DirectoryEntry::Detailed { directory, .. } => directory.as_str(),
        }
    }

    /// The user override, if any.
    pub fn user(&self) -> (r: Option<&str>)
        ensures
            match r {
                Some(u) => self.spec_user() == Some(u@),
                None => self.spec_user() is None,
            },
    {
        match self {
            DirectoryEntry::Simple(_) => None,
            DirectoryEntry::Detailed { user, .. } => match user {
                Some(u) => Some(u.as_str()),
                None => None,
            },
        }
    }

    /// The group override, if any.
    pub fn group(&self) -> (r: Option<&str>)
        ensures
            match r {
                Some(u) => self.spec_group() == Some(u@),
                None => self.spec_group() is None,
            },
    {
        match self {
            DirectoryEntry::Simple(_) => None,
            DirectoryEntry::Detailed { group, .. } => match group {
                Some(u) => Some(u.as_str()),
                None => None,
            },
        }
    }

    /// The mode override, if any.
    pub fn mode(&self) -> (r: Option<&str>)
        ensures
            match r {
                Some(u) => self.spec_mode() == Some(u@),
                None => self.spec_mode() is None,
            },
    {
        match self {
            DirectoryEntry::Simple(_) => None,
            DirectoryEntry::Detailed { mode, .. } => match mode {
                Some(u) => Some(u.as_str()),
                None => None,
            },
        }
    }
}

impl FileEntry {
    /// The file's path.
    pub open spec fn spec_path(&self) -> Seq<char> {
        match self {
            FileEntry::Simple(p) => p@,
            FileEntry::Detailed { file, .. } => file@,
        }
    }

    /// The parent-directory settings, if any.
    pub open spec fn spec_parent_directory(&self) -> Option<ParentDirectoryConfig> {
        match self {
            FileEntry::Simple(_) => None,
            FileEntry::Detailed { parent_directory, .. } => *parent_directory,
        }
    }

    /// The file's path.
    pub fn path(&self) -> (r: &str)
        ensures
            r@ == self.spec_path(),
    {
        match self {
            FileEntry::Simple(p) => p.as_str(),
            FileEntry::Detailed { file, .. } => file.as_str(),
        }
    }

    /// The parent-directory settings, if any.
    pub fn parent_directory(&self) -> (r: Option<&ParentDirectoryConfig>)
        ensures
            match r {
                Some(p) => self.spec_parent_directory() == Some(*p),
                None => self.spec_parent_directory() is None,
            },
    {
        match self {
            FileEntry::Simple(_) => None,
            FileEntry::Detailed { parent_directory, .. } => match parent_directory {
                Some(p) => Some(p),
                None => None,
            },
        }
    }
}

/// `t` without its leading path separator, if it has one.
pub open spec fn strip_root(t: Seq<char>) -> Seq<char> {
    if t.len() > 0 && t[0] == '/' {
        t.drop_first()
    } else {
        t
    }
}

/// Joining a base directory and a relative path, as path concatenation: a
/// separator is put between them unless one is empty or the base already
/// ends with one.
pub open spec fn join_path(base: Seq<char>, rel: Seq<char>) -> Seq<char> {
    if rel.len() == 0 {
        base
    } else if base.len() == 0 {
        rel
    } else if base[base.len() - 1] == '/' {
        base + rel
    } else {
        base + seq!['/'] + rel
    }
}

/// The binding source for `target` under `persist_dir`: the target's path
/// re-rooted below the persistence directory.
pub open spec fn source_for(persist_dir: Seq<char>, target: Seq<char>) -> Seq<char> {
    join_path(persist_dir, strip_root(target))
}

/// The binding specification of one directory entry.
pub open spec fn dir_symlink(persist_dir: Seq<char>, e: DirectoryEntry) -> SymlinkSpec {
    SymlinkSpec {
        source: source_for(persist_dir, e.spec_path()),
        target: e.spec_path(),
        is_directory: true,
        create_parents: true,
        backup: false,
        user: e.spec_user(),
        group: e.spec_group(),
        mode: e.spec_mode(),
    }
}

/// The binding specification of one file entry.
pub open spec fn file_symlink(persist_dir: Seq<char>, e: FileEntry) -> SymlinkSpec {
    SymlinkSpec {
        source: source_for(persist_dir, e.spec_path()),
        target: e.spec_path(),
        is_directory: false,
        create_parents: e.spec_parent_directory() is Some,
        backup: false,
        user: None,
        group: None,
        mode: match e.spec_parent_directory() {
            Some(p) => opt_view(p.mode),
            None => None,
        },
    }
}

/// All binding specifications of one persistence entry: its directories,
/// then its files, in declaration order.
pub open spec fn entry_symlinks(e: PersistenceEntry) -> Seq<SymlinkSpec> {
    e.config.directories@.map_values(|d: DirectoryEntry| dir_symlink(e.persist_dir@, d))
        + e.config.files@.map_values(|f: FileEntry| file_symlink(e.persist_dir@, f))
}

/// All binding specifications of a configuration, entry by entry.
pub open spec fn config_symlinks(c: Config) -> Seq<SymlinkSpec> {
    c.persistence@.map_values(|e: PersistenceEntry| entry_symlinks(e)).flatten()
}

/// No persistence directory appears twice.
pub open spec fn distinct_persist_dirs(c: Config) -> bool {
    forall|i: int, j: int|
        0 <= i < c.persistence@.len() && 0 <= j < c.persistence@.len() && i != j
            ==> c.persistence@[i].persist_dir@ != c.persistence@[j].persist_dir@
}

/// An error of configuration validation.
#[derive(Debug, Clone, PartialEq, Eq)]
pub enum ConfigError {
    /// A binding's source does not exist in the persistent store.
    MissingSource { source: String },
}

impl ConfigError {
    /// A human-readable description of the error.
    pub fn message(&self) -> (r: String)
        ensures
            match self {
                ConfigError::MissingSource { source } => r@ == "Source path does not exist: "@
                    + source@,
            },
    {
        match self {
            ConfigError::MissingSource { source } => {
                let mut m = String::from_str("Source path does not exist: ");
                m.append(source.as_str());
                m
            },
        }
    }
}

/// The index of the first `false`, if any.
pub open spec fn first_false(v: Seq<bool>) -> Option<int>
    decreases v.len(),
{
    if v.len() == 0 {
        None
    } else if !v[0] {
        Some(0)
    } else {
        match first_false(v.drop_first()) {
            Some(i) => Some(i + 1),
            None => None,
        }
    }
}

/// The source path of one target under one persistence directory.
fn build_source(persist_dir: &str, target: &str) -> (r: String)
    ensures
        r@ == source_for(persist_dir@, target@),
{
    let tlen = target.unicode_len();
    let rel = if tlen > 0 && target.get_char(0) == '/' {
        target.substring_char(1, tlen)
    } else {
        target.substring_char(0, tlen)
    };
    proof {
        assert(target@.subrange(1, tlen as int) =~= target@.drop_first());
        assert(target@.subrange(0, tlen as int) =~= target@);
        assert(rel@ == strip_root(target@));
    }
    let rlen = rel.unicode_len();
    let blen = persist_dir.unicode_len();
    if rlen == 0 {
        let r = String::from_str(persist_dir);
        return r;
    }
    if blen == 0 {
        let r = String::from_str(rel);
        return r;
    }
    let mut r = String::from_str(persist_dir);
    if persist_dir.get_char(blen - 1) != '/' {
        r.append("/");
        proof {
            reveal_strlit("/");
            assert("/"@ =~= seq!['/']);
        }
    }
    r.append(rel);
    proof {
        assert(r@ =~= source_for(persist_dir@, target@));
    }
    r
}

impl Config {
    /// Flattens the configuration into the ordered binding list: for each
    /// persistence entry, one directory binding per directory (parents
    /// created, no backups, the entry's overrides), then one file binding
    /// per file (parents created only when parent-directory settings are
    /// given, whose mode then applies).
    pub fn to_symlinks(&self) -> (r: Vec<Symlink>)
        ensures
            r@.map_values(|s: Symlink| s@) == config_symlinks(*self),
    {
        let ghost mapped = self.persistence@.map_values(
            |e: PersistenceEntry| entry_symlinks(e),
        );
        let mut r: Vec<Symlink> = Vec::new();
        let mut i: usize = 0;
        proof {
            assert(mapped.take(0) =~= Seq::<Seq<SymlinkSpec>>::empty());
            assert(mapped.take(0).flatten() =~= Seq::<SymlinkSpec>::empty());
            assert(r@.map_values(|s: Symlink| s@) =~= Seq::<SymlinkSpec>::empty());
        }
        while i < self.persistence.len()
            invariant
                0 <= i <= self.persistence.len(),
                mapped == self.persistence@.map_values(
                    |e: PersistenceEntry| entry_symlinks(e),
                ),
                mapped.len() == self.persistence@.len(),
                r@.map_values(|s: Symlink| s@) == mapped.take(i as int).flatten(),
            decreases self.persistence.len() - i,
        {
            let entry = &self.persistence[i];
            let ghost dirpart = entry.config.directories@.map_values(
                |d: DirectoryEntry| dir_symlink(entry.persist_dir@, d),
            );
            let ghost before = r@.map_values(|s: Symlink| s@);
            let mut k: usize = 0;
            proof {
                assert(dirpart.take(0) =~= Seq::<SymlinkSpec>::empty());
                assert(before + dirpart.take(0) =~= before);
            }
            while k < entry.config.directories.len()
                invariant
                    0 <= k <= entry.config.directories.len(),
                    dirpart == entry.config.directories@.map_values(
                        |d: DirectoryEntry| dir_symlink(entry.persist_dir@, d),
                    ),
                    dirpart.len() == entry.config.directories@.len(),
                    r@.map_values(|s: Symlink| s@) == before + dirpart.take(k as int),
                decreases entry.config.directories.len() - k,
            {
                let d = &entry.config.directories[k];
                let target = d.path();
                let source = build_source(entry.persist_dir.as_str(), target);
                let user = match d.user() {
                    Some(u) => Some(String::from_str(u)),
                    None => None,
                };
                let group = match d.group() {
                    Some(u) => Some(String::from_str(u)),
                    None => None,
                };
                let mode = match d.mode() {
                    Some(u) => Some(String::from_str(u)),
                    None => None,
                };
                let ghost prev = r@.map_values(|s: Symlink| s@);
                let s = Symlink {
                    source,
                    target: String::from_str(target),
                    is_directory: true,
                    create_parents: true,
                    backup: false,
                    user,
                    group,
                    mode,
                };
                proof {
                    assert(s@ == dir_symlink(entry.persist_dir@, *d));
                }
                r.push(s);
                proof {
                    assert(r@.map_values(|s: Symlink| s@) =~= prev.push(
                        dir_symlink(entry.persist_dir@, *d),
                    ));
                    assert(dirpart[k as int] == dir_symlink(
                        entry.persist_dir@,
                        entry.config.directories@[k as int],
                    ));
                    assert(dirpart.take(k + 1) =~= dirpart.take(k as int).push(
                        dirpart[k as int],
                    ));
                    assert(before + dirpart.take(k + 1) =~= (before + dirpart.take(
                        k as int,
                    )).push(dirpart[k as int]));
                }
                k += 1;
            }
            proof {
                assert(dirpart.take(entry.config.directories@.len() as int) =~= dirpart);
            }
            let ghost filepart = entry.config.files@.map_values(
                |f: FileEntry| file_symlink(entry.persist_dir@, f),
            );
            let ghost before2 = r@.map_values(|s: Symlink| s@);
            let mut k: usize = 0;
            proof {
                assert(filepart.take(0) =~= Seq::<SymlinkSpec>::empty());
                assert(before2 + filepart.take(0) =~= before2);
            }
            while k < entry.config.files.len()
                invariant
                    0 <= k <= entry.config.files.len(),
                    filepart == entry.config.files@.map_values(
                        |f: FileEntry| file_symlink(entry.persist_dir@, f),
                    ),
                    filepart.len() == entry.config.files@.len(),
                    r@.map_values(|s: Symlink| s@) == before2 + filepart.take(k as int),
                decreases entry.config.files.len() - k,
            {
                let f = &entry.config.files[k];
                let target = f.path();
                let source = build_source(entry.persist_dir.as_str(), target);
                let (create_parents, mode) = match f.parent_directory() {
                    Some(p) => (
                        true,
                        match &p.mode {
                            Some(m) => Some(m.clone()),
                            None => None,
                        },
                    ),
                    None => (false, None),
                };
                let ghost prev = r@.map_values(|s: Symlink| s@);
                let s = Symlink {
                    source,
                    target: String::from_str(target),
                    is_directory: false,
                    create_parents,
                    backup: false,
                    user: None,
                    group: None,
                    mode,
                };
                proof {
                    assert(s@ == file_symlink(entry.persist_dir@, *f));
                }
                r.push(s);
                proof {
                    assert(r@.map_values(|s: Symlink| s@) =~= prev.push(
                        file_symlink(entry.persist_dir@, *f),
                    ));
                    assert(filepart[k as int] == file_symlink(
                        entry.persist_dir@,
                        entry.config.files@[k as int],
                    ));
                    assert(filepart.take(k + 1) =~= filepart.take(k as int).push(
                        filepart[k as int],
                    ));
                    assert(before2 + filepart.take(k + 1) =~= (before2 + filepart.take(
                        k as int,
                    )).push(filepart[k as int]));
                }
                k += 1;
            }
            proof {
                assert(filepart.take(entry.config.files@.len() as int) =~= filepart);
                assert(r@.map_values(|s: Symlink| s@) =~= before + entry_symlinks(
                    self.persistence@[i as int],
                ));
                assert(mapped[i as int] == entry_symlinks(self.persistence@[i as int]));
                assert(mapped.take(i + 1) =~= mapped.take(i as int).push(mapped[i as int]));
                lemma_flatten_push(mapped.take(i as int), mapped[i as int]);
            }
            i += 1;
        }
        proof {
            assert(mapped.take(self.persistence@.len() as int) =~= mapped);
        }
        r
    }

    /// Checks that every binding's source exists: `source_exists` gives, for
    /// each member of `to_symlinks()` in order, whether its source path
    /// exists.  Succeeds exactly when all of them do; otherwise names the
    /// first missing source.
    pub fn validate(&self, source_exists: &Vec<bool>) -> (r: Result<(), ConfigError>)
        requires
            source_exists@.len() == config_symlinks(*self).len(),
        ensures
            match r {
                Ok(_) => first_false(source_exists@) is None,
                Err(e) => {
                    &&& first_false(source_exists@) is Some
                    &&& match e {
                        ConfigError::MissingSource { source } => source@ == config_symlinks(
                            *self,
                        )[first_false(source_exists@)->Some_0].source,
                    }
                },
            },
    {
        let symlinks = self.to_symlinks();
        let mut i: usize = 0;
        proof {
            assert(source_exists@.skip(0) =~= source_exists@);
        }
        while i < source_exists.len()
            invariant
                0 <= i <= source_exists@.len(),
                source_exists@.len() == config_symlinks(*self).len(),
                symlinks@.map_values(|s: Symlink| s@) == config_symlinks(*self),
                first_false(source_exists@) == match first_false(
                    source_exists@.skip(i as int),
                ) {
                    Some(k) => Some(k + i),
                    None => None::<int>,
                },
            decreases source_exists@.len() - i,
        {
            proof {
                assert(source_exists@.skip(i as int).drop_first() =~= source_exists@.skip(
                    i + 1,
                ));
                assert(source_exists@.skip(i as int)[0] == source_exists@[i as int]);
            }
            if !source_exists[i] {
                let s = &symlinks[i];
                proof {
                    assert(symlinks@[i as int]@ == config_symlinks(*self)[i as int]);
                }
                return Err(ConfigError::MissingSource { source: s.source.clone() });
            }
            i += 1;
        }
        proof {
            assert(source_exists@.skip(source_exists@.len() as int) =~= Seq::<bool>::empty());
        }
        Ok(())
    }
}

/// Flattening distributes over appending one more sequence.
proof fn lemma_flatten_push(s: Seq<Seq<SymlinkSpec>>, x: Seq<SymlinkSpec>)
    ensures
        s.push(x).flatten() == s.flatten() + x,
    decreases s.len(),
{
    if s.len() == 0 {
        assert(s.push(x)[0] == x);
        assert(s.push(x).drop_first() =~= Seq::<Seq<SymlinkSpec>>::empty());
        assert(Seq::<Seq<SymlinkSpec>>::empty().flatten() =~= Seq::<SymlinkSpec>::empty());
        assert(s.push(x).flatten() =~= x + Seq::<SymlinkSpec>::empty());
        assert(s.push(x).flatten() =~= x);
        assert(s.flatten() =~= Seq::<SymlinkSpec>::empty());
        assert(s.flatten() + x =~= x);
    } else {
        assert(s.push(x).drop_first() =~= s.drop_first().push(x));
        assert(s.push(x)[0] == s[0]);
        lemma_flatten_push(s.drop_first(), x);
        assert(s.push(x).flatten() =~= s.flatten() + x);
    }
}

} // verus!
