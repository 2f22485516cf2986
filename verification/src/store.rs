//! The generation store: an ordered, append-only log of apply operations.
//!
//! Each successful apply is recorded as a [`Generation`] holding the bindings
//! the link engine realized at that time.  Across the whole store at most one
//! generation is active; numbers grow monotonically and are assigned as
//! one past the largest number present.

use vstd::prelude::*;
use vstd::pervasive::VecAdditionalExecFns;
use vstd::string::StringExecFns;

verus! {

/// The durable record of one binding actually created: the canonicalized
/// source, the target the binding was materialized at, and, when a
/// pre-existing target was preserved rather than removed, the path it was
/// moved to.
#[derive(Debug, Clone, PartialEq, Eq)]
pub struct GenerationSymlink {
    pub source: String,
    pub target: String,
    pub backup_path: Option<String>,
}

/// Mathematical value of a [`GenerationSymlink`]: its paths as character
/// sequences.
pub ghost struct SymlinkRecord {
    pub source: Seq<char>,
    pub target: Seq<char>,
    pub backup_path: Option<Seq<char>>,
}

impl View for GenerationSymlink {
    type V = SymlinkRecord;

    open spec fn view(&self) -> SymlinkRecord {
        SymlinkRecord {
            source: self.source@,
            target: self.target@,
            backup_path: match self.backup_path {
                Some(p) => Some(p@),
                None => None,
            },
        }
    }
}

/// One historical apply operation: its unique number, creation time in
/// seconds since the Unix epoch, the configuration file it came from
/// (provenance only), the bindings realized, and whether it is the active
/// generation.
#[derive(Debug, Clone, PartialEq, Eq)]
pub struct Generation {
    pub number: u64,
    pub created_at: u64,
    pub config_path: String,
    pub symlinks: Vec<GenerationSymlink>,
    pub active: bool,
}

/// Mathematical value of a [`Generation`].
pub ghost struct GenerationRecord {
    pub number: u64,
    pub created_at: u64,
    pub config_path: Seq<char>,
    pub symlinks: Seq<SymlinkRecord>,
    pub active: bool,
}

impl View for Generation {
    type V = GenerationRecord;

    open spec fn view(&self) -> GenerationRecord {
        GenerationRecord {
            number: self.number,
            created_at: self.created_at,
            config_path: self.config_path@,
            symlinks: self.symlinks@.map_values(|s: GenerationSymlink| s@),
            active: self.active,
        }
    }
}

/// An error of the generation store.
#[derive(Debug, Clone, PartialEq, Eq)]
pub enum StoreError {
    /// No generation carries the requested number.
    NotFound,
    /// The requested generation is the active one and may not be deleted.
    ActiveGeneration,
    /// The store document could not be parsed.
    MalformedDocument,
}

impl StoreError {
    /// A human-readable description of the error.
    pub fn message(&self) -> (r: String)
        ensures
            r@ == match self {
                StoreError::NotFound => "Generation not found"@,
                StoreError::ActiveGeneration => "Cannot delete active generation"@,
                StoreError::MalformedDocument => "Malformed generations document"@,
            },
    {
        match self {
            StoreError::NotFound => String::from_str("Generation not found"),
            StoreError::ActiveGeneration => String::from_str("Cannot delete active generation"),
            StoreError::MalformedDocument => String::from_str("Malformed generations document"),
        }
    }
}

/// The largest generation number present, or 0 for an empty store.
pub open spec fn max_number(s: Seq<GenerationRecord>) -> int
    decreases s.len(),
{
    if s.len() == 0 {
        0
    } else if s.last().number >= max_number(s.drop_last()) {
        s.last().number as int
    } else {
        max_number(s.drop_last())
    }
}

/// `g` with its active flag cleared, all else unchanged.
pub open spec fn deactivated(g: GenerationRecord) -> GenerationRecord {
    GenerationRecord { active: false, ..g }
}

/// `g` with its active flag set, all else unchanged.
pub open spec fn activated(g: GenerationRecord) -> GenerationRecord {
    GenerationRecord { active: true, ..g }
}

/// No two distinct members are both active.
pub open spec fn at_most_one_active(s: Seq<GenerationRecord>) -> bool {
    forall|i: int, j: int|
        0 <= i < s.len() && 0 <= j < s.len() && s[i].active && s[j].active ==> i == j
}

/// Exactly one member is active.
pub open spec fn exactly_one_active(s: Seq<GenerationRecord>) -> bool {
    &&& exists|i: int| 0 <= i < s.len() && s[i].active
    &&& at_most_one_active(s)
}

/// The first active member, scanning from the front.
pub open spec fn find_active(s: Seq<GenerationRecord>) -> Option<GenerationRecord>
    decreases s.len(),
{
    if s.len() == 0 {
        None
    } else if s[0].active {
        Some(s[0])
    } else {
        find_active(s.drop_first())
    }
}

/// The index of the first member carrying `number`, if any.
pub open spec fn index_of_number(s: Seq<GenerationRecord>, number: u64) -> Option<int>
    decreases s.len(),
{
    if s.len() == 0 {
        None
    } else if s[0].number == number {
        Some(0)
    } else {
        match index_of_number(s.drop_first(), number) {
            Some(i) => Some(i + 1),
            None => None,
        }
    }
}

/// The in-memory generation store: the full ordered sequence of generations,
/// as it is persisted in the store document.
pub struct GenerationManager {
    generations: Vec<Generation>,
}

impl View for GenerationManager {
    type V = Seq<GenerationRecord>;

    closed spec fn view(&self) -> Seq<GenerationRecord> {
        self.generations@.map_values(|g: Generation| g@)
    }
}

impl GenerationManager {
    /// An empty store: the state of a store whose document does not exist
    /// yet (first-run semantics).
    pub fn new() -> (r: Self)
        ensures
            r@ =~= Seq::<GenerationRecord>::empty(),
    {
        GenerationManager { generations: Vec::new() }
    }

    /// The number the next created generation will carry: one past the
    /// largest number present, 1 for an empty store.
    pub fn next_generation_number(&self) -> (n: u64)
        requires
            max_number(self@) < u64::MAX,
        ensures
            n == max_number(self@) + 1,
    {
        let mut best: u64 = 0;
        let mut i: usize = 0;
        while i < self.generations.len()
            invariant
                0 <= i <= self.generations.len(),
                best == max_number(self@.take(i as int)),
                max_number(self@) < u64::MAX,
            decreases self.generations.len() - i,
        {
            proof {
                assert(self@.take(i + 1).drop_last() =~= self@.take(i as int));
                assert(self@.take(i + 1).last() == self@[i as int]);
                lemma_max_number_le(self@, i + 1);
            }
            if self.generations[i].number > best {
                best = self.generations[i].number;
            }
            i += 1;
        }
        proof {
            assert(self@.take(self.generations.len() as int) =~= self@);
        }
        best + 1
    }
}

impl GenerationSymlink {
    /// An equal copy of this record.
    pub fn duplicate(&self) -> (r: GenerationSymlink)
        ensures
            r == *self,
    {
        GenerationSymlink {
            source: self.source.clone(),
            target: self.target.clone(),
            backup_path: match &self.backup_path {
                Some(p) => Some(p.clone()),
                None => None,
            },
        }
    }
}

/// An equal copy of a binding list.
fn duplicate_symlinks(v: &Vec<GenerationSymlink>) -> (r: Vec<GenerationSymlink>)
    ensures
        r@ == v@,
{
    let mut r: Vec<GenerationSymlink> = Vec::new();
    let mut i: usize = 0;
    while i < v.len()
        invariant
            0 <= i <= v.len(),
            r@ =~= v@.take(i as int),
        decreases v.len() - i,
    {
        r.push(v[i].duplicate());
        i += 1;
    }
    proof {
        assert(v@.take(v.len() as int) =~= v@);
    }
    r
}

impl Generation {
    /// An equal copy of this generation.
    pub fn duplicate(&self) -> (r: Generation)
        ensures
            r@ == self@,
            r.number == self.number,
            r.created_at == self.created_at,
            r.active == self.active,
    {
        Generation {
            number: self.number,
            created_at: self.created_at,
            config_path: self.config_path.clone(),
            symlinks: duplicate_symlinks(&self.symlinks),
            active: self.active,
        }
    }

    /// An equal copy except that the active flag is cleared.
    fn deactivated_copy(&self) -> (r: Generation)
        ensures
            r@ == deactivated(self@),
    {
        Generation {
            number: self.number,
            created_at: self.created_at,
            config_path: self.config_path.clone(),
            symlinks: duplicate_symlinks(&self.symlinks),
            active: false,
        }
    }

    /// An equal copy except that the active flag is set.
    fn activated_copy(&self) -> (r: Generation)
        ensures
            r@ == activated(self@),
    {
        Generation {
            number: self.number,
            created_at: self.created_at,
            config_path: self.config_path.clone(),
            symlinks: duplicate_symlinks(&self.symlinks),
            active: true,
        }
    }
}

/// Relies on `chrono::Utc::now`, read out as whole seconds since the Unix
/// epoch through `chrono::DateTime::timestamp`.  The underlying call does
/// not return on a system clock reading before the Unix epoch; the function
/// takes no input, so no precondition can exclude that environment.
#[verifier::external_body]
fn now_timestamp() -> i64 {
    chrono::Utc::now().timestamp()
}

/// The current time as seconds since the Unix epoch, clamped below at 0.
fn current_unix_seconds() -> u64 {
    let t = now_timestamp();
    if t < 0 {
        0
    } else {
        t as u64
    }
}

impl GenerationManager {
    /// Clears the active flag on every member.
    fn deactivate_all(&mut self)
        ensures
            final(self)@.len() == old(self)@.len(),
            forall|i: int|
                0 <= i < old(self)@.len() ==> final(self)@[i] == deactivated(old(self)@[i]),
    {
        let ghost orig = self@;
        let mut i: usize = 0;
        while i < self.generations.len()
            invariant
                0 <= i <= self.generations.len(),
                self@.len() == orig.len(),
                forall|j: int| 0 <= j < i ==> self@[j] == deactivated(orig[j]),
                forall|j: int| i <= j < orig.len() ==> self@[j] == orig[j],
            decreases self.generations.len() - i,
        {
            let ghost prev = self@;
            let g = self.generations[i].deactivated_copy();
            self.generations.set(i, g);
            proof {
                assert(self@ =~= prev.update(i as int, deactivated(orig[i as int])));
            }
            i += 1;
        }
    }

    /// The index of the first member carrying `number`, if any.
    fn find_number_index(&self, number: u64) -> (r: Option<usize>)
        ensures
            match r {
                Some(i) => {
                    &&& index_of_number(self@, number) == Some(i as int)
                    &&& 0 <= i < self@.len()
                    &&& self@[i as int].number == number
                },
                None => index_of_number(self@, number) is None,
            },
    {
        let mut i: usize = 0;
        proof {
            assert(self@.skip(0) =~= self@);
        }
        while i < self.generations.len()
            invariant
                0 <= i <= self.generations.len(),
                index_of_number(self@, number) == match index_of_number(
                    self@.skip(i as int),
                    number,
                ) {
                    Some(k) => Some(k + i),
                    None => None::<int>,
                },
            decreases self.generations.len() - i,
        {
            proof {
                assert(self@.skip(i as int).drop_first() =~= self@.skip(i + 1));
                assert(self@.skip(i as int)[0] == self@[i as int]);
            }
            if self.generations[i].number == number {
                return Some(i);
            }
            i += 1;
        }
        proof {
            assert(self@.skip(self.generations.len() as int) =~= Seq::<
                GenerationRecord,
            >::empty());
        }
        None
    }

    /// Records a new generation: every existing member is deactivated, and a
    /// new member carrying the next number, the given provenance and bindings,
    /// and a set active flag is appended.  The new generation is returned.
    pub fn create_generation(
        &mut self,
        config_path: String,
        symlinks: Vec<GenerationSymlink>,
    ) -> (g: Generation)
        requires
            max_number(old(self)@) < u64::MAX,
        ensures
            g@.number == max_number(old(self)@) + 1,
            g@.active,
            g@.config_path == config_path@,
            g@.symlinks == symlinks@.map_values(|s: GenerationSymlink| s@),
            final(self)@.len() == old(self)@.len() + 1,
            forall|i: int|
                0 <= i < old(self)@.len() ==> final(self)@[i] == deactivated(old(self)@[i]),
            final(self)@.last() == g@,
            exactly_one_active(final(self)@),
            final(self)@ == create_effect(old(self)@, g@),
    {
        let number = self.next_generation_number();
        self.deactivate_all();
        let ghost mid = self@;
        let g = Generation {
            number,
            created_at: current_unix_seconds(),
            config_path,
            symlinks,
            active: true,
        };
        self.generations.push(g.duplicate());
        proof {
            assert(self@ =~= mid.push(g@));
            let s = self@;
            assert(s[s.len() - 1].active);
            assert(forall|k: int| 0 <= k < s.len() - 1 ==> !s[k].active);
            assert(exists|i: int| 0 <= i < s.len() && s[i].active);
            assert(mid =~= old(self)@.map_values(|x: GenerationRecord| deactivated(x)));
            assert(GenerationRecord {
                number: (max_number(old(self)@) + 1) as u64,
                active: true,
                ..g@
            } == g@);
        }
        g
    }

    /// The serialized store document holding the whole generation sequence.
    pub fn to_document(&self) -> (r: String)
        ensures
            r@ == crate::codec::ser_document(self@),
    {
        crate::codec::store_document(&self.generations)
    }

    /// Parses a store document into the generation list it holds.  The
    /// missing-document case (an empty store) is the caller's: this function
    /// takes the document's text.
    pub fn load_generations(text: &str) -> (r: Result<Vec<Generation>, StoreError>)
        ensures
            match r {
                Ok(v) => crate::codec::ps_document(text@) == Some(
                    v@.map_values(|g: Generation| g@),
                ),
                Err(e) => {
                    &&& e == StoreError::MalformedDocument
                    &&& crate::codec::ps_document(text@) is None
                },
            },
    {
        match crate::codec::parse_store_document(text) {
            Some(v) => Ok(v),
            None => Err(StoreError::MalformedDocument),
        }
    }

    /// A store loaded from its document.
    pub fn from_document(text: &str) -> (r: Result<GenerationManager, StoreError>)
        ensures
            match r {
                Ok(m) => crate::codec::ps_document(text@) == Some(m@),
                Err(e) => {
                    &&& e == StoreError::MalformedDocument
                    &&& crate::codec::ps_document(text@) is None
                },
            },
    {
        match GenerationManager::load_generations(text) {
            Ok(v) => Ok(GenerationManager { generations: v }),
            Err(e) => Err(e),
        }
    }

    /// The first member whose active flag is set, if any.
    pub fn get_active_generation(&self) -> (r: Option<Generation>)
        ensures
            match r {
                Some(g) => find_active(self@) == Some(g@),
                None => find_active(self@) is None,
            },
    {
        let mut i: usize = 0;
        proof {
            assert(self@.skip(0) =~= self@);
        }
        while i < self.generations.len()
            invariant
                0 <= i <= self.generations.len(),
                find_active(self@) == find_active(self@.skip(i as int)),
                forall|j: int| 0 <= j < i ==> !self@[j].active,
            decreases self.generations.len() - i,
        {
            proof {
                assert(self@.skip(i as int).drop_first() =~= self@.skip(i + 1));
                assert(self@.skip(i as int)[0] == self@[i as int]);
            }
            if self.generations[i].active {
                return Some(self.generations[i].duplicate());
            }
            i += 1;
        }
        proof {
            assert(self@.skip(self.generations.len() as int) =~= Seq::<
                GenerationRecord,
            >::empty());
        }
        None
    }

    /// All generations, in store order.
    pub fn list_generations(&self) -> (r: Vec<Generation>)
        ensures
            r@.map_values(|g: Generation| g@) == self@,
    {
        let mut r: Vec<Generation> = Vec::new();
        let mut i: usize = 0;
        while i < self.generations.len()
            invariant
                0 <= i <= self.generations.len(),
                r@.map_values(|g: Generation| g@) =~= self@.take(i as int),
        decreases self.generations.len() - i,
        {
            let ghost prevmap = r@.map_values(|g: Generation| g@);
            r.push(self.generations[i].duplicate());
            proof {
                assert(r@.map_values(|g: Generation| g@) =~= prevmap.push(self@[i as int]));
                assert(self@.take(i + 1) =~= self@.take(i as int).push(self@[i as int]));
            }
            i += 1;
        }
        proof {
            assert(self@.take(self.generations.len() as int) =~= self@);
        }
        r
    }

    /// Makes the generation carrying `number` the single active one.  Fails
    /// with [`StoreError::NotFound`], leaving the store unchanged, when no
    /// member carries that number.
    pub fn switch_generation(&mut self, number: u64) -> (r: Result<Generation, StoreError>)
        ensures
            match r {
                Ok(g) => {
                    &&& index_of_number(old(self)@, number) matches Some(i) && {
                        &&& final(self)@.len() == old(self)@.len()
                        &&& forall|j: int|
                            0 <= j < old(self)@.len() && j != i ==> final(self)@[j]
                                == deactivated(old(self)@[j])
                        &&& final(self)@[i] == activated(old(self)@[i])
                        &&& g@ == activated(old(self)@[i])
                    }
                    &&& exactly_one_active(final(self)@)
                },
                Err(e) => {
                    &&& e == StoreError::NotFound
                    &&& index_of_number(old(self)@, number) is None
                    &&& final(self)@ == old(self)@
                },
            },
    {
        let ghost orig = self@;
        match self.find_number_index(number) {
            None => Err(StoreError::NotFound),
            Some(i) => {
                self.deactivate_all();
                let ghost mid = self@;
                let g = self.generations[i].activated_copy();
                proof {
                    assert(mid[i as int] == self.generations@[i as int]@);
                    assert(mid[i as int] == deactivated(orig[i as int]));
                    assert(g@ == activated(mid[i as int]));
                    assert(activated(deactivated(orig[i as int])) == activated(
                        orig[i as int],
                    ));
                }
                self.generations.set(i, g.duplicate());
                proof {
                    assert(self@ =~= mid.update(i as int, g@));
                    let s = self@;
                    assert(s[i as int].active);
                    assert(forall|k: int| 0 <= k < s.len() && k != i ==> !s[k].active);
                    assert(exists|p: int| 0 <= p < s.len() && s[p].active);
                }
                Ok(g)
            },
        }
    }

    /// Removes every member carrying `number`.  Fails with
    /// [`StoreError::NotFound`] when no member carries the number, and with
    /// [`StoreError::ActiveGeneration`] when any member carrying it is the
    /// active one; either failure leaves the store unchanged.
    pub fn delete_generation(&mut self, number: u64) -> (r: Result<(), StoreError>)
        ensures
            match r {
                Ok(_) => {
                    &&& index_of_number(old(self)@, number) is Some
                    &&& forall|i: int|
                        0 <= i < old(self)@.len() && old(self)@[i].number == number
                            ==> !old(self)@[i].active
                    &&& final(self)@ == delete_effect(old(self)@, number)
                },
                Err(e) => {
                    &&& final(self)@ == old(self)@
                    &&& match e {
                        StoreError::NotFound => index_of_number(old(self)@, number) is None,
                        StoreError::ActiveGeneration => exists|i: int|
                            0 <= i < old(self)@.len() && old(self)@[i].number == number
                                && old(self)@[i].active,
                        StoreError::MalformedDocument => false,
                    }
                },
            },
    {
        let ghost orig = self@;
        let mut found = false;
        let mut i: usize = 0;
        while i < self.generations.len()
            invariant
                0 <= i <= self.generations.len(),
                self@ == orig,
                found ==> exists|j: int| 0 <= j < i && orig[j].number == number,
                !found ==> forall|j: int| 0 <= j < i ==> orig[j].number != number,
                forall|j: int|
                    0 <= j < i ==> !(orig[j].number == number && orig[j].active),
            decreases self.generations.len() - i,
        {
            if self.generations[i].number == number {
                if self.generations[i].active {
                    proof {
                        assert(orig[i as int].number == number && orig[i as int].active);
                    }
                    return Err(StoreError::ActiveGeneration);
                }
                found = true;
                proof {
                    assert(orig[i as int].number == number);
                }
            }
            i += 1;
        }
        if !found {
            proof {
                lemma_index_of_number_none(orig, number);
            }
            return Err(StoreError::NotFound);
        }
        proof {
            lemma_index_of_number_some(orig, number);
        }
        let mut kept: Vec<Generation> = Vec::new();
        let mut k: usize = 0;
        while k < self.generations.len()
            invariant
                0 <= k <= self.generations.len(),
                self@ == orig,
                kept@.map_values(|g: Generation| g@) =~= orig.take(k as int).filter(
                    |g: GenerationRecord| g.number != number,
                ),
            decreases self.generations.len() - k,
        {
            proof {
                assert(orig.take(k + 1).drop_last() =~= orig.take(k as int));
                assert(orig.take(k + 1).last() == orig[k as int]);
                reveal_with_fuel(Seq::filter, 2);
            }
            if self.generations[k].number != number {
                kept.push(self.generations[k].duplicate());
            }
            k += 1;
        }
        proof {
            assert(orig.take(self.generations.len() as int) =~= orig);
        }
        self.generations = kept;
        Ok(())
    }
}

/// A store without a carrier of `number` has no index for it.
proof fn lemma_index_of_number_none(s: Seq<GenerationRecord>, number: u64)
    requires
        forall|i: int| 0 <= i < s.len() ==> s[i].number != number,
    ensures
        index_of_number(s, number) is None,
    decreases s.len(),
{
    if s.len() > 0 {
        assert(forall|i: int|
            0 <= i < s.len() - 1 ==> #[trigger] s.drop_first()[i] == s[i + 1]);
        lemma_index_of_number_none(s.drop_first(), number);
    }
}

/// A store with a carrier of `number` has an index for it.
proof fn lemma_index_of_number_some(s: Seq<GenerationRecord>, number: u64)
    requires
        exists|i: int| 0 <= i < s.len() && s[i].number == number,
    ensures
        index_of_number(s, number) is Some,
    decreases s.len(),
{
    if s[0].number != number {
        let w = choose|i: int| 0 <= i < s.len() && s[i].number == number;
        assert(s.drop_first()[w - 1] == s[w]);
        lemma_index_of_number_some(s.drop_first(), number);
    }
}

/// The maximum over a prefix never exceeds the maximum over the whole store.
proof fn lemma_max_number_le(s: Seq<GenerationRecord>, n: int)
    requires
        0 <= n <= s.len(),
    ensures
        max_number(s.take(n)) <= max_number(s),
    decreases s.len() - n,
{
    if n == s.len() {
        assert(s.take(n) =~= s);
    } else {
        lemma_max_number_le(s, n + 1);
        assert(s.take(n + 1).drop_last() =~= s.take(n));
    }
}

/// Every member's number is bounded by the store's maximum, which is never
/// negative.
proof fn lemma_max_number_bounds(s: Seq<GenerationRecord>)
    ensures
        0 <= max_number(s),
        forall|i: int| 0 <= i < s.len() ==> s[i].number <= max_number(s),
    decreases s.len(),
{
    if s.len() > 0 {
        lemma_max_number_bounds(s.drop_last());
        assert(forall|i: int| 0 <= i < s.len() - 1 ==> s[i] == s.drop_last()[i]);
    }
}

/// A non-empty store attains its maximum number.
proof fn lemma_max_number_attained(s: Seq<GenerationRecord>)
    requires
        s.len() > 0,
    ensures
        exists|i: int| 0 <= i < s.len() && s[i].number == max_number(s),
    decreases s.len(),
{
    if s.len() == 1 {
        assert(s.drop_last() =~= Seq::<GenerationRecord>::empty());
        assert(max_number(s.drop_last()) == 0);
        assert(s.last().number >= 0);
        assert(s[s.len() - 1].number == max_number(s));
    } else if s.last().number >= max_number(s.drop_last()) {
        assert(s[s.len() - 1].number == max_number(s));
    } else {
        lemma_max_number_attained(s.drop_last());
        let i = choose|i: int|
            0 <= i < s.len() - 1 && s.drop_last()[i].number == max_number(s.drop_last());
        assert(s[i].number == max_number(s));
    }
}

/// Deactivating members does not change the maximum number.
proof fn lemma_max_number_deactivated(s: Seq<GenerationRecord>)
    ensures
        max_number(s.map_values(|g: GenerationRecord| deactivated(g))) == max_number(s),
    decreases s.len(),
{
    let m = s.map_values(|g: GenerationRecord| deactivated(g));
    if s.len() == 0 {
        assert(m =~= Seq::<GenerationRecord>::empty());
    } else {
        lemma_max_number_deactivated(s.drop_last());
        assert(m.drop_last() =~= s.drop_last().map_values(
            |g: GenerationRecord| deactivated(g),
        ));
        assert(m.last() == deactivated(s.last()));
    }
}

/// Every member of the filtered store is a member of the store.
proof fn lemma_filter_member_of(s: Seq<GenerationRecord>, number: u64, i: int)
    requires
        0 <= i < s.filter(|g: GenerationRecord| g.number != number).len(),
    ensures
        s.contains(s.filter(|g: GenerationRecord| g.number != number)[i]),
    decreases s.len(),
{
    reveal(Seq::filter);
    let pred = |g: GenerationRecord| g.number != number;
    let f = s.filter(pred);
    if s.len() > 0 {
        let sub = s.drop_last().filter(pred);
        if pred(s.last()) && i == f.len() - 1 {
            assert(f[i] == s.last());
            assert(s[s.len() - 1] == s.last());
        } else {
            assert(f[i] == sub[i]);
            lemma_filter_member_of(s.drop_last(), number, i);
            let j = choose|j: int| 0 <= j < s.len() - 1 && s.drop_last()[j] == sub[i];
            assert(s[j] == sub[i]);
        }
    }
}

/// Removing members other than one attaining the maximum keeps the maximum.
proof fn lemma_max_number_filter(s: Seq<GenerationRecord>, number: u64)
    requires
        number != max_number(s),
    ensures
        max_number(s.filter(|g: GenerationRecord| g.number != number)) == max_number(s),
{
    broadcast use vstd::seq_lib::group_filter_ensures;

    let f = s.filter(|g: GenerationRecord| g.number != number);
    lemma_max_number_bounds(s);
    lemma_max_number_bounds(f);
    if s.len() == 0 {
        assert(s =~= Seq::<GenerationRecord>::empty());
        assert(f =~= Seq::<GenerationRecord>::empty());
    } else {
        lemma_max_number_attained(s);
        let i = choose|i: int| 0 <= i < s.len() && s[i].number == max_number(s);
        assert(f.contains(s[i]));
        let j = choose|j: int| 0 <= j < f.len() && f[j] == s[i];
        assert(f[j].number <= max_number(f));
        if f.len() > 0 {
            lemma_max_number_attained(f);
            let k = choose|k: int| 0 <= k < f.len() && f[k].number == max_number(f);
            lemma_filter_member_of(s, number, k);
            let l = choose|l: int| 0 <= l < s.len() && s[l] == f[k];
            assert(f[k].number <= max_number(s));
        }
    }
}

/// One operation of the generation store, at the level of the store's
/// mathematical contents.  `Apply` records one successful apply; the record
/// it carries supplies every field of the new generation except its number
/// and active flag, which the store assigns itself.  `Delete` records one
/// successful delete of the given number.
pub ghost enum StoreOp {
    Apply(GenerationRecord),
    Delete(u64),
}

/// The store contents after one successful apply, exactly as the contract of
/// [`GenerationManager::create_generation`] states them: every previous
/// member deactivated, and a new active member carrying one past the largest
/// number appended.
pub open spec fn create_effect(s: Seq<GenerationRecord>, g: GenerationRecord) -> Seq<
    GenerationRecord,
> {
    s.map_values(|x: GenerationRecord| deactivated(x)).push(
        GenerationRecord {
            number: (max_number(s) + 1) as u64,
            active: true,
            ..g
        },
    )
}

/// The store contents after one successful delete, exactly as the contract
/// of [`GenerationManager::delete_generation`] states them.
pub open spec fn delete_effect(s: Seq<GenerationRecord>, number: u64) -> Seq<
    GenerationRecord,
> {
    s.filter(|g: GenerationRecord| g.number != number)
}

/// Admissible traces: applies have numbering headroom, and no delete removes
/// the largest number present.  (Deleting the largest number and applying
/// again would hand its number out a second time; deleting any other number
/// never causes reuse, which is what this trace condition captures.)
pub open spec fn trace_ok(s: Seq<GenerationRecord>, ops: Seq<StoreOp>) -> bool
    decreases ops.len(),
{
    if ops.len() == 0 {
        true
    } else {
        match ops[0] {
            StoreOp::Apply(g) => max_number(s) < u64::MAX && trace_ok(
                create_effect(s, g),
                ops.drop_first(),
            ),
            StoreOp::Delete(n) => n != max_number(s) && trace_ok(
                delete_effect(s, n),
                ops.drop_first(),
            ),
        }
    }
}

/// How many applies a trace holds.
pub open spec fn count_applies(ops: Seq<StoreOp>) -> int
    decreases ops.len(),
{
    if ops.len() == 0 {
        0
    } else {
        (match ops[0] {
            StoreOp::Apply(_) => 1int,
            StoreOp::Delete(_) => 0int,
        }) + count_applies(ops.drop_first())
    }
}

/// The generation numbers a trace assigns, in creation order.
pub open spec fn assigned_numbers(s: Seq<GenerationRecord>, ops: Seq<StoreOp>) -> Seq<u64>
    decreases ops.len(),
{
    if ops.len() == 0 {
        Seq::empty()
    } else {
        match ops[0] {
            StoreOp::Apply(g) => seq![(max_number(s) + 1) as u64] + assigned_numbers(
                create_effect(s, g),
                ops.drop_first(),
            ),
            StoreOp::Delete(n) => assigned_numbers(delete_effect(s, n), ops.drop_first()),
        }
    }
}

/// Single-active law: one apply leaves exactly one generation active,
/// whatever the store held before.
pub proof fn lemma_create_single_active(s: Seq<GenerationRecord>, g: GenerationRecord)
    ensures
        exactly_one_active(create_effect(s, g)),
{
    let c = create_effect(s, g);
    assert(c[c.len() - 1].active);
    assert(forall|k: int| 0 <= k < c.len() - 1 ==> !c[k].active);
    assert(exists|i: int| 0 <= i < c.len() && c[i].active);
}

/// An apply raises the maximum number by exactly one.
proof fn lemma_create_effect_max(s: Seq<GenerationRecord>, g: GenerationRecord)
    requires
        max_number(s) < u64::MAX,
    ensures
        max_number(create_effect(s, g)) == max_number(s) + 1,
{
    let c = create_effect(s, g);
    lemma_max_number_deactivated(s);
    lemma_max_number_bounds(s);
    assert(c.drop_last() =~= s.map_values(|x: GenerationRecord| deactivated(x)));
    assert(c.last().number == max_number(s) + 1);
}

proof fn lemma_numbering_from(s: Seq<GenerationRecord>, ops: Seq<StoreOp>)
    requires
        trace_ok(s, ops),
    ensures
        assigned_numbers(s, ops).len() == count_applies(ops),
        forall|k: int|
            0 <= k < count_applies(ops) ==> assigned_numbers(s, ops)[k] as int == max_number(
                s,
            ) + 1 + k,
    decreases ops.len(),
{
    if ops.len() > 0 {
        match ops[0] {
            StoreOp::Apply(g) => {
                lemma_create_effect_max(s, g);
                lemma_max_number_bounds(s);
                lemma_numbering_from(create_effect(s, g), ops.drop_first());
            },
            StoreOp::Delete(n) => {
                lemma_max_number_filter(s, n);
                lemma_numbering_from(delete_effect(s, n), ops.drop_first());
            },
        }
    }
}

/// Generation numbering law: starting from an empty store, any admissible
/// sequence of successful applies and deletes assigns the numbers
/// `1, 2, ..., N` to its `N` applies, in creation order — numbers are not
/// reused even when deletions occur between applies, as long as no delete
/// removes the generation carrying the largest number.
pub proof fn lemma_generation_numbering(ops: Seq<StoreOp>)
    requires
        trace_ok(Seq::empty(), ops),
    ensures
        assigned_numbers(Seq::empty(), ops).len() == count_applies(ops),
        forall|k: int|
            0 <= k < count_applies(ops) ==> assigned_numbers(Seq::empty(), ops)[k] as int == k
                + 1,
{
    lemma_numbering_from(Seq::empty(), ops);
}

} // verus!
