use vstd::prelude::*;
use crate::range::{seq_covers, cached_bytes, lemma_canonical};
use crate::unit::DataUnit;
use crate::state::{CacheState, restored_ok};
use crate::text::same_text;

verus! {

/// Whether a record last used at `last` is older than `max_age` at `now`.
pub open spec fn is_expired(last: u64, now: u64, max_age: u64) -> bool {
    last < now && now - last > max_age
}

/// The in-memory index of cached objects, at most one record per key.
pub struct UnitPool {
    units: Vec<DataUnit>,
}

impl UnitPool {
    /// The records, in no particular order.
    pub closed spec fn entries(&self) -> Seq<DataUnit> {
        self.units@
    }

    /// Whether some record has the key.
    pub open spec fn has(&self, k: Seq<char>) -> bool {
        exists|i: int| 0 <= i < self.entries().len() && (#[trigger] self.entries()[i]).key@ == k
    }

    /// The record of a key that the index holds.
    pub open spec fn unit_of(&self, k: Seq<char>) -> DataUnit {
        self.entries()[choose|i: int| 0 <= i < self.entries().len() && (#[trigger] self.entries()[i]).key@ == k]
    }

    pub open spec fn wf(&self) -> bool {
        &&& forall|i: int, j: int| 0 <= i < self.entries().len() && 0 <= j < self.entries().len()
            && (#[trigger] self.entries()[i]).key@ == (#[trigger] self.entries()[j]).key@ ==> i == j
        &&& forall|i: int| 0 <= i < self.entries().len() ==> (#[trigger] self.entries()[i]).wf()
    }

    /// The record at a position is the record of its key.
    pub proof fn lemma_unit_at(&self, i: int)
        requires
            self.wf(),
            0 <= i < self.entries().len(),
        ensures
            self.has(self.entries()[i].key@),
            self.unit_of(self.entries()[i].key@) == self.entries()[i],
    {
        let k = self.entries()[i].key@;
        assert(self.entries()[i].key@ == k);
        let j = choose|j: int| 0 <= j < self.entries().len() && (#[trigger] self.entries()[j]).key@ == k;
        assert(i == j);
    }

    /// An empty index.
    pub fn new() -> (r: UnitPool)
        ensures
            r.wf(),
            forall|k: Seq<char>| !r.has(k),
    {
        UnitPool { units: Vec::new() }
    }

    /// The number of records.
    pub fn len(&self) -> (r: usize)
        ensures
            r == self.entries().len(),
    {
        self.units.len()
    }

    fn find(&self, key: &str) -> (r: Option<usize>)
        ensures
            r is Some ==> r.unwrap() < self.entries().len() && self.entries()[r.unwrap() as int].key@ == key@,
            r is None ==> !self.has(key@),
    {
        let mut i: usize = 0;
        while i < self.units.len()
            invariant
                i <= self.units@.len(),
                forall|k: int| 0 <= k < i ==> (#[trigger] self.units@[k]).key@ != key@,
            decreases self.units@.len() - i,
        {
            if same_text(self.units[i].key.as_str(), key) {
                return Some(i);
            }
            i += 1;
        }
        None
    }

    /// The record of a key, if the index holds one.
    pub fn get_data_unit(&self, key: &str) -> (r: Option<&DataUnit>)
        requires
            self.wf(),
        ensures
            r is Some <==> self.has(key@),
            r is Some ==> *r.unwrap() == self.unit_of(key@),
    {
        match self.find(key) {
            Some(i) => {
                proof {
                    self.lemma_unit_at(i as int);
                }
                Some(&self.units[i])
            },
            None => None,
        }
    }

    /// Records that `[start, end]` of the object `key` stands on disk,
    /// creating its record with the given paths when there is none, and
    /// marks it as used at `now`.
    pub fn update_cache(&mut self, key: &str, cache_file: String, state_file: String, start: u64, end: u64, now: u64)
        requires
            old(self).wf(),
            start <= end,
        ensures
            final(self).wf(),
            final(self).has(key@),
            forall|k: Seq<char>| k != key@ ==> (final(self).has(k) == old(self).has(k)),
            forall|k: Seq<char>| k != key@ && old(self).has(k) ==> final(self).unit_of(k) == old(self).unit_of(k),
            final(self).unit_of(key@).last_accessed == now,
            old(self).has(key@) ==> final(self).unit_of(key@).cache_file == old(self).unit_of(key@).cache_file
                && final(self).unit_of(key@).state_file == old(self).unit_of(key@).state_file
                && final(self).unit_of(key@).total_size == old(self).unit_of(key@).total_size,
            !old(self).has(key@) ==> final(self).unit_of(key@).cache_file == cache_file
                && final(self).unit_of(key@).state_file == state_file
                && final(self).unit_of(key@).total_size is None,
            forall|x: int| #[trigger] seq_covers(final(self).unit_of(key@).ranges@, x) <==> (
                (old(self).has(key@) && seq_covers(old(self).unit_of(key@).ranges@, x))
                || (start <= x && x <= end && (old(self).has(key@) ==> (old(self).unit_of(key@).total_size
                    matches Some(n) ==> x < n)))),
            old(self).has(key@) && (forall|x: int| start <= x && x <= end && (old(self).unit_of(key@).total_size
                matches Some(n) ==> x < n) ==> #[trigger] seq_covers(old(self).unit_of(key@).ranges@, x))
                ==> final(self).unit_of(key@).ranges@ == old(self).unit_of(key@).ranges@,
    {
        let ghost pre = *self;
        match self.find(key) {
            Some(i) => {
                proof {
                    self.lemma_unit_at(i as int);
                }
                let mut u = self.units[i].copy();
                let ghost ou = pre.unit_of(key@);
                u.add_range(start, end, now);
                proof {
                    if forall|x: int| start <= x && x <= end && (ou.total_size matches Some(n) ==> x < n)
                        ==> #[trigger] seq_covers(ou.ranges@, x) {
                        assert forall|x: int| #[trigger] seq_covers(u.ranges@, x) <==> seq_covers(ou.ranges@, x) by {
                            if start <= x && x <= end && (ou.total_size matches Some(n) ==> x < n) {
                                assert(seq_covers(ou.ranges@, x));
                            }
                        }
                        lemma_canonical(u.ranges@, ou.ranges@);
                    }
                }
                self.units.set(i, u);
                proof {
                    assert forall|a: int, b: int| 0 <= a < self.entries().len() && 0 <= b < self.entries().len()
                        && (#[trigger] self.entries()[a]).key@ == (#[trigger] self.entries()[b]).key@ implies a == b by {
                        assert(pre.entries()[a].key@ == pre.entries()[b].key@);
                    }
                    assert forall|a: int| 0 <= a < self.entries().len() implies (#[trigger] self.entries()[a]).wf() by {
                        if a != i {
                            assert(self.entries()[a] == pre.entries()[a]);
                        }
                    }
                    self.lemma_unit_at(i as int);
                    assert forall|k: Seq<char>| k != key@ implies (self.has(k) == pre.has(k)) by {
                        if self.has(k) {
                            let a = choose|a: int| 0 <= a < self.entries().len() && (#[trigger] self.entries()[a]).key@ == k;
                            assert(pre.entries()[a].key@ == k);
                        }
                        if pre.has(k) {
                            let a = choose|a: int| 0 <= a < pre.entries().len() && (#[trigger] pre.entries()[a]).key@ == k;
                            assert(self.entries()[a].key@ == k);
                        }
                    }
                    assert forall|k: Seq<char>| k != key@ && pre.has(k) implies self.unit_of(k) == pre.unit_of(k) by {
                        let a = choose|a: int| 0 <= a < pre.entries().len() && (#[trigger] pre.entries()[a]).key@ == k;
                        pre.lemma_unit_at(a);
                        assert(self.entries()[a] == pre.entries()[a]);
                        self.lemma_unit_at(a);
                    }
                }
            },
            None => {
                let mut u = DataUnit::new(key.to_string(), cache_file, state_file, now);
                u.add_range(start, end, now);
                self.units.push(u);
                proof {
                    let n = pre.entries().len() as int;
                    assert(self.entries()[n].key@ == key@);
                    assert forall|a: int, b: int| 0 <= a < self.entries().len() && 0 <= b < self.entries().len()
                        && (#[trigger] self.entries()[a]).key@ == (#[trigger] self.entries()[b]).key@ implies a == b by {
                        if a < n && b == n {
                            assert(pre.entries()[a].key@ == key@);
                        } else if b < n && a == n {
                            assert(pre.entries()[b].key@ == key@);
                        } else if a < n && b < n {
                            assert(pre.entries()[a].key@ == pre.entries()[b].key@);
                        }
                    }
                    assert forall|a: int| 0 <= a < self.entries().len() implies (#[trigger] self.entries()[a]).wf() by {
                        if a < n {
                            assert(self.entries()[a] == pre.entries()[a]);
                        }
                    }
                    self.lemma_unit_at(n);
                    assert forall|k: Seq<char>| k != key@ implies (self.has(k) == pre.has(k)) by {
                        if self.has(k) {
                            let a = choose|a: int| 0 <= a < self.entries().len() && (#[trigger] self.entries()[a]).key@ == k;
                            assert(pre.entries()[a].key@ == k);
                        }
                        if pre.has(k) {
                            let a = choose|a: int| 0 <= a < pre.entries().len() && (#[trigger] pre.entries()[a]).key@ == k;
                            assert(self.entries()[a].key@ == k);
                        }
                    }
                    assert forall|k: Seq<char>| k != key@ && pre.has(k) implies self.unit_of(k) == pre.unit_of(k) by {
                        let a = choose|a: int| 0 <= a < pre.entries().len() && (#[trigger] pre.entries()[a]).key@ == k;
                        pre.lemma_unit_at(a);
                        assert(self.entries()[a] == pre.entries()[a]);
                        self.lemma_unit_at(a);
                    }
                    assert forall|x: int| #[trigger] seq_covers(Seq::<(u64, u64)>::empty(), x) implies false by {}
                }
            },
        }
    }

    /// Takes the record of a key out of the index; the caller then deletes
    /// the two files that it names.
    pub fn remove(&mut self, key: &str) -> (r: Option<DataUnit>)
        requires
            old(self).wf(),
        ensures
            final(self).wf(),
            !final(self).has(key@),
            r is Some <==> old(self).has(key@),
            r is Some ==> r.unwrap() == old(self).unit_of(key@),
            forall|k: Seq<char>| k != key@ ==> (final(self).has(k) == old(self).has(k)),
            forall|k: Seq<char>| k != key@ && old(self).has(k) ==> final(self).unit_of(k) == old(self).unit_of(k),
            r is None ==> final(self).entries() == old(self).entries(),
            r is Some ==> exists|i: int| 0 <= i < old(self).entries().len() && old(self).entries()[i].key@ == key@
                && final(self).entries() == old(self).entries().remove(i),
    {
        let ghost pre = *self;
        match self.find(key) {
            Some(i) => {
                proof {
                    self.lemma_unit_at(i as int);
                }
                let u = self.units.remove(i);
                assert(self.entries() == pre.entries().remove(i as int));
                proof {
                    let ii = i as int;
                    assert forall|a: int| 0 <= a < self.entries().len() implies (#[trigger] self.entries()[a])
                        == pre.entries()[if a < ii { a } else { a + 1 }] by {}
                    assert forall|a: int, b: int| 0 <= a < self.entries().len() && 0 <= b < self.entries().len()
                        && (#[trigger] self.entries()[a]).key@ == (#[trigger] self.entries()[b]).key@ implies a == b by {
                        let aa = if a < ii { a } else { a + 1 };
                        let bb = if b < ii { b } else { b + 1 };
                        assert(pre.entries()[aa].key@ == pre.entries()[bb].key@);
                    }
                    assert forall|a: int| 0 <= a < self.entries().len() implies (#[trigger] self.entries()[a]).wf() by {
                        let aa = if a < ii { a } else { a + 1 };
                        assert(pre.entries()[aa].wf());
                    }
                    if self.has(key@) {
                        let a = choose|a: int| 0 <= a < self.entries().len() && (#[trigger] self.entries()[a]).key@ == key@;
                        let aa = if a < ii { a } else { a + 1 };
                        assert(pre.entries()[aa].key@ == pre.entries()[ii].key@);
                    }
                    assert forall|k: Seq<char>| k != key@ implies (self.has(k) == pre.has(k)) by {
                        if self.has(k) {
                            let a = choose|a: int| 0 <= a < self.entries().len() && (#[trigger] self.entries()[a]).key@ == k;
                            let aa = if a < ii { a } else { a + 1 };
                            assert(pre.entries()[aa].key@ == k);
                        }
                        if pre.has(k) {
                            let a = choose|a: int| 0 <= a < pre.entries().len() && (#[trigger] pre.entries()[a]).key@ == k;
                            assert(a != ii);
                            let na = if a < ii { a } else { a - 1 };
                            assert(self.entries()[na].key@ == k);
                        }
                    }
                    assert forall|k: Seq<char>| k != key@ && pre.has(k) implies self.unit_of(k) == pre.unit_of(k) by {
                        let a = choose|a: int| 0 <= a < pre.entries().len() && (#[trigger] pre.entries()[a]).key@ == k;
                        assert(a != ii);
                        pre.lemma_unit_at(a);
                        let na = if a < ii { a } else { a - 1 };
                        assert(self.entries()[na] == pre.entries()[a]);
                        self.lemma_unit_at(na);
                    }
                }
                Some(u)
            },
            None => None,
        }
    }

    /// Puts a recovered record into the index, in place of any record with
    /// the same key.
    pub fn restore(&mut self, unit: DataUnit)
        requires
            old(self).wf(),
            unit.wf(),
        ensures
            final(self).wf(),
            final(self).has(unit.key@),
            final(self).unit_of(unit.key@) == unit,
            forall|k: Seq<char>| k != unit.key@ ==> (final(self).has(k) == old(self).has(k)),
            forall|k: Seq<char>| k != unit.key@ && old(self).has(k) ==> final(self).unit_of(k) == old(self).unit_of(k),
    {
        let ghost pre = *self;
        let ghost k0 = unit.key@;
        match self.find(unit.key.as_str()) {
            Some(i) => {
                proof {
                    self.lemma_unit_at(i as int);
                }
                self.units.set(i, unit);
                proof {
                    assert forall|a: int, b: int| 0 <= a < self.entries().len() && 0 <= b < self.entries().len()
                        && (#[trigger] self.entries()[a]).key@ == (#[trigger] self.entries()[b]).key@ implies a == b by {
                        assert(pre.entries()[a].key@ == pre.entries()[b].key@);
                    }
                    assert forall|a: int| 0 <= a < self.entries().len() implies (#[trigger] self.entries()[a]).wf() by {
                        if a != i {
                            assert(self.entries()[a] == pre.entries()[a]);
                        }
                    }
                    self.lemma_unit_at(i as int);
                    assert forall|k: Seq<char>| k != k0 implies (self.has(k) == pre.has(k)) by {
                        if self.has(k) {
                            let a = choose|a: int| 0 <= a < self.entries().len() && (#[trigger] self.entries()[a]).key@ == k;
                            assert(pre.entries()[a].key@ == k);
                        }
                        if pre.has(k) {
                            let a = choose|a: int| 0 <= a < pre.entries().len() && (#[trigger] pre.entries()[a]).key@ == k;
                            assert(self.entries()[a].key@ == k);
                        }
                    }
                    assert forall|k: Seq<char>| k != k0 && pre.has(k) implies self.unit_of(k) == pre.unit_of(k) by {
                        let a = choose|a: int| 0 <= a < pre.entries().len() && (#[trigger] pre.entries()[a]).key@ == k;
                        pre.lemma_unit_at(a);
                        assert(self.entries()[a] == pre.entries()[a]);
                        self.lemma_unit_at(a);
                    }
                }
            },
            None => {
                self.units.push(unit);
                proof {
                    let n = pre.entries().len() as int;
                    assert(self.entries()[n].key@ == k0);
                    assert forall|a: int, b: int| 0 <= a < self.entries().len() && 0 <= b < self.entries().len()
                        && (#[trigger] self.entries()[a]).key@ == (#[trigger] self.entries()[b]).key@ implies a == b by {
                        if a < n && b == n {
                            assert(pre.entries()[a].key@ == k0);
                        } else if b < n && a == n {
                            assert(pre.entries()[b].key@ == k0);
                        } else if a < n && b < n {
                            assert(pre.entries()[a].key@ == pre.entries()[b].key@);
                        }
                    }
                    assert forall|a: int| 0 <= a < self.entries().len() implies (#[trigger] self.entries()[a]).wf() by {
                        if a < n {
                            assert(self.entries()[a] == pre.entries()[a]);
                        }
                    }
                    self.lemma_unit_at(n);
                    assert forall|k: Seq<char>| k != k0 implies (self.has(k) == pre.has(k)) by {
                        if self.has(k) {
                            let a = choose|a: int| 0 <= a < self.entries().len() && (#[trigger] self.entries()[a]).key@ == k;
                            assert(pre.entries()[a].key@ == k);
                        }
                        if pre.has(k) {
                            let a = choose|a: int| 0 <= a < pre.entries().len() && (#[trigger] pre.entries()[a]).key@ == k;
                            assert(self.entries()[a].key@ == k);
                        }
                    }
                    assert forall|k: Seq<char>| k != k0 && pre.has(k) implies self.unit_of(k) == pre.unit_of(k) by {
                        let a = choose|a: int| 0 <= a < pre.entries().len() && (#[trigger] pre.entries()[a]).key@ == k;
                        pre.lemma_unit_at(a);
                        assert(self.entries()[a] == pre.entries()[a]);
                        self.lemma_unit_at(a);
                    }
                }
            },
        }
    }

    /// Opens the record of an object on a request: marks it as used at `now`
    /// or, when the index holds none, creates it with the given paths and
    /// nothing cached.
    pub fn open_unit(&mut self, key: &str, cache_file: String, state_file: String, now: u64)
        requires
            old(self).wf(),
        ensures
            final(self).wf(),
            final(self).has(key@),
            forall|k: Seq<char>| k != key@ ==> (final(self).has(k) == old(self).has(k)),
            forall|k: Seq<char>| k != key@ && old(self).has(k) ==> final(self).unit_of(k) == old(self).unit_of(k),
            final(self).unit_of(key@).last_accessed == now,
            old(self).has(key@) ==> final(self).unit_of(key@).cache_file == old(self).unit_of(key@).cache_file
                && final(self).unit_of(key@).state_file == old(self).unit_of(key@).state_file
                && final(self).unit_of(key@).ranges@ == old(self).unit_of(key@).ranges@
                && final(self).unit_of(key@).total_size == old(self).unit_of(key@).total_size,
            !old(self).has(key@) ==> final(self).unit_of(key@).cache_file == cache_file
                && final(self).unit_of(key@).state_file == state_file
                && final(self).unit_of(key@).ranges@ == Seq::<(u64, u64)>::empty()
                && final(self).unit_of(key@).total_size is None,
    {
        if !self.touch(key, now) {
            let u = DataUnit::new(key.to_string(), cache_file, state_file, now);
            self.restore(u);
        }
    }

    /// The state that the index holds for an object: what its state file
    /// is to record.
    pub fn get_cache_state(&self, key: &str) -> (r: Option<CacheState>)
        requires
            self.wf(),
        ensures
            r is Some <==> self.has(key@),
            r is Some ==> r.unwrap().cache_file == Some(self.unit_of(key@).cache_file)
                && r.unwrap().ranges@ == self.unit_of(key@).ranges@
                && r.unwrap().total_size == self.unit_of(key@).total_size,
    {
        match self.get_data_unit(key) {
            Some(u) => Some(CacheState::from_unit(u)),
            None => None,
        }
    }

    /// Puts the record that a state describes into the index, in place of
    /// any record of the key; returns whether the state names a data file.
    pub fn update_cache_state(&mut self, key: &str, state: &CacheState, state_file: String, now: u64) -> (r: bool)
        requires
            old(self).wf(),
        ensures
            final(self).wf(),
            r == state.cache_file is Some,
            !r ==> forall|k: Seq<char>| final(self).has(k) == old(self).has(k),
            !r ==> forall|k: Seq<char>| old(self).has(k) ==> final(self).unit_of(k) == old(self).unit_of(k),
            r ==> final(self).has(key@) && restored_ok(final(self).unit_of(key@), *state)
                && final(self).unit_of(key@).last_accessed == now,
            r ==> forall|k: Seq<char>| k != key@ ==> (final(self).has(k) == old(self).has(k)),
            r ==> forall|k: Seq<char>| k != key@ && old(self).has(k) ==> final(self).unit_of(k) == old(self).unit_of(k),
    {
        match state.to_unit(key.to_string(), state_file, now) {
            Some(u) => {
                self.restore(u);
                true
            },
            None => false,
        }
    }

    /// Marks the record of a key as used at `now`; returns whether the index
    /// holds it.
    pub fn touch(&mut self, key: &str, now: u64) -> (r: bool)
        requires
            old(self).wf(),
        ensures
            final(self).wf(),
            r == old(self).has(key@),
            forall|k: Seq<char>| final(self).has(k) == old(self).has(k),
            forall|k: Seq<char>| k != key@ && old(self).has(k) ==> final(self).unit_of(k) == old(self).unit_of(k),
            r ==> final(self).unit_of(key@).last_accessed == now
                && final(self).unit_of(key@).key == old(self).unit_of(key@).key
                && final(self).unit_of(key@).cache_file == old(self).unit_of(key@).cache_file
                && final(self).unit_of(key@).state_file == old(self).unit_of(key@).state_file
                && final(self).unit_of(key@).ranges@ == old(self).unit_of(key@).ranges@
                && final(self).unit_of(key@).total_size == old(self).unit_of(key@).total_size,
    {
        match self.find(key) {
            Some(i) => {
                proof {
                    self.lemma_unit_at(i as int);
                }
                let mut u = self.units[i].copy();
                u.update_access_time(now);
                self.restore(u);
                true
            },
            None => false,
        }
    }

    /// Records the size of the whole object `key`, if the index holds it;
    /// returns whether it did.
    pub fn set_total_size(&mut self, key: &str, size: u64) -> (r: bool)
        requires
            old(self).wf(),
        ensures
            final(self).wf(),
            r == old(self).has(key@),
            forall|k: Seq<char>| final(self).has(k) == old(self).has(k),
            forall|k: Seq<char>| k != key@ && old(self).has(k) ==> final(self).unit_of(k) == old(self).unit_of(k),
            r ==> final(self).unit_of(key@).total_size == Some(size)
                && final(self).unit_of(key@).cache_file == old(self).unit_of(key@).cache_file
                && final(self).unit_of(key@).state_file == old(self).unit_of(key@).state_file
                && (forall|x: int| #[trigger] seq_covers(final(self).unit_of(key@).ranges@, x) <==> (
                    seq_covers(old(self).unit_of(key@).ranges@, x) && x < size)),
    {
        let ghost pre = *self;
        match self.find(key) {
            Some(i) => {
                proof {
                    self.lemma_unit_at(i as int);
                }
                let mut u = self.units[i].copy();
                u.set_total_size(size);
                self.units.set(i, u);
                proof {
                    assert forall|a: int, b: int| 0 <= a < self.entries().len() && 0 <= b < self.entries().len()
                        && (#[trigger] self.entries()[a]).key@ == (#[trigger] self.entries()[b]).key@ implies a == b by {
                        assert(pre.entries()[a].key@ == pre.entries()[b].key@);
                    }
                    assert forall|a: int| 0 <= a < self.entries().len() implies (#[trigger] self.entries()[a]).wf() by {
                        if a != i {
                            assert(self.entries()[a] == pre.entries()[a]);
                        }
                    }
                    self.lemma_unit_at(i as int);
                    assert forall|k: Seq<char>| self.has(k) == pre.has(k) by {
                        if self.has(k) {
                            let a = choose|a: int| 0 <= a < self.entries().len() && (#[trigger] self.entries()[a]).key@ == k;
                            assert(pre.entries()[a].key@ == k);
                        }
                        if pre.has(k) {
                            let a = choose|a: int| 0 <= a < pre.entries().len() && (#[trigger] pre.entries()[a]).key@ == k;
                            assert(self.entries()[a].key@ == k);
                        }
                    }
                    assert forall|k: Seq<char>| k != key@ && pre.has(k) implies self.unit_of(k) == pre.unit_of(k) by {
                        let a = choose|a: int| 0 <= a < pre.entries().len() && (#[trigger] pre.entries()[a]).key@ == k;
                        pre.lemma_unit_at(a);
                        assert(self.entries()[a] == pre.entries()[a]);
                        self.lemma_unit_at(a);
                    }
                }
                true
            },
            None => false,
        }
    }

    /// The keys of the records that were last used more than `max_age`
    /// seconds before `now`.
    pub fn expired_keys(&self, now: u64, max_age: u64) -> (r: Vec<String>)
        requires
            self.wf(),
        ensures
            forall|k: Seq<char>| #[trigger] listed(r@, k) <==> (self.has(k)
                && is_expired(self.unit_of(k).last_accessed, now, max_age)),
    {
        let mut out: Vec<String> = Vec::new();
        let mut i: usize = 0;
        while i < self.units.len()
            invariant
                self.wf(),
                i <= self.entries().len(),
                forall|k: Seq<char>| #[trigger] listed(out@, k) <==> expired_among(self.entries(), i as int, k, now, max_age),
            decreases self.entries().len() - i,
        {
            let u = &self.units[i];
            let ghost before = out@;
            let ghost e = self.entries();
            if u.last_accessed < now && now - u.last_accessed > max_age {
                out.push(u.key.clone());
                proof {
                    assert forall|k: Seq<char>| #[trigger] listed(out@, k) <==> expired_among(e, i + 1, k, now, max_age) by {
                        if listed(out@, k) {
                            let p = choose|p: int| 0 <= p < out@.len() && (#[trigger] out@[p])@ == k;
                            if p < before.len() {
                                assert(before[p]@ == k);
                                assert(listed(before, k));
                                let j = choose|j: int| 0 <= j < i && (#[trigger] e[j]).key@ == k
                                    && is_expired(e[j].last_accessed, now, max_age);
                                assert(e[j].key@ == k);
                            } else {
                                assert(e[i as int].key@ == k);
                            }
                        }
                        if expired_among(e, i + 1, k, now, max_age) {
                            let j = choose|j: int| 0 <= j < i + 1 && (#[trigger] e[j]).key@ == k
                                && is_expired(e[j].last_accessed, now, max_age);
                            if j < i {
                                assert(expired_among(e, i as int, k, now, max_age));
                                assert(listed(before, k));
                                let p = choose|p: int| 0 <= p < before.len() && (#[trigger] before[p])@ == k;
                                assert(out@[p]@ == k);
                            } else {
                                assert(out@[before.len() as int]@ == k);
                            }
                        }
                    }
                }
            } else {
                proof {
                    assert forall|k: Seq<char>| #[trigger] listed(out@, k) <==> expired_among(e, i + 1, k, now, max_age) by {
                        if listed(out@, k) {
                            assert(expired_among(e, i as int, k, now, max_age));
                            let j = choose|j: int| 0 <= j < i && (#[trigger] e[j]).key@ == k
                                && is_expired(e[j].last_accessed, now, max_age);
                            assert(e[j].key@ == k);
                        }
                        if expired_among(e, i + 1, k, now, max_age) {
                            let j = choose|j: int| 0 <= j < i + 1 && (#[trigger] e[j]).key@ == k
                                && is_expired(e[j].last_accessed, now, max_age);
                            assert(j < i);
                            assert(expired_among(e, i as int, k, now, max_age));
                        }
                    }
                }
            }
            i += 1;
        }
        proof {
            let e = self.entries();
            assert forall|k: Seq<char>| #[trigger] listed(out@, k) <==> (self.has(k)
                && is_expired(self.unit_of(k).last_accessed, now, max_age)) by {
                assert(listed(out@, k) == expired_among(e, e.len() as int, k, now, max_age));
                if self.has(k) {
                    let j = choose|j: int| 0 <= j < e.len() && (#[trigger] e[j]).key@ == k;
                    self.lemma_unit_at(j);
                }
                if expired_among(e, e.len() as int, k, now, max_age) {
                    let j = choose|j: int| 0 <= j < e.len() && (#[trigger] e[j]).key@ == k
                        && is_expired(e[j].last_accessed, now, max_age);
                    self.lemma_unit_at(j);
                }
            }
        }
        out
    }

    /// The keys of the records that hold more than `max_size` bytes.
    pub fn oversized_keys(&self, max_size: u64) -> (r: Vec<String>)
        requires
            self.wf(),
        ensures
            forall|k: Seq<char>| #[trigger] listed(r@, k) <==> (self.has(k)
                && unit_size(self.unit_of(k)) > max_size),
    {
        let mut out: Vec<String> = Vec::new();
        let mut i: usize = 0;
        while i < self.units.len()
            invariant
                self.wf(),
                i <= self.entries().len(),
                forall|k: Seq<char>| #[trigger] listed(out@, k) <==> oversized_among(self.entries(), i as int, k, max_size),
            decreases self.entries().len() - i,
        {
            let u = &self.units[i];
            let ghost before = out@;
            let ghost e = self.entries();
            proof {
                assert(e[i as int].wf());
            }
            if u.ranges.cached_size() > max_size {
                out.push(u.key.clone());
                proof {
                    assert forall|k: Seq<char>| #[trigger] listed(out@, k) <==> oversized_among(e, i + 1, k, max_size) by {
                        if listed(out@, k) {
                            let p = choose|p: int| 0 <= p < out@.len() && (#[trigger] out@[p])@ == k;
                            if p < before.len() {
                                assert(before[p]@ == k);
                                assert(listed(before, k));
                                let j = choose|j: int| 0 <= j < i && (#[trigger] e[j]).key@ == k
                                    && unit_size(e[j]) > max_size;
                                assert(e[j].key@ == k);
                            } else {
                                assert(e[i as int].key@ == k);
                            }
                        }
                        if oversized_among(e, i + 1, k, max_size) {
                            let j = choose|j: int| 0 <= j < i + 1 && (#[trigger] e[j]).key@ == k
                                && unit_size(e[j]) > max_size;
                            if j < i {
                                assert(oversized_among(e, i as int, k, max_size));
                                assert(listed(before, k));
                                let p = choose|p: int| 0 <= p < before.len() && (#[trigger] before[p])@ == k;
                                assert(out@[p]@ == k);
                            } else {
                                assert(out@[before.len() as int]@ == k);
                            }
                        }
                    }
                }
            } else {
                proof {
                    assert forall|k: Seq<char>| #[trigger] listed(out@, k) <==> oversized_among(e, i + 1, k, max_size) by {
                        if listed(out@, k) {
                            assert(oversized_among(e, i as int, k, max_size));
                            let j = choose|j: int| 0 <= j < i && (#[trigger] e[j]).key@ == k
                                && unit_size(e[j]) > max_size;
                            assert(e[j].key@ == k);
                        }
                        if oversized_among(e, i + 1, k, max_size) {
                            let j = choose|j: int| 0 <= j < i + 1 && (#[trigger] e[j]).key@ == k
                                && unit_size(e[j]) > max_size;
                            assert(j < i);
                            assert(oversized_among(e, i as int, k, max_size));
                        }
                    }
                }
            }
            i += 1;
        }
        proof {
            let e = self.entries();
            assert forall|k: Seq<char>| #[trigger] listed(out@, k) <==> (self.has(k)
                && unit_size(self.unit_of(k)) > max_size) by {
                assert(listed(out@, k) == oversized_among(e, e.len() as int, k, max_size));
                if self.has(k) {
                    let j = choose|j: int| 0 <= j < e.len() && (#[trigger] e[j]).key@ == k;
                    self.lemma_unit_at(j);
                }
                if oversized_among(e, e.len() as int, k, max_size) {
                    let j = choose|j: int| 0 <= j < e.len() && (#[trigger] e[j]).key@ == k
                        && unit_size(e[j]) > max_size;
                    self.lemma_unit_at(j);
                }
            }
        }
        out
    }
}

/// Whether one of the first `n` records has key `k` and holds more than
/// `max_size` bytes.
pub open spec fn oversized_among(e: Seq<DataUnit>, n: int, k: Seq<char>, max_size: u64) -> bool {
    exists|j: int| 0 <= j < n && (#[trigger] e[j]).key@ == k && unit_size(e[j]) > max_size
}

/// Whether some text of the list is `k`.
pub open spec fn listed(list: Seq<String>, k: Seq<char>) -> bool {
    exists|p: int| 0 <= p < list.len() && (#[trigger] list[p])@ == k
}

/// Whether one of the first `n` records has key `k` and is expired.
pub open spec fn expired_among(e: Seq<DataUnit>, n: int, k: Seq<char>, now: u64, max_age: u64) -> bool {
    exists|j: int| 0 <= j < n && (#[trigger] e[j]).key@ == k && is_expired(e[j].last_accessed, now, max_age)
}

/// The bytes that a record holds, capped at `u64::MAX`.
pub open spec fn unit_size(u: DataUnit) -> int {
    if cached_bytes(u.ranges@) > u64::MAX { u64::MAX as int } else { cached_bytes(u.ranges@) }
}

/// The bytes that a sequence of records holds.
pub open spec fn total_size(e: Seq<DataUnit>) -> int
    decreases e.len(),
{
    if e.len() == 0 {
        0
    } else {
        total_size(e.drop_last()) + unit_size(e.last())
    }
}

proof fn lemma_unit_size(u: DataUnit)
    requires
        u.wf(),
    ensures
        0 <= unit_size(u) <= u64::MAX,
{
    crate::range::lemma_cached_bytes_bound(u.ranges@);
}

proof fn lemma_total_size_remove(e: Seq<DataUnit>, i: int)
    requires
        0 <= i < e.len(),
    ensures
        total_size(e.remove(i)) == total_size(e) - unit_size(e[i]),
    decreases e.len(),
{
    if i < e.len() - 1 {
        lemma_total_size_remove(e.drop_last(), i);
        assert(e.remove(i).drop_last() =~= e.drop_last().remove(i));
        assert(e.remove(i).last() == e.last());
    } else {
        assert(e.remove(i) =~= e.drop_last());
    }
}

impl UnitPool {
    /// The bytes that all records hold.
    pub fn total_cached(&self) -> (r: u128)
        requires
            self.wf(),
        ensures
            r == total_size(self.entries()),
    {
        let ghost e = self.entries();
        let mut acc: u128 = 0;
        let mut i: usize = 0;
        while i < self.units.len()
            invariant
                self.wf(),
                e == self.entries(),
                i <= e.len(),
                acc == total_size(e.take(i as int)),
                0 <= acc <= i * 0xFFFF_FFFF_FFFF_FFFFu128,
            decreases e.len() - i,
        {
            let sz = self.units[i].ranges.cached_size();
            proof {
                assert(e[i as int].wf());
                lemma_unit_size(e[i as int]);
                assert(e.take(i as int + 1).drop_last() =~= e.take(i as int));
            }
            acc = acc + sz as u128;
            i += 1;
        }
        assert(e.take(i as int) =~= e);
        acc
    }

    fn oldest_index(&self) -> (r: usize)
        requires
            self.entries().len() > 0,
        ensures
            r < self.entries().len(),
            forall|j: int| 0 <= j < self.entries().len() ==> self.entries()[r as int].last_accessed
                <= (#[trigger] self.entries()[j]).last_accessed,
    {
        let mut best: usize = 0;
        let mut i: usize = 1;
        while i < self.units.len()
            invariant
                1 <= i <= self.entries().len(),
                best < i,
                forall|j: int| 0 <= j < i ==> self.entries()[best as int].last_accessed
                    <= (#[trigger] self.entries()[j]).last_accessed,
            decreases self.entries().len() - i,
        {
            if self.units[i].last_accessed < self.units[best].last_accessed {
                best = i;
            }
            i += 1;
        }
        best
    }

    /// Takes out least recently used records until the rest holds at most
    /// `max_total` bytes, and returns them so that their files can be
    /// deleted.
    pub fn evict_lru(&mut self, max_total: u64) -> (r: Vec<DataUnit>)
        requires
            old(self).wf(),
        ensures
            final(self).wf(),
            total_size(final(self).entries()) <= max_total || final(self).entries().len() == 0,
            r@.len() == 0 <==> total_size(old(self).entries()) <= max_total,
            r@.len() > 0 ==> total_size(final(self).entries()) + unit_size(r@.last()) > max_total,
            forall|k: Seq<char>| final(self).has(k) ==> old(self).has(k) && final(self).unit_of(k) == old(self).unit_of(k),
            forall|p: int| 0 <= p < r@.len() ==> !final(self).has((#[trigger] r@[p]).key@)
                && old(self).has(r@[p].key@) && old(self).unit_of(r@[p].key@) == r@[p],
            forall|k: Seq<char>| old(self).has(k) && !final(self).has(k) ==> exists|p: int| 0 <= p < r@.len()
                && (#[trigger] r@[p]).key@ == k,
            forall|p: int, k: Seq<char>| 0 <= p < r@.len() && final(self).has(k) ==> (#[trigger] r@[p]).last_accessed
                <= (#[trigger] final(self).unit_of(k)).last_accessed,
            forall|p: int, q: int| 0 <= p < q < r@.len() ==> (#[trigger] r@[p]).last_accessed
                <= (#[trigger] r@[q]).last_accessed,
    {
        let ghost pre = *self;
        let mut out: Vec<DataUnit> = Vec::new();
        let mut total = self.total_cached();
        while total > max_total as u128 && self.units.len() > 0
            invariant
                self.wf(),
                total == total_size(self.entries()),
                out@.len() == 0 ==> total_size(pre.entries()) == total,
                out@.len() > 0 ==> total_size(pre.entries()) > max_total,
                out@.len() > 0 ==> total + unit_size(out@.last()) > max_total,
                forall|k: Seq<char>| self.has(k) ==> pre.has(k) && self.unit_of(k) == pre.unit_of(k),
                forall|p: int| 0 <= p < out@.len() ==> !self.has((#[trigger] out@[p]).key@)
                    && pre.has(out@[p].key@) && pre.unit_of(out@[p].key@) == out@[p],
                forall|k: Seq<char>| pre.has(k) && !self.has(k) ==> exists|p: int| 0 <= p < out@.len()
                    && (#[trigger] out@[p]).key@ == k,
                forall|p: int, k: Seq<char>| 0 <= p < out@.len() && self.has(k) ==> (#[trigger] out@[p]).last_accessed
                    <= (#[trigger] self.unit_of(k)).last_accessed,
                forall|p: int, q: int| 0 <= p < q < out@.len() ==> (#[trigger] out@[p]).last_accessed
                    <= (#[trigger] out@[q]).last_accessed,
            decreases self.entries().len(),
        {
            let j = self.oldest_index();
            let key = self.units[j].key.clone();
            let ghost before = *self;
            let ghost e = self.entries();
            proof {
                self.lemma_unit_at(j as int);
                assert forall|k: Seq<char>| self.has(k) implies e[j as int].last_accessed
                    <= self.unit_of(k).last_accessed by {
                    let a = choose|a: int| 0 <= a < e.len() && (#[trigger] e[a]).key@ == k;
                    self.lemma_unit_at(a);
                }
            }
            let removed = self.remove(key.as_str());
            let u = removed.unwrap();
            proof {
                let i = choose|i: int| 0 <= i < e.len() && e[i].key@ == key@ && self.entries() == e.remove(i);
                assert(e[i].key@ == e[j as int].key@);
                assert(i == j);
                lemma_total_size_remove(e, i);
                lemma_unit_size(e[i]);
                assert forall|a: int| 0 <= a < self.entries().len() implies (#[trigger] self.entries()[a]).wf() by {}
                lemma_total_size_nonneg(self.entries());
                assert(u == e[j as int]);
                assert(e[j as int].wf());
            }
            proof {
                assert(before.has(key@));
                assert forall|p: int| 0 <= p < out@.len() implies (#[trigger] out@[p]).last_accessed
                    <= u.last_accessed by {
                    assert(out@[p].last_accessed <= before.unit_of(key@).last_accessed);
                }
            }
            let sz = u.ranges.cached_size();
            let ghost before_out = out@;
            out.push(u);
            total = total - sz as u128;
            proof {
                assert(out@.last() == u);
                assert forall|p: int| 0 <= p < out@.len() implies !self.has((#[trigger] out@[p]).key@)
                    && pre.has(out@[p].key@) && pre.unit_of(out@[p].key@) == out@[p] by {
                    if p < before_out.len() {
                        assert(out@[p] == before_out[p]);
                        assert(!before.has(before_out[p].key@));
                    } else {
                        assert(out@[p] == u);
                    }
                }
                assert forall|k: Seq<char>| pre.has(k) && !self.has(k) implies exists|p: int| 0 <= p < out@.len()
                    && (#[trigger] out@[p]).key@ == k by {
                    if before.has(k) {
                        assert(k == key@);
                        assert(out@[before_out.len() as int].key@ == k);
                    } else {
                        let p = choose|p: int| 0 <= p < before_out.len() && (#[trigger] before_out[p]).key@ == k;
                        assert(out@[p] == before_out[p]);
                    }
                }
                assert forall|p: int, q: int| 0 <= p < q < out@.len() implies (#[trigger] out@[p]).last_accessed
                    <= (#[trigger] out@[q]).last_accessed by {
                    assert(out@[p] == before_out[p]);
                    if q < before_out.len() {
                        assert(out@[q] == before_out[q]);
                    }
                }
                assert forall|p: int, k: Seq<char>| 0 <= p < out@.len() && self.has(k) implies (#[trigger] out@[p]).last_accessed
                    <= (#[trigger] self.unit_of(k)).last_accessed by {
                    assert(k != key@);
                    assert(before.has(k));
                    if p < before_out.len() {
                        assert(out@[p] == before_out[p]);
                    } else {
                        assert(out@[p] == u);
                    }
                }
            }
        }
        if self.units.len() == 0 {
            assert(total_size(self.entries()) == 0);
        }
        out
    }
}

proof fn lemma_total_size_nonneg(e: Seq<DataUnit>)
    requires
        forall|a: int| 0 <= a < e.len() ==> (#[trigger] e[a]).wf(),
    ensures
        total_size(e) >= 0,
    decreases e.len(),
{
    if e.len() > 0 {
        lemma_total_size_nonneg(e.drop_last());
        lemma_unit_size(e.last());
    }
}

} // verus!
