use vstd::prelude::*;
use crate::range::{IntervalSet, seq_covers, lemma_canonical, intervals_wf};
use crate::unit::{DataUnit, within_total};

verus! {

/// What the state file of an object records.
pub struct CacheState {
    pub cache_file: Option<String>,
    pub ranges: Vec<(u64, u64)>,
    pub total_size: Option<u64>,
}

/// The record that a state file turns back into: its intervals merged and
/// cut to the object's size.
pub open spec fn restored_ok(u: DataUnit, s: CacheState) -> bool {
    &&& u.wf()
    &&& s.cache_file == Some(u.cache_file)
    &&& u.total_size == s.total_size
    &&& forall|x: int| #[trigger] seq_covers(u.ranges@, x) <==> (seq_covers(s.ranges@, x)
        && (s.total_size matches Some(n) ==> x < n))
}

impl CacheState {
    /// The state that records a record.
    pub fn from_unit(u: &DataUnit) -> (r: CacheState)
        ensures
            r.cache_file == Some(u.cache_file),
            r.ranges@ == u.ranges@,
            r.total_size == u.total_size,
    {
        CacheState { cache_file: Some(u.cache_file.clone()), ranges: u.ranges.to_vec(), total_size: u.total_size }
    }

    /// The record that the state describes, merged and cut to the object's
    /// size; `None` when the state names no data file.
    pub fn to_unit(&self, key: String, state_file: String, now: u64) -> (r: Option<DataUnit>)
        ensures
            r is None <==> self.cache_file is None,
            r is Some ==> restored_ok(r.unwrap(), *self),
            r is Some ==> r.unwrap().key == key && r.unwrap().state_file == state_file
                && r.unwrap().last_accessed == now,
    {
        match &self.cache_file {
            None => None,
            Some(f) => {
                let mut ranges = IntervalSet::from_ranges(self.ranges.as_slice());
                if let Some(n) = self.total_size {
                    ranges.truncate_to(n);
                }
                Some(DataUnit {
                    key,
                    cache_file: f.clone(),
                    state_file,
                    ranges,
                    total_size: self.total_size,
                    last_accessed: now,
                })
            },
        }
    }

    /// The record recovered at startup from a state file and the length of
    /// its data file: discarded when the data file is missing, otherwise its
    /// intervals cut to the bytes that the file really holds.
    pub fn recover(&self, key: String, state_file: String, data_len: Option<u64>, now: u64) -> (r: Option<DataUnit>)
        ensures
            r is None <==> (self.cache_file is None || data_len is None),
            r is Some ==> r.unwrap().wf() && r.unwrap().cache_file == self.cache_file.unwrap()
                && r.unwrap().total_size == self.total_size,
            r is Some ==> forall|x: int| #[trigger] seq_covers(r.unwrap().ranges@, x) <==> (
                seq_covers(self.ranges@, x) && x < data_len.unwrap()
                && (self.total_size matches Some(n) ==> x < n)),
    {
        match data_len {
            None => None,
            Some(len) => match self.to_unit(key, state_file, now) {
                None => None,
                Some(mut u) => {
                    u.ranges.truncate_to(len);
                    Some(u)
                },
            },
        }
    }
}

/// Writing a record's state and reading it back gives the same record:
/// same data file, same size, and the very same intervals.
pub proof fn law_state_round_trip(u: DataUnit, s: CacheState, back: DataUnit)
    requires
        u.wf(),
        s.cache_file == Some(u.cache_file),
        s.ranges@ == u.ranges@,
        s.total_size == u.total_size,
        restored_ok(back, s),
    ensures
        back.cache_file == u.cache_file,
        back.total_size == u.total_size,
        back.ranges@ == u.ranges@,
{
    assert forall|x: int| #[trigger] seq_covers(back.ranges@, x) <==> seq_covers(u.ranges@, x) by {
        if seq_covers(u.ranges@, x) {
            assert(within_total(u.ranges@, u.total_size));
        }
    }
    lemma_canonical(back.ranges@, u.ranges@);
}

/// A state written from a record (merged intervals, none past the size)
/// and put back into the index reads back field by field.
pub proof fn law_cache_state_round_trip(st: CacheState, u: DataUnit)
    requires
        intervals_wf(st.ranges@),
        within_total(st.ranges@, st.total_size),
        restored_ok(u, st),
    ensures
        Some(u.cache_file) == st.cache_file,
        u.ranges@ == st.ranges@,
        u.total_size == st.total_size,
{
    assert forall|x: int| #[trigger] seq_covers(u.ranges@, x) <==> seq_covers(st.ranges@, x) by {
        if seq_covers(st.ranges@, x) {
            assert(within_total(st.ranges@, st.total_size));
        }
    }
    lemma_canonical(u.ranges@, st.ranges@);
}

} // verus!
