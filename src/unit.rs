use vstd::prelude::*;
use crate::range::{IntervalSet, seq_covers, one_spans};

verus! {

/// What the cache holds of one object.
pub struct DataUnit {
    /// The cache key of the object.
    pub key: String,
    /// The sparse data file.
    pub cache_file: String,
    /// The JSON state file.
    pub state_file: String,
    /// The byte intervals that stand on disk.
    pub ranges: IntervalSet,
    /// The size of the whole object, once the origin has told it.
    pub total_size: Option<u64>,
    /// When the object was last read or written, in seconds.
    pub last_accessed: u64,
}

/// No cached byte lies at or beyond the object's size, when it is known.
pub open spec fn within_total(r: Seq<(u64, u64)>, total: Option<u64>) -> bool {
    total matches Some(n) ==> forall|x: int| #[trigger] seq_covers(r, x) ==> x < n
}

impl DataUnit {
    pub open spec fn wf(&self) -> bool {
        self.ranges.wf() && within_total(self.ranges@, self.total_size)
    }

    /// A record with nothing cached yet.
    pub fn new(key: String, cache_file: String, state_file: String, now: u64) -> (r: DataUnit)
        ensures
            r.wf(),
            r.key == key,
            r.cache_file == cache_file,
            r.state_file == state_file,
            r.ranges@ == Seq::<(u64, u64)>::empty(),
            r.total_size is None,
            r.last_accessed == now,
    {
        DataUnit {
            key,
            cache_file,
            state_file,
            ranges: IntervalSet::new(),
            total_size: None,
            last_accessed: now,
        }
    }

    /// An equal copy.
    pub fn copy(&self) -> (r: DataUnit)
        ensures
            r.key == self.key,
            r.cache_file == self.cache_file,
            r.state_file == self.state_file,
            r.ranges@ == self.ranges@,
            r.total_size == self.total_size,
            r.last_accessed == self.last_accessed,
    {
        DataUnit {
            key: self.key.clone(),
            cache_file: self.cache_file.clone(),
            state_file: self.state_file.clone(),
            ranges: self.ranges.copy(),
            total_size: self.total_size,
            last_accessed: self.last_accessed,
        }
    }

    /// Records that `[start, end]` stands on disk, cut to the object's size
    /// when it is known, and marks the record as used at `now`.
    pub fn add_range(&mut self, start: u64, end: u64, now: u64)
        requires
            old(self).wf(),
            start <= end,
        ensures
            final(self).wf(),
            final(self).key == old(self).key,
            final(self).cache_file == old(self).cache_file,
            final(self).state_file == old(self).state_file,
            final(self).total_size == old(self).total_size,
            final(self).last_accessed == now,
            forall|x: int| #[trigger] seq_covers(final(self).ranges@, x) <==> (seq_covers(old(self).ranges@, x)
                || (start <= x && x <= end && (old(self).total_size matches Some(n) ==> x < n))),
    {
        self.last_accessed = now;
        match self.total_size {
            Some(n) => {
                if start < n {
                    let e = if end < n - 1 { end } else { n - 1 };
                    self.ranges.add(start, e);
                }
            },
            None => {
                self.ranges.add(start, end);
            },
        }
    }

    /// Records the size of the whole object and drops any interval part
    /// that lies beyond it.
    pub fn set_total_size(&mut self, size: u64)
        requires
            old(self).wf(),
        ensures
            final(self).wf(),
            final(self).key == old(self).key,
            final(self).cache_file == old(self).cache_file,
            final(self).state_file == old(self).state_file,
            final(self).last_accessed == old(self).last_accessed,
            final(self).total_size == Some(size),
            forall|x: int| #[trigger] seq_covers(final(self).ranges@, x) <==> (seq_covers(old(self).ranges@, x)
                && x < size),
    {
        self.ranges.truncate_to(size);
        self.total_size = Some(size);
    }

    /// Marks the record as used at `now`.
    pub fn update_access_time(&mut self, now: u64)
        ensures
            final(self).last_accessed == now,
            final(self).key == old(self).key,
            final(self).cache_file == old(self).cache_file,
            final(self).state_file == old(self).state_file,
            final(self).ranges@ == old(self).ranges@,
            final(self).total_size == old(self).total_size,
    {
        self.last_accessed = now;
    }

    /// Whether a single cached interval spans `[start, end]`.
    pub fn contains_range(&self, start: u64, end: u64) -> (r: bool)
        ensures
            r == (start <= end && one_spans(self.ranges@, start as int, end as int)),
    {
        self.ranges.contains(start, end)
    }

    /// Whether some cached interval overlaps `[start, end]`.
    pub fn partially_contains_range(&self, start: u64, end: u64) -> (r: bool)
        ensures
            r == (start <= end && exists|i: int| 0 <= i < self.ranges@.len()
                && !(end < (#[trigger] self.ranges@[i]).0 || start > self.ranges@[i].1)),
    {
        if end < start {
            return false;
        }
        let n = self.ranges.len();
        let mut i: usize = 0;
        while i < n
            invariant
                n == self.ranges@.len(),
                start <= end,
                i <= n,
                forall|k: int| 0 <= k < i ==> end < (#[trigger] self.ranges@[k]).0
                    || start > self.ranges@[k].1,
            decreases n - i,
        {
            let (a, b) = self.ranges.get(i);
            if !(end < a || start > b) {
                return true;
            }
            i += 1;
        }
        false
    }

    /// Whether the whole object is cached as one interval.
    pub fn is_fully_cached(&self) -> (r: bool)
        ensures
            r == (self.total_size matches Some(n) && n > 0 && self.ranges@.len() == 1
                && self.ranges@[0].0 == 0 && self.ranges@[0].1 == n - 1),
    {
        self.ranges.is_fully_cached(self.total_size)
    }

    /// The sub-ranges of `[start, end]` that are not cached, in order.
    pub fn get_missing_ranges(&self, start: u64, end: u64) -> (r: Vec<(u64, u64)>)
        requires
            self.wf(),
            start <= end,
        ensures
            forall|p: int| 0 <= p < r@.len() ==> start <= (#[trigger] r@[p]).0 && r@[p].0 <= r@[p].1
                && r@[p].1 <= end,
            forall|p: int, q: int| 0 <= p < q < r@.len() ==> (#[trigger] r@[p]).1 + 1 < (#[trigger] r@[q]).0,
            forall|x: int| #[trigger] seq_covers(r@, x) <==> (start <= x && x <= end
                && !seq_covers(self.ranges@, x)),
    {
        self.ranges.missing(start, end)
    }
}

} // verus!
