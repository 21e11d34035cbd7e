use vstd::prelude::*;
use crate::error::ProxyError;
use crate::text::{chars_of, parse_decimal_u64, is_decimal_u64, digits_value, has_prefix, matches_at};
use vstd::slice::slice_subrange;

verus! {

/// The end offset that stands for a range without an upper bound.
pub const SENTINEL_OPEN: u64 = 0xffff_ffff_ffff_ffff;

/// Whether the inclusive interval holds the point.
pub open spec fn ival_has(iv: (u64, u64), x: int) -> bool {
    iv.0 <= x && x <= iv.1
}

/// Whether some interval of the sequence holds the point.
pub open spec fn seq_covers(r: Seq<(u64, u64)>, x: int) -> bool {
    exists|i: int| 0 <= i < r.len() && #[trigger] ival_has(r[i], x)
}

/// Sorted, each non-empty, and separated by at least one missing byte.
pub open spec fn intervals_wf(r: Seq<(u64, u64)>) -> bool {
    &&& forall|i: int| 0 <= i < r.len() ==> (#[trigger] r[i]).0 <= r[i].1
    &&& forall|i: int, j: int|
        0 <= i < j < r.len() ==> (#[trigger] r[i]).1 + 1 < (#[trigger] r[j]).0
}

/// Whether one interval of the sequence spans all of `[s, e]`.
pub open spec fn one_spans(r: Seq<(u64, u64)>, s: int, e: int) -> bool {
    exists|i: int| 0 <= i < r.len() && (#[trigger] r[i]).0 <= s && e <= r[i].1
}

/// Whether every point of `[s, e]` is held by some interval.
pub open spec fn all_covered(r: Seq<(u64, u64)>, s: int, e: int) -> bool {
    forall|x: int| s <= x <= e ==> #[trigger] seq_covers(r, x)
}

/// In a well-formed set, one interval spans `[s, e]` exactly when the union does.
pub proof fn lemma_span_iff_covered(r: Seq<(u64, u64)>, s: int, e: int)
    requires
        intervals_wf(r),
        s <= e,
    ensures
        one_spans(r, s, e) <==> all_covered(r, s, e),
{
    if one_spans(r, s, e) {
        let i = choose|i: int| 0 <= i < r.len() && (#[trigger] r[i]).0 <= s && e <= r[i].1;
        assert forall|x: int| s <= x <= e implies #[trigger] seq_covers(r, x) by {
            assert(ival_has(r[i], x));
        }
    }
    if all_covered(r, s, e) {
        assert(seq_covers(r, s));
        let i = choose|i: int| 0 <= i < r.len() && #[trigger] ival_has(r[i], s);
        if r[i].1 < e {
            let x = r[i].1 + 1;
            assert(seq_covers(r, x));
            let j = choose|j: int| 0 <= j < r.len() && #[trigger] ival_has(r[j], x);
            if j < i {
                assert(r[j].1 + 1 < r[i].0);
            } else if j > i {
                assert(r[i].1 + 1 < r[j].0);
            }
        }
        assert(r[i].0 <= s && e <= r[i].1);
    }
}

/// Two well-formed interval sequences that hold the same bytes are equal.
pub proof fn lemma_canonical(r1: Seq<(u64, u64)>, r2: Seq<(u64, u64)>)
    requires
        intervals_wf(r1),
        intervals_wf(r2),
        forall|x: int| #[trigger] seq_covers(r1, x) <==> seq_covers(r2, x),
    ensures
        r1 == r2,
    decreases r1.len() + r2.len(),
{
    if r1.len() == 0 || r2.len() == 0 {
        if r1.len() > 0 {
            assert(ival_has(r1[0], r1[0].0 as int));
            assert(seq_covers(r1, r1[0].0 as int));
            assert(seq_covers(r2, r1[0].0 as int));
        }
        if r2.len() > 0 {
            assert(ival_has(r2[0], r2[0].0 as int));
            assert(seq_covers(r2, r2[0].0 as int));
            assert(seq_covers(r1, r2[0].0 as int));
        }
        assert(r1 =~= r2);
    } else {
        let a = r1[0];
        let b = r2[0];
        assert(ival_has(r1[0], a.0 as int));
        assert(seq_covers(r1, a.0 as int));
        assert(seq_covers(r2, a.0 as int));
        let j = choose|j: int| 0 <= j < r2.len() && #[trigger] ival_has(r2[j], a.0 as int);
        lemma_sorted_starts(r2, 0, j);
        assert(ival_has(r2[0], b.0 as int));
        assert(seq_covers(r1, b.0 as int));
        let k = choose|k: int| 0 <= k < r1.len() && #[trigger] ival_has(r1[k], b.0 as int);
        lemma_sorted_starts(r1, 0, k);
        assert(a.0 == b.0);
        if a.1 < b.1 {
            assert(ival_has(r2[0], a.1 + 1));
            assert(seq_covers(r1, a.1 + 1));
            let m = choose|m: int| 0 <= m < r1.len() && #[trigger] ival_has(r1[m], a.1 + 1);
            if m > 0 {
                assert(r1[0].1 + 1 < r1[m].0);
            }
        }
        if b.1 < a.1 {
            assert(ival_has(r1[0], b.1 + 1));
            assert(seq_covers(r1, b.1 + 1));
            assert(seq_covers(r2, b.1 + 1));
            let m = choose|m: int| 0 <= m < r2.len() && #[trigger] ival_has(r2[m], b.1 + 1);
            if m > 0 {
                assert(r2[0].1 + 1 < r2[m].0);
            }
        }
        assert(a == b);
        let t1 = r1.skip(1);
        let t2 = r2.skip(1);
        assert forall|x: int| #[trigger] seq_covers(t1, x) <==> (seq_covers(r1, x) && x > a.1) by {
            if seq_covers(t1, x) {
                let p = choose|p: int| 0 <= p < t1.len() && #[trigger] ival_has(t1[p], x);
                assert(ival_has(r1[p + 1], x));
                assert(r1[0].1 + 1 < r1[p + 1].0);
            }
            if seq_covers(r1, x) && x > a.1 {
                let p = choose|p: int| 0 <= p < r1.len() && #[trigger] ival_has(r1[p], x);
                assert(p != 0);
                assert(ival_has(t1[p - 1], x));
            }
        }
        assert forall|x: int| #[trigger] seq_covers(t2, x) <==> (seq_covers(r2, x) && x > b.1) by {
            if seq_covers(t2, x) {
                let p = choose|p: int| 0 <= p < t2.len() && #[trigger] ival_has(t2[p], x);
                assert(ival_has(r2[p + 1], x));
                assert(r2[0].1 + 1 < r2[p + 1].0);
            }
            if seq_covers(r2, x) && x > b.1 {
                let p = choose|p: int| 0 <= p < r2.len() && #[trigger] ival_has(r2[p], x);
                assert(p != 0);
                assert(ival_has(t2[p - 1], x));
            }
        }
        assert(intervals_wf(t1)) by {
            assert forall|i: int, j: int| 0 <= i < j < t1.len() implies
                (#[trigger] t1[i]).1 + 1 < (#[trigger] t1[j]).0 by {
                assert(r1[i + 1].1 + 1 < r1[j + 1].0);
            }
        }
        assert(intervals_wf(t2)) by {
            assert forall|i: int, j: int| 0 <= i < j < t2.len() implies
                (#[trigger] t2[i]).1 + 1 < (#[trigger] t2[j]).0 by {
                assert(r2[i + 1].1 + 1 < r2[j + 1].0);
            }
        }
        lemma_canonical(t1, t2);
        assert(r1 =~= seq![a] + t1);
        assert(r2 =~= seq![b] + t2);
    }
}

/// After any sequence of insertions, a single interval spans `[s, e]`
/// exactly when every byte of `[s, e]` lies in one of the inserted intervals.
pub proof fn law_contains_after_adds(set: Seq<(u64, u64)>, inserted: Seq<(u64, u64)>, s: int, e: int)
    requires
        intervals_wf(set),
        forall|x: int| #[trigger] seq_covers(set, x) <==> seq_covers(inserted, x),
        s <= e,
    ensures
        one_spans(set, s, e) <==> (forall|x: int| s <= x <= e ==> #[trigger] seq_covers(inserted, x)),
{
    lemma_span_iff_covered(set, s, e);
    if forall|x: int| s <= x <= e ==> #[trigger] seq_covers(inserted, x) {
        assert forall|x: int| s <= x <= e implies #[trigger] seq_covers(set, x) by {
            assert(seq_covers(inserted, x));
        }
        assert(all_covered(set, s, e));
    }
    if one_spans(set, s, e) {
        assert(all_covered(set, s, e));
        assert forall|x: int| s <= x <= e implies #[trigger] seq_covers(inserted, x) by {
            assert(seq_covers(set, x));
        }
    }
}

/// Inserting the same interval a second time leaves the set unchanged, and
/// the set stays merged.
pub proof fn law_add_twice(before: Seq<(u64, u64)>, once: Seq<(u64, u64)>, twice: Seq<(u64, u64)>,
    s: int, e: int)
    requires
        intervals_wf(before),
        intervals_wf(once),
        intervals_wf(twice),
        forall|x: int| #[trigger] seq_covers(once, x) <==> (seq_covers(before, x) || (s <= x && x <= e)),
        forall|x: int| #[trigger] seq_covers(twice, x) <==> (seq_covers(once, x) || (s <= x && x <= e)),
    ensures
        twice == once,
        intervals_wf(twice),
{
    assert forall|x: int| #[trigger] seq_covers(twice, x) <==> seq_covers(once, x) by {}
    lemma_canonical(twice, once);
}

/// The number of bytes that the intervals hold.
pub open spec fn cached_bytes(r: Seq<(u64, u64)>) -> int
    decreases r.len(),
{
    if r.len() == 0 {
        0
    } else {
        cached_bytes(r.drop_last()) + (r.last().1 - r.last().0 + 1)
    }
}

/// The bytes of a well-formed sequence fit below its last end.
pub proof fn lemma_cached_bytes_bound(r: Seq<(u64, u64)>)
    requires
        intervals_wf(r),
    ensures
        0 <= cached_bytes(r),
        r.len() > 0 ==> cached_bytes(r) <= r.last().1 + 1,
    decreases r.len(),
{
    if r.len() > 0 {
        let p = r.drop_last();
        assert(intervals_wf(p)) by {
            assert forall|i: int, j: int| 0 <= i < j < p.len() implies (#[trigger] p[i]).1 + 1 < (#[trigger] p[j]).0 by {
                assert(r[i].1 + 1 < r[j].0);
            }
        }
        lemma_cached_bytes_bound(p);
        assert(r.last().0 <= r.last().1);
        if p.len() > 0 {
            assert(r[p.len() - 1].1 + 1 < r[r.len() - 1].0);
        }
    }
}

/// A set of inclusive byte intervals, kept sorted, disjoint and non-adjacent.
pub struct IntervalSet {
    ranges: Vec<(u64, u64)>,
}

impl View for IntervalSet {
    type V = Seq<(u64, u64)>;

    closed spec fn view(&self) -> Seq<(u64, u64)> {
        self.ranges@
    }
}

proof fn lemma_sorted_starts(r: Seq<(u64, u64)>, i: int, k: int)
    requires
        intervals_wf(r),
        0 <= i <= k < r.len(),
    ensures
        r[i].0 <= r[k].0,
        r[i].1 <= r[k].1,
{
    if i < k {
        assert(r[i].1 + 1 < r[k].0);
        assert(r[i].0 <= r[i].1);
        assert(r[k].0 <= r[k].1);
    }
}

impl IntervalSet {
    pub open spec fn wf(&self) -> bool {
        intervals_wf(self@)
    }

    /// Whether some interval holds the byte offset.
    pub open spec fn covers(&self, x: int) -> bool {
        seq_covers(self@, x)
    }

    /// The empty set.
    pub fn new() -> (r: IntervalSet)
        ensures
            r.wf(),
            r@ == Seq::<(u64, u64)>::empty(),
    {
        IntervalSet { ranges: Vec::new() }
    }

    /// The number of intervals.
    pub fn len(&self) -> (r: usize)
        ensures
            r == self@.len(),
    {
        self.ranges.len()
    }

    /// The interval at an index.
    pub fn get(&self, i: usize) -> (r: (u64, u64))
        requires
            i < self@.len(),
        ensures
            r == self@[i as int],
    {
        self.ranges[i]
    }

    /// A copy of the intervals, in order.
    pub fn to_vec(&self) -> (r: Vec<(u64, u64)>)
        ensures
            r@ == self@,
    {
        let mut r: Vec<(u64, u64)> = Vec::new();
        let mut i: usize = 0;
        while i < self.ranges.len()
            invariant
                i <= self.ranges@.len(),
                r@ == self.ranges@.subrange(0, i as int),
            decreases self.ranges@.len() - i,
        {
            r.push(self.ranges[i]);
            i += 1;
        }
        assert(r@ =~= self.ranges@);
        r
    }

    /// An equal copy of the set.
    pub fn copy(&self) -> (r: IntervalSet)
        ensures
            r@ == self@,
    {
        IntervalSet { ranges: self.to_vec() }
    }

    /// Inserts `[start, end]`, merging it with every interval that it
    /// overlaps or touches.
    pub fn add(&mut self, start: u64, end: u64)
        requires
            old(self).wf(),
            start <= end,
        ensures
            final(self).wf(),
            forall|x: int| #[trigger] seq_covers(final(self)@, x) <==> (seq_covers(old(self)@, x)
                || (start <= x && x <= end)),
    {
        let ghost r = self.ranges@;
        let n = self.ranges.len();
        let mut i: usize = 0;
        while i < n && start > 0 && self.ranges[i].1 < start - 1
            invariant
                r == self.ranges@,
                n == r.len(),
                intervals_wf(r),
                i <= n,
                forall|k: int| 0 <= k < i ==> (#[trigger] r[k]).1 + 1 < start,
            decreases n - i,
        {
            i += 1;
        }
        let mut j: usize = i;
        let mut cs: u64 = start;
        let mut ce: u64 = end;
        while j < n && (end == u64::MAX || self.ranges[j].0 <= end + 1)
            invariant
                r == self.ranges@,
                n == r.len(),
                intervals_wf(r),
                start <= end,
                i <= j <= n,
                j == i ==> cs == start && ce == end,
                j > i ==> cs == (if r[i as int].0 < start { r[i as int].0 } else { start }),
                j > i ==> ce == (if r[j - 1].1 > end { r[j - 1].1 } else { end }),
                forall|k: int| i <= k < j ==> (#[trigger] r[k]).0 <= end + 1,
            decreases n - j,
        {
            let (a, b) = self.ranges[j];
            if j == i && a < cs {
                cs = a;
            }
            proof {
                if j > i {
                    lemma_sorted_starts(r, j - 1, j as int);
                }
            }
            if b > ce {
                ce = b;
            }
            j += 1;
        }
        let mut out: Vec<(u64, u64)> = Vec::new();
        let mut k: usize = 0;
        while k < i
            invariant
                r == self.ranges@,
                i <= n,
                n == r.len(),
                k <= i,
                out@ == r.subrange(0, k as int),
            decreases i - k,
        {
            out.push(self.ranges[k]);
            k += 1;
        }
        out.push((cs, ce));
        let mut k: usize = j;
        while k < n
            invariant
                r == self.ranges@,
                n == r.len(),
                j <= k <= n,
                out@ == r.subrange(0, i as int) + seq![(cs, ce)] + r.subrange(j as int, k as int),
            decreases n - k,
        {
            out.push(self.ranges[k]);
            k += 1;
            assert(out@ =~= r.subrange(0, i as int) + seq![(cs, ce)] + r.subrange(j as int, k as int));
        }
        let ghost o = out@;
        proof {
            let ii = i as int;
            let jj = j as int;
            assert(o.len() == ii + 1 + (n - jj));
            assert forall|p: int| 0 <= p < ii implies o[p] == r[p] by {}
            assert(o[ii] == (cs, ce));
            assert forall|p: int| ii < p < o.len() implies o[p] == r[p - ii - 1 + jj] by {}
            // bounds of the merged interval
            assert(cs <= start && end <= ce);
            if ii < n {
                assert(r[ii].1 + 1 >= start);
            }
            if jj < n {
                assert(end + 1 < r[jj].0);
            }
            assert forall|p: int| 0 <= p < o.len() implies (#[trigger] o[p]).0 <= o[p].1 by {
                if p > ii {
                    assert(o[p] == r[p - ii - 1 + jj]);
                }
            }
            assert forall|p: int, q: int| 0 <= p < q < o.len() implies
                (#[trigger] o[p]).1 + 1 < (#[trigger] o[q]).0 by {
                if q < ii {
                } else if q == ii {
                    assert(r[p].1 + 1 < start);
                    if jj > ii {
                        assert(r[p].1 + 1 < r[ii].0);
                    }
                } else {
                    let qq = q - ii - 1 + jj;
                    assert(o[q] == r[qq]);
                    lemma_sorted_starts(r, jj, qq);
                    if p < ii {
                        assert(r[p].1 + 1 < r[qq].0);
                    } else if p == ii {
                        if jj > ii {
                            assert(r[jj - 1].1 + 1 < r[qq].0);
                        }
                    } else {
                        let pp = p - ii - 1 + jj;
                        assert(o[p] == r[pp]);
                    }
                }
            }
            assert forall|x: int| #[trigger] seq_covers(o, x) <==> (seq_covers(r, x)
                || (start <= x && x <= end)) by {
                if seq_covers(o, x) {
                    let p = choose|p: int| 0 <= p < o.len() && #[trigger] ival_has(o[p], x);
                    if p < ii {
                        assert(ival_has(r[p], x));
                    } else if p == ii {
                        if x < start {
                            assert(ival_has(r[ii], x));
                        } else if x > end {
                            assert(ival_has(r[jj - 1], x));
                        }
                    } else {
                        assert(ival_has(r[p - ii - 1 + jj], x));
                    }
                }
                if seq_covers(r, x) {
                    let m = choose|m: int| 0 <= m < r.len() && #[trigger] ival_has(r[m], x);
                    if m < ii {
                        assert(ival_has(o[m], x));
                    } else if m >= jj {
                        assert(o[m - jj + ii + 1] == r[m]);
                        assert(ival_has(o[m - jj + ii + 1], x));
                    } else {
                        lemma_sorted_starts(r, ii, m);
                        lemma_sorted_starts(r, m, jj - 1);
                        assert(ival_has(o[ii], x));
                    }
                }
                if start <= x && x <= end {
                    assert(ival_has(o[ii], x));
                }
            }
        }
        self.ranges = out;
    }

    /// Whether a single interval spans all of `[start, end]`.
    pub fn contains(&self, start: u64, end: u64) -> (r: bool)
        ensures
            r == (start <= end && one_spans(self@, start as int, end as int)),
    {
        if end < start {
            return false;
        }
        let mut i: usize = 0;
        while i < self.ranges.len()
            invariant
                start <= end,
                i <= self.ranges@.len(),
                forall|k: int| 0 <= k < i ==> !((#[trigger] self.ranges@[k]).0 <= start
                    && end <= self.ranges@[k].1),
            decreases self.ranges@.len() - i,
        {
            let (a, b) = self.ranges[i];
            if a <= start && end <= b {
                assert(self@[i as int].0 <= start && end <= self@[i as int].1);
                return true;
            }
            i += 1;
        }
        false
    }

    /// The end of the cached run that begins at `start`, capped at `end`:
    /// `None` when `start` itself is missing.
    pub fn covered_run_end(&self, start: u64, end: u64) -> (r: Option<u64>)
        requires
            self.wf(),
            start <= end,
        ensures
            r is None <==> !seq_covers(self@, start as int),
            r matches Some(c) ==> start <= c && c <= end && all_covered(self@, start as int, c as int)
                && (c < end ==> !seq_covers(self@, c + 1)),
    {
        let ghost r = self.ranges@;
        let mut i: usize = 0;
        while i < self.ranges.len()
            invariant
                r == self.ranges@,
                intervals_wf(r),
                start <= end,
                i <= r.len(),
                forall|k: int| 0 <= k < i ==> !ival_has(#[trigger] r[k], start as int),
            decreases r.len() - i,
        {
            let (a, b) = self.ranges[i];
            if a <= start && start <= b {
                let c = if b < end { b } else { end };
                proof {
                    assert(ival_has(r[i as int], start as int));
                    assert forall|x: int| start <= x <= c implies #[trigger] seq_covers(r, x) by {
                        assert(ival_has(r[i as int], x));
                    }
                    if c < end {
                        if seq_covers(r, c + 1) {
                            let m = choose|m: int| 0 <= m < r.len() && #[trigger] ival_has(r[m], c + 1);
                            if m < i {
                                assert(r[m].1 + 1 < r[i as int].0);
                            } else if m > i {
                                assert(r[i as int].1 + 1 < r[m].0);
                            }
                        }
                    }
                }
                return Some(c);
            }
            i += 1;
        }
        proof {
            if seq_covers(r, start as int) {
                let m = choose|m: int| 0 <= m < r.len() && #[trigger] ival_has(r[m], start as int);
            }
        }
        None
    }

    /// Whether the set is exactly one interval from byte zero to the last
    /// byte of an object of the given total size.
    pub fn is_fully_cached(&self, total_size: Option<u64>) -> (r: bool)
        ensures
            r == (total_size matches Some(n) && n > 0 && self@.len() == 1 && self@[0].0 == 0
                && self@[0].1 == n - 1),
    {
        match total_size {
            Some(n) => n > 0 && self.ranges.len() == 1 && self.ranges[0].0 == 0
                && self.ranges[0].1 == n - 1,
            None => false,
        }
    }

    /// The set that holds every byte of the given intervals; entries whose
    /// start lies after their end hold nothing.
    pub fn from_ranges(list: &[(u64, u64)]) -> (r: IntervalSet)
        ensures
            r.wf(),
            forall|x: int| #[trigger] seq_covers(r@, x) <==> seq_covers(list@, x),
    {
        let mut set = IntervalSet::new();
        let mut i: usize = 0;
        while i < list.len()
            invariant
                i <= list@.len(),
                set.wf(),
                forall|x: int| #[trigger] seq_covers(set@, x) <==> seq_covers(list@.subrange(0, i as int), x),
            decreases list@.len() - i,
        {
            let (a, b) = list[i];
            let ghost before = set@;
            if a <= b {
                set.add(a, b);
            }
            proof {
                let pre = list@.subrange(0, i as int);
                let post = list@.subrange(0, i as int + 1);
                assert forall|x: int| #[trigger] seq_covers(post, x) <==> (seq_covers(pre, x)
                    || ival_has(list@[i as int], x)) by {
                    if seq_covers(post, x) {
                        let p = choose|p: int| 0 <= p < post.len() && #[trigger] ival_has(post[p], x);
                        if p < i {
                            assert(ival_has(pre[p], x));
                        }
                    }
                    if seq_covers(pre, x) {
                        let p = choose|p: int| 0 <= p < pre.len() && #[trigger] ival_has(pre[p], x);
                        assert(ival_has(post[p], x));
                    }
                    if ival_has(list@[i as int], x) {
                        assert(ival_has(post[i as int], x));
                    }
                }
            }
            i += 1;
        }
        assert(list@.subrange(0, i as int) =~= list@);
        set
    }

    /// Cuts the set down to the bytes below `len`, the length of the data
    /// file that actually stands on disk.
    pub fn truncate_to(&mut self, len: u64)
        requires
            old(self).wf(),
        ensures
            final(self).wf(),
            forall|x: int| #[trigger] seq_covers(final(self)@, x) <==> (seq_covers(old(self)@, x)
                && x < len),
    {
        let ghost r = self.ranges@;
        let mut out: Vec<(u64, u64)> = Vec::new();
        let mut i: usize = 0;
        while i < self.ranges.len()
            invariant
                r == self.ranges@,
                intervals_wf(r),
                i <= r.len(),
                out@.len() <= i,
                forall|p: int| 0 <= p < out@.len() ==> (#[trigger] out@[p]).0 <= out@[p].1,
                forall|p: int, q: int| 0 <= p < q < out@.len() ==> (#[trigger] out@[p]).1 + 1
                    < (#[trigger] out@[q]).0,
                forall|p: int| 0 <= p < out@.len() ==> exists|m: int| 0 <= m < i
                    && (#[trigger] out@[p]).0 == r[m].0 && out@[p].1 <= r[m].1,
                forall|x: int| #[trigger] seq_covers(out@, x) <==> (seq_covers(r.subrange(0, i as int), x)
                    && x < len),
            decreases r.len() - i,
        {
            let (a, b) = self.ranges[i];
            let ghost before = out@;
            let ghost pre = r.subrange(0, i as int);
            let ghost post = r.subrange(0, i as int + 1);
            proof {
                assert forall|x: int| #[trigger] seq_covers(post, x) <==> (seq_covers(pre, x)
                    || ival_has(r[i as int], x)) by {
                    if seq_covers(post, x) {
                        let p = choose|p: int| 0 <= p < post.len() && #[trigger] ival_has(post[p], x);
                        if p < i {
                            assert(ival_has(pre[p], x));
                        }
                    }
                    if seq_covers(pre, x) {
                        let p = choose|p: int| 0 <= p < pre.len() && #[trigger] ival_has(pre[p], x);
                        assert(ival_has(post[p], x));
                    }
                    if ival_has(r[i as int], x) {
                        assert(ival_has(post[i as int], x));
                    }
                }
            }
            if a < len {
                let e = if b < len - 1 { b } else { len - 1 };
                out.push((a, e));
                proof {
                    assert forall|p: int| 0 <= p < before.len() implies (#[trigger] before[p]).1 + 1 < a by {
                        let m = choose|m: int| 0 <= m < i && (#[trigger] before[p]).0 == r[m].0
                            && before[p].1 <= r[m].1;
                        assert(r[m].1 + 1 < r[i as int].0);
                    }
                    assert(out@[before.len() as int] == (a, e));
                    assert forall|p: int| 0 <= p < out@.len() implies exists|m: int| 0 <= m < i + 1
                        && (#[trigger] out@[p]).0 == r[m].0 && out@[p].1 <= r[m].1 by {
                        if p < before.len() {
                            assert(out@[p] == before[p]);
                        } else {
                            assert(out@[p].0 == r[i as int].0);
                        }
                    }
                    assert forall|x: int| #[trigger] seq_covers(out@, x) <==> (seq_covers(before, x)
                        || (a <= x && x <= e)) by {
                        if seq_covers(out@, x) {
                            let p = choose|p: int| 0 <= p < out@.len() && #[trigger] ival_has(out@[p], x);
                            if p < before.len() {
                                assert(ival_has(before[p], x));
                            }
                        }
                        if seq_covers(before, x) {
                            let p = choose|p: int| 0 <= p < before.len() && #[trigger] ival_has(before[p], x);
                            assert(ival_has(out@[p], x));
                        }
                        if a <= x && x <= e {
                            assert(ival_has(out@[before.len() as int], x));
                        }
                    }
                }
            }
            i += 1;
        }
        assert(r.subrange(0, i as int) =~= r);
        self.ranges = out;
    }

    /// The number of cached bytes, capped at `u64::MAX`.
    pub fn cached_size(&self) -> (r: u64)
        requires
            self.wf(),
        ensures
            r == (if cached_bytes(self@) > u64::MAX { u64::MAX as int } else { cached_bytes(self@) }),
    {
        let ghost r = self.ranges@;
        let mut acc: u128 = 0;
        let mut i: usize = 0;
        while i < self.ranges.len()
            invariant
                r == self.ranges@,
                intervals_wf(r),
                i <= r.len(),
                acc == cached_bytes(r.subrange(0, i as int)),
                i > 0 ==> acc <= r[i - 1].1 + 1,
            decreases r.len() - i,
        {
            let (a, b) = self.ranges[i];
            proof {
                let p = r.subrange(0, i as int + 1);
                assert(p.drop_last() =~= r.subrange(0, i as int));
                if i > 0 {
                    assert(r[i - 1].1 + 1 < r[i as int].0);
                }
            }
            acc = acc + (b - a) as u128 + 1;
            i += 1;
        }
        assert(r.subrange(0, i as int) =~= r);
        if acc > u64::MAX as u128 {
            u64::MAX
        } else {
            acc as u64
        }
    }

    /// The sub-ranges of `[start, end]` that no interval holds, in order.
    pub fn missing(&self, start: u64, end: u64) -> (r: Vec<(u64, u64)>)
        requires
            self.wf(),
            start <= end,
        ensures
            forall|p: int| 0 <= p < r@.len() ==> start <= (#[trigger] r@[p]).0 && r@[p].0 <= r@[p].1
                && r@[p].1 <= end,
            forall|p: int, q: int| 0 <= p < q < r@.len() ==> (#[trigger] r@[p]).1 + 1 < (#[trigger] r@[q]).0,
            forall|x: int| #[trigger] seq_covers(r@, x) <==> (start <= x && x <= end
                && !seq_covers(self@, x)),
    {
        let ghost r = self.ranges@;
        let n = self.ranges.len();
        let mut out: Vec<(u64, u64)> = Vec::new();
        let mut cur: u64 = start;
        let mut past = false;
        let mut k: usize = 0;
        while k < n
            invariant
                r == self.ranges@,
                n == r.len(),
                intervals_wf(r),
                start <= end,
                k <= n,
                start <= cur <= end,
                !past ==> forall|m: int| 0 <= m < k ==> (#[trigger] r[m]).1 < cur,
                forall|p: int| 0 <= p < out@.len() ==> start <= (#[trigger] out@[p]).0 && out@[p].0 <= out@[p].1
                    && out@[p].1 <= end,
                forall|p: int| 0 <= p < out@.len() ==> (#[trigger] out@[p]).1 < (if past { end + 1 } else { cur as int }),
                !past ==> forall|p: int| 0 <= p < out@.len() ==> (#[trigger] out@[p]).1 + 1 < cur,
                forall|p: int, q: int| 0 <= p < q < out@.len() ==> (#[trigger] out@[p]).1 + 1 < (#[trigger] out@[q]).0,
                forall|x: int| #[trigger] seq_covers(out@, x) <==> (start <= x
                    && x < (if past { end + 1 } else { cur as int }) && !seq_covers(r, x)),
            decreases n - k,
        {
            if !past {
                let (a, b) = self.ranges[k];
                if b >= cur {
                    let ghost before = out@;
                    if a > cur {
                        let ge = if a - 1 < end { a - 1 } else { end };
                        out.push((cur, ge));
                        proof {
                            assert forall|x: int| cur <= x <= ge implies !seq_covers(r, x) by {
                                if seq_covers(r, x) {
                                    let m = choose|m: int| 0 <= m < r.len() && #[trigger] ival_has(r[m], x);
                                    if m > k {
                                        assert(r[k as int].1 + 1 < r[m].0);
                                    }
                                }
                            }
                            assert forall|x: int| #[trigger] seq_covers(out@, x) <==> (seq_covers(before, x)
                                || (cur <= x && x <= ge)) by {
                                if seq_covers(out@, x) {
                                    let p = choose|p: int| 0 <= p < out@.len() && #[trigger] ival_has(out@[p], x);
                                    if p < before.len() {
                                        assert(ival_has(before[p], x));
                                    }
                                }
                                if seq_covers(before, x) {
                                    let p = choose|p: int| 0 <= p < before.len() && #[trigger] ival_has(before[p], x);
                                    assert(ival_has(out@[p], x));
                                }
                                if cur <= x && x <= ge {
                                    assert(ival_has(out@[before.len() as int], x));
                                }
                            }
                        }
                    }
                    let ghost old_cur = cur;
                    proof {
                        assert forall|x: int| (if a > old_cur { a as int } else { old_cur as int }) <= x <= b
                            implies seq_covers(r, x) by {
                            assert(ival_has(r[k as int], x));
                        }
                    }
                    if b >= end {
                        past = true;
                    } else {
                        cur = b + 1;
                    }
                }
            }
            k += 1;
        }
        if !past {
            let ghost before = out@;
            out.push((cur, end));
            proof {
                assert forall|x: int| cur <= x <= end implies !seq_covers(r, x) by {
                    if seq_covers(r, x) {
                        let m = choose|m: int| 0 <= m < r.len() && #[trigger] ival_has(r[m], x);
                    }
                }
                assert forall|x: int| #[trigger] seq_covers(out@, x) <==> (seq_covers(before, x)
                    || (cur <= x && x <= end)) by {
                    if seq_covers(out@, x) {
                        let p = choose|p: int| 0 <= p < out@.len() && #[trigger] ival_has(out@[p], x);
                        if p < before.len() {
                            assert(ival_has(before[p], x));
                        }
                    }
                    if seq_covers(before, x) {
                        let p = choose|p: int| 0 <= p < before.len() && #[trigger] ival_has(before[p], x);
                        assert(ival_has(out@[p], x));
                    }
                    if cur <= x && x <= end {
                        assert(ival_has(out@[before.len() as int], x));
                    }
                }
            }
        }
        out
    }
}


/// The unit prefix of a byte-range header.
pub open spec fn bytes_unit() -> Seq<char> {
    seq!['b', 'y', 't', 'e', 's', '=']
}

/// The text holds exactly one dash.
pub open spec fn one_dash(t: Seq<char>) -> bool {
    &&& exists|k: int| 0 <= k < t.len() && t[k] == '-'
    &&& forall|i: int, j: int| 0 <= i < t.len() && 0 <= j < t.len() && t[i] == '-' && t[j] == '-'
        ==> i == j
}

/// The position of the only dash of a text that holds exactly one.
pub open spec fn dash_at(t: Seq<char>) -> int {
    choose|k: int| 0 <= k < t.len() && t[k] == '-'
}

/// What a `Range` header of the form `bytes=A-B` or `bytes=A-` denotes:
/// `(A, B)`, with `SENTINEL_OPEN` for a missing `B`; `None` when the text is
/// malformed or `A > B`.
pub open spec fn range_header(s: Seq<char>) -> Option<(u64, u64)> {
    if !has_prefix(s, bytes_unit()) {
        None
    } else {
        let body = s.skip(6);
        if !one_dash(body) {
            None
        } else {
            let a = body.take(dash_at(body));
            let b = body.skip(dash_at(body) + 1);
            if !is_decimal_u64(a) {
                None
            } else if b.len() == 0 {
                Some((digits_value(a) as u64, SENTINEL_OPEN))
            } else if !is_decimal_u64(b) {
                None
            } else if digits_value(a) > digits_value(b) {
                None
            } else {
                Some((digits_value(a) as u64, digits_value(b) as u64))
            }
        }
    }
}

/// Parses `bytes=A-B` or `bytes=A-` into `(A, B)`, with `SENTINEL_OPEN`
/// standing for a missing `B`.
pub fn parse_range(range: &str) -> (r: Result<(u64, u64), ProxyError>)
    ensures
        r matches Ok(v) ==> range_header(range@) == Some(v),
        r is Err ==> range_header(range@) is None,
        r matches Err(e) ==> e is InvalidRange,
{
    let cs = chars_of(range);
    let unit = vec!['b', 'y', 't', 'e', 's', '='];
    assert(unit@ =~= bytes_unit());
    if !matches_at(cs.as_slice(), 0, unit.as_slice()) {
        assert(cs@.subrange(0, cs@.len() as int) =~= cs@);
        return Err(ProxyError::InvalidRange("Invalid range format".to_string()));
    }
    assert(cs@.subrange(0, cs@.len() as int) =~= cs@);
    let n = cs.len();
    let ghost body = cs@.skip(6);
    let mut dash: usize = 6;
    while dash < n && cs[dash] != '-'
        invariant
            cs@ == range@,
            n == cs@.len(),
            6 <= dash <= n,
            body == cs@.skip(6),
            forall|k: int| 6 <= k < dash ==> cs@[k] != '-',
        decreases n - dash,
    {
        dash += 1;
    }
    if dash < n {
        let mut i: usize = dash + 1;
        while i < n
            invariant
                cs@ == range@,
                n == cs@.len(),
                6 <= dash < i <= n,
                cs@[dash as int] == '-',
                body == cs@.skip(6),
                forall|k: int| dash < k < i ==> cs@[k] != '-',
            decreases n - i,
        {
            if cs[i] == '-' {
                proof {
                    assert(body[dash - 6] == '-' && body[i - 6] == '-');
                }
                return Err(ProxyError::InvalidRange("Invalid range format".to_string()));
            }
            i += 1;
        }
    }
    if dash == n {
        proof {
            if exists|k: int| 0 <= k < body.len() && body[k] == '-' {
                let k = choose|k: int| 0 <= k < body.len() && body[k] == '-';
                assert(cs@[k + 6] == '-');
            }
        }
        return Err(ProxyError::InvalidRange("Invalid range format".to_string()));
    }
    proof {
        assert(body[dash - 6] == '-');
        assert forall|x: int, y: int| 0 <= x < body.len() && 0 <= y < body.len() && body[x] == '-'
            && body[y] == '-' implies x == y by {
            assert(cs@[x + 6] == '-' && cs@[y + 6] == '-');
        }
        assert(one_dash(body));
        let k = dash_at(body);
        assert(body[k] == '-');
        assert(cs@[k + 6] == '-');
        assert(k == dash - 6);
    }
    let a_chars = slice_subrange(cs.as_slice(), 6, dash);
    let b_chars = slice_subrange(cs.as_slice(), dash + 1, n);
    assert(a_chars@ =~= body.take(dash - 6));
    assert(b_chars@ =~= body.skip(dash - 6 + 1));
    let start = match parse_decimal_u64(a_chars) {
        Some(v) => v,
        None => {
            return Err(ProxyError::InvalidRange("Invalid start position".to_string()));
        },
    };
    if b_chars.len() == 0 {
        return Ok((start, SENTINEL_OPEN));
    }
    let end = match parse_decimal_u64(b_chars) {
        Some(v) => v,
        None => {
            return Err(ProxyError::InvalidRange("Invalid end position".to_string()));
        },
    };
    if start > end {
        return Err(ProxyError::InvalidRange("Invalid range: start > end".to_string()));
    }
    Ok((start, end))
}

} // verus!
