use vstd::prelude::*;
use crate::error::ProxyError;
use crate::range::{one_spans, seq_covers, all_covered, SENTINEL_OPEN};
use crate::unit::DataUnit;

verus! {

/// Where the bytes of a response come from.
#[allow(inconsistent_fields)]
#[derive(Debug, Clone, Copy, PartialEq, Eq, Structural)]
pub enum SourcePlan {
    /// Every byte of `[start, end]` is cached.
    FileOnly { start: u64, end: u64 },
    /// Every byte comes from the origin; `end` is `None` when the request
    /// is open-ended and the object's size is unknown.
    OriginOnly { start: u64, end: Option<u64> },
    /// `[start, cached_end]` comes from the cache, the rest from the
    /// origin; `cached_end` is `None` when `start` itself is not cached.
    Mixed { start: u64, cached_end: Option<u64>, end: Option<u64> },
}

/// Why no plan can serve a request.
#[derive(Debug, Clone, Copy, PartialEq, Eq, Structural)]
pub enum Refusal {
    /// The range lies outside the object.
    BadRange,
    /// The origin is down and the cache does not hold the range.
    Unavailable,
}

/// The last byte that a request for `[start, end]` asks for, with an open
/// end (`SENTINEL_OPEN`) read as the object's last byte and an end past the
/// object cut to it; `None` when the end is open and the size unknown.
pub open spec fn effective_end(end: u64, total: Option<u64>) -> Option<u64> {
    match total {
        Some(n) => if n == 0 {
            None
        } else if end == SENTINEL_OPEN || end > n - 1 {
            Some((n - 1) as u64)
        } else {
            Some(end)
        },
        None => if end == SENTINEL_OPEN {
            None
        } else {
            Some(end)
        },
    }
}

/// `c` ends the cached run that starts at `s`, capped at `cap`.
pub open spec fn run_end_ok(iv: Seq<(u64, u64)>, s: int, cap: int, c: int) -> bool {
    s <= c && c <= cap && all_covered(iv, s, c) && (c < cap ==> !seq_covers(iv, c + 1))
}

/// The end of the cached run that starts at `s`, capped at `cap`.
pub open spec fn run_end(iv: Seq<(u64, u64)>, s: int, cap: int) -> Option<u64> {
    if s > cap || !seq_covers(iv, s) {
        None
    } else {
        Some(choose|c: u64| run_end_ok(iv, s, cap, c as int))
    }
}

pub proof fn lemma_run_end_unique(iv: Seq<(u64, u64)>, s: int, cap: int, c1: int, c2: int)
    requires
        run_end_ok(iv, s, cap, c1),
        run_end_ok(iv, s, cap, c2),
    ensures
        c1 == c2,
{
    if c1 < c2 {
        assert(seq_covers(iv, c1 + 1));
    }
    if c2 < c1 {
        assert(seq_covers(iv, c2 + 1));
    }
}

pub open spec fn unit_total(unit: Option<DataUnit>) -> Option<u64> {
    match unit {
        Some(u) => u.total_size,
        None => None,
    }
}

pub open spec fn unit_ranges(unit: Option<DataUnit>) -> Seq<(u64, u64)> {
    match unit {
        Some(u) => u.ranges@,
        None => Seq::empty(),
    }
}

pub open spec fn unit_view(unit: Option<&DataUnit>) -> Option<DataUnit> {
    match unit {
        Some(u) => Some(*u),
        None => None,
    }
}

/// The choice between cache, origin, or both, for a request of
/// `[start, end]` (`end` may be `SENTINEL_OPEN`), given the object's record,
/// the length of its data file, and whether the origin answers.
pub open spec fn select_spec(unit: Option<DataUnit>, data_len: u64, origin_up: bool, start: u64, end: u64) -> Result<SourcePlan, Refusal> {
    let total = unit_total(unit);
    let iv = unit_ranges(unit);
    if total matches Some(n) && start >= n {
        Err(Refusal::BadRange)
    } else {
        let e = effective_end(end, total);
        let covered = e matches Some(x) && one_spans(iv, start as int, x as int);
        if !origin_up {
            if covered {
                Ok(SourcePlan::FileOnly { start, end: e.unwrap() })
            } else {
                Err(Refusal::Unavailable)
            }
        } else if unit is None || data_len == 0 {
            Ok(SourcePlan::OriginOnly { start, end: e })
        } else if covered {
            Ok(SourcePlan::FileOnly { start, end: e.unwrap() })
        } else {
            let cap: int = match e {
                Some(x) => x as int,
                None => SENTINEL_OPEN - 1,
            };
            Ok(SourcePlan::Mixed { start, cached_end: run_end(iv, start as int, cap), end: e })
        }
    }
}

/// Every end in the plan lies below `SENTINEL_OPEN` and no earlier than its start.
pub open spec fn plan_wf(p: SourcePlan) -> bool {
    match p {
        SourcePlan::FileOnly { start, end } => start <= end && end < SENTINEL_OPEN,
        SourcePlan::OriginOnly { start, end } => end matches Some(e) ==> start <= e && e < SENTINEL_OPEN,
        SourcePlan::Mixed { start, cached_end, end } => (end matches Some(e) ==> start <= e && e < SENTINEL_OPEN)
            && (cached_end matches Some(c) ==> start <= c && c < SENTINEL_OPEN
                && (end matches Some(e) ==> c < e)),
    }
}

/// The last byte that a plan serves, when it is known.
pub open spec fn plan_last_byte(p: SourcePlan) -> Option<u64> {
    match p {
        SourcePlan::FileOnly { end, .. } => Some(end),
        SourcePlan::OriginOnly { end, .. } => end,
        SourcePlan::Mixed { end, .. } => end,
    }
}

impl SourcePlan {
    /// The last byte that the plan serves, when it is known.
    pub fn last_byte(&self) -> (r: Option<u64>)
        ensures
            r == plan_last_byte(*self),
    {
        match *self {
            SourcePlan::FileOnly { end, .. } => Some(end),
            SourcePlan::OriginOnly { end, .. } => end,
            SourcePlan::Mixed { end, .. } => end,
        }
    }
}

/// Classifies a request for `[start, end]` (`end` may be `SENTINEL_OPEN`).
pub fn select_source(unit: Option<&DataUnit>, data_len: u64, origin_up: bool, start: u64, end: u64) -> (r: Result<SourcePlan, ProxyError>)
    requires
        start <= end,
        unit matches Some(u) ==> u.wf(),
    ensures
        select_spec(unit_view(unit), data_len, origin_up, start, end) matches Ok(p) ==> (r matches Ok(q) && q == p),
        select_spec(unit_view(unit), data_len, origin_up, start, end) == Err::<SourcePlan, Refusal>(Refusal::BadRange)
            ==> (r matches Err(e) && e is InvalidRange),
        select_spec(unit_view(unit), data_len, origin_up, start, end) == Err::<SourcePlan, Refusal>(Refusal::Unavailable)
            ==> (r matches Err(e) && e is Unavailable),
        r matches Ok(q) ==> plan_wf(q),
{
    let total = match unit {
        Some(u) => u.total_size,
        None => None,
    };
    if let Some(n) = total {
        if start >= n {
            return Err(ProxyError::InvalidRange("range lies outside the object".to_string()));
        }
    }
    let e: Option<u64> = match total {
        Some(n) => if end == SENTINEL_OPEN || end > n - 1 {
            Some(n - 1)
        } else {
            Some(end)
        },
        None => if end == SENTINEL_OPEN {
            None
        } else {
            Some(end)
        },
    };
    let covered = match (unit, e) {
        (Some(u), Some(x)) => u.contains_range(start, x),
        _ => false,
    };
    if !origin_up {
        if covered {
            return Ok(SourcePlan::FileOnly { start, end: e.unwrap() });
        }
        return Err(ProxyError::Unavailable("origin unreachable and range not cached".to_string()));
    }
    match unit {
        None => Ok(SourcePlan::OriginOnly { start, end: e }),
        Some(u) => {
            if data_len == 0 {
                return Ok(SourcePlan::OriginOnly { start, end: e });
            }
            if covered {
                return Ok(SourcePlan::FileOnly { start, end: e.unwrap() });
            }
            let cap: u64 = match e {
                Some(x) => x,
                None => SENTINEL_OPEN - 1,
            };
            let cached_end = if start > cap {
                None
            } else {
                u.ranges.covered_run_end(start, cap)
            };
            proof {
                if let Some(c) = cached_end {
                    lemma_run_end_unique(u.ranges@, start as int, cap as int, c as int,
                        run_end(u.ranges@, start as int, cap as int).unwrap() as int);
                    if e is Some && c == cap {
                        assert(one_spans(u.ranges@, start as int, cap as int)) by {
                            crate::range::lemma_span_iff_covered(u.ranges@, start as int, cap as int);
                        }
                    }
                }
            }
            Ok(SourcePlan::Mixed { start, cached_end, end: e })
        },
    }
}

} // verus!
