use vstd::prelude::*;
use crate::range::SENTINEL_OPEN;
use crate::selector::{SourcePlan, plan_wf};
use crate::text::{push_decimal, decimal, push_chars};

verus! {

/// How a response is spliced: `cache_len` bytes from the cache starting at
/// `start`, then origin bytes starting at `origin_start`, `origin_len` of
/// them or, when that is `None`, until the origin ends.
#[derive(Debug, Clone, Copy, PartialEq, Eq, Structural)]
pub struct FusionPlan {
    pub start: u64,
    pub cache_len: u64,
    pub origin_start: u64,
    pub origin_len: Option<u64>,
}

/// The splice for a source plan.
pub open spec fn fusion_plan_of(p: SourcePlan) -> FusionPlan {
    match p {
        SourcePlan::FileOnly { start, end } => FusionPlan {
            start,
            cache_len: (end - start + 1) as u64,
            origin_start: start,
            origin_len: Some(0),
        },
        SourcePlan::OriginOnly { start, end } => FusionPlan {
            start,
            cache_len: 0,
            origin_start: start,
            origin_len: match end {
                Some(e) => Some((e - start + 1) as u64),
                None => None,
            },
        },
        SourcePlan::Mixed { start, cached_end, end } => match cached_end {
            None => FusionPlan {
                start,
                cache_len: 0,
                origin_start: start,
                origin_len: match end {
                    Some(e) => Some((e - start + 1) as u64),
                    None => None,
                },
            },
            Some(c) => FusionPlan {
                start,
                cache_len: (c - start + 1) as u64,
                origin_start: (c + 1) as u64,
                origin_len: match end {
                    Some(e) => Some((e - c) as u64),
                    None => None,
                },
            },
        },
    }
}

/// The most origin bytes that the splice may take.
pub open spec fn origin_budget(p: FusionPlan) -> int {
    match p.origin_len {
        Some(n) => n as int,
        None => SENTINEL_OPEN - p.origin_start,
    }
}

pub open spec fn fusion_plan_wf(p: FusionPlan) -> bool {
    &&& p.start + p.cache_len <= SENTINEL_OPEN
    &&& p.origin_start + origin_budget(p) <= SENTINEL_OPEN
}

/// `Range` header text for the origin's part: `bytes=A-B`, or `bytes=A-`
/// when it runs to the end.
pub open spec fn origin_range_text(p: FusionPlan) -> Seq<char> {
    seq!['b', 'y', 't', 'e', 's', '='] + decimal(p.origin_start as nat) + seq!['-'] + match p.origin_len {
        Some(n) => decimal((p.origin_start + n - 1) as nat),
        None => Seq::empty(),
    }
}

impl FusionPlan {
    /// The splice that carries out a source plan.
    pub fn from_source(p: SourcePlan) -> (r: FusionPlan)
        requires
            plan_wf(p),
        ensures
            r == fusion_plan_of(p),
            fusion_plan_wf(r),
    {
        match p {
            SourcePlan::FileOnly { start, end } => FusionPlan {
                start,
                cache_len: end - start + 1,
                origin_start: start,
                origin_len: Some(0),
            },
            SourcePlan::OriginOnly { start, end } => FusionPlan {
                start,
                cache_len: 0,
                origin_start: start,
                origin_len: match end {
                    Some(e) => Some(e - start + 1),
                    None => None,
                },
            },
            SourcePlan::Mixed { start, cached_end, end } => match cached_end {
                None => FusionPlan {
                    start,
                    cache_len: 0,
                    origin_start: start,
                    origin_len: match end {
                        Some(e) => Some(e - start + 1),
                        None => None,
                    },
                },
                Some(c) => FusionPlan {
                    start,
                    cache_len: c - start + 1,
                    origin_start: c + 1,
                    origin_len: match end {
                        Some(e) => Some(e - c),
                        None => None,
                    },
                },
            },
        }
    }

    /// Whether the splice asks the origin for anything.
    pub fn needs_origin(&self) -> (r: bool)
        ensures
            r == (self.origin_len != Some(0u64)),
    {
        match self.origin_len {
            Some(n) => n != 0,
            None => true,
        }
    }

    /// The `Range` header of the origin request.
    pub fn origin_range(&self) -> (r: String)
        requires
            self.origin_len matches Some(n) ==> n > 0 && self.origin_start + n - 1 <= SENTINEL_OPEN,
        ensures
            r@ == origin_range_text(*self),
    {
        let mut r = String::new();
        let head = vec!['b', 'y', 't', 'e', 's', '='];
        push_chars(&mut r, head.as_slice());
        push_decimal(&mut r, self.origin_start);
        push_chars(&mut r, vec!['-'].as_slice());
        match self.origin_len {
            Some(n) => push_decimal(&mut r, self.origin_start + (n - 1)),
            None => {},
        }
        assert(r@ =~= origin_range_text(*self));
        r
    }
}

/// Where a splice stands.
#[derive(Debug, Clone, Copy, PartialEq, Eq, Structural)]
pub enum Phase {
    /// Emitting cached bytes.
    Cache,
    /// Emitting origin bytes.
    Origin,
    /// Everything planned has been emitted, or the origin has ended.
    Done,
    /// An unrecoverable error stopped the response.
    Failed,
}

/// The running state of one spliced response.
#[derive(Debug, Clone, Copy, PartialEq, Eq, Structural)]
pub struct Fusion {
    pub plan: FusionPlan,
    pub phase: Phase,
    /// Cached bytes emitted so far.
    pub cache_sent: u64,
    /// Origin bytes emitted so far.
    pub origin_sent: u64,
    /// Origin bytes written back to the data file so far.
    pub written: u64,
    /// Whether the write-back is still going.
    pub writing: bool,
}

/// The phase that follows the cache phase.
pub open spec fn after_cache(p: FusionPlan) -> Phase {
    if p.origin_len == Some(0u64) { Phase::Done } else { Phase::Origin }
}

impl Fusion {
    pub open spec fn wf(&self) -> bool {
        &&& fusion_plan_wf(self.plan)
        &&& self.cache_sent <= self.plan.cache_len
        &&& self.origin_sent <= origin_budget(self.plan)
        &&& self.written <= self.origin_sent
        &&& self.phase == Phase::Cache ==> self.cache_sent < self.plan.cache_len && self.origin_sent == 0
        &&& self.phase == Phase::Origin ==> self.cache_sent == self.plan.cache_len
            && self.origin_sent < origin_budget(self.plan)
        &&& self.phase == Phase::Failed ==> !self.writing
    }

    /// A splice that has emitted nothing yet.
    pub fn new(plan: FusionPlan) -> (r: Fusion)
        requires
            fusion_plan_wf(plan),
        ensures
            r.wf(),
            r.plan == plan,
            r.cache_sent == 0 && r.origin_sent == 0 && r.written == 0 && r.writing,
            r.phase == (if plan.cache_len > 0 { Phase::Cache } else if origin_budget(plan) > 0 {
                Phase::Origin } else { Phase::Done }),
    {
        let budget_empty = match plan.origin_len {
            Some(n) => n == 0,
            None => plan.origin_start == SENTINEL_OPEN,
        };
        let phase = if plan.cache_len > 0 {
            Phase::Cache
        } else if !budget_empty {
            Phase::Origin
        } else {
            Phase::Done
        };
        Fusion { plan, phase, cache_sent: 0, origin_sent: 0, written: 0, writing: true }
    }

    /// A chunk of `len` bytes came from the cache: returns how many of its
    /// first bytes go to the client; the rest is dropped.
    pub fn on_cache_chunk(&mut self, len: u64) -> (take: u64)
        requires
            old(self).wf(),
            old(self).phase == Phase::Cache,
        ensures
            final(self).wf(),
            take == (if len < old(self).plan.cache_len - old(self).cache_sent { len } else {
                (old(self).plan.cache_len - old(self).cache_sent) as u64 }),
            final(self).cache_sent == old(self).cache_sent + take,
            final(self).phase == (if final(self).cache_sent == old(self).plan.cache_len {
                if origin_budget(old(self).plan) > 0 { Phase::Origin } else { Phase::Done } } else { Phase::Cache }),
            final(self).plan == old(self).plan,
            final(self).origin_sent == old(self).origin_sent,
            final(self).written == old(self).written,
            final(self).writing == old(self).writing,
    {
        let room = self.plan.cache_len - self.cache_sent;
        let take = if len < room { len } else { room };
        self.cache_sent = self.cache_sent + take;
        if self.cache_sent == self.plan.cache_len {
            let budget_empty = match self.plan.origin_len {
                Some(n) => n == 0,
                None => self.plan.origin_start == SENTINEL_OPEN,
            };
            self.phase = if budget_empty { Phase::Done } else { Phase::Origin };
        }
        take
    }

    /// The cache stream ended, or failed, before its share was emitted:
    /// the response stops there.
    pub fn on_cache_short(&mut self)
        requires
            old(self).wf(),
        ensures
            final(self).wf(),
            final(self).phase == Phase::Failed,
            !final(self).writing,
            final(self).plan == old(self).plan,
            final(self).cache_sent == old(self).cache_sent,
            final(self).origin_sent == old(self).origin_sent,
            final(self).written == old(self).written,
    {
        self.phase = Phase::Failed;
        self.writing = false;
    }

    /// A chunk of `len` bytes came from the origin: returns how many of its
    /// first bytes go to the client and to the write-back.
    pub fn on_origin_chunk(&mut self, len: u64) -> (take: u64)
        requires
            old(self).wf(),
            old(self).phase == Phase::Origin,
        ensures
            final(self).wf(),
            take == (if len < origin_budget(old(self).plan) - old(self).origin_sent { len } else {
                (origin_budget(old(self).plan) - old(self).origin_sent) as u64 }),
            final(self).origin_sent == old(self).origin_sent + take,
            final(self).phase == (if final(self).origin_sent == origin_budget(old(self).plan) {
                Phase::Done } else { Phase::Origin }),
            final(self).plan == old(self).plan,
            final(self).cache_sent == old(self).cache_sent,
            final(self).written == old(self).written,
            final(self).writing == old(self).writing,
    {
        let budget: u64 = match self.plan.origin_len {
            Some(n) => n,
            None => SENTINEL_OPEN - self.plan.origin_start,
        };
        let room = budget - self.origin_sent;
        let take = if len < room { len } else { room };
        self.origin_sent = self.origin_sent + take;
        if self.origin_sent == budget {
            self.phase = Phase::Done;
        }
        take
    }

    /// The file offset at which the next origin bytes are written back, if
    /// the write-back is still going.
    pub fn write_offset(&self) -> (r: Option<u64>)
        requires
            self.wf(),
        ensures
            r == (if self.writing { Some((self.plan.origin_start + self.written) as u64) } else {
                None::<u64> }),
    {
        if self.writing {
            Some(self.plan.origin_start + self.written)
        } else {
            None
        }
    }

    /// `n` more origin bytes were written back at `write_offset`.
    pub fn on_written(&mut self, n: u64)
        requires
            old(self).wf(),
            old(self).writing,
            old(self).written + n <= old(self).origin_sent,
        ensures
            final(self).wf(),
            final(self).written == old(self).written + n,
            *final(self) == (Fusion { written: final(self).written, ..*old(self) }),
    {
        self.written = self.written + n;
    }

    /// A write-back failed: it stops, nothing of it will be committed, and
    /// the client is served on.
    pub fn on_write_failed(&mut self)
        requires
            old(self).wf(),
        ensures
            final(self).wf(),
            *final(self) == (Fusion { writing: false, ..*old(self) }),
    {
        self.writing = false;
    }

    /// The request was cancelled or failed: nothing more is emitted, and
    /// nothing is committed.
    pub fn abandon(&mut self)
        requires
            old(self).wf(),
        ensures
            final(self).wf(),
            *final(self) == (Fusion { phase: Phase::Failed, writing: false, ..*old(self) }),
    {
        self.phase = Phase::Failed;
        self.writing = false;
    }

    /// The origin stream ended, complete or cut short: the splice is done,
    /// and the interval that was written back is returned for commit. A
    /// write-back that failed, or a splice that was abandoned, commits
    /// nothing.
    pub fn finish_origin(&mut self) -> (r: Option<(u64, u64)>)
        requires
            old(self).wf(),
        ensures
            final(self).wf(),
            r == (if old(self).phase != Phase::Failed && old(self).writing && old(self).written > 0 {
                Some((old(self).plan.origin_start, (old(self).plan.origin_start + old(self).written - 1) as u64))
            } else {
                None::<(u64, u64)>
            }),
            *final(self) == (Fusion {
                phase: if old(self).phase == Phase::Failed { Phase::Failed } else { Phase::Done },
                ..*old(self)
            }),
    {
        if self.phase == Phase::Failed {
            return None;
        }
        self.phase = Phase::Done;
        if self.writing && self.written > 0 {
            Some((self.plan.origin_start, self.plan.origin_start + (self.written - 1)))
        } else {
            None
        }
    }
}

/// With an open-ended origin part, each origin chunk goes to the client
/// whole and the splice stays in its origin phase, so the body runs until
/// the origin ends (short of the last addressable byte).
pub proof fn law_open_origin_streams_whole(before: Fusion, after: Fusion, len: u64, take: u64)
    requires
        before.wf(),
        before.phase == Phase::Origin,
        before.plan.origin_len is None,
        before.origin_sent + len < origin_budget(before.plan),
        take == (if len < origin_budget(before.plan) - before.origin_sent { len } else {
            (origin_budget(before.plan) - before.origin_sent) as u64 }),
        after.origin_sent == before.origin_sent + take,
        after.phase == (if after.origin_sent == origin_budget(before.plan) { Phase::Done } else {
            Phase::Origin }),
    ensures
        take == len,
        after.origin_sent == before.origin_sent + len,
        after.phase == Phase::Origin,
{
}

} // verus!
