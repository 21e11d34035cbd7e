use vstd::prelude::*;
use crate::network::{NetworkHandler, content_range_total};
use crate::request::text_of;
use crate::range::SENTINEL_OPEN;
use crate::text::{chars_of, parse_decimal_u64, is_decimal_u64, digits_value};

verus! {

/// The most times a failed origin fetch is tried again.
pub const MAX_RETRIES: u32 = 3;

/// Seconds to wait before trying a failed fetch again.
pub const RETRY_BACKOFF_SECS: u64 = 1;

/// How one origin attempt went.
#[derive(Debug, Clone, Copy, PartialEq, Eq, Structural)]
pub enum FetchOutcome {
    /// A 2xx answer.
    Success,
    /// A network error, a reset, or a 5xx answer.
    Transient,
    /// Any other answer.
    Fatal,
}

pub open spec fn outcome_of_status(status: u16) -> FetchOutcome {
    if 200 <= status && status < 300 {
        FetchOutcome::Success
    } else if 500 <= status && status < 600 {
        FetchOutcome::Transient
    } else {
        FetchOutcome::Fatal
    }
}

/// The steps of the size probe, in the order they are tried.
#[derive(Debug, Clone, Copy, PartialEq, Eq, Structural)]
pub enum ProbeStep {
    /// The size recorded in the index.
    Index,
    /// `Content-Length` of a HEAD request.
    Head,
    /// The total of `Content-Range` of a GET for `bytes=0-0`.
    RangeZero,
    /// `Content-Length` of an unranged GET.
    Get,
}

pub open spec fn next_step_of(s: ProbeStep) -> Option<ProbeStep> {
    match s {
        ProbeStep::Index => Some(ProbeStep::Head),
        ProbeStep::Head => Some(ProbeStep::RangeZero),
        ProbeStep::RangeZero => Some(ProbeStep::Get),
        ProbeStep::Get => None,
    }
}

/// The size that a probe step's answer gives.
pub open spec fn probe_size_spec(s: ProbeStep, content_range: Option<Seq<char>>, content_length: Option<Seq<char>>) -> Option<u64> {
    match s {
        ProbeStep::Index => None,
        ProbeStep::RangeZero => match content_range {
            Some(t) => content_range_total(t),
            None => None,
        },
        _ => match content_length {
            Some(l) => if is_decimal_u64(l) { Some(digits_value(l) as u64) } else { None },
            None => None,
        },
    }
}

/// Decides the retries of origin fetches and the order of size probes.
pub struct SizeChecker;

impl SizeChecker {
    /// The outcome of an answer with the given status.
    pub fn outcome(status: u16) -> (r: FetchOutcome)
        ensures
            r == outcome_of_status(status),
    {
        if 200 <= status && status < 300 {
            FetchOutcome::Success
        } else if 500 <= status && status < 600 {
            FetchOutcome::Transient
        } else {
            FetchOutcome::Fatal
        }
    }

    /// Whether to try again after the `failed`-th failed attempt.
    pub fn should_retry(failed: u32, outcome: FetchOutcome) -> (r: bool)
        ensures
            r == (outcome == FetchOutcome::Transient && failed <= MAX_RETRIES),
    {
        outcome == FetchOutcome::Transient && failed <= MAX_RETRIES
    }

    /// Whether to probe the origin for the object's size before serving: the
    /// request is open-ended, the size unknown, and the origin up.
    pub fn should_probe(known_total: Option<u64>, end: u64, origin_up: bool) -> (r: bool)
        ensures
            r == (known_total is None && end == SENTINEL_OPEN && origin_up),
    {
        known_total.is_none() && end == SENTINEL_OPEN && origin_up
    }

    /// The step to try after one that found no size.
    pub fn next_step(s: ProbeStep) -> (r: Option<ProbeStep>)
        ensures
            r == next_step_of(s),
    {
        match s {
            ProbeStep::Index => Some(ProbeStep::Head),
            ProbeStep::Head => Some(ProbeStep::RangeZero),
            ProbeStep::RangeZero => Some(ProbeStep::Get),
            ProbeStep::Get => None,
        }
    }

    /// The size that the answer to an origin probe step gives.
    pub fn probe_size(s: ProbeStep, content_range: Option<&str>, content_length: Option<&str>) -> (r: Option<u64>)
        ensures
            r == probe_size_spec(s, text_of(content_range), text_of(content_length)),
    {
        match s {
            ProbeStep::Index => None,
            ProbeStep::RangeZero => match content_range {
                Some(t) => NetworkHandler::content_range_total(t),
                None => None,
            },
            _ => match content_length {
                Some(l) => {
                    let cs = chars_of(l);
                    parse_decimal_u64(cs.as_slice())
                },
                None => None,
            },
        }
    }
}

/// A cached answer to whether the origin is up, trusted for `ttl` seconds.
pub struct Liveness {
    pub up: bool,
    pub checked_at: Option<u64>,
    pub ttl: u64,
}

pub open spec fn liveness_fresh(l: Liveness, now: u64) -> bool {
    l.checked_at matches Some(t) && t <= now && now - t < l.ttl
}

impl Liveness {
    /// Nothing known yet.
    pub fn new(ttl: u64) -> (r: Liveness)
        ensures
            r.ttl == ttl,
            r.checked_at is None,
    {
        Liveness { up: true, checked_at: None, ttl }
    }

    /// What is known of the origin at `now`: `None` when it must be checked.
    pub fn known(&self, now: u64) -> (r: Option<bool>)
        ensures
            r == (if liveness_fresh(*self, now) { Some(self.up) } else { None::<bool> }),
    {
        match self.checked_at {
            Some(t) => if t <= now && now - t < self.ttl {
                Some(self.up)
            } else {
                None
            },
            None => None,
        }
    }

    /// Records a check made at `now`.
    pub fn record(&mut self, now: u64, up: bool)
        ensures
            final(self).up == up,
            final(self).checked_at == Some(now),
            final(self).ttl == old(self).ttl,
    {
        self.up = up;
        self.checked_at = Some(now);
    }
}

} // verus!
