use vstd::prelude::*;
use crate::range::SENTINEL_OPEN;
use crate::text::{push_chars, push_decimal, decimal};

verus! {

/// `bytes s-e/N`, or `bytes s-e/*` when the size is unknown.
pub open spec fn content_range_text(s: u64, e: u64, total: Option<u64>) -> Seq<char> {
    seq!['b', 'y', 't', 'e', 's', ' '] + decimal(s as nat) + seq!['-'] + decimal(e as nat) + seq!['/']
        + match total {
        Some(n) => decimal(n as nat),
        None => seq!['*'],
    }
}

/// Status and length headers of a response.
pub struct ResponseHead {
    pub status: u16,
    pub content_range: Option<String>,
    pub content_length: Option<u64>,
}

/// Builds the status and range headers of responses.
pub struct ResponseBuilder;

/// The `Content-Range` value of a ranged response.
pub fn content_range_value(start: u64, end: u64, total: Option<u64>) -> (r: String)
    ensures
        r@ == content_range_text(start, end, total),
{
    let mut r = String::new();
    push_chars(&mut r, vec!['b', 'y', 't', 'e', 's', ' '].as_slice());
    push_decimal(&mut r, start);
    push_chars(&mut r, vec!['-'].as_slice());
    push_decimal(&mut r, end);
    push_chars(&mut r, vec!['/'].as_slice());
    match total {
        Some(n) => push_decimal(&mut r, n),
        None => push_chars(&mut r, vec!['*'].as_slice()),
    }
    assert(r@ =~= content_range_text(start, end, total));
    r
}

impl ResponseBuilder {
    pub fn new() -> (r: ResponseBuilder) {
        ResponseBuilder
    }

    /// The head of a response for `[start, end]`: with the end known, 206
    /// with `Content-Range` for a ranged request and 200 otherwise, and
    /// `Content-Length: end - start + 1`; with the end unknown, 200 and no
    /// length, the body running until the origin ends.
    pub fn build_head(&self, ranged: bool, start: u64, end: Option<u64>, total: Option<u64>) -> (r: ResponseHead)
        requires
            end matches Some(e) ==> start <= e && e < SENTINEL_OPEN,
        ensures
            end is None ==> r.status == 200 && r.content_range is None && r.content_length is None,
            end matches Some(e) ==> r.content_length == Some((e - start + 1) as u64),
            end is Some && ranged ==> r.status == 206 && r.content_range is Some
                && r.content_range.unwrap()@ == content_range_text(start, end.unwrap(), total),
            end is Some && !ranged ==> r.status == 200 && r.content_range is None,
    {
        match end {
            None => ResponseHead { status: 200, content_range: None, content_length: None },
            Some(e) => {
                let len = e - start + 1;
                if ranged {
                    ResponseHead {
                        status: 206,
                        content_range: Some(content_range_value(start, e, total)),
                        content_length: Some(len),
                    }
                } else {
                    ResponseHead { status: 200, content_range: None, content_length: Some(len) }
                }
            },
        }
    }
}

} // verus!
