use vstd::prelude::*;
use crate::text::{
    chars_of, parse_decimal_u64, is_decimal_u64, digits_value, has_prefix, matches_at, first_of, find_char,
    lemma_first_of_bounds,
};
use crate::range::{one_dash, dash_at};
use crate::url::{dir_len, dir_len_of};
use vstd::slice::slice_subrange;

verus! {

/// `A-B`: two numbers around the only dash.
pub open spec fn number_pair(m: Seq<char>) -> bool {
    one_dash(m) && is_decimal_u64(m.take(dash_at(m))) && is_decimal_u64(m.skip(dash_at(m) + 1))
}

pub open spec fn bytes_space() -> Seq<char> {
    seq!['b', 'y', 't', 'e', 's', ' ']
}

/// A `Content-Range` value without its total: `bytes A-B` or `bytes *`.
pub open spec fn content_range_head(h: Seq<char>) -> bool {
    has_prefix(h, bytes_space()) && (h.skip(6) == seq!['*'] || number_pair(h.skip(6)))
}

/// The total size `N` of a `Content-Range` value `bytes A-B/N` or
/// `bytes */N`; `None` for any other text.
pub open spec fn content_range_total(t: Seq<char>) -> Option<u64> {
    let k = dir_len(t);
    let tail = t.skip(k);
    if k > 0 && content_range_head(t.take(k - 1)) && is_decimal_u64(tail) {
        Some(digits_value(tail) as u64)
    } else {
        None
    }
}

/// Whether the text is two numbers around its only dash.
pub fn is_number_pair(m: &[char]) -> (r: bool)
    ensures
        r == number_pair(m@),
{
    let n = m.len();
    let d = find_char(m, 0, '-');
    proof {
        assert(m@.skip(0) =~= m@);
        lemma_first_of_bounds(m@, '-');
    }
    if d >= n {
        assert(!one_dash(m@));
        return false;
    }
    let d2 = find_char(m, d + 1, '-');
    proof {
        lemma_first_of_bounds(m@.skip(d + 1), '-');
    }
    if d2 < n {
        assert(m@.skip(d + 1)[d2 - d - 1] == '-');
        assert(m@[d2 as int] == '-' && m@[d as int] == '-');
        assert(!one_dash(m@));
        return false;
    }
    proof {
        assert forall|i: int, j: int| 0 <= i < m@.len() && 0 <= j < m@.len() && m@[i] == '-' && m@[j] == '-'
            implies i == j by {
            if i > d {
                assert(m@.skip(d + 1)[i - d - 1] == '-');
            }
            if j > d {
                assert(m@.skip(d + 1)[j - d - 1] == '-');
            }
        }
        assert(m@[d as int] == '-');
        assert(one_dash(m@));
        let k = dash_at(m@);
        assert(m@[k] == '-');
    }
    let a = slice_subrange(m, 0, d);
    let b = slice_subrange(m, d + 1, n);
    assert(a@ =~= m@.take(d as int));
    assert(b@ =~= m@.skip(d + 1));
    parse_decimal_u64(a).is_some() && parse_decimal_u64(b).is_some()
}

/// The object size that an origin response reveals: the total of its
/// `Content-Range`, else its `Content-Length` when the request was not
/// ranged.
pub open spec fn total_size_spec(content_range: Option<Seq<char>>, content_length: Option<Seq<char>>, ranged: bool) -> Option<u64> {
    if content_range matches Some(t) && content_range_total(t) is Some {
        content_range_total(content_range.unwrap())
    } else if !ranged && (content_length matches Some(l) && is_decimal_u64(l)) {
        Some(digits_value(content_length.unwrap()) as u64)
    } else {
        None
    }
}

/// A part of an object to fetch from the origin.
pub struct NetSource {
    pub url: String,
    pub range: String,
}

impl NetSource {
    pub fn new(url: &str, range: &str) -> (r: NetSource)
        ensures
            r.url@ == url@,
            r.range@ == range@,
    {
        NetSource { url: url.to_string(), range: range.to_string() }
    }
}

/// Reads what origin responses say about the object.
pub struct NetworkHandler;

impl NetworkHandler {
    pub fn new() -> (r: NetworkHandler) {
        NetworkHandler
    }

    /// The total in a `Content-Range` value.
    pub fn content_range_total(value: &str) -> (r: Option<u64>)
        ensures
            r == content_range_total(value@),
    {
        let cs = chars_of(value);
        let k = dir_len_of(cs.as_slice());
        if k == 0 {
            return None;
        }
        let head = slice_subrange(cs.as_slice(), 0, k - 1);
        assert(head@ =~= cs@.take(k - 1));
        let unit = vec!['b', 'y', 't', 'e', 's', ' '];
        assert(unit@ =~= bytes_space());
        assert(head@.subrange(0, head@.len() as int) =~= head@);
        if !matches_at(head, 0, unit.as_slice()) {
            return None;
        }
        let mid = slice_subrange(head, 6, head.len());
        assert(mid@ =~= head@.skip(6));
        let star = mid.len() == 1 && mid[0] == '*';
        assert(star == (mid@ =~= seq!['*']));
        if !star && !is_number_pair(mid) {
            return None;
        }
        let tail = slice_subrange(cs.as_slice(), k, cs.len());
        assert(tail@ =~= cs@.skip(k as int));
        parse_decimal_u64(tail)
    }

    /// The object size revealed by an origin response's headers.
    pub fn total_size(content_range: Option<&str>, content_length: Option<&str>, ranged: bool) -> (r: Option<u64>)
        ensures
            r == total_size_spec(crate::request::text_of(content_range), crate::request::text_of(content_length), ranged),
    {
        if let Some(t) = content_range {
            let v = Self::content_range_total(t);
            if v.is_some() {
                return v;
            }
        }
        if ranged {
            return None;
        }
        match content_length {
            Some(l) => {
                let cs = chars_of(l);
                parse_decimal_u64(cs.as_slice())
            },
            None => None,
        }
    }
}

} // verus!
