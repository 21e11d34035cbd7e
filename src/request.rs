use vstd::prelude::*;
use crate::error::ProxyError;
use crate::range::{parse_range, range_header};
use crate::text::{chars_of, string_of, has_prefix, matches_at, first_of, find_char, lemma_first_of_bounds};
use crate::url::{
    UrlUtils, RequestType, request_type_of, proxy_target_of, percent_decoded, proxy_param_word,
};
use vstd::slice::slice_subrange;

verus! {

/// The value of the first `proxy=` parameter of a query string.
pub open spec fn query_proxy_value(q: Seq<char>) -> Option<Seq<char>>
    decreases q.len() via query_proxy_value_decreases
{
    let n = first_of(q, '&');
    let seg = q.take(n);
    if has_prefix(seg, proxy_param_word()) {
        Some(seg.skip(6))
    } else if n >= q.len() {
        None
    } else {
        query_proxy_value(q.skip(n + 1))
    }
}

#[via_fn]
proof fn query_proxy_value_decreases(q: Seq<char>) {
    lemma_first_of_bounds(q, '&');
}

/// The upstream URL of a request: the `X-Original-Url` header first, then
/// a `/proxy/<url>` path, then a `proxy=` query parameter; the last two
/// percent-decoded. `None` when none is there or decoding fails.
pub open spec fn upstream_url_of(header: Option<Seq<char>>, path: Seq<char>, query: Option<Seq<char>>) -> Option<Seq<char>> {
    match header {
        Some(h) => Some(h),
        None => match proxy_target_of(path) {
            Some(t) => percent_decoded(t),
            None => match query {
                Some(q) => match query_proxy_value(q) {
                    Some(v) => percent_decoded(v),
                    None => None,
                },
                None => None,
            },
        },
    }
}

/// The characters of an optional text.
pub open spec fn text_of(o: Option<&str>) -> Option<Seq<char>> {
    match o {
        Some(t) => Some(t@),
        None => None,
    }
}

/// The range asked for when a request carries no `Range` header.
pub open spec fn whole_range() -> Seq<char> {
    seq!['b', 'y', 't', 'e', 's', '=', '0', '-']
}

/// A client request as the caching engine sees it.
pub struct DataRequest {
    pub url: String,
    pub range: String,
    pub request_type: RequestType,
}

/// The value of the first `proxy=` parameter of a query string, not decoded.
pub fn query_proxy_param(query: &str) -> (r: Option<String>)
    ensures
        r is Some ==> query_proxy_value(query@) == Some(r.unwrap()@),
        r is None <==> query_proxy_value(query@) is None,
{
    let q = chars_of(query);
    let word = vec!['p', 'r', 'o', 'x', 'y', '='];
    assert(word@ =~= proxy_param_word());
    let n = q.len();
    let mut pos: usize = 0;
    assert(q@.skip(0) =~= q@);
    loop
        invariant
            q@ == query@,
            n == q@.len(),
            word@ == proxy_param_word(),
            pos <= n,
            query_proxy_value(q@) == query_proxy_value(q@.skip(pos as int)),
        decreases n - pos,
    {
        let ghost t = q@.skip(pos as int);
        let e = find_char(q.as_slice(), pos, '&');
        proof {
            lemma_first_of_bounds(t, '&');
        }
        let seg = slice_subrange(q.as_slice(), pos, e);
        assert(seg@ =~= t.take(first_of(t, '&')));
        assert(seg@.subrange(0, seg@.len() as int) =~= seg@);
        if matches_at(seg, 0, word.as_slice()) {
            let v = slice_subrange(seg, 6, seg.len());
            assert(v@ =~= seg@.skip(6));
            return Some(string_of(v));
        }
        if e >= n {
            return None;
        }
        assert(t.skip(first_of(t, '&') + 1) =~= q@.skip(e as int + 1));
        pos = e + 1;
    }
}

impl DataRequest {
    /// Builds the request from the parts of an HTTP request: the
    /// `X-Original-Url` header, the path, the query string and the `Range`
    /// header. A request without `Range` asks for `bytes=0-`.
    pub fn new(original_url: Option<&str>, path: &str, query: Option<&str>, range: Option<&str>) -> (r: Result<DataRequest, ProxyError>)
        ensures
            r is Err <==> upstream_url_of(text_of(original_url), path@,
                text_of(query)) is None,
            r matches Ok(d) ==> Some(d.url@) == upstream_url_of(text_of(original_url), path@,
                text_of(query)),
            r matches Ok(d) ==> d.request_type == request_type_of(d.url@),
            r matches Ok(d) ==> d.range@ == (match range {
                Some(h) => h@,
                None => whole_range(),
            }),
            r matches Err(e) ==> e is Request,
    {
        let url = match original_url {
            Some(h) => h.to_string(),
            None => match UrlUtils::proxy_path_target(path) {
                Some(_) => match UrlUtils::clean_proxy_url(path) {
                    Ok(u) => u,
                    Err(e) => {
                        return Err(e);
                    },
                },
                None => match query {
                    Some(q) => match query_proxy_param(q) {
                        Some(v) => match UrlUtils::clean_proxy_url_value(v.as_str()) {
                            Some(u) => u,
                            None => {
                                return Err(ProxyError::Request("URL decoding failed".to_string()));
                            },
                        },
                        None => {
                            return Err(ProxyError::Request("no upstream URL in the request".to_string()));
                        },
                    },
                    None => {
                        return Err(ProxyError::Request("no upstream URL in the request".to_string()));
                    },
                },
            },
        };
        let range_text = match range {
            Some(h) => h.to_string(),
            None => {
                let w = vec!['b', 'y', 't', 'e', 's', '=', '0', '-'];
                assert(w@ =~= whole_range());
                string_of(w.as_slice())
            },
        };
        let request_type = UrlUtils::request_type(url.as_str());
        Ok(DataRequest { url, range: range_text, request_type })
    }

    pub fn get_url(&self) -> (r: &str)
        ensures
            r@ == self.url@,
    {
        self.url.as_str()
    }

    pub fn get_range(&self) -> (r: &str)
        ensures
            r@ == self.range@,
    {
        self.range.as_str()
    }

    pub fn get_type(&self) -> (r: RequestType)
        ensures
            r == self.request_type,
    {
        self.request_type
    }

    /// The byte range that the request asks for.
    pub fn byte_range(&self) -> (r: Result<(u64, u64), ProxyError>)
        ensures
            r matches Ok(v) ==> range_header(self.range@) == Some(v),
            r is Err ==> range_header(self.range@) is None,
            r matches Err(e) ==> e is InvalidRange,
    {
        parse_range(self.range.as_str())
    }
}

} // verus!
