use vstd::prelude::*;
use vstd::utf8::{encode_utf8, valid_utf8, decode_utf8};
use crate::error::ProxyError;
use crate::text::{
    chars_of, string_of, push_chars, push_char, has_prefix, has_suffix, matches_at, first_of,
    find_char, lemma_first_of_bounds, digit_char,
};
use vstd::slice::slice_subrange;

verus! {

pub open spec fn proxy_marker() -> Seq<char> {
    seq!['/', 'p', 'r', 'o', 'x', 'y', '/']
}

pub open spec fn proxy_word() -> Seq<char> {
    seq!['p', 'r', 'o', 'x', 'y', '/']
}

pub open spec fn proxy_param_word() -> Seq<char> {
    seq!['p', 'r', 'o', 'x', 'y', '=']
}

pub open spec fn http_scheme() -> Seq<char> {
    seq!['h', 't', 't', 'p', ':', '/', '/']
}

pub open spec fn https_scheme() -> Seq<char> {
    seq!['h', 't', 't', 'p', 's', ':', '/', '/']
}

/// The text with every leading `proxy/` segment removed.
pub open spec fn peel_nested(t: Seq<char>) -> Seq<char>
    decreases t.len(),
{
    if has_prefix(t, proxy_word()) {
        peel_nested(t.skip(6))
    } else {
        t
    }
}

/// The target of a `/proxy/<url>` path, nested prefixes peeled; `None`
/// for a path of another form.
pub open spec fn proxy_target_of(s: Seq<char>) -> Option<Seq<char>> {
    if has_prefix(s, proxy_marker()) {
        Some(peel_nested(s.skip(7)))
    } else {
        None
    }
}

/// The text holds no `%`.
pub open spec fn no_percent(t: Seq<char>) -> bool {
    forall|i: int| 0 <= i < t.len() ==> t[i] != '%'
}

/// The value of a hex digit byte, either case.
pub open spec fn hex_value(b: u8) -> Option<nat> {
    if 48 <= b && b <= 57 {
        Some((b - 48) as nat)
    } else if 65 <= b && b <= 70 {
        Some((b - 55) as nat)
    } else if 97 <= b && b <= 102 {
        Some((b - 87) as nat)
    } else {
        None
    }
}

/// `%` and two hex digits become one byte; every other byte stays.
pub open spec fn percent_decode_bytes(d: Seq<u8>) -> Seq<u8>
    decreases d.len(),
{
    if d.len() == 0 {
        Seq::empty()
    } else if d[0] == 37 && d.len() >= 3 && hex_value(d[1]) is Some && hex_value(d[2]) is Some {
        seq![(hex_value(d[1]).unwrap() * 16 + hex_value(d[2]).unwrap()) as u8] + percent_decode_bytes(d.skip(3))
    } else {
        seq![d[0]] + percent_decode_bytes(d.skip(1))
    }
}

/// What percent-decoding makes of a text: its UTF-8 bytes decoded, read as
/// UTF-8; `None` when they are not.
pub open spec fn percent_decoded(s: Seq<char>) -> Option<Seq<char>> {
    let d = percent_decode_bytes(encode_utf8(s));
    if valid_utf8(d) {
        Some(decode_utf8(d))
    } else {
        None
    }
}

/// Relies on `urlencoding::decode` (through `decode_binary`): decodes `%XX`
/// escapes of the UTF-8 bytes, fails when the result is not UTF-8, and hands
/// back a text without `%` as it is.
#[verifier::external_body]
fn percent_decode(s: &str) -> (r: Option<String>)
    ensures
        r is Some ==> percent_decoded(s@) == Some(r.unwrap()@),
        r is None <==> percent_decoded(s@) is None,
        (forall|i: int| 0 <= i < s@.len() ==> s@[i] != '%') ==> r is Some && r.unwrap()@ == s@,
{
    match urlencoding::decode(s) {
        Ok(c) => Some(c.into_owned()),
        Err(_) => None,
    }
}

/// The parts of a parsed URL: the text before the path, the path, and the
/// text after the path.
pub uninterp spec fn url_parts(s: Seq<char>) -> Option<(Seq<char>, Seq<char>, Seq<char>)>;

/// Relies on `url::Url::parse` and on slicing a `Url` by `Position`: the
/// normalised text before the path, the path, and the query and fragment.
#[verifier::external_body]
fn split_url(s: &str) -> (r: Option<(String, String, String)>)
    ensures
        r is Some ==> url_parts(s@) == Some((r.unwrap().0@, r.unwrap().1@, r.unwrap().2@)),
        r is None <==> url_parts(s@) is None,
{
    match url::Url::parse(s) {
        Ok(u) => Some((
            u[..url::Position::BeforePath].to_string(),
            u.path().to_string(),
            u[url::Position::AfterPath..].to_string(),
        )),
        Err(_) => None,
    }
}

/// The length of a path up to and including its last slash.
pub open spec fn dir_len(p: Seq<char>) -> int
    decreases p.len(),
{
    if p.len() == 0 {
        0
    } else if p.last() == '/' {
        p.len() as int
    } else {
        dir_len(p.drop_last())
    }
}

/// The base URL of parsed parts: the path cut after its last slash.
pub open spec fn base_of_parts(before: Seq<char>, path: Seq<char>, after: Seq<char>) -> Option<Seq<char>> {
    if path.len() > 0 && path[0] == '/' {
        Some(before + path.take(dir_len(path)) + after)
    } else {
        None
    }
}

/// The text of a URL that names a cached object: scheme, query and
/// fragment removed.
pub open spec fn strip_scheme(s: Seq<char>) -> Seq<char> {
    if has_prefix(s, http_scheme()) {
        s.skip(7)
    } else if has_prefix(s, https_scheme()) {
        s.skip(8)
    } else {
        s
    }
}

pub open spec fn cut_at(t: Seq<char>, c: char) -> Seq<char> {
    t.take(first_of(t, c))
}

/// Host and path of a URL, which decide its cache key.
pub open spec fn key_text(s: Seq<char>) -> Seq<char> {
    cut_at(cut_at(strip_scheme(s), '?'), '#')
}

/// The MD5 digest of some bytes.
pub uninterp spec fn md5_of(data: Seq<u8>) -> Seq<u8>;

/// Relies on `md5::compute`: the 16-byte digest of the data.
#[verifier::external_body]
fn md5_digest(data: &[u8]) -> (r: Vec<u8>)
    ensures
        r@ == md5_of(data@),
        r@.len() == 16,
{
    md5::compute(data).0.to_vec()
}

pub open spec fn hex_digit(n: nat) -> char {
    if n < 10 {
        digit_char(n)
    } else if n == 10 {
        'a'
    } else if n == 11 {
        'b'
    } else if n == 12 {
        'c'
    } else if n == 13 {
        'd'
    } else if n == 14 {
        'e'
    } else {
        'f'
    }
}

/// Lower-case hex, two digits per byte.
pub open spec fn hex_of(b: Seq<u8>) -> Seq<char>
    decreases b.len(),
{
    if b.len() == 0 {
        Seq::empty()
    } else {
        hex_of(b.drop_last()) + seq![hex_digit(b.last() as nat / 16), hex_digit(b.last() as nat % 16)]
    }
}

/// The cache key of a URL: the hex MD5 digest of its host and path.
pub open spec fn cache_key_of(url: Seq<char>) -> Seq<char> {
    hex_of(md5_of(encode_utf8(key_text(url))))
}

pub proof fn lemma_hex_len(b: Seq<u8>)
    ensures
        hex_of(b).len() == 2 * b.len(),
    decreases b.len(),
{
    if b.len() > 0 {
        lemma_hex_len(b.drop_last());
    }
}

/// The kind of object that a URL names.
#[derive(Debug, Clone, Copy, PartialEq, Eq, Structural)]
pub enum RequestType {
    Normal,
    M3u8,
    Segment,
}

/// Playlists end in `.m3u8`, segments in `.ts`; anything else is normal.
pub open spec fn request_type_of(url: Seq<char>) -> RequestType {
    if has_suffix(url, seq!['.', 'm', '3', 'u', '8']) {
        RequestType::M3u8
    } else if has_suffix(url, seq!['.', 't', 's']) {
        RequestType::Segment
    } else {
        RequestType::Normal
    }
}

fn ends_with(s: &[char], p: &[char]) -> (r: bool)
    ensures
        r == has_suffix(s@, p@),
{
    if p.len() > s.len() {
        return false;
    }
    let at = s.len() - p.len();
    let r = matches_at(s, at, p);
    assert(s@.subrange(at as int, s@.len() as int).subrange(0, p@.len() as int)
        =~= s@.subrange(at as int, s@.len() as int));
    r
}

fn hex_char(n: u8) -> (c: char)
    requires
        n < 16,
    ensures
        c == hex_digit(n as nat),
{
    if n == 0 { '0' }
    else if n == 1 { '1' }
    else if n == 2 { '2' }
    else if n == 3 { '3' }
    else if n == 4 { '4' }
    else if n == 5 { '5' }
    else if n == 6 { '6' }
    else if n == 7 { '7' }
    else if n == 8 { '8' }
    else if n == 9 { '9' }
    else if n == 10 { 'a' }
    else if n == 11 { 'b' }
    else if n == 12 { 'c' }
    else if n == 13 { 'd' }
    else if n == 14 { 'e' }
    else { 'f' }
}

/// Lower-case hex rendering of bytes.
pub fn hex_string(b: &[u8]) -> (r: String)
    ensures
        r@ == hex_of(b@),
        r@.len() == 2 * b@.len(),
{
    let mut r = String::new();
    let mut i: usize = 0;
    while i < b.len()
        invariant
            i <= b@.len(),
            r@ == hex_of(b@.subrange(0, i as int)),
        decreases b@.len() - i,
    {
        let x = b[i];
        push_char(&mut r, hex_char(x / 16));
        push_char(&mut r, hex_char(x % 16));
        assert(b@.subrange(0, i as int + 1).drop_last() =~= b@.subrange(0, i as int));
        i += 1;
        assert(r@ =~= hex_of(b@.subrange(0, i as int)));
    }
    assert(b@.subrange(0, i as int) =~= b@);
    proof {
        lemma_hex_len(b@);
    }
    r
}

/// The length of a path up to and including its last slash.
pub fn dir_len_of(p: &[char]) -> (r: usize)
    ensures
        r == dir_len(p@),
        r <= p@.len(),
{
    let mut j: usize = p.len();
    assert(p@.take(p@.len() as int) =~= p@);
    while j > 0 && p[j - 1] != '/'
        invariant
            j <= p@.len(),
            dir_len(p@) == dir_len(p@.take(j as int)),
        decreases j,
    {
        assert(p@.take(j as int).drop_last() =~= p@.take(j as int - 1));
        j -= 1;
    }
    if j > 0 {
        assert(p@.take(j as int).last() == '/');
    }
    j
}

/// The lower-case hex MD5 digest of a text's UTF-8 bytes.
pub fn md5_hex(s: &str) -> (r: String)
    ensures
        r@ == hex_of(md5_of(encode_utf8(s@))),
        r@.len() == 32,
{
    let digest = md5_digest(s.as_bytes());
    hex_string(digest.as_slice())
}

pub struct UrlUtils;

impl UrlUtils {
    /// Whether the text starts with `http://` or `https://`.
    pub fn is_absolute_url(url: &str) -> (r: bool)
        ensures
            r == (has_prefix(url@, http_scheme()) || has_prefix(url@, https_scheme())),
    {
        let cs = chars_of(url);
        let h = vec!['h', 't', 't', 'p', ':', '/', '/'];
        let hs = vec!['h', 't', 't', 'p', 's', ':', '/', '/'];
        assert(h@ =~= http_scheme());
        assert(hs@ =~= https_scheme());
        assert(cs@.subrange(0, cs@.len() as int) =~= cs@);
        matches_at(cs.as_slice(), 0, h.as_slice()) || matches_at(cs.as_slice(), 0, hs.as_slice())
    }

    /// The target of a `/proxy/<url>` path, with nested `proxy/` prefixes
    /// peeled and before any decoding; `None` for a path of another form.
    pub fn proxy_path_target(url: &str) -> (r: Option<String>)
        ensures
            match r {
                Some(v) => proxy_target_of(url@) == Some(v@),
                None => proxy_target_of(url@) is None,
            },
    {
        let cs = chars_of(url);
        let marker = vec!['/', 'p', 'r', 'o', 'x', 'y', '/'];
        let word = vec!['p', 'r', 'o', 'x', 'y', '/'];
        assert(marker@ =~= proxy_marker());
        assert(word@ =~= proxy_word());
        assert(cs@.subrange(0, cs@.len() as int) =~= cs@);
        if !matches_at(cs.as_slice(), 0, marker.as_slice()) {
            return None;
        }
        let mut at: usize = 7;
        let n = cs.len();
        while matches_at(cs.as_slice(), at, word.as_slice())
            invariant
                n == cs@.len(),
                cs@ == url@,
                word@ == proxy_word(),
                7 <= at <= cs@.len(),
                has_prefix(url@, proxy_marker()),
                peel_nested(cs@.skip(7)) == peel_nested(cs@.skip(at as int)),
            decreases cs@.len() - at,
        {
            assert(cs@.skip(at as int).skip(6) =~= cs@.skip(at as int + 6));
            at = at + 6;
        }
        assert(cs@.subrange(at as int, cs@.len() as int) =~= cs@.skip(at as int));
        let rest = slice_subrange(cs.as_slice(), at, cs.len());
        Some(string_of(rest))
    }

    /// The upstream URL of a `/proxy/<url>` path: nested prefixes peeled,
    /// then percent-decoded. Any other text is returned as it is.
    pub fn clean_proxy_url(url: &str) -> (r: Result<String, ProxyError>)
        ensures
            match proxy_target_of(url@) {
                None => r matches Ok(v) && v@ == url@,
                Some(t) => match r {
                    Ok(v) => percent_decoded(t) == Some(v@),
                    Err(e) => percent_decoded(t) is None && e is Request,
                },
            },
            (proxy_target_of(url@) is Some && no_percent(proxy_target_of(url@).unwrap())) ==> (r is Ok
                && r.unwrap()@ == proxy_target_of(url@).unwrap()),
    {
        match Self::proxy_path_target(url) {
            None => Ok(url.to_string()),
            Some(t) => match percent_decode(t.as_str()) {
                Some(v) => Ok(v),
                None => Err(ProxyError::Request("URL decoding failed".to_string())),
            },
        }
    }

    /// The percent-decoded form of a URL handed over in a query parameter.
    pub fn clean_proxy_url_value(v: &str) -> (r: Option<String>)
        ensures
            r is Some ==> percent_decoded(v@) == Some(r.unwrap()@),
            r is None <==> percent_decoded(v@) is None,
            no_percent(v@) ==> r is Some && r.unwrap()@ == v@,
    {
        percent_decode(v)
    }

    /// The base of parsed URL parts: the path cut after its last slash,
    /// the rest kept; `None` when the path does not start with a slash.
    pub fn base_url_from_parts(before: &str, path: &str, after: &str) -> (r: Option<String>)
        ensures
            match r {
                Some(v) => base_of_parts(before@, path@, after@) == Some(v@),
                None => base_of_parts(before@, path@, after@) is None,
            },
    {
        let p = chars_of(path);
        if p.len() == 0 || p[0] != '/' {
            return None;
        }
        let j = dir_len_of(p.as_slice());
        let mut r = String::new();
        push_chars(&mut r, chars_of(before).as_slice());
        push_chars(&mut r, slice_subrange(p.as_slice(), 0, j));
        push_chars(&mut r, chars_of(after).as_slice());
        assert(p@.subrange(0, j as int) =~= p@.take(j as int));
        Some(r)
    }

    /// The directory of a URL with its trailing slash, after the URL is
    /// parsed and normalised.
    pub fn get_base_url(url: &str) -> (r: Result<String, ProxyError>)
        ensures
            match url_parts(url@) {
                None => r matches Err(e) && e is Parse,
                Some(p) => match base_of_parts(p.0, p.1, p.2) {
                    None => r matches Err(e) && e is Parse,
                    Some(b) => r matches Ok(v) && v@ == b,
                },
            },
    {
        match split_url(url) {
            None => Err(ProxyError::Parse("cannot parse URL".to_string())),
            Some((before, path, after)) => {
                match Self::base_url_from_parts(before.as_str(), path.as_str(), after.as_str()) {
                    Some(b) => Ok(b),
                    None => Err(ProxyError::Parse("URL has no path".to_string())),
                }
            },
        }
    }

    /// The host and path of a URL: scheme, query and fragment removed.
    pub fn key_source(url: &str) -> (r: String)
        ensures
            r@ == key_text(url@),
    {
        let cs = chars_of(url);
        let h = vec!['h', 't', 't', 'p', ':', '/', '/'];
        let hs = vec!['h', 't', 't', 'p', 's', ':', '/', '/'];
        assert(h@ =~= http_scheme());
        assert(hs@ =~= https_scheme());
        assert(cs@.subrange(0, cs@.len() as int) =~= cs@);
        let from: usize = if matches_at(cs.as_slice(), 0, h.as_slice()) {
            7
        } else if matches_at(cs.as_slice(), 0, hs.as_slice()) {
            8
        } else {
            0
        };
        let ghost t = strip_scheme(cs@);
        assert(t =~= cs@.skip(from as int));
        let q = find_char(cs.as_slice(), from, '?');
        let ghost t1 = cut_at(t, '?');
        proof { lemma_first_of_bounds(t, '?'); }
        assert(t1 =~= cs@.subrange(from as int, q as int));
        let part = slice_subrange(cs.as_slice(), 0, q);
        let h2 = find_char(part, from, '#');
        proof { lemma_first_of_bounds(t1, '#'); }
        assert(part@.skip(from as int) =~= t1);
        assert(cut_at(t1, '#') =~= part@.subrange(from as int, h2 as int));
        string_of(slice_subrange(part, from, h2))
    }

    /// The cache key of a URL: the lower-case hex MD5 digest of its host
    /// and path.
    pub fn cache_key(url: &str) -> (r: String)
        ensures
            r@ == cache_key_of(url@),
            r@.len() == 32,
    {
        let src = Self::key_source(url);
        md5_hex(src.as_str())
    }

    /// The kind of object that a URL names.
    pub fn request_type(url: &str) -> (r: RequestType)
        ensures
            r == request_type_of(url@),
    {
        let cs = chars_of(url);
        let m = vec!['.', 'm', '3', 'u', '8'];
        let t = vec!['.', 't', 's'];
        assert(m@ =~= seq!['.', 'm', '3', 'u', '8']);
        assert(t@ =~= seq!['.', 't', 's']);
        if ends_with(cs.as_slice(), m.as_slice()) {
            RequestType::M3u8
        } else if ends_with(cs.as_slice(), t.as_slice()) {
            RequestType::Segment
        } else {
            RequestType::Normal
        }
    }
}

} // verus!
