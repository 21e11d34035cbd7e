use vstd::prelude::*;
use crate::text::{chars_of, push_chars, push_char, has_prefix, matches_at, first_of, find_char, lemma_first_of_bounds};
use crate::url::{http_scheme, https_scheme, proxy_marker};
use crate::text::digit_char;
use vstd::utf8::encode_utf8;
use vstd::slice::slice_subrange;

verus! {

/// A variant stream of a master playlist.
pub struct VariantStream {
    pub url: String,
    pub bandwidth: u64,
    pub resolution: Option<String>,
}

/// An ASCII letter or digit, or one of `-._~`: the bytes that
/// percent-encoding keeps.
pub open spec fn url_safe(b: u8) -> bool {
    (48 <= b && b <= 57) || (65 <= b && b <= 90) || (97 <= b && b <= 122) || b == 45 || b == 46 || b == 95
        || b == 126
}

/// An upper-case hex digit.
pub open spec fn upper_hex(n: nat) -> char {
    if n < 10 {
        digit_char(n)
    } else if n == 10 {
        'A'
    } else if n == 11 {
        'B'
    } else if n == 12 {
        'C'
    } else if n == 13 {
        'D'
    } else if n == 14 {
        'E'
    } else {
        'F'
    }
}

/// Safe bytes kept as they are; every other byte written `%XX`.
pub open spec fn percent_encode_bytes(b: Seq<u8>) -> Seq<char>
    decreases b.len(),
{
    if b.len() == 0 {
        Seq::empty()
    } else {
        percent_encode_bytes(b.drop_last()) + if url_safe(b.last()) {
            seq![b.last() as char]
        } else {
            seq!['%', upper_hex(b.last() as nat / 16), upper_hex(b.last() as nat % 16)]
        }
    }
}

/// What percent-encoding makes of a text: its UTF-8 bytes, encoded.
pub open spec fn percent_encoded(s: Seq<char>) -> Seq<char> {
    percent_encode_bytes(encode_utf8(s))
}

/// Relies on `urlencoding::encode`: percent-encodes every UTF-8 byte but
/// ASCII letters, digits and `-._~`, with upper-case hex digits.
#[verifier::external_body]
fn percent_encode(s: &str) -> (r: String)
    ensures
        r@ == percent_encoded(s@),
{
    urlencoding::encode(s).into_owned()
}

/// The text without its trailing slashes.
pub open spec fn trim_end_slashes(t: Seq<char>) -> Seq<char>
    decreases t.len(),
{
    if t.len() > 0 && t.last() == '/' {
        trim_end_slashes(t.drop_last())
    } else {
        t
    }
}

/// The text without its leading slashes.
pub open spec fn trim_start_slashes(t: Seq<char>) -> Seq<char>
    decreases t.len(),
{
    if t.len() > 0 && t[0] == '/' {
        trim_start_slashes(t.skip(1))
    } else {
        t
    }
}

pub open spec fn is_absolute(t: Seq<char>) -> bool {
    has_prefix(t, http_scheme()) || has_prefix(t, https_scheme())
}

/// `base/path`, with one slash between them.
pub open spec fn join_url(base: Seq<char>, path: Seq<char>) -> Seq<char> {
    trim_end_slashes(base) + seq!['/'] + trim_start_slashes(path)
}

/// The absolute URL that a playlist line names.
pub open spec fn line_target(line: Seq<char>, base: Seq<char>) -> Seq<char> {
    if is_absolute(line) {
        line
    } else if has_prefix(line, proxy_marker()) {
        if is_absolute(line.skip(7)) { line.skip(7) } else { join_url(base, line.skip(7)) }
    } else {
        join_url(base, line)
    }
}

/// A playlist line after rewriting: tags kept, URIs sent through the proxy,
/// blank lines dropped.
pub open spec fn rewrite_line_spec(line: Seq<char>, base: Seq<char>, prefix: Seq<char>) -> Seq<char> {
    if line.len() > 0 && line[0] == '#' {
        line.push('\n')
    } else if line.len() == 0 {
        Seq::empty()
    } else {
        trim_end_slashes(prefix) + seq!['/'] + percent_encoded(line_target(line, base)) + seq!['\n']
    }
}

/// A line without its trailing carriage return.
pub open spec fn strip_cr(t: Seq<char>) -> Seq<char> {
    if t.len() > 0 && t.last() == '\r' { t.drop_last() } else { t }
}

/// The rewritten playlist, line by line.
pub open spec fn rewrite_spec(c: Seq<char>, base: Seq<char>, prefix: Seq<char>) -> Seq<char>
    decreases c.len() via rewrite_spec_decreases
{
    if c.len() == 0 {
        Seq::empty()
    } else {
        let n = first_of(c, '\n');
        rewrite_line_spec(strip_cr(c.take(n)), base, prefix) + if n >= c.len() {
            Seq::empty()
        } else {
            rewrite_spec(c.skip(n + 1), base, prefix)
        }
    }
}

#[via_fn]
proof fn rewrite_spec_decreases(c: Seq<char>, base: Seq<char>, prefix: Seq<char>) {
    lemma_first_of_bounds(c, '\n');
}

fn trim_end_len(t: &[char]) -> (r: usize)
    ensures
        t@.take(r as int) == trim_end_slashes(t@),
        r <= t@.len(),
{
    let mut j = t.len();
    assert(t@.take(j as int) =~= t@);
    while j > 0 && t[j - 1] == '/'
        invariant
            j <= t@.len(),
            trim_end_slashes(t@) == trim_end_slashes(t@.take(j as int)),
        decreases j,
    {
        assert(t@.take(j as int).drop_last() =~= t@.take(j as int - 1));
        j -= 1;
    }
    j
}

fn trim_start_len(t: &[char]) -> (r: usize)
    ensures
        t@.skip(r as int) == trim_start_slashes(t@),
        r <= t@.len(),
{
    let mut i: usize = 0;
    assert(t@.skip(0) =~= t@);
    while i < t.len() && t[i] == '/'
        invariant
            i <= t@.len(),
            trim_start_slashes(t@) == trim_start_slashes(t@.skip(i as int)),
        decreases t@.len() - i,
    {
        assert(t@.skip(i as int).skip(1) =~= t@.skip(i as int + 1));
        i += 1;
    }
    i
}

fn absolute(t: &[char]) -> (r: bool)
    ensures
        r == is_absolute(t@),
{
    let h = vec!['h', 't', 't', 'p', ':', '/', '/'];
    let hs = vec!['h', 't', 't', 'p', 's', ':', '/', '/'];
    assert(h@ =~= http_scheme());
    assert(hs@ =~= https_scheme());
    assert(t@.subrange(0, t@.len() as int) =~= t@);
    matches_at(t, 0, h.as_slice()) || matches_at(t, 0, hs.as_slice())
}

fn push_join(out: &mut String, base: &[char], path: &[char])
    ensures
        final(out)@ == old(out)@ + join_url(base@, path@),
{
    let e = trim_end_len(base);
    let s = trim_start_len(path);
    push_chars(out, slice_subrange(base, 0, e));
    push_char(out, '/');
    push_chars(out, slice_subrange(path, s, path.len()));
    assert(base@.subrange(0, e as int) =~= base@.take(e as int));
    assert(path@.subrange(s as int, path@.len() as int) =~= path@.skip(s as int));
    assert(final(out)@ =~= old(out)@ + join_url(base@, path@));
}

/// Rewrites one playlist line (without its line break).
pub fn rewrite_line(line: &[char], base: &[char], prefix: &[char]) -> (r: String)
    ensures
        r@ == rewrite_line_spec(line@, base@, prefix@),
{
    let mut r = String::new();
    if line.len() > 0 && line[0] == '#' {
        push_chars(&mut r, line);
        push_char(&mut r, '\n');
        assert(r@ =~= line@.push('\n'));
        return r;
    }
    if line.len() == 0 {
        return r;
    }
    let mut target = String::new();
    let marker = vec!['/', 'p', 'r', 'o', 'x', 'y', '/'];
    assert(marker@ =~= proxy_marker());
    assert(line@.subrange(0, line@.len() as int) =~= line@);
    if absolute(line) {
        push_chars(&mut target, line);
    } else if matches_at(line, 0, marker.as_slice()) {
        let rest = slice_subrange(line, 7, line.len());
        assert(rest@ =~= line@.skip(7));
        if absolute(rest) {
            push_chars(&mut target, rest);
        } else {
            push_join(&mut target, base, rest);
        }
    } else {
        push_join(&mut target, base, line);
    }
    assert(target@ =~= line_target(line@, base@));
    let pe = trim_end_len(prefix);
    push_chars(&mut r, slice_subrange(prefix, 0, pe));
    assert(prefix@.subrange(0, pe as int) =~= prefix@.take(pe as int));
    push_char(&mut r, '/');
    let enc = percent_encode(target.as_str());
    push_chars(&mut r, chars_of(enc.as_str()).as_slice());
    push_char(&mut r, '\n');
    assert(r@ =~= rewrite_line_spec(line@, base@, prefix@));
    r
}

pub struct HlsManager;

impl HlsManager {
    /// Rewrites a playlist so that every URI line becomes
    /// `<proxy_prefix>/<percent-encoded absolute URL>`; tags are kept and
    /// blank lines dropped.
    pub fn rewrite_m3u8(content: &str, base_url: &str, proxy_prefix: &str) -> (r: String)
        ensures
            r@ == rewrite_spec(content@, base_url@, proxy_prefix@),
    {
        let c = chars_of(content);
        let base = chars_of(base_url);
        let prefix = chars_of(proxy_prefix);
        let n = c.len();
        let mut out = String::new();
        let mut pos: usize = 0;
        assert(c@.skip(0) =~= c@);
        while pos < n
            invariant
                c@ == content@,
                base@ == base_url@,
                prefix@ == proxy_prefix@,
                n == c@.len(),
                pos <= n,
                out@ + rewrite_spec(c@.skip(pos as int), base@, prefix@) == rewrite_spec(c@, base@, prefix@),
            decreases n - pos,
        {
            let ghost t = c@.skip(pos as int);
            let e = find_char(c.as_slice(), pos, '\n');
            proof {
                lemma_first_of_bounds(t, '\n');
            }
            let mut le = e;
            if le > pos && c[le - 1] == '\r' {
                le = le - 1;
            }
            let line = slice_subrange(c.as_slice(), pos, le);
            assert(line@ =~= strip_cr(t.take(first_of(t, '\n'))));
            let piece = rewrite_line(line, base.as_slice(), prefix.as_slice());
            let ghost before = out@;
            push_chars(&mut out, chars_of(piece.as_str()).as_slice());
            if e >= n {
                assert(rewrite_spec(t, base@, prefix@) =~= piece@);
                assert(c@.skip(n as int) =~= Seq::<char>::empty());
                pos = n;
                assert(out@ + rewrite_spec(c@.skip(pos as int), base@, prefix@) =~= before + rewrite_spec(t, base@, prefix@));
            } else {
                assert(t.skip(first_of(t, '\n') + 1) =~= c@.skip(e as int + 1));
                pos = e + 1;
                assert(out@ + rewrite_spec(c@.skip(pos as int), base@, prefix@) =~= before + rewrite_spec(t, base@, prefix@));
            }
        }
        assert(c@.skip(pos as int) =~= Seq::<char>::empty());
        assert(out@ + rewrite_spec(c@.skip(pos as int), base@, prefix@) =~= out@);
        out
    }
}

} // verus!
