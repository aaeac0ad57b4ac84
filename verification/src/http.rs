//! HTTP/1.1 on the wire for the plain-HTTP transport: finding the end of
//! the header block, splitting headers from body, reading the header lines,
//! and building and parsing requests and responses.
//!
//! The header block is decoded as UTF-8 the way `String::from_utf8_lossy`
//! does; lines, fields and tokens then follow `str::lines`, `split_once`,
//! `trim` and `split_whitespace`.
use crate::text::append_bytes;
use crate::text::copy_bytes;
use crate::text::is_ws;
use crate::text::is_ws_exec;
use crate::text::lemma_next_sep_bounds;
use crate::text::next_sep;
use crate::text::next_sep_exec;
use crate::text::parse_uint;
use crate::text::parse_uint_exec;
use crate::text::skip_ws;
use crate::text::str_chars;
use crate::text::trim_bounds;
use crate::text::trim_range;
use crate::text::slice_range;
use vstd::prelude::*;
use vstd::string::StrSliceExecFns;
use vstd::string::StringSliceAdditionalSpecFns;

verus! {

// ---------------------------------------------------------------------------
// Bytes
// ---------------------------------------------------------------------------

/// Whether `needle` occurs in `hay` at `i`.
pub open spec fn occurs_at(hay: Seq<u8>, needle: Seq<u8>, i: int) -> bool {
    0 <= i && i + needle.len() <= hay.len() && hay.subrange(i, i + needle.len()) == needle
}

/// The first index at or after `i` where `needle` occurs in `hay`.
pub open spec fn find_from(hay: Seq<u8>, needle: Seq<u8>, i: int) -> Option<int>
    decreases hay.len() + 1 - i,
{
    if i < 0 || i + needle.len() > hay.len() {
        None
    } else if occurs_at(hay, needle, i) {
        Some(i)
    } else {
        find_from(hay, needle, i + 1)
    }
}

/// Whether `needle` occurs in `hay` at `i` (which leaves room for it).
fn matches_at(hay: &[u8], needle: &[u8], i: usize) -> (r: bool)
    requires
        i + needle@.len() <= hay@.len(),
    ensures
        r == occurs_at(hay@, needle@, i as int),
{
    let n = needle.len();
    let total = hay.len();
    let mut j: usize = 0;
    while j < n
        invariant
            n == needle@.len(),
            total == hay@.len(),
            i + n <= hay@.len(),
            j <= n,
            forall|m: int| 0 <= m < j ==> hay@[i + m] == needle@[m],
        decreases n - j,
    {
        if hay[i + j] != needle[j] {
            proof {
                assert(hay@.subrange(i as int, i + n)[j as int] != needle@[j as int]);
            }
            return false;
        }
        j = j + 1;
    }
    proof {
        assert(hay@.subrange(i as int, i + n) =~= needle@);
    }
    true
}

/// First index of `needle` within `haystack`.
pub fn find_subslice(haystack: &[u8], needle: &[u8]) -> (r: Option<usize>)
    requires
        needle@.len() > 0,
    ensures
        r is None <==> find_from(haystack@, needle@, 0) is None,
        r matches Some(p) ==> find_from(haystack@, needle@, 0) == Some(p as int),
{
    let n = needle.len();
    if n > haystack.len() {
        return None;
    }
    let total = haystack.len();
    let last = total - n;
    let mut i: usize = 0;
    while i <= last
        invariant
            n == needle@.len(),
            n > 0,
            total == haystack@.len(),
            last + n == haystack@.len(),
            i <= last + 1,
            find_from(haystack@, needle@, 0) == find_from(haystack@, needle@, i as int),
        decreases last + 1 - i,
    {
        if matches_at(haystack, needle, i) {
            return Some(i);
        }
        i = i + 1;
    }
    None
}

/// `\r\n\r\n`, the blank line ending a header block.
pub open spec fn crlf2() -> Seq<u8> {
    seq![0x0Du8, 0x0A, 0x0D, 0x0A]
}

/// `\n\n`, the bare-newline blank line.
pub open spec fn lf2() -> Seq<u8> {
    seq![0x0Au8, 0x0A]
}

/// Byte offset just past the blank line ending the headers, if present:
/// the first `\r\n\r\n`, else the first `\n\n`.
pub open spec fn spec_header_end(buf: Seq<u8>) -> Option<int> {
    match find_from(buf, crlf2(), 0) {
        Some(p) => Some(p + 4),
        None => match find_from(buf, lf2(), 0) {
            Some(p) => Some(p + 2),
            None => None,
        },
    }
}

proof fn lemma_find_from_bounds(hay: Seq<u8>, needle: Seq<u8>, i: int)
    ensures
        find_from(hay, needle, i) matches Some(p) ==> i <= p && occurs_at(hay, needle, p),
    decreases hay.len() + 1 - i,
{
    if !(i < 0 || i + needle.len() > hay.len()) && !occurs_at(hay, needle, i) {
        lemma_find_from_bounds(hay, needle, i + 1);
    }
}

/// Byte offset just past the blank line ending the headers, if present.
pub fn find_header_end(buf: &[u8]) -> (r: Option<usize>)
    ensures
        r is None <==> spec_header_end(buf@) is None,
        r matches Some(e) ==> spec_header_end(buf@) == Some(e as int) && e <= buf@.len(),
{
    let crlf: [u8; 4] = [0x0D, 0x0A, 0x0D, 0x0A];
    let lf: [u8; 2] = [0x0A, 0x0A];
    let _total = buf.len();
    proof {
        assert(crlf@ =~= crlf2());
        assert(lf@ =~= lf2());
        lemma_find_from_bounds(buf@, crlf2(), 0);
        lemma_find_from_bounds(buf@, lf2(), 0);
    }
    if let Some(pos) = find_subslice(buf, &crlf) {
        Some(pos + 4)
    } else {
        match find_subslice(buf, &lf) {
            Some(pos) => Some(pos + 2),
            None => None,
        }
    }
}

/// `(headers, body)` of a raw message, split on the blank-line separator
/// (the whole message is headers when there is none).
pub open spec fn spec_split_head_body(raw: Seq<u8>) -> (Seq<u8>, Seq<u8>) {
    match find_from(raw, crlf2(), 0) {
        Some(p) => (raw.subrange(0, p), raw.subrange(p + 4, raw.len() as int)),
        None => match find_from(raw, lf2(), 0) {
            Some(p) => (raw.subrange(0, p), raw.subrange(p + 2, raw.len() as int)),
            None => (raw, Seq::empty()),
        },
    }
}


/// Split a raw HTTP message into `(headers, body)` on the blank-line
/// separator.
pub fn split_head_body(raw: &[u8]) -> (r: (&[u8], &[u8]))
    ensures
        (r.0@, r.1@) == spec_split_head_body(raw@),
{
    let crlf: [u8; 4] = [0x0D, 0x0A, 0x0D, 0x0A];
    let lf: [u8; 2] = [0x0A, 0x0A];
    let _total = raw.len();
    proof {
        assert(crlf@ =~= crlf2());
        assert(lf@ =~= lf2());
        lemma_find_from_bounds(raw@, crlf2(), 0);
        lemma_find_from_bounds(raw@, lf2(), 0);
    }
    if let Some(pos) = find_subslice(raw, &crlf) {
        (slice_range(raw, 0, pos), slice_range(raw, pos + 4, raw.len()))
    } else if let Some(pos) = find_subslice(raw, &lf) {
        (slice_range(raw, 0, pos), slice_range(raw, pos + 2, raw.len()))
    } else {
        proof {
            assert(raw@.subrange(0, 0) =~= Seq::<u8>::empty());
        }
        (raw, slice_range(raw, 0, 0))
    }
}

// ---------------------------------------------------------------------------
// Header text
// ---------------------------------------------------------------------------

/// The text `String::from_utf8_lossy` makes of `bytes` (invalid sequences
/// replaced by U+FFFD).
pub uninterp spec fn utf8_lossy(bytes: Seq<u8>) -> Seq<char>;

/// Calls `String::from_utf8_lossy`. Claims that the result is the named
/// decoding of the bytes and, as its documentation states, that valid UTF-8
/// decodes to exactly the characters it encodes.
#[verifier::external_body]
fn decode_lossy(bytes: &[u8]) -> (r: String)
    ensures
        r@ == utf8_lossy(bytes@),
        vstd::utf8::valid_utf8(bytes@) ==> r@ == vstd::utf8::decode_utf8(bytes@),
{
    String::from_utf8_lossy(bytes).into_owned()
}

/// Where the line after the one starting at `p` starts (`s.len()` at the
/// end), as `str::lines` walks.
pub open spec fn next_line(s: Seq<char>, p: int) -> int {
    let e = next_sep(s, '\n', p);
    if e < s.len() {
        e + 1
    } else {
        s.len() as int
    }
}

/// Where the content of the line starting at `p` ends: before its `\n`, or
/// before a `\r\n`.
pub open spec fn line_end(s: Seq<char>, p: int) -> int {
    let e = next_sep(s, '\n', p);
    if e < s.len() && e > p && s[e - 1] == '\r' {
        e - 1
    } else {
        e
    }
}

proof fn lemma_line_bounds(s: Seq<char>, p: int)
    requires
        0 <= p < s.len(),
    ensures
        p <= line_end(s, p) <= s.len(),
        p < next_line(s, p) <= s.len(),
        line_end(s, p) < next_line(s, p) || next_line(s, p) == s.len(),
        line_end(s, p) <= next_line(s, p),
{
    lemma_next_sep_bounds(s, '\n', p);
}

/// ASCII upper-casing of one character.
pub open spec fn upper(c: char) -> char {
    if 'a' <= c <= 'z' {
        ((c as u32) - 32) as char
    } else {
        c
    }
}

/// ASCII lower-casing of one character.
pub open spec fn lower(c: char) -> char {
    if 'A' <= c <= 'Z' {
        ((c as u32) + 32) as char
    } else {
        c
    }
}

/// ASCII case-insensitive equality, as `str::eq_ignore_ascii_case`.
pub open spec fn eq_ignore_ascii_case(a: Seq<char>, b: Seq<char>) -> bool {
    a.len() == b.len() && forall|i: int| 0 <= i < a.len() ==> lower(#[trigger] a[i]) == lower(b[i])
}

fn lower_exec(c: char) -> (r: char)
    ensures
        r == lower(c),
{
    if 'A' <= c && c <= 'Z' {
        ((c as u8) + 32) as char
    } else {
        c
    }
}

fn upper_exec(c: char) -> (r: char)
    ensures
        r == upper(c),
{
    if 'a' <= c && c <= 'z' {
        ((c as u8) - 32) as char
    } else {
        c
    }
}

/// Whether `cs[lo..hi]` equals `name` ignoring ASCII case.
fn range_eq_ignore_case(cs: &[char], lo: usize, hi: usize, name: &[char]) -> (r: bool)
    requires
        lo <= hi <= cs@.len(),
    ensures
        r == eq_ignore_ascii_case(cs@.subrange(lo as int, hi as int), name@),
{
    if hi - lo != name.len() {
        return false;
    }
    let mut i: usize = 0;
    while i < name.len()
        invariant
            lo <= hi <= cs@.len(),
            hi - lo == name@.len(),
            i <= name@.len(),
            forall|j: int| 0 <= j < i ==> lower(cs@[lo + j]) == lower(name@[j]),
        decreases name@.len() - i,
    {
        if lower_exec(cs[lo + i]) != lower_exec(name[i]) {
            proof {
                assert(cs@.subrange(lo as int, hi as int)[i as int] == cs@[lo + i]);
            }
            return false;
        }
        i = i + 1;
    }
    proof {
        assert forall|j: int| 0 <= j < name@.len() implies lower(
            #[trigger] cs@.subrange(lo as int, hi as int)[j],
        ) == lower(name@[j]) by {
            assert(cs@.subrange(lo as int, hi as int)[j] == cs@[lo + j]);
        }
    }
    true
}

/// Whether `key` names a header the encoders set themselves (`Host`,
/// `Content-Length`, `Connection`, in any case).
pub open spec fn spec_is_managed_header(key: Seq<char>) -> bool {
    eq_ignore_ascii_case(key, "host"@) || eq_ignore_ascii_case(key, "content-length"@)
        || eq_ignore_ascii_case(key, "connection"@)
}

/// Headers the encoders set themselves; user-supplied copies are skipped
/// to avoid duplicates.
pub fn is_managed_header(key: &str) -> (r: bool)
    ensures
        r == spec_is_managed_header(key@),
{
    let k = str_chars(key);
    let host = str_chars("host");
    let length = str_chars("content-length");
    let connection = str_chars("connection");
    proof {
        assert(k@.subrange(0, k@.len() as int) =~= k@);
    }
    range_eq_ignore_case(k.as_slice(), 0, k.len(), host.as_slice())
        || range_eq_ignore_case(k.as_slice(), 0, k.len(), length.as_slice())
        || range_eq_ignore_case(k.as_slice(), 0, k.len(), connection.as_slice())
}

/// The `Content-Length` of the header lines from `p` on: the value of the
/// first line whose key (before its first `:`, trimmed) is
/// `content-length` in any case, trimmed and read as a `usize` (0 when
/// malformed); 0 when no line has it.
pub open spec fn content_length_from(s: Seq<char>, p: int) -> int
    decreases s.len() - p,
{
    if p < 0 || p >= s.len() {
        0
    } else {
        let le = line_end(s, p);
        let c = next_sep(s, ':', p);
        if c < le && eq_ignore_ascii_case(trim_range(s, p, c), "content-length"@) {
            match parse_uint(trim_range(s, c + 1, le), usize::MAX as int) {
                Some(v) => v,
                None => 0,
            }
        } else if next_line(s, p) > p {
            content_length_from(s, next_line(s, p))
        } else {
            0
        }
    }
}

/// The line-walking exec helpers: the end of the line's content and the
/// start of the next line.
fn line_bounds(cs: &[char], p: usize) -> (r: (usize, usize))
    requires
        p < cs@.len(),
    ensures
        r.0 == line_end(cs@, p as int),
        r.1 == next_line(cs@, p as int),
        p <= r.0 <= r.1 <= cs@.len(),
        p < r.1,
{
    proof {
        lemma_line_bounds(cs@, p as int);
    }
    let e = next_sep_exec(cs, '\n', p);
    let end = if e < cs.len() && e > p && cs[e - 1] == '\r' {
        e - 1
    } else {
        e
    };
    let next = if e < cs.len() {
        e + 1
    } else {
        cs.len()
    };
    (end, next)
}

/// The `Content-Length` of decoded header text (0 if absent or malformed).
fn content_length_of(cs: &[char]) -> (r: usize)
    ensures
        r == content_length_from(cs@, 0),
{
    let name = str_chars("content-length");
    let mut p: usize = 0;
    while p < cs.len()
        invariant
            name@ == "content-length"@,
            p <= cs@.len(),
            content_length_from(cs@, 0) == content_length_from(cs@, p as int),
        decreases cs@.len() - p,
    {
        let (le, next) = line_bounds(cs, p);
        let c = next_sep_exec(cs, ':', p);
        if c < le {
            let (ka, kb) = trim_bounds(cs, p, c);
            if range_eq_ignore_case(cs, ka, kb, name.as_slice()) {
                let (va, vb) = trim_bounds(cs, c + 1, le);
                return match parse_uint_exec(cs, va, vb, usize::MAX as u64) {
                    Some(v) => v as usize,
                    None => 0,
                };
            }
        }
        p = next;
    }
    0
}

/// Extract the `Content-Length` value from raw header bytes (0 if absent or
/// malformed).
pub fn parse_content_length(header_bytes: &[u8]) -> (r: usize)
    ensures
        r == content_length_from(utf8_lossy(header_bytes@), 0),
{
    let text = decode_lossy(header_bytes);
    let cs = str_chars(text.as_str());
    content_length_of(cs.as_slice())
}

/// The most a message read is allowed to grow to, bytes.
pub const READ_CAP: usize = 8192;

/// Whether a message read so far in `buf` is complete: its headers have
/// ended and the body its `Content-Length` announces is in, or it has
/// reached [`READ_CAP`].
pub open spec fn spec_read_complete(buf: Seq<u8>) -> bool {
    (match spec_header_end(buf) {
        Some(e) => buf.len() >= e + content_length_from(utf8_lossy(buf.subrange(0, e)), 0),
        None => false,
    }) || buf.len() >= READ_CAP
}

/// Whether to stop reading a message after the bytes in `buf` arrived.
pub fn read_complete(buf: &[u8]) -> (r: bool)
    ensures
        r == spec_read_complete(buf@),
{
    let _total = buf.len();
    if let Some(header_end) = find_header_end(buf) {
        let content_length = parse_content_length(slice_range(buf, 0, header_end));
        if buf.len() >= header_end && buf.len() - header_end >= content_length {
            return true;
        }
    }
    buf.len() >= READ_CAP
}

// ---------------------------------------------------------------------------
// Tokens, the status line and header fields
// ---------------------------------------------------------------------------

/// The first index in `[i, hi)` of `s` holding whitespace (`hi` if none).
pub open spec fn next_ws(s: Seq<char>, i: int, hi: int) -> int
    decreases hi - i,
{
    if i >= hi {
        hi
    } else if is_ws(s[i]) {
        i
    } else {
        next_ws(s, i + 1, hi)
    }
}

/// The bounds of the `k`-th whitespace-separated token of `s[i..hi]`, as
/// `split_whitespace` yields them.
pub open spec fn nth_token(s: Seq<char>, i: int, hi: int, k: nat) -> Option<(int, int)>
    decreases k,
{
    let a = skip_ws(s, i, hi);
    if a >= hi {
        None
    } else {
        let b = next_ws(s, a, hi);
        if k == 0 {
            Some((a, b))
        } else {
            nth_token(s, b, hi, (k - 1) as nat)
        }
    }
}

proof fn lemma_next_ws_bounds(s: Seq<char>, i: int, hi: int)
    requires
        i <= hi,
    ensures
        i <= next_ws(s, i, hi) <= hi,
    decreases hi - i,
{
    if i < hi && !is_ws(s[i]) {
        lemma_next_ws_bounds(s, i + 1, hi);
    }
}

proof fn lemma_skip_ws_le(s: Seq<char>, i: int, hi: int)
    requires
        i <= hi,
    ensures
        i <= skip_ws(s, i, hi) <= hi,
    decreases hi - i,
{
    if i < hi && is_ws(s[i]) {
        lemma_skip_ws_le(s, i + 1, hi);
    }
}

proof fn lemma_nth_token_bounds(s: Seq<char>, i: int, hi: int, k: nat)
    requires
        i <= hi,
    ensures
        nth_token(s, i, hi, k) matches Some((a, b)) ==> i <= a < b <= hi,
    decreases k,
{
    lemma_skip_ws_le(s, i, hi);
    let a = skip_ws(s, i, hi);
    if a < hi {
        lemma_next_ws_bounds(s, a, hi);
        if k > 0 {
            lemma_nth_token_bounds(s, next_ws(s, a, hi), hi, (k - 1) as nat);
        } else {
            assert(!is_ws(s[a])) by {
                lemma_skip_ws_stops(s, i, hi);
            }
            lemma_next_ws_bounds(s, a + 1, hi);
        }
    }
}

proof fn lemma_skip_ws_stops(s: Seq<char>, i: int, hi: int)
    requires
        i <= hi,
    ensures
        skip_ws(s, i, hi) < hi ==> !is_ws(s[skip_ws(s, i, hi)]),
    decreases hi - i,
{
    if i < hi && is_ws(s[i]) {
        lemma_skip_ws_stops(s, i + 1, hi);
    }
}

/// The bounds of the `k`-th whitespace-separated token of `cs[i..hi]`.
fn nth_token_exec(cs: &[char], i: usize, hi: usize, k: usize) -> (r: Option<(usize, usize)>)
    requires
        i <= hi <= cs@.len(),
    ensures
        match nth_token(cs@, i as int, hi as int, k as nat) {
            Some((a, b)) => r == Some((a as usize, b as usize)),
            None => r is None,
        },
{
    let mut pos = i;
    let mut left = k;
    loop
        invariant
            i <= pos <= hi <= cs@.len(),
            left <= k,
            nth_token(cs@, i as int, hi as int, k as nat) == nth_token(
                cs@,
                pos as int,
                hi as int,
                left as nat,
            ),
        decreases left,
    {
        proof {
            lemma_nth_token_bounds(cs@, pos as int, hi as int, left as nat);
            lemma_skip_ws_le(cs@, pos as int, hi as int);
        }
        let mut a = pos;
        while a < hi && is_ws_exec(cs[a])
            invariant
                pos <= a <= hi <= cs@.len(),
                skip_ws(cs@, pos as int, hi as int) == skip_ws(cs@, a as int, hi as int),
            decreases hi - a,
        {
            a = a + 1;
        }
        if a >= hi {
            return None;
        }
        let mut b = a;
        while b < hi && !is_ws_exec(cs[b])
            invariant
                a <= b <= hi <= cs@.len(),
                next_ws(cs@, a as int, hi as int) == next_ws(cs@, b as int, hi as int),
            decreases hi - b,
        {
            b = b + 1;
        }
        if left == 0 {
            return Some((a, b));
        }
        pos = b;
        left = left - 1;
    }
}

/// The status code of an HTTP status line (`HTTP/1.1 200 OK`): its second
/// token read as an integer up to 65535.
pub open spec fn status_code_in(s: Seq<char>, lo: int, hi: int) -> Option<u16> {
    match nth_token(s, lo, hi, 1) {
        Some((a, b)) => match parse_uint(s.subrange(a, b), 65535) {
            Some(v) => Some(v as u16),
            None => None,
        },
        None => None,
    }
}

fn status_code_exec(cs: &[char], lo: usize, hi: usize) -> (r: Option<u16>)
    requires
        lo <= hi <= cs@.len(),
    ensures
        r == status_code_in(cs@, lo as int, hi as int),
{
    proof {
        lemma_nth_token_bounds(cs@, lo as int, hi as int, 1);
    }
    match nth_token_exec(cs, lo, hi, 1) {
        Some((a, b)) => match parse_uint_exec(cs, a, b, 65535) {
            Some(v) => Some(v as u16),
            None => None,
        },
        None => None,
    }
}

/// Pull the status code out of an HTTP status line (`HTTP/1.1 200 OK`).
pub fn parse_status_line(line: &str) -> (r: Option<u16>)
    ensures
        r == status_code_in(line@, 0, line@.len() as int),
{
    let cs = str_chars(line);
    status_code_exec(cs.as_slice(), 0, cs.len())
}

/// The `(key, value)` fields of the header lines from `p` on, each split at
/// its first `:` and trimmed, up to the first empty line (lines without a
/// `:` are skipped).
pub open spec fn header_fields(s: Seq<char>, p: int) -> Seq<(Seq<char>, Seq<char>)>
    decreases s.len() - p,
{
    if p < 0 || p >= s.len() {
        Seq::empty()
    } else {
        let le = line_end(s, p);
        if le == p || next_line(s, p) <= p {
            Seq::empty()
        } else {
            let rest = header_fields(s, next_line(s, p));
            let c = next_sep(s, ':', p);
            if c < le {
                seq![(trim_range(s, p, c), trim_range(s, c + 1, le))] + rest
            } else {
                rest
            }
        }
    }
}

/// A header line is split at its first `:`: when the line starting at `p`
/// holds a `:` at `c` and none before it, its field is the trimmed text
/// before `c` and the trimmed text after it (later `:`s stay in the value).
pub proof fn lemma_header_splits_at_first_colon(s: Seq<char>, p: int, c: int)
    requires
        0 <= p < c < line_end(s, p),
        s[c] == ':',
        forall|j: int| p <= j < c ==> s[j] != ':',
    ensures
        header_fields(s, p).len() >= 1,
        header_fields(s, p)[0] == (trim_range(s, p, c), trim_range(s, c + 1, line_end(s, p))),
{
    lemma_line_bounds(s, p);
    crate::text::lemma_next_sep_first(s, ':', p, c);
    lemma_next_sep_bounds(s, '\n', p);
}

/// The `Content-Length` lookup splits a line at its first `:` as well: when
/// the line at `p` holds its first `:` at `c` and the text before it is the
/// key `content-length` (any case), the length is the trimmed text after `c`
/// read as a number (0 when malformed).
pub proof fn lemma_content_length_at_first_colon(s: Seq<char>, p: int, c: int)
    requires
        0 <= p < c < line_end(s, p),
        s[c] == ':',
        forall|j: int| p <= j < c ==> s[j] != ':',
        eq_ignore_ascii_case(trim_range(s, p, c), "content-length"@),
    ensures
        content_length_from(s, p) == match parse_uint(
            trim_range(s, c + 1, line_end(s, p)),
            usize::MAX as int,
        ) {
            Some(v) => v,
            None => 0,
        },
{
    lemma_line_bounds(s, p);
    crate::text::lemma_next_sep_first(s, ':', p, c);
}

/// The characters of each field pair.
pub open spec fn fields_view(v: Seq<(String, String)>) -> Seq<(Seq<char>, Seq<char>)> {
    v.map_values(|f: (String, String)| (f.0@, f.1@))
}

/// An owned copy of `text[a..b]` (character positions).
fn substring(text: &str, a: usize, b: usize) -> (r: String)
    requires
        a <= b <= text@.len(),
    ensures
        r@ == text@.subrange(a as int, b as int),
{
    text.substring_char(a, b).to_owned()
}

/// Collect the header fields of `text` (whose characters are `cs`) from
/// line `p` on.
fn collect_fields(text: &str, cs: &[char], p: usize) -> (r: Vec<(String, String)>)
    requires
        cs@ == text@,
        p <= cs@.len(),
    ensures
        fields_view(r@) == header_fields(cs@, p as int),
{
    let mut out: Vec<(String, String)> = Vec::new();
    let mut q = p;
    let ghost s = cs@;
    loop
        invariant
            cs@ == text@,
            s == cs@,
            p <= q <= cs@.len(),
            fields_view(out@) + header_fields(s, q as int) == header_fields(s, p as int),
        decreases cs@.len() - q,
    {
        if q >= cs.len() {
            proof {
                assert(fields_view(out@) + header_fields(s, q as int) =~= fields_view(out@));
            }
            return out;
        }
        let (le, next) = line_bounds(cs, q);
        if le == q {
            proof {
                assert(fields_view(out@) + header_fields(s, q as int) =~= fields_view(out@));
            }
            return out;
        }
        let c = next_sep_exec(cs, ':', q);
        if c < le {
            let (ka, kb) = trim_bounds(cs, q, c);
            let (va, vb) = trim_bounds(cs, c + 1, le);
            let key = substring(text, ka, kb);
            let value = substring(text, va, vb);
            let ghost before = out@;
            out.push((key, value));
            proof {
                assert(fields_view(out@) =~= fields_view(before) + seq![
                    (trim_range(s, q as int, c as int), trim_range(s, c + 1, le as int)),
                ]);
                assert(fields_view(out@) + header_fields(s, next as int) =~= fields_view(before)
                    + header_fields(s, q as int));
            }
        }
        q = next;
    }
}

// ---------------------------------------------------------------------------
// Requests and responses
// ---------------------------------------------------------------------------

/// An HTTP request method.
#[derive(Debug, Clone, Copy, PartialEq, Eq, Structural)]
pub enum HttpMethod {
    Get,
    Post,
    Put,
    Patch,
    Delete,
    Options,
    Head,
    Trace,
    Connect,
}

/// The uppercase wire token of a method.
pub open spec fn method_name(m: HttpMethod) -> Seq<char> {
    match m {
        HttpMethod::Get => "GET"@,
        HttpMethod::Post => "POST"@,
        HttpMethod::Put => "PUT"@,
        HttpMethod::Patch => "PATCH"@,
        HttpMethod::Delete => "DELETE"@,
        HttpMethod::Options => "OPTIONS"@,
        HttpMethod::Head => "HEAD"@,
        HttpMethod::Trace => "TRACE"@,
        HttpMethod::Connect => "CONNECT"@,
    }
}

/// The uppercase HTTP token for a method.
pub fn method_token(method: &HttpMethod) -> (r: &'static str)
    ensures
        r@ == method_name(*method),
{
    match method {
        HttpMethod::Get => "GET",
        HttpMethod::Post => "POST",
        HttpMethod::Put => "PUT",
        HttpMethod::Patch => "PATCH",
        HttpMethod::Delete => "DELETE",
        HttpMethod::Options => "OPTIONS",
        HttpMethod::Head => "HEAD",
        HttpMethod::Trace => "TRACE",
        HttpMethod::Connect => "CONNECT",
    }
}

/// Whether `t`, ASCII upper-cased, is `name`.
pub open spec fn upper_is(t: Seq<char>, name: Seq<char>) -> bool {
    t.len() == name.len() && forall|i: int| 0 <= i < t.len() ==> upper(#[trigger] t[i]) == name[i]
}

/// The method a request line's first token names (upper-cased): one of the
/// methods a server accepts, or `None`.
pub open spec fn request_method(t: Seq<char>) -> Option<HttpMethod> {
    if upper_is(t, "GET"@) {
        Some(HttpMethod::Get)
    } else if upper_is(t, "POST"@) {
        Some(HttpMethod::Post)
    } else if upper_is(t, "PUT"@) {
        Some(HttpMethod::Put)
    } else if upper_is(t, "DELETE"@) {
        Some(HttpMethod::Delete)
    } else if upper_is(t, "PATCH"@) {
        Some(HttpMethod::Patch)
    } else if upper_is(t, "HEAD"@) {
        Some(HttpMethod::Head)
    } else if upper_is(t, "OPTIONS"@) {
        Some(HttpMethod::Options)
    } else {
        None
    }
}

fn range_upper_is(cs: &[char], lo: usize, hi: usize, name: &str) -> (r: bool)
    requires
        lo <= hi <= cs@.len(),
    ensures
        r == upper_is(cs@.subrange(lo as int, hi as int), name@),
{
    let n = str_chars(name);
    if hi - lo != n.len() {
        return false;
    }
    let mut i: usize = 0;
    while i < n.len()
        invariant
            lo <= hi <= cs@.len(),
            hi - lo == n@.len(),
            n@ == name@,
            i <= n@.len(),
            forall|j: int| 0 <= j < i ==> upper(cs@[lo + j]) == n@[j],
        decreases n@.len() - i,
    {
        if upper_exec(cs[lo + i]) != n[i] {
            proof {
                assert(cs@.subrange(lo as int, hi as int)[i as int] == cs@[lo + i]);
            }
            return false;
        }
        i = i + 1;
    }
    proof {
        assert forall|j: int| 0 <= j < n@.len() implies upper(
            #[trigger] cs@.subrange(lo as int, hi as int)[j],
        ) == n@[j] by {
            assert(cs@.subrange(lo as int, hi as int)[j] == cs@[lo + j]);
        }
    }
    true
}

fn request_method_exec(cs: &[char], lo: usize, hi: usize) -> (r: Option<HttpMethod>)
    requires
        lo <= hi <= cs@.len(),
    ensures
        r == request_method(cs@.subrange(lo as int, hi as int)),
{
    if range_upper_is(cs, lo, hi, "GET") {
        Some(HttpMethod::Get)
    } else if range_upper_is(cs, lo, hi, "POST") {
        Some(HttpMethod::Post)
    } else if range_upper_is(cs, lo, hi, "PUT") {
        Some(HttpMethod::Put)
    } else if range_upper_is(cs, lo, hi, "DELETE") {
        Some(HttpMethod::Delete)
    } else if range_upper_is(cs, lo, hi, "PATCH") {
        Some(HttpMethod::Patch)
    } else if range_upper_is(cs, lo, hi, "HEAD") {
        Some(HttpMethod::Head)
    } else if range_upper_is(cs, lo, hi, "OPTIONS") {
        Some(HttpMethod::Options)
    } else {
        None
    }
}

/// A parsed HTTP response: its status code (0 when the status line does
/// not carry one), header fields in order, and body bytes.
pub struct ParsedResponse {
    pub status: u16,
    pub headers: Vec<(String, String)>,
    pub body: Vec<u8>,
}

/// The status a response's decoded header text `s` carries: the code on its
/// first line, 0 when there is none.
pub open spec fn response_status(s: Seq<char>) -> u16 {
    if s.len() == 0 {
        0
    } else {
        match status_code_in(s, 0, line_end(s, 0)) {
            Some(v) => v,
            None => 0,
        }
    }
}

/// The header fields after the first line of decoded header text `s`.
pub open spec fn fields_after_first_line(s: Seq<char>) -> Seq<(Seq<char>, Seq<char>)> {
    if s.len() == 0 {
        Seq::empty()
    } else {
        header_fields(s, next_line(s, 0))
    }
}

/// Parse raw HTTP/1.1 response bytes.
pub fn parse_response(raw: &[u8]) -> (r: ParsedResponse)
    ensures
        ({
            let (head, body) = spec_split_head_body(raw@);
            let s = utf8_lossy(head);
            &&& r.status == response_status(s)
            &&& fields_view(r.headers@) == fields_after_first_line(s)
            &&& r.body@ == body
        }),
{
    let (head, body) = split_head_body(raw);
    let text = decode_lossy(head);
    let cs = str_chars(text.as_str());
    if cs.len() == 0 {
        return ParsedResponse { status: 0, headers: Vec::new(), body: copy_bytes(body) };
    }
    let (le, next) = line_bounds(cs.as_slice(), 0);
    let status = match status_code_exec(cs.as_slice(), 0, le) {
        Some(v) => v,
        None => 0,
    };
    let headers = collect_fields(text.as_str(), cs.as_slice(), next);
    ParsedResponse { status, headers, body: copy_bytes(body) }
}

/// Why a raw request was refused.
#[derive(Debug, Clone, PartialEq, Eq)]
pub enum RequestError {
    /// No request line.
    EmptyRequest,
    /// The request line has no method token.
    MissingMethod,
    /// The request line has no path token.
    MissingPath,
    /// The method token names no supported method.
    UnsupportedMethod(String),
}

/// A parsed HTTP request: method, path token, header fields in order, and
/// body bytes.
pub struct ParsedRequest {
    pub method: HttpMethod,
    pub path: String,
    pub headers: Vec<(String, String)>,
    pub body: Vec<u8>,
}

/// Parse raw HTTP/1.1 request bytes.
pub fn parse_http_request(raw: &[u8]) -> (r: Result<ParsedRequest, RequestError>)
    ensures
        ({
            let (head, body) = spec_split_head_body(raw@);
            let s = utf8_lossy(head);
            let le = line_end(s, 0);
            match r {
                Err(RequestError::EmptyRequest) => s.len() == 0,
                Err(RequestError::MissingMethod) => s.len() > 0 && nth_token(s, 0, le, 0) is None,
                Err(RequestError::MissingPath) => s.len() > 0 && nth_token(s, 0, le, 0) is Some
                    && nth_token(s, 0, le, 1) is None,
                Err(RequestError::UnsupportedMethod(m)) => {
                    &&& s.len() > 0
                    &&& nth_token(s, 0, le, 1) is Some
                    &&& nth_token(s, 0, le, 0) matches Some((a, b))
                    &&& m@ == s.subrange(a, b)
                    &&& request_method(s.subrange(a, b)) is None
                },
                Ok(req) => {
                    &&& s.len() > 0
                    &&& nth_token(s, 0, le, 0) matches Some((a, b))
                    &&& nth_token(s, 0, le, 1) matches Some((c, d))
                    &&& request_method(s.subrange(a, b)) == Some(req.method)
                    &&& req.path@ == s.subrange(c, d)
                    &&& fields_view(req.headers@) == header_fields(s, next_line(s, 0))
                    &&& req.body@ == body
                },
            }
        }),
{
    let (head, body) = split_head_body(raw);
    let text = decode_lossy(head);
    let cs = str_chars(text.as_str());
    if cs.len() == 0 {
        return Err(RequestError::EmptyRequest);
    }
    let (le, next) = line_bounds(cs.as_slice(), 0);
    proof {
        lemma_nth_token_bounds(cs@, 0, le as int, 0);
        lemma_nth_token_bounds(cs@, 0, le as int, 1);
    }
    let (ma, mb) = match nth_token_exec(cs.as_slice(), 0, le, 0) {
        Some(t) => t,
        None => return Err(RequestError::MissingMethod),
    };
    let (pa, pb) = match nth_token_exec(cs.as_slice(), 0, le, 1) {
        Some(t) => t,
        None => return Err(RequestError::MissingPath),
    };
    let method = match request_method_exec(cs.as_slice(), ma, mb) {
        Some(m) => m,
        None => return Err(RequestError::UnsupportedMethod(substring(text.as_str(), ma, mb))),
    };
    let path = substring(text.as_str(), pa, pb);
    let headers = collect_fields(text.as_str(), cs.as_slice(), next);
    Ok(ParsedRequest { method, path, headers, body: copy_bytes(body) })
}

// ---------------------------------------------------------------------------
// Encoding
// ---------------------------------------------------------------------------

/// The decimal digits of `n`, as ASCII bytes.
pub open spec fn decimal(n: nat) -> Seq<u8>
    decreases n,
{
    if n < 10 {
        seq![(0x30 + n) as u8]
    } else {
        decimal(n / 10) + seq![(0x30 + n % 10) as u8]
    }
}

/// Append the decimal digits of `n`.
fn push_decimal(out: &mut Vec<u8>, n: usize)
    ensures
        final(out)@ == old(out)@ + decimal(n as nat),
    decreases n,
{
    if n >= 10 {
        push_decimal(out, n / 10);
    }
    out.push((0x30 + n % 10) as u8);
    proof {
        assert(final(out)@ =~= old(out)@ + decimal(n as nat)) by {
            if n >= 10 {
                assert(decimal(n as nat) == decimal((n / 10) as nat) + seq![(0x30 + n % 10) as u8]);
            }
        }
    }
}

/// `\r\n`.
pub open spec fn crlf() -> Seq<u8> {
    seq![0x0Du8, 0x0A]
}

/// The `key: value\r\n` lines of `headers`, in order, leaving out the
/// managed ones.
pub open spec fn header_lines(headers: Seq<(Seq<char>, Seq<char>)>) -> Seq<u8>
    decreases headers.len(),
{
    if headers.len() == 0 {
        Seq::empty()
    } else {
        let (k, v) = headers.last();
        header_lines(headers.drop_last()) + if spec_is_managed_header(k) {
            Seq::empty()
        } else {
            vstd::utf8::encode_utf8(k) + seq![0x3Au8, 0x20] + vstd::utf8::encode_utf8(v) + crlf()
        }
    }
}

/// Append the header lines of `headers`.
fn push_header_lines(out: &mut Vec<u8>, headers: &[(String, String)])
    ensures
        final(out)@ == old(out)@ + header_lines(fields_view(headers@)),
{
    let mut i: usize = 0;
    while i < headers.len()
        invariant
            i <= headers@.len(),
            out@ == old(out)@ + header_lines(fields_view(headers@.subrange(0, i as int))),
        decreases headers@.len() - i,
    {
        let ghost before = out@;
        let key = headers[i].0.as_str();
        let value = headers[i].1.as_str();
        if !is_managed_header(key) {
            append_bytes(out, key.as_bytes());
            out.push(0x3A);
            out.push(0x20);
            append_bytes(out, value.as_bytes());
            out.push(0x0D);
            out.push(0x0A);
        }
        proof {
            let f = fields_view(headers@.subrange(0, i + 1));
            assert(f.drop_last() =~= fields_view(headers@.subrange(0, i as int)));
            assert(f.last() == (key@, value@));
            if !spec_is_managed_header(key@) {
                assert(out@ =~= before + (vstd::utf8::encode_utf8(key@) + seq![0x3Au8, 0x20]
                    + vstd::utf8::encode_utf8(value@) + crlf()));
            } else {
                assert(out@ =~= before + Seq::<u8>::empty());
            }
        }
        i = i + 1;
    }
    proof {
        assert(headers@.subrange(0, headers@.len() as int) =~= headers@);
    }
}

/// The raw HTTP/1.1 bytes of a request (origin-form target `path`, or
/// `path?query` when there is a query): request line, `Host`, the
/// non-managed headers, `Content-Length`, `Connection: close`, a blank line,
/// then the body.
pub open spec fn request_bytes(
    method: HttpMethod,
    path: Seq<char>,
    query: Seq<char>,
    authority: Seq<char>,
    headers: Seq<(Seq<char>, Seq<char>)>,
    body: Seq<u8>,
) -> Seq<u8> {
    vstd::utf8::encode_utf8(method_name(method)) + seq![0x20u8] + vstd::utf8::encode_utf8(path) + (
    if query.len() == 0 {
        Seq::empty()
    } else {
        seq![0x3Fu8] + vstd::utf8::encode_utf8(query)
    }) + " HTTP/1.1\r\nHost: ".spec_bytes() + vstd::utf8::encode_utf8(authority) + crlf()
        + header_lines(headers) + "Content-Length: ".spec_bytes() + decimal(body.len())
        + "\r\nConnection: close\r\n\r\n".spec_bytes() + body
}

/// Serialise a request to raw HTTP/1.1 bytes.
pub fn encode_request(
    method: HttpMethod,
    path: &str,
    query: &str,
    authority: &str,
    headers: &[(String, String)],
    body: &[u8],
) -> (r: Vec<u8>)
    ensures
        r@ == request_bytes(method, path@, query@, authority@, fields_view(headers@), body@),
{
    let mut out: Vec<u8> = Vec::new();
    append_bytes(&mut out, method_token(&method).as_bytes());
    out.push(0x20);
    append_bytes(&mut out, path.as_bytes());
    let ghost before_query = out@;
    if !query.is_empty() {
        out.push(0x3F);
        append_bytes(&mut out, query.as_bytes());
        proof {
            assert(out@ =~= before_query + (seq![0x3Fu8] + vstd::utf8::encode_utf8(query@)));
        }
    } else {
        proof {
            assert(out@ =~= before_query + Seq::<u8>::empty());
        }
    }
    append_bytes(&mut out, " HTTP/1.1\r\nHost: ".as_bytes());
    append_bytes(&mut out, authority.as_bytes());
    out.push(0x0D);
    out.push(0x0A);
    push_header_lines(&mut out, headers);
    append_bytes(&mut out, "Content-Length: ".as_bytes());
    push_decimal(&mut out, body.len());
    append_bytes(&mut out, "\r\nConnection: close\r\n\r\n".as_bytes());
    append_bytes(&mut out, body);
    proof {
        assert(out@ =~= request_bytes(method, path@, query@, authority@, fields_view(headers@), body@));
    }
    out
}

/// The raw HTTP/1.1 bytes of a response: status line with `code` and
/// reason `message`, the non-managed headers, `content-length`,
/// `connection: close`, a blank line, then the body.
pub open spec fn response_bytes(
    code: u16,
    message: Seq<char>,
    headers: Seq<(Seq<char>, Seq<char>)>,
    body: Seq<u8>,
) -> Seq<u8> {
    "HTTP/1.1 ".spec_bytes() + decimal(code as nat) + seq![0x20u8] + vstd::utf8::encode_utf8(message)
        + crlf() + header_lines(headers) + "content-length: ".spec_bytes() + decimal(body.len())
        + "\r\nconnection: close\r\n\r\n".spec_bytes() + body
}

/// Serialise a response into raw HTTP/1.1 bytes.
pub fn serialize_response(
    code: u16,
    message: &str,
    headers: &[(String, String)],
    body: &[u8],
) -> (r: Vec<u8>)
    ensures
        r@ == response_bytes(code, message@, fields_view(headers@), body@),
{
    let mut out: Vec<u8> = Vec::new();
    append_bytes(&mut out, "HTTP/1.1 ".as_bytes());
    push_decimal(&mut out, code as usize);
    out.push(0x20);
    append_bytes(&mut out, message.as_bytes());
    out.push(0x0D);
    out.push(0x0A);
    push_header_lines(&mut out, headers);
    append_bytes(&mut out, "content-length: ".as_bytes());
    push_decimal(&mut out, body.len());
    append_bytes(&mut out, "\r\nconnection: close\r\n\r\n".as_bytes());
    append_bytes(&mut out, body);
    proof {
        assert(out@ =~= response_bytes(code, message@, fields_view(headers@), body@));
    }
    out
}

// ---------------------------------------------------------------------------
// Transport decisions
// ---------------------------------------------------------------------------

/// Why the plain-HTTP client refused a request before sending it.
#[derive(Debug, Clone, Copy, PartialEq, Eq, Structural)]
pub enum ClientError {
    /// The URL asks for TLS (`https`), which this transport does not speak.
    SecureUnsupported,
    /// The URL has no host.
    NoHost,
}

/// Where the plain-HTTP client connects for a request: the authority's
/// host and port (80 by default). A secure scheme or an empty authority is
/// refused.
pub fn client_target(secure: bool, authority: &str) -> (r: Result<(String, u16), ClientError>)
    ensures
        secure ==> r == Err::<(String, u16), ClientError>(ClientError::SecureUnsupported),
        !secure && authority@.len() == 0 ==> r == Err::<(String, u16), ClientError>(
            ClientError::NoHost,
        ),
        !secure && authority@.len() > 0 ==> (r matches Ok((host, port)) && (host@, port)
            == crate::net::spec_split_authority(authority@, 80)),
{
    if secure {
        return Err(ClientError::SecureUnsupported);
    }
    if authority.is_empty() {
        return Err(ClientError::NoHost);
    }
    Ok(crate::net::split_authority(authority, 80))
}

/// The handler registered for `port`: the first entry of `handlers` with
/// that port.
pub open spec fn spec_handler_for(handlers: Seq<(u16, u64)>, port: u16) -> Option<u64>
    decreases handlers.len(),
{
    if handlers.len() == 0 {
        None
    } else if handlers[0].0 == port {
        Some(handlers[0].1)
    } else {
        spec_handler_for(handlers.drop_first(), port)
    }
}

/// Route a request that arrived on `port` to its server's handler (`None`:
/// answer `404 Not Found`).
pub fn handler_for(handlers: &[(u16, u64)], port: u16) -> (r: Option<u64>)
    ensures
        r == spec_handler_for(handlers@, port),
{
    let mut i: usize = 0;
    proof {
        assert(handlers@.subrange(0, handlers@.len() as int) =~= handlers@);
    }
    while i < handlers.len()
        invariant
            i <= handlers@.len(),
            spec_handler_for(handlers@, port) == spec_handler_for(
                handlers@.subrange(i as int, handlers@.len() as int),
                port,
            ),
        decreases handlers@.len() - i,
    {
        let ghost rest = handlers@.subrange(i as int, handlers@.len() as int);
        if handlers[i].0 == port {
            proof {
                assert(rest[0] == handlers@[i as int]);
            }
            return Some(handlers[i].1);
        }
        proof {
            assert(rest.drop_first() =~= handlers@.subrange(i + 1, handlers@.len() as int));
        }
        i = i + 1;
    }
    None
}

} // verus!
