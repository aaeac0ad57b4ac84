//! The WebSocket client's decisions: where a connection goes, and the bytes
//! of its random keys.
use vstd::prelude::*;

use crate::text::str_chars;
use crate::ucpack::byte_at;
use crate::ucpack::le_bytes;

verus! {

/// The square brackets around an IPv6 host literal.
pub open spec fn is_bracket(c: char) -> bool {
    c == '[' || c == ']'
}

/// The first index in `[lo, hi)` of `s` that is not a bracket (`hi` if none).
pub open spec fn skip_brackets(s: Seq<char>, lo: int, hi: int) -> int
    decreases hi - lo,
{
    if lo < hi && is_bracket(s[lo]) {
        skip_brackets(s, lo + 1, hi)
    } else {
        lo
    }
}

/// One past the last index in `[lo, hi)` of `s` that is not a bracket
/// (`lo` if none).
pub open spec fn skip_brackets_back(s: Seq<char>, lo: int, hi: int) -> int
    decreases hi - lo,
{
    if lo < hi && is_bracket(s[hi - 1]) {
        skip_brackets_back(s, lo, hi - 1)
    } else {
        hi
    }
}

/// `host` without the brackets at either end.
pub open spec fn unbracketed(host: Seq<char>) -> Seq<char> {
    let a = skip_brackets(host, 0, host.len() as int);
    host.subrange(a, skip_brackets_back(host, a, host.len() as int))
}

proof fn lemma_skip_brackets_bounds(s: Seq<char>, lo: int, hi: int)
    requires
        lo <= hi,
    ensures
        lo <= skip_brackets(s, lo, hi) <= hi,
        lo <= skip_brackets_back(s, lo, hi) <= hi,
    decreases hi - lo,
{
    if lo < hi {
        lemma_skip_brackets_bounds(s, lo + 1, hi);
        lemma_skip_brackets_bounds(s, lo, hi - 1);
    }
}

/// The host to resolve for a connection: `host` with the brackets of an
/// IPv6 literal taken off both ends.
pub fn unbracket(host: &str) -> (r: String)
    ensures
        r@ == unbracketed(host@),
{
    let cs = str_chars(host);
    let n = cs.len();
    let mut a: usize = 0;
    while a < n && (cs[a] == '[' || cs[a] == ']')
        invariant
            cs@ == host@,
            a <= n == cs@.len(),
            skip_brackets(cs@, 0, n as int) == skip_brackets(cs@, a as int, n as int),
        decreases n - a,
    {
        a = a + 1;
    }
    let mut b: usize = n;
    while a < b && (cs[b - 1] == '[' || cs[b - 1] == ']')
        invariant
            cs@ == host@,
            a <= b <= n == cs@.len(),
            skip_brackets_back(cs@, a as int, n as int) == skip_brackets_back(
                cs@,
                a as int,
                b as int,
            ),
        decreases b - a,
    {
        b = b - 1;
    }
    host.substring_char(a, b).to_owned()
}

/// The port a connection uses when its URL names none: 443 for `wss`, 80
/// for `ws`.
pub open spec fn default_port(secure: bool) -> u16 {
    if secure {
        443
    } else {
        80
    }
}

/// One connection to dial: the authority for the handshake's `Host` header,
/// the host to resolve, the TCP port, and whether TLS wraps the stream.
pub struct ConnectTarget {
    pub authority: String,
    pub host: String,
    pub port: u16,
    pub secure: bool,
}

/// Why a connection could not be set up from its URL.
#[derive(Debug, Clone, Copy, PartialEq, Eq, Structural)]
pub enum ConnectError {
    /// The URL has no authority to connect to.
    NoAuthority,
}

/// The connection a URL asks for, from its parts: whether the scheme is
/// secure, its authority, host and port. The host loses the brackets of
/// an IPv6 literal (none gives an empty host); a missing port is the
/// scheme's default. A URL without an authority is refused.
pub fn connect_target(
    secure: bool,
    authority: Option<&str>,
    host: Option<&str>,
    port: Option<u16>,
) -> (r: Result<ConnectTarget, ConnectError>)
    ensures
        authority is None <==> r is Err,
        r is Err ==> r == Err::<ConnectTarget, ConnectError>(ConnectError::NoAuthority),
        r matches Ok(t) ==> {
            &&& t.authority@ == authority.unwrap()@
            &&& t.host@ == match host {
                Some(h) => unbracketed(h@),
                None => Seq::<char>::empty(),
            }
            &&& t.port == match port {
                Some(p) => p,
                None => default_port(secure),
            }
            &&& t.secure == secure
        },
{
    let authority = match authority {
        Some(a) => a.to_owned(),
        None => return Err(ConnectError::NoAuthority),
    };
    let host = match host {
        Some(h) => unbracket(h),
        None => String::new(),
    };
    let port = match port {
        Some(p) => p,
        None => if secure {
            443
        } else {
            80
        },
    };
    Ok(ConnectTarget { authority, host, port, secure })
}

/// The three characters that part a scheme from the rest of a URL.
pub open spec fn scheme_sep() -> Seq<char> {
    seq![':', '/', '/']
}

/// Whether `s` holds `://` somewhere.
pub open spec fn names_scheme(s: Seq<char>) -> bool {
    exists|i: int| 0 <= i && i + 3 <= s.len() && #[trigger] s.subrange(i, i + 3) == scheme_sep()
}

/// Whether a configured server target already names its scheme; a bare
/// `host:port` without one is dialled as `ws://host:port`.
pub fn has_scheme(target: &str) -> (r: bool)
    ensures
        r == names_scheme(target@),
{
    let cs = str_chars(target);
    let n = cs.len();
    let mut i: usize = 0;
    while n >= 3 && i <= n - 3
        invariant
            cs@ == target@,
            n == cs@.len(),
            i <= n,
            forall|j: int|
                0 <= j < i && j + 3 <= n ==> #[trigger] cs@.subrange(j, j + 3) != scheme_sep(),
        decreases n - i,
    {
        if cs[i] == ':' && cs[i + 1] == '/' && cs[i + 2] == '/' {
            assert(cs@.subrange(i as int, i + 3) =~= scheme_sep());
            return true;
        }
        assert(cs@.subrange(i as int, i + 3) != scheme_sep()) by {
            if cs@.subrange(i as int, i + 3) == scheme_sep() {
                assert(cs@.subrange(i as int, i + 3)[0] == cs@[i as int]);
                assert(cs@.subrange(i as int, i + 3)[1] == cs@[i + 1]);
                assert(cs@.subrange(i as int, i + 3)[2] == cs@[i + 2]);
            }
        }
        i = i + 1;
    }
    false
}

/// The `n` key bytes drawn from random words: each word gives its four
/// little-endian bytes in turn.
pub open spec fn key_bytes_of(words: Seq<u32>, n: int) -> Seq<u8> {
    Seq::new(n as nat, |i: int| le_bytes(words[i / 4])[i % 4])
}

/// The `n` bytes of a handshake or masking key from the random words the
/// hardware generator gave, four bytes per word, least significant first.
pub fn key_bytes(words: &[u32], n: usize) -> (r: Vec<u8>)
    requires
        n <= 4 * words@.len(),
    ensures
        r@ == key_bytes_of(words@, n as int),
{
    let mut out: Vec<u8> = Vec::new();
    let mut i: usize = 0;
    while i < n
        invariant
            i <= n <= 4 * words@.len(),
            out@ =~= key_bytes_of(words@, i as int),
        decreases n - i,
    {
        let b = byte_at(words[i / 4], (i % 4) as u32);
        out.push(b);
        i = i + 1;
    }
    out
}

} // verus!
