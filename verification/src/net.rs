//! Station settings and the small textual parsers of the network layer: a
//! dotted IPv4 address, an `host:port` authority, and the `.local` suffix
//! of an mDNS name.
use crate::text::lemma_next_sep_bounds;
use crate::text::next_sep;
use crate::text::next_sep_exec;
use crate::text::parse_uint;
use crate::text::parse_uint_exec;
use crate::text::trim_range;
use crate::text::skip_ws;
use crate::text::skip_ws_back;
use crate::text::str_chars;
use crate::text::trim_bounds;
use vstd::prelude::*;
use vstd::string::StrSliceExecFns;

verus! {

// ---------------------------------------------------------------------------
// Fields separated by a character
// ---------------------------------------------------------------------------

/// Where the `k`-th `sep`-separated field of `s` starts, if it has one.
pub open spec fn field_start(s: Seq<char>, sep: char, k: nat) -> Option<int>
    decreases k,
{
    if k == 0 {
        Some(0)
    } else {
        match field_start(s, sep, (k - 1) as nat) {
            Some(p) => {
                let e = next_sep(s, sep, p);
                if e < s.len() {
                    Some(e + 1)
                } else {
                    None
                }
            },
            None => None,
        }
    }
}

proof fn lemma_field_start_bounds(s: Seq<char>, sep: char, k: nat)
    ensures
        field_start(s, sep, k) matches Some(p) ==> 0 <= p <= s.len(),
    decreases k,
{
    if k > 0 {
        lemma_field_start_bounds(s, sep, (k - 1) as nat);
        if let Some(p) = field_start(s, sep, (k - 1) as nat) {
            lemma_next_sep_bounds(s, sep, p);
        }
    }
}

// ---------------------------------------------------------------------------
// IPv4
// ---------------------------------------------------------------------------

/// The `k`-th octet of a dotted address: the `k`-th `.`-separated field,
/// trimmed, read as an integer up to 255.
pub open spec fn octet(s: Seq<char>, k: nat) -> Option<u8> {
    match field_start(s, '.', k) {
        Some(p) => match parse_uint(trim_range(s, p, next_sep(s, '.', p)), 255) {
            Some(v) => Some(v as u8),
            None => None,
        },
        None => None,
    }
}

/// The octets of a dotted IPv4 address of exactly four fields; `None` when
/// one of the four is missing or malformed, or a fifth field follows.
pub open spec fn spec_parse_ipv4(s: Seq<char>) -> Option<Seq<u8>> {
    if octet(s, 0) is Some && octet(s, 1) is Some && octet(s, 2) is Some && octet(s, 3) is Some
        && field_start(s, '.', 4) is None {
        Some(seq![octet(s, 0)->0, octet(s, 1)->0, octet(s, 2)->0, octet(s, 3)->0])
    } else {
        None
    }
}

/// Parse a dotted IPv4 string (eg `192.168.0.50`) into octets; `None` for a
/// malformed address, one with more or fewer than four fields among them.
pub fn parse_ipv4(addr: &str) -> (r: Option<[u8; 4]>)
    ensures
        match spec_parse_ipv4(addr@) {
            Some(o) => r matches Some(a) && a@ == o,
            None => r is None,
        },
{
    let cs = str_chars(addr);
    let ghost s = addr@;
    let mut octets = [0u8; 4];
    let mut pos: usize = 0;
    let mut k: usize = 0;
    while k < 4
        invariant
            cs@ == s,
            s == addr@,
            k <= 4,
            k < 4 ==> field_start(s, '.', k as nat) == Some(pos as int),
            pos <= s.len(),
            forall|j: int| 0 <= j < k ==> octet(s, j as nat) == Some(#[trigger] octets@[j]),
            k == 4 ==> field_start(s, '.', 4) is None,
        decreases 4 - k,
    {
        let end = next_sep_exec(cs.as_slice(), '.', pos);
        let (a, b) = trim_bounds(cs.as_slice(), pos, end);
        proof {
            assert(cs@.subrange(a as int, b as int) == trim_range(s, pos as int, end as int));
        }
        let v = match parse_uint_exec(cs.as_slice(), a, b, 255) {
            Some(v) => v,
            None => {
                proof {
                    assert(octet(s, k as nat) is None);
                }
                return None;
            },
        };
        proof {
            assert(v <= 255);
            assert(octet(s, k as nat) == Some(v as u8));
        }
        octets[k] = v as u8;
        if k < 3 {
            if end >= cs.len() {
                proof {
                    assert(field_start(s, '.', (k + 1) as nat) is None);
                    assert(octet(s, (k + 1) as nat) is None);
                }
                return None;
            }
            pos = end + 1;
        } else if end < cs.len() {
            proof {
                assert(field_start(s, '.', 4) == Some(end + 1));
            }
            return None;
        }
        k = k + 1;
    }
    proof {
        assert(octets@ =~= seq![
            octet(s, 0)->0,
            octet(s, 1)->0,
            octet(s, 2)->0,
            octet(s, 3)->0,
        ]);
    }
    Some(octets)
}

// ---------------------------------------------------------------------------
// Authorities and names
// ---------------------------------------------------------------------------

/// The last index below `i` of `s` holding `c`, if any.
pub open spec fn last_index(s: Seq<char>, c: char, i: int) -> Option<int>
    decreases i,
{
    if i <= 0 {
        None
    } else if s[i - 1] == c {
        Some(i - 1)
    } else {
        last_index(s, c, i - 1)
    }
}

/// `(host, port)` of an authority: split at its last `:`, the port read as
/// an integer up to 65535, falling back to `default_port` when it is absent
/// or malformed.
pub open spec fn spec_split_authority(a: Seq<char>, default_port: u16) -> (Seq<char>, u16) {
    match last_index(a, ':', a.len() as int) {
        Some(i) => (
            a.subrange(0, i),
            match parse_uint(a.subrange(i + 1, a.len() as int), 65535) {
                Some(p) => p as u16,
                None => default_port,
            },
        ),
        None => (a, default_port),
    }
}

/// Split an authority into `(host, port)`, falling back to `default_port`.
pub fn split_authority(authority: &str, default_port: u16) -> (r: (String, u16))
    ensures
        (r.0@, r.1) == spec_split_authority(authority@, default_port),
{
    let cs = str_chars(authority);
    let n = cs.len();
    let mut i = n;
    while i > 0 && cs[i - 1] != ':'
        invariant
            cs@ == authority@,
            i <= n == cs@.len(),
            last_index(cs@, ':', n as int) == last_index(cs@, ':', i as int),
        decreases i,
    {
        i = i - 1;
    }
    if i == 0 {
        return (authority.to_owned(), default_port);
    }
    let head = authority.substring_char(0, i - 1);
    let host = head.to_owned();
    assert(host@ == authority@.subrange(0, i - 1));
    let port = match parse_uint_exec(cs.as_slice(), i, n, 65535) {
        Some(p) => p as u16,
        None => default_port,
    };
    assert(last_index(authority@, ':', n as int) == Some(i - 1));
    (host, port)
}

/// The `.local` suffix every mDNS name carries.
pub open spec fn local_suffix() -> Seq<char> {
    seq!['.', 'l', 'o', 'c', 'a', 'l']
}

/// `host` without a trailing `.local`.
pub open spec fn spec_strip_local(host: Seq<char>) -> Seq<char> {
    let n = host.len() as int;
    if n >= 6 && host.subrange(n - 6, n) == local_suffix() {
        host.subrange(0, n - 6)
    } else {
        host
    }
}

/// The bare label of an mDNS name: `host` without a trailing `.local`.
pub fn strip_local_suffix(host: &str) -> (r: &str)
    ensures
        r@ == spec_strip_local(host@),
{
    let cs = str_chars(host);
    let n = cs.len();
    if n < 6 {
        return host;
    }
    let suffix = ['.', 'l', 'o', 'c', 'a', 'l'];
    let mut j: usize = 0;
    while j < 6
        invariant
            cs@ == host@,
            n == cs@.len(),
            n >= 6,
            j <= 6,
            suffix@ == local_suffix(),
            forall|m: int| 0 <= m < j ==> cs@[n - 6 + m] == suffix@[m],
        decreases 6 - j,
    {
        if cs[n - 6 + j] != suffix[j] {
            proof {
                assert(host@.subrange(n - 6, n as int)[j as int] != local_suffix()[j as int]);
            }
            return host;
        }
        j = j + 1;
    }
    proof {
        assert(host@.subrange(n - 6, n as int) =~= local_suffix());
    }
    host.substring_char(0, n - 6)
}

// ---------------------------------------------------------------------------
// Station settings
// ---------------------------------------------------------------------------

/// The station's settings: the access point to join and an optional static
/// IPv4 (`None` uses DHCP; a static address assumes a `/24` with the gateway
/// at `.1`).
#[derive(Debug, Clone, Copy)]
pub struct WifiSettings {
    pub ssid: &'static str,
    pub password: &'static str,
    pub static_ip: Option<[u8; 4]>,
}

impl WifiSettings {
    /// Join the access point `ssid` with `password`, over DHCP.
    pub fn new(ssid: &'static str, password: &'static str) -> (r: Self)
        ensures
            r.ssid == ssid,
            r.password == password,
            r.static_ip is None,
    {
        WifiSettings { ssid, password, static_ip: None }
    }

    /// Use the static IPv4 `ip`.
    pub fn with_static_ip(self, ip: [u8; 4]) -> (r: Self)
        ensures
            r.ssid == self.ssid,
            r.password == self.password,
            r.static_ip == Some(ip),
    {
        WifiSettings { static_ip: Some(ip), ..self }
    }

    /// Use the static IPv4 configured as text (`None` keeps DHCP); `None`
    /// when the text is not a dotted IPv4 address.
    pub fn with_static_ip_text(self, text: Option<&str>) -> (r: Option<Self>)
        ensures
            match text {
                None => r matches Some(w) && w.static_ip is None && w.ssid == self.ssid
                    && w.password == self.password,
                Some(t) => match spec_parse_ipv4(t@) {
                    Some(o) => r matches Some(w) && w.static_ip matches Some(ip) && ip@ == o
                        && w.ssid == self.ssid && w.password == self.password,
                    None => r is None,
                },
            },
    {
        match text {
            None => Some(WifiSettings { static_ip: None, ..self }),
            Some(t) => match parse_ipv4(t) {
                Some(ip) => Some(WifiSettings { static_ip: Some(ip), ..self }),
                None => None,
            },
        }
    }
}

} // verus!
