//! Wall-clock time over SNTP (RFC 4330): the 48-byte request, the parse of
//! the server's transmit timestamp into Unix milliseconds, and the boot
//! anchor that turns monotonic uptime into wall-clock time.
//!
//! Resolving the server, the UDP exchange and the timers live at the
//! application's edge.
use vstd::prelude::*;

verus! {

/// Seconds between the NTP epoch (1900-01-01) and the Unix epoch
/// (1970-01-01).
pub const NTP_UNIX_OFFSET_SECS: u64 = 2_208_988_800;

/// Length of an SNTP packet.
pub const SNTP_PACKET_LEN: usize = 48;

/// The UDP port an NTP server listens on.
pub const NTP_PORT: u16 = 123;

/// The default NTP server, resolved via the DHCP-provided DNS.
pub const DEFAULT_NTP_SERVER: &'static str = "pool.ntp.org";

/// Why one SNTP exchange failed to produce a time.
#[derive(Debug, Clone, Copy, PartialEq, Eq, Structural)]
pub enum SntpError {
    /// The server name did not resolve.
    DnsFailed,
    /// The lookup returned no address.
    NoAddress,
    /// The UDP socket could not be bound.
    BindFailed,
    /// The request could not be sent.
    SendFailed,
    /// Receiving the reply failed.
    ReceiveFailed,
    /// No reply arrived in time.
    TimedOut,
    /// The reply was shorter than a full packet.
    ShortResponse,
    /// The transmit timestamp's seconds were zero.
    ZeroTimestamp,
    /// The timestamp lies before the Unix epoch.
    BeforeUnixEpoch,
}

/// The human-readable description of each error.
pub open spec fn error_text(e: SntpError) -> Seq<char> {
    match e {
        SntpError::DnsFailed => "DNS lookup for NTP server failed"@,
        SntpError::NoAddress => "no DNS results for NTP server"@,
        SntpError::BindFailed => "UDP bind failed"@,
        SntpError::SendFailed => "UDP send failed"@,
        SntpError::ReceiveFailed => "UDP receive error"@,
        SntpError::TimedOut => "SNTP timed out"@,
        SntpError::ShortResponse => "short SNTP response"@,
        SntpError::ZeroTimestamp => "invalid (zero) SNTP timestamp"@,
        SntpError::BeforeUnixEpoch => "SNTP timestamp before the Unix epoch"@,
    }
}

impl SntpError {
    /// A human-readable description.
    pub fn message(&self) -> (r: &'static str)
        ensures
            r@ == error_text(*self),
    {
        match self {
            SntpError::DnsFailed => "DNS lookup for NTP server failed",
            SntpError::NoAddress => "no DNS results for NTP server",
            SntpError::BindFailed => "UDP bind failed",
            SntpError::SendFailed => "UDP send failed",
            SntpError::ReceiveFailed => "UDP receive error",
            SntpError::TimedOut => "SNTP timed out",
            SntpError::ShortResponse => "short SNTP response",
            SntpError::ZeroTimestamp => "invalid (zero) SNTP timestamp",
            SntpError::BeforeUnixEpoch => "SNTP timestamp before the Unix epoch",
        }
    }
}

/// The client request: LI=0, VN=4, Mode=3 (client) packed in the first byte,
/// the rest zero.
pub open spec fn request_bytes() -> Seq<u8> {
    Seq::new(48, |i: int| if i == 0 { 0x23u8 } else { 0u8 })
}

/// Build the 48-byte SNTP client request.
pub fn sntp_request() -> (r: [u8; 48])
    ensures
        r@ == request_bytes(),
{
    let mut request = [0u8; 48];
    request[0] = 0x23;
    proof {
        assert(request@ =~= request_bytes());
    }
    request
}

/// The big-endian `u32` at `p`.
pub open spec fn be32_at(b: Seq<u8>, p: int) -> u64 {
    ((b[p] as int) * 0x100_0000 + (b[p + 1] as int) * 0x1_0000 + (b[p + 2] as int) * 0x100 + (
    b[p + 3] as int)) as u64
}

/// Unix milliseconds for an NTP timestamp of `secs` whole seconds and a
/// `frac` 2^-32 fraction of a second.
pub open spec fn unix_millis(secs: u64, frac: u64) -> u64 {
    ((secs - NTP_UNIX_OFFSET_SECS) * 1000 + (frac * 1000) / 0x1_0000_0000) as u64
}

/// What a reply of `n` received bytes (the first `n` of `response`) yields:
/// the transmit timestamp (seconds at bytes 40..44, fraction at 44..48,
/// big-endian, from the NTP epoch) as Unix milliseconds.
pub open spec fn spec_parse_reply(response: Seq<u8>, n: int) -> Result<u64, SntpError> {
    if n < 48 {
        Err(SntpError::ShortResponse)
    } else {
        let secs = be32_at(response, 40);
        let frac = be32_at(response, 44);
        if secs == 0 {
            Err(SntpError::ZeroTimestamp)
        } else if secs < NTP_UNIX_OFFSET_SECS {
            Err(SntpError::BeforeUnixEpoch)
        } else {
            Ok(unix_millis(secs, frac))
        }
    }
}

fn be32_exec(a: u8, b: u8, c: u8, d: u8) -> (r: u64)
    ensures
        r == ((a as int) * 0x100_0000 + (b as int) * 0x1_0000 + (c as int) * 0x100 + (d as int)),
{
    (a as u64) * 0x100_0000 + (b as u64) * 0x1_0000 + (c as u64) * 0x100 + (d as u64)
}

/// Parse a server reply of `n` received bytes into Unix milliseconds.
pub fn parse_reply(response: &[u8; 48], n: usize) -> (r: Result<u64, SntpError>)
    ensures
        r == spec_parse_reply(response@, n as int),
{
    if n < 48 {
        return Err(SntpError::ShortResponse);
    }
    let secs = be32_exec(response[40], response[41], response[42], response[43]);
    let frac = be32_exec(response[44], response[45], response[46], response[47]);
    if secs == 0 {
        return Err(SntpError::ZeroTimestamp);
    }
    let unix_secs = match secs.checked_sub(NTP_UNIX_OFFSET_SECS) {
        Some(s) => s,
        None => return Err(SntpError::BeforeUnixEpoch),
    };
    // The fraction is a 2^32 fixed-point fraction of a second.
    assert(frac * 1000 <= 0xffff_ffff * 1000) by (nonlinear_arith)
        requires
            frac <= 0xffff_ffff,
    ;
    assert(unix_secs * 1000 <= 0xffff_ffff * 1000) by (nonlinear_arith)
        requires
            unix_secs <= 0xffff_ffff,
    ;
    let scaled: u64 = frac * 1000;
    let sub = scaled >> 32u64;
    assert(scaled >> 32u64 == scaled / 0x1_0000_0000u64) by (bit_vector);
    Ok(unix_secs * 1000 + sub)
}

/// Unix time in milliseconds that corresponds to monotonic time zero, given
/// a synced Unix time and the uptime at which it was taken.
pub open spec fn spec_anchor(unix_millis: u64, uptime_ms: u64) -> i64 {
    (unix_millis - uptime_ms) as i64
}

/// The boot anchor for a sync that read `unix_millis` at `uptime_ms`.
pub fn boot_anchor(unix_millis: u64, uptime_ms: u64) -> (r: i64)
    requires
        unix_millis <= i64::MAX,
        uptime_ms <= i64::MAX,
    ensures
        r == spec_anchor(unix_millis, uptime_ms),
{
    unix_millis as i64 - uptime_ms as i64
}

/// Wall-clock Unix milliseconds at `uptime_ms`, given the boot anchor
/// (clamped at the epoch).
pub open spec fn spec_now(boot: i64, uptime_ms: u64) -> u64 {
    if boot + uptime_ms >= 0 {
        (boot + uptime_ms) as u64
    } else {
        0
    }
}

/// Wall-clock Unix milliseconds: the boot anchor plus monotonic uptime.
pub fn now_millis(boot: i64, uptime_ms: u64) -> (r: u64)
    requires
        uptime_ms <= i64::MAX,
        i64::MIN <= boot + uptime_ms <= i64::MAX,
    ensures
        r == spec_now(boot, uptime_ms),
{
    let t = boot + uptime_ms as i64;
    if t > 0 {
        t as u64
    } else {
        0
    }
}

/// Reading the clock at the very uptime a sync was anchored gives back the
/// synced time.
pub proof fn lemma_anchor_roundtrip(unix_millis: u64, uptime_ms: u64)
    requires
        unix_millis <= i64::MAX,
        uptime_ms <= i64::MAX,
    ensures
        spec_now(spec_anchor(unix_millis, uptime_ms), uptime_ms) == unix_millis,
{
}

/// The clock never runs backwards between syncs.
pub proof fn lemma_now_monotonic(boot: i64, u1: u64, u2: u64)
    requires
        u1 <= u2,
        boot + u2 <= i64::MAX,
    ensures
        spec_now(boot, u1) <= spec_now(boot, u2),
{
}

/// What the sync loop does after an attempt.
#[derive(Debug, Clone, Copy, PartialEq, Eq, Structural)]
pub enum SyncStep {
    /// First success: store the anchor and install the clock source, then
    /// wait the resync interval.
    Install(i64),
    /// A later success: store the new anchor, then wait the resync interval.
    Resync(i64),
    /// Failure: wait the retry delay.
    Retry(SntpError),
}

/// The sync loop's state: whether the clock source has been installed.
#[derive(Debug, Clone, Copy, PartialEq, Eq, Structural)]
pub struct ClockSync {
    pub synced: bool,
}

impl ClockSync {
    /// Not yet synced.
    pub fn new() -> (r: Self)
        ensures
            !r.synced,
    {
        ClockSync { synced: false }
    }

    /// Decide what follows a sync attempt that ended at `uptime_ms` with
    /// `result`.
    pub fn on_result(&mut self, result: Result<u64, SntpError>, uptime_ms: u64) -> (r: SyncStep)
        requires
            uptime_ms <= i64::MAX,
            result matches Ok(m) ==> m <= i64::MAX,
        ensures
            r == (match result {
                Ok(m) => if old(self).synced {
                    SyncStep::Resync(spec_anchor(m, uptime_ms))
                } else {
                    SyncStep::Install(spec_anchor(m, uptime_ms))
                },
                Err(e) => SyncStep::Retry(e),
            }),
            final(self).synced == (old(self).synced || result is Ok),
    {
        match result {
            Ok(m) => {
                let anchor = boot_anchor(m, uptime_ms);
                if self.synced {
                    SyncStep::Resync(anchor)
                } else {
                    self.synced = true;
                    SyncStep::Install(anchor)
                }
            },
            Err(e) => SyncStep::Retry(e),
        }
    }
}

} // verus!
