use beet_esp::sntp::boot_anchor;
use beet_esp::sntp::now_millis;
use beet_esp::sntp::parse_reply;
use beet_esp::sntp::sntp_request;
use beet_esp::sntp::ClockSync;
use beet_esp::sntp::SntpError;
use beet_esp::sntp::SyncStep;

fn reply(secs: u32, frac: u32) -> [u8; 48] {
    let mut r = [0u8; 48];
    r[40..44].copy_from_slice(&secs.to_be_bytes());
    r[44..48].copy_from_slice(&frac.to_be_bytes());
    r
}

#[test]
fn request_is_a_version_4_client_packet() {
    let req = sntp_request();
    assert_eq!(req[0], 0x23);
    assert!(req[1..].iter().all(|b| *b == 0));
}

#[test]
fn reply_converts_to_unix_millis() {
    // 2_208_988_800 + 1_700_000_000 seconds, plus half a second.
    let r = reply(3_908_988_800, 0x8000_0000);
    assert_eq!(parse_reply(&r, 48), Ok(1_700_000_000_500));
}

#[test]
fn reply_errors() {
    assert_eq!(parse_reply(&reply(3_908_988_800, 0), 47), Err(SntpError::ShortResponse));
    assert_eq!(parse_reply(&reply(0, 5), 48), Err(SntpError::ZeroTimestamp));
    assert_eq!(parse_reply(&reply(1_000, 0), 48), Err(SntpError::BeforeUnixEpoch));
    assert_eq!(parse_reply(&reply(2_208_988_800, 0), 48), Ok(0));
}

#[test]
fn anchored_clock_reads_back_the_sync_and_advances() {
    let boot = boot_anchor(1_700_000_000_500, 12_345);
    assert_eq!(now_millis(boot, 12_345), 1_700_000_000_500);
    assert_eq!(now_millis(boot, 13_345), 1_700_000_001_500);
    assert_eq!(now_millis(-10, 5), 0);
}

#[test]
fn first_success_installs_later_ones_resync() {
    let mut sync = ClockSync::new();
    assert_eq!(sync.on_result(Err(SntpError::TimedOut), 100), SyncStep::Retry(SntpError::TimedOut));
    assert!(!sync.synced);
    assert_eq!(sync.on_result(Ok(5000), 1000), SyncStep::Install(4000));
    assert_eq!(sync.on_result(Ok(9000), 2000), SyncStep::Resync(7000));
    assert_eq!(SntpError::ShortResponse.message(), "short SNTP response");
}
