use beet_esp::health::paint_range;
use beet_esp::health::psram_status;
use beet_esp::health::scan_start;
use beet_esp::health::stack_usage;
use beet_esp::health::untouched_bytes;
use beet_esp::health::HealthState;
use beet_esp::health::HeapStats;
use beet_esp::health::MemSnapshot;
use beet_esp::health::PsramStatus;
use beet_esp::health::SENTINEL;
use beet_esp::mem::PsramInfo;

fn snap(heap_used: usize, headroom: usize) -> MemSnapshot {
    MemSnapshot::new(
        HeapStats {
            size: 100_000,
            current_usage: heap_used,
            max_usage: heap_used,
            total_allocated: 0,
            total_freed: 0,
        },
        (65536, 1000, headroom),
    )
}

#[test]
fn scan_starts_word_aligned_past_the_guard() {
    assert_eq!(scan_start(0x1000), 0x1100 + 0);
    assert_eq!(scan_start(0x1001), 0x1104);
    assert_eq!(scan_start(0x1003), 0x1104);
}

#[test]
fn paint_range_stays_below_the_live_stack() {
    assert_eq!(paint_range(0x1000, 0x3000), Some((0x1100, 0x2C00)));
    assert_eq!(paint_range(0x1000, 0x1400), None);
}

#[test]
fn untouched_counts_leading_sentinels() {
    assert_eq!(untouched_bytes(&[SENTINEL, SENTINEL, 7, SENTINEL]), 8);
    assert_eq!(untouched_bytes(&[]), 0);
    assert_eq!(untouched_bytes(&[SENTINEL; 3]), 12);
}

#[test]
fn stack_usage_figures() {
    // Region 0x1000..0x11000, 0x400 bytes untouched above the scan start.
    assert_eq!(stack_usage(0x1000, 0x11000, 0x400), (0x10000, 0x11000 - 0x1500, 0x500));
}

#[test]
fn snapshot_frees_saturate() {
    let s = MemSnapshot::new(
        HeapStats { size: 10, current_usage: 20, max_usage: 20, total_allocated: 1, total_freed: 2 },
        (1, 2, 3),
    );
    assert_eq!(s.heap_free, 0);
    assert_eq!((s.stack_total, s.stack_peak_used, s.stack_headroom), (1, 2, 3));
}

#[test]
fn psram_line() {
    assert_eq!(
        psram_status(Some(PsramInfo { start: 0x3C00_0000, size: 8 })),
        PsramStatus::Mapped { size: 8, start: 0x3C00_0000 }
    );
    assert_eq!(psram_status(Some(PsramInfo { start: 0, size: 0 })), PsramStatus::NotDetected);
    assert_eq!(psram_status(None), PsramStatus::NotInitialised);
}

#[test]
fn reports_are_throttled_to_two_seconds() {
    let mut state = HealthState::new();
    state.capture_baseline(snap(1000, 4096));
    assert!(state.report(0, snap(1000, 4096)).is_some());
    assert!(state.report(1_999_999, snap(1000, 4096)).is_none());
    let r = state.report(2_000_000, snap(1000, 4096)).unwrap();
    assert_eq!(r.number, 2);
    assert_eq!(r.uptime_secs, 2);
}

#[test]
fn sustained_growth_warns_on_the_third_report() {
    let mut state = HealthState::new();
    state.capture_baseline(snap(1000, 4096));
    let r1 = state.report(0, snap(2000, 4096)).unwrap();
    assert_eq!(r1.heap_delta, Some((1000, 1000)));
    assert_eq!(r1.leak_streak, None);
    let r2 = state.report(2_000_000, snap(3000, 4096)).unwrap();
    assert_eq!(r2.leak_streak, None);
    let r3 = state.report(4_000_000, snap(4000, 4096)).unwrap();
    assert_eq!(r3.leak_streak, Some(3));
    assert_eq!(r3.heap_delta, Some((1000, 3000)));
}

#[test]
fn a_flat_step_resets_the_streak() {
    let mut state = HealthState::new();
    state.capture_baseline(snap(1000, 4096));
    state.report(0, snap(2000, 4096));
    state.report(2_000_000, snap(3000, 4096));
    let r = state.report(4_000_000, snap(3100, 4096)).unwrap();
    assert_eq!(r.leak_streak, None);
    assert_eq!(state.growth_streak, 0);
}

#[test]
fn low_stack_headroom_is_flagged() {
    let mut state = HealthState::new();
    let r = state.report(0, snap(1000, 2047)).unwrap();
    assert_eq!(r.low_stack, Some(2047));
    assert_eq!(r.heap_delta, None);
    let r = state.report(2_000_000, snap(1000, 2048)).unwrap();
    assert_eq!(r.low_stack, None);
}
