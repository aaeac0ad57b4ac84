//! Memory health reporting: the stack high-water arithmetic over the painted
//! stack region, the memory snapshot, and the periodic report that flags
//! sustained heap growth (a leak) and low stack headroom (overflow risk).
//!
//! Reading the stack words and the allocator's statistics happens at the
//! application's edge; everything decided from them is here.
use crate::mem::PsramInfo;
use vstd::prelude::*;

verus! {

/// How often the periodic report fires, seconds.
pub const REPORT_SECS: u64 = 2;

/// Per-report heap growth up to this many bytes is noise, not a climb.
pub const HEAP_GROWTH_NOISE: i64 = 256;

/// Warn once the heap has grown for this many consecutive reports.
pub const LEAK_STREAK: u32 = 3;

/// Warn if the stack ever came within this many bytes of the bottom of its
/// region.
pub const STACK_HEADROOM_WARN: usize = 2048;

/// Word written across the free stack at boot.
pub const SENTINEL: u32 = 0x5A5A_5A5A;

/// Bytes left unpainted and unscanned at the very bottom of the stack region.
pub const GUARD_GAP: usize = 256;

/// Bytes below the live stack pointer left unpainted at boot.
pub const PAINT_MARGIN: usize = 1024;

/// Microseconds per second.
pub const MICROS_PER_SEC: u64 = 1_000_000;

// ---------------------------------------------------------------------------
// Stack
// ---------------------------------------------------------------------------

/// `x` rounded down to a multiple of 4.
pub open spec fn align_down4(x: int) -> int {
    x - x % 4
}

/// First word-aligned address at least [`GUARD_GAP`] above the region's
/// bottom `lo`: where painting and scanning start.
pub fn scan_start(lo: usize) -> (r: usize)
    requires
        lo + GUARD_GAP + 3 <= usize::MAX,
    ensures
        r == align_down4(lo + GUARD_GAP + 3),
{
    let x: usize = lo + GUARD_GAP + 3;
    let r = x & !3usize;
    assert(x & !3usize == x - x % 4) by (bit_vector);
    r
}

/// The word-aligned range `[start, end)` to paint with [`SENTINEL`] below a
/// live stack pointer `sp`, or `None` when there is no room above the guard
/// gap.
pub fn paint_range(lo: usize, sp: usize) -> (r: Option<(usize, usize)>)
    requires
        lo + GUARD_GAP + 3 <= usize::MAX,
    ensures
        ({
            let start = align_down4(lo + GUARD_GAP + 3);
            let end = align_down4(if sp >= PAINT_MARGIN { sp - PAINT_MARGIN } else { 0 });
            &&& end <= start ==> r is None
            &&& start < end ==> r == Some((start as usize, end as usize))
        }),
{
    let start = scan_start(lo);
    let below = sp.saturating_sub(PAINT_MARGIN);
    let end = below & !3usize;
    assert(below & !3usize == below - below % 4) by (bit_vector);
    if end <= start {
        None
    } else {
        Some((start, end))
    }
}

/// How many words at the front of `words` still hold [`SENTINEL`].
pub open spec fn leading_sentinels(words: Seq<u32>) -> nat
    decreases words.len(),
{
    if words.len() == 0 || words[0] != SENTINEL {
        0
    } else {
        1 + leading_sentinels(words.drop_first())
    }
}

/// Bytes of painted stack never touched since boot: 4 per leading
/// [`SENTINEL`] word of the scanned region (scanning stops at the first
/// word that was overwritten, the all-time high-water line).
pub fn untouched_bytes(words: &[u32]) -> (r: usize)
    requires
        words@.len() * 4 <= usize::MAX,
    ensures
        r == 4 * leading_sentinels(words@),
{
    let mut i: usize = 0;
    proof {
        assert(words@.subrange(0, words@.len() as int) =~= words@);
    }
    while i < words.len()
        invariant
            i <= words@.len(),
            words@.len() * 4 <= usize::MAX,
            leading_sentinels(words@) == i + leading_sentinels(words@.subrange(i as int, words@.len() as int)),
        ensures
            i < words@.len() ==> words@[i as int] != SENTINEL,
            i <= words@.len(),
            leading_sentinels(words@) == i + leading_sentinels(words@.subrange(i as int, words@.len() as int)),
        decreases words@.len() - i,
    {
        if words[i] != SENTINEL {
            break;
        }
        proof {
            let rest = words@.subrange(i as int, words@.len() as int);
            assert(rest.drop_first() =~= words@.subrange(i + 1, words@.len() as int));
        }
        i = i + 1;
    }
    proof {
        let rest = words@.subrange(i as int, words@.len() as int);
        if i < words@.len() {
            assert(rest[0] == words@[i as int]);
        }
        assert(leading_sentinels(rest) == 0);
    }
    i * 4
}

/// `a - b`, or 0 when `b` exceeds `a`.
pub open spec fn sat_sub(a: int, b: int) -> int {
    if a >= b {
        a - b
    } else {
        0
    }
}

/// `(total, peak_used, headroom)` of the stack region `[lo, hi)` given the
/// bytes left untouched above the scan start: the region size, the all-time
/// deepest usage, and the smallest free margin ever observed.
pub fn stack_usage(lo: usize, hi: usize, untouched: usize) -> (r: (usize, usize, usize))
    requires
        lo + GUARD_GAP + 3 + untouched <= usize::MAX,
    ensures
        ({
            let peak_sp = align_down4(lo + GUARD_GAP + 3) + untouched;
            &&& r.0 == sat_sub(hi as int, lo as int)
            &&& r.1 == sat_sub(hi as int, peak_sp)
            &&& r.2 == sat_sub(peak_sp, lo as int)
        }),
{
    let total = hi.saturating_sub(lo);
    let scan_lo = scan_start(lo);
    let peak_sp = scan_lo + untouched;
    let peak_used = hi.saturating_sub(peak_sp);
    let headroom = peak_sp.saturating_sub(lo);
    (total, peak_used, headroom)
}

// ---------------------------------------------------------------------------
// Snapshots and reports
// ---------------------------------------------------------------------------

/// A point-in-time view of memory.
#[derive(Debug, Clone, Copy, PartialEq, Eq, Structural)]
pub struct MemSnapshot {
    /// Total heap size across all regions, bytes.
    pub heap_size: usize,
    /// Heap currently in use, bytes.
    pub heap_used: usize,
    /// Heap free, bytes.
    pub heap_free: usize,
    /// Largest the heap has ever been, bytes.
    pub heap_max_used: usize,
    /// Lifetime bytes allocated.
    pub heap_total_alloc: u64,
    /// Lifetime bytes freed.
    pub heap_total_freed: u64,
    /// Total main-task stack region, bytes.
    pub stack_total: usize,
    /// All-time deepest stack usage, bytes.
    pub stack_peak_used: usize,
    /// Smallest free stack margin ever observed, bytes.
    pub stack_headroom: usize,
}

/// The allocator's statistics, as the heap reports them.
#[derive(Debug, Clone, Copy, PartialEq, Eq, Structural)]
pub struct HeapStats {
    pub size: usize,
    pub current_usage: usize,
    pub max_usage: usize,
    pub total_allocated: u64,
    pub total_freed: u64,
}

impl MemSnapshot {
    /// A snapshot from the heap statistics and the stack figures
    /// `(total, peak_used, headroom)`.
    pub fn new(heap: HeapStats, stack: (usize, usize, usize)) -> (r: Self)
        ensures
            r.heap_size == heap.size,
            r.heap_used == heap.current_usage,
            r.heap_free == sat_sub(heap.size as int, heap.current_usage as int),
            r.heap_max_used == heap.max_usage,
            r.heap_total_alloc == heap.total_allocated,
            r.heap_total_freed == heap.total_freed,
            r.stack_total == stack.0,
            r.stack_peak_used == stack.1,
            r.stack_headroom == stack.2,
    {
        MemSnapshot {
            heap_size: heap.size,
            heap_used: heap.current_usage,
            heap_free: heap.size.saturating_sub(heap.current_usage),
            heap_max_used: heap.max_usage,
            heap_total_alloc: heap.total_allocated,
            heap_total_freed: heap.total_freed,
            stack_total: stack.0,
            stack_peak_used: stack.1,
            stack_headroom: stack.2,
        }
    }
}

/// How the PSRAM bring-up is reported at baseline.
#[derive(Debug, Clone, Copy, PartialEq, Eq, Structural)]
pub enum PsramStatus {
    /// Mapped: its size and base address.
    Mapped { size: usize, start: usize },
    /// Brought up, but no chip was detected.
    NotDetected,
    /// Never brought up through the boot path.
    NotInitialised,
}

/// The baseline's PSRAM line for the recorded bring-up result.
pub fn psram_status(info: Option<PsramInfo>) -> (r: PsramStatus)
    ensures
        r == (match info {
            Some(p) => if p.size > 0 {
                PsramStatus::Mapped { size: p.size, start: p.start }
            } else {
                PsramStatus::NotDetected
            },
            None => PsramStatus::NotInitialised,
        }),
{
    match info {
        Some(p) => if p.present() {
            PsramStatus::Mapped { size: p.size, start: p.start }
        } else {
            PsramStatus::NotDetected
        },
        None => PsramStatus::NotInitialised,
    }
}

/// One periodic report.
#[derive(Debug, Clone, Copy, PartialEq, Eq)]
pub struct Report {
    /// The report's sequence number, from 1.
    pub number: u32,
    /// Uptime, whole seconds.
    pub uptime_secs: u64,
    /// Heap change since the previous snapshot and since pre-startup (0
    /// without one), bytes; `None` before any baseline.
    pub heap_delta: Option<(i64, i64)>,
    /// The growth streak, when it has reached [`LEAK_STREAK`].
    pub leak_streak: Option<u32>,
    /// The stack headroom, when it is under [`STACK_HEADROOM_WARN`].
    pub low_stack: Option<usize>,
}

/// Snapshots accumulated over the run, for delta reporting.
#[derive(Debug, Clone, Copy, PartialEq, Eq, Structural)]
pub struct HealthState {
    /// The snapshot taken just before startup.
    pub prestartup: Option<MemSnapshot>,
    /// The most recent snapshot.
    pub last: Option<MemSnapshot>,
    /// Reports made so far.
    pub reports: u32,
    /// Consecutive reports where the heap grew past [`HEAP_GROWTH_NOISE`].
    pub growth_streak: u32,
    /// When the last report fired, microseconds since boot.
    pub last_tick_us: Option<u64>,
}

/// A heap size as a signed byte count (all heap sizes fit).
pub open spec fn fits_i64(x: usize) -> bool {
    x <= i64::MAX
}

/// Whether a report is due at `now_us`.
pub open spec fn report_due(last_tick_us: Option<u64>, now_us: u64) -> bool {
    match last_tick_us {
        None => true,
        Some(t) => (now_us - t) / (MICROS_PER_SEC as int) >= REPORT_SECS,
    }
}

impl Default for HealthState {
    fn default() -> (r: Self)
        ensures
            r.prestartup is None,
            r.last is None,
            r.reports == 0,
            r.growth_streak == 0,
            r.last_tick_us is None,
    {
        HealthState::new()
    }
}

impl HealthState {
    /// No snapshots, no reports.
    pub fn new() -> (r: Self)
        ensures
            r.prestartup is None,
            r.last is None,
            r.reports == 0,
            r.growth_streak == 0,
            r.last_tick_us is None,
    {
        HealthState { prestartup: None, last: None, reports: 0, growth_streak: 0, last_tick_us: None }
    }

    /// The streak never outruns the reports that built it.
    pub open spec fn wf(self) -> bool {
        self.growth_streak <= self.reports
    }

    /// Stash the pre-startup snapshot as both the baseline and the last one.
    pub fn capture_baseline(&mut self, pre: MemSnapshot)
        ensures
            *final(self) == (HealthState { prestartup: Some(pre), last: Some(pre), ..*old(self) }),
    {
        self.prestartup = Some(pre);
        self.last = Some(pre);
    }

    /// The state and report after a tick at `now_us` with snapshot `snap`
    /// (the snapshot is only taken when a report is due).
    pub open spec fn spec_report(self, now_us: u64, snap: MemSnapshot) -> (HealthState, Option<Report>) {
        if !report_due(self.last_tick_us, now_us) {
            (self, None)
        } else {
            let reports = (self.reports + 1) as u32;
            let delta = match self.last {
                Some(last) => Some(
                    (
                        (snap.heap_used - last.heap_used) as i64,
                        match self.prestartup {
                            Some(pre) => (snap.heap_used - pre.heap_used) as i64,
                            None => 0i64,
                        },
                    ),
                ),
                None => None,
            };
            let streak = match delta {
                Some((d_last, _)) => if d_last > HEAP_GROWTH_NOISE {
                    (self.growth_streak + 1) as u32
                } else {
                    0u32
                },
                None => self.growth_streak,
            };
            let next = HealthState {
                prestartup: self.prestartup,
                last: Some(snap),
                reports,
                growth_streak: streak,
                last_tick_us: Some(now_us),
            };
            let report = Report {
                number: reports,
                uptime_secs: now_us / MICROS_PER_SEC,
                heap_delta: delta,
                leak_streak: if delta is Some && streak >= LEAK_STREAK {
                    Some(streak)
                } else {
                    None
                },
                low_stack: if snap.stack_headroom < STACK_HEADROOM_WARN {
                    Some(snap.stack_headroom)
                } else {
                    None
                },
            };
            (next, Some(report))
        }
    }

    /// Whether a report is due at `now_us` (every [`REPORT_SECS`]).
    pub fn due(&self, now_us: u64) -> (r: bool)
        requires
            self.last_tick_us matches Some(t) ==> t <= now_us,
        ensures
            r == report_due(self.last_tick_us, now_us),
    {
        match self.last_tick_us {
            None => true,
            Some(t) => (now_us - t) / MICROS_PER_SEC >= REPORT_SECS,
        }
    }

    /// Periodic report, throttled to [`REPORT_SECS`]: count it, compare the
    /// heap with the last and pre-startup snapshots, track the growth streak,
    /// and flag a likely leak and low stack headroom.
    pub fn report(&mut self, now_us: u64, snap: MemSnapshot) -> (r: Option<Report>)
        requires
            old(self).wf(),
            old(self).reports < u32::MAX,
            old(self).last_tick_us matches Some(t) ==> t <= now_us,
            fits_i64(snap.heap_used),
            old(self).last matches Some(l) ==> fits_i64(l.heap_used),
            old(self).prestartup matches Some(p) ==> fits_i64(p.heap_used),
        ensures
            (*final(self), r) == old(self).spec_report(now_us, snap),
            final(self).wf(),
    {
        if !self.due(now_us) {
            return None;
        }
        self.last_tick_us = Some(now_us);
        self.reports = self.reports + 1;
        let delta = match self.last {
            Some(last) => {
                let d_last = snap.heap_used as i64 - last.heap_used as i64;
                let d_pre = match self.prestartup {
                    Some(pre) => snap.heap_used as i64 - pre.heap_used as i64,
                    None => 0,
                };
                // A leak shows as the heap climbing report after report; a
                // one-time step up to steady state resets the streak.
                if d_last > HEAP_GROWTH_NOISE {
                    self.growth_streak = self.growth_streak + 1;
                } else {
                    self.growth_streak = 0;
                }
                Some((d_last, d_pre))
            },
            None => None,
        };
        let leak_streak = if delta.is_some() && self.growth_streak >= LEAK_STREAK {
            Some(self.growth_streak)
        } else {
            None
        };
        let low_stack = if snap.stack_headroom < STACK_HEADROOM_WARN {
            Some(snap.stack_headroom)
        } else {
            None
        };
        self.last = Some(snap);
        Some(
            Report {
                number: self.reports,
                uptime_secs: now_us / MICROS_PER_SEC,
                heap_delta: delta,
                leak_streak,
                low_stack,
            },
        )
    }
}

/// A heap that never grows past the noise threshold never raises the leak
/// warning, however many reports are made.
pub proof fn lemma_flat_heap_is_quiet(s: HealthState, now_us: u64, snap: MemSnapshot)
    requires
        s.last matches Some(l) ==> snap.heap_used <= l.heap_used + HEAP_GROWTH_NOISE,
        fits_i64(snap.heap_used),
        s.last matches Some(l) ==> fits_i64(l.heap_used),
        report_due(s.last_tick_us, now_us),
    ensures
        s.last is Some ==> s.spec_report(now_us, snap).0.growth_streak == 0,
        s.last is Some ==> s.spec_report(now_us, snap).1->0.leak_streak is None,
{
}

/// Three reports in a row, each finding the heap grown past the noise
/// threshold since the one before, raise the leak warning on the third.
pub proof fn lemma_sustained_growth_warns(
    s0: HealthState,
    t1: u64,
    m1: MemSnapshot,
    t2: u64,
    m2: MemSnapshot,
    t3: u64,
    m3: MemSnapshot,
)
    requires
        s0.wf(),
        s0.reports + 3 <= u32::MAX,
        s0.last matches Some(l) && m1.heap_used > l.heap_used + HEAP_GROWTH_NOISE,
        m2.heap_used > m1.heap_used + HEAP_GROWTH_NOISE,
        m3.heap_used > m2.heap_used + HEAP_GROWTH_NOISE,
        fits_i64(m3.heap_used),
        report_due(s0.last_tick_us, t1),
        report_due(Some(t1), t2),
        report_due(Some(t2), t3),
    ensures
        ({
            let (s1, _) = s0.spec_report(t1, m1);
            let (s2, _) = s1.spec_report(t2, m2);
            let (_, r3) = s2.spec_report(t3, m3);
            r3 matches Some(r) && r.leak_streak is Some
        }),
{
    let (s1, _) = s0.spec_report(t1, m1);
    assert(s1.growth_streak >= 1);
    let (s2, _) = s1.spec_report(t2, m2);
    assert(s2.growth_streak >= 2);
}

} // verus!
