//! Heap placement bookkeeping: the outcome of bringing PSRAM up at boot.
use vstd::prelude::*;

verus! {

/// Outcome of bringing PSRAM up, reported once at boot so the placement model
/// is observable rather than assumed.
#[derive(Debug, Clone, Copy)]
pub struct PsramInfo {
    /// Base virtual address of the mapped PSRAM window.
    pub start: usize,
    /// Mapped, usable PSRAM size in bytes (0 if no PSRAM was detected).
    pub size: usize,
}

impl PsramInfo {
    /// Whether usable PSRAM was detected and mapped.
    pub fn present(&self) -> (r: bool)
        ensures
            r == (self.size > 0),
    {
        self.size > 0
    }
}

} // verus!
