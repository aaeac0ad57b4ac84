//! Small free-standing value types shared across the Alvik modules: the wheel
//! [`Side`], the decoded [`TouchButton`] / [`TiltAxis`] enums, and the
//! [`EdgeState`] the event detector keeps between frames.
use vstd::prelude::*;

verus! {

/// Which wheel (or UI LED) a per-side command addresses.
#[derive(Debug, Clone, Copy, PartialEq, Eq, Structural)]
pub enum Side {
    Left,
    Right,
}

impl Side {
    /// The ucPack label byte for this side.
    pub open spec fn spec_label(self) -> u8 {
        match self {
            Side::Left => 0x4C,  // 'L'
            Side::Right => 0x52,  // 'R'
        }
    }

    /// The ucPack label byte (`'L'` / `'R'`).
    pub fn label(self) -> (r: u8)
        ensures
            r == self.spec_label(),
    {
        match self {
            Side::Left => 0x4C,
            Side::Right => 0x52,
        }
    }
}

/// A touch button, as decoded from the `t` bitmask.
#[derive(Debug, Clone, Copy, PartialEq, Eq, Structural)]
pub enum TouchButton {
    /// The `OK` key.
    OkKey,
    Cancel,
    Center,
    Up,
    Left,
    Down,
    Right,
}

/// A tilt axis, as decoded from the `m` bitmask.
#[derive(Debug, Clone, Copy, PartialEq, Eq, Structural)]
pub enum TiltAxis {
    X,
    NegX,
    Y,
    NegY,
    Z,
    NegZ,
}

/// Upright (face-up) tilt bit of the `m` bitmask; also [`EdgeState`]'s
/// starting motion mask.
pub const MOTION_TILT_NEG_Z: u8 = 0x80;

/// Previous-frame bitmasks for edge detection. `motion` starts at the upright
/// `-Z` tilt bit so a fresh, level robot does not fire a tilt on the first
/// frame.
#[derive(Debug, Clone, Copy, PartialEq, Eq)]
pub struct EdgeState {
    /// Touch bitmask seen last frame.
    pub touch: u8,
    /// Move/tilt bitmask seen last frame.
    pub motion: u8,
}

impl Default for EdgeState {
    fn default() -> (r: Self)
        ensures
            r.touch == 0,
            r.motion == MOTION_TILT_NEG_Z,
    {
        EdgeState { touch: 0, motion: MOTION_TILT_NEG_Z }
    }
}

} // verus!
