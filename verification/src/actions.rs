//! Behaviour-tree steps and route handlers that steer the robot: each reads
//! a sensor or a route parameter and picks the drive velocity (or LED) to
//! command. Velocities are whole mm/s and deg/s.
use crate::text::str_eq;
use crate::types::Side;
use vstd::prelude::*;

verus! {

/// A commanded drive velocity: forward speed (mm/s, negative is back) and
/// turn rate (deg/s, positive turns left).
#[derive(Debug, Clone, Copy, PartialEq, Eq, Structural)]
pub struct DriveVelocity {
    pub linear_mm_s: i32,
    pub angular_deg_s: i32,
}

/// Line-sensor reading at or above this counts as "black" (over the line).
pub const LINE_BLACK_THRESHOLD: i16 = 500;

/// Turn away from a wall closer than this (mm).
pub const ROOMBA_NEAR_MM: i16 = 200;

/// Forward/back speed for the drive route, mm/s.
pub const DRIVE_SPEED_MM_S: i32 = 60;

/// Turn rate (spin in place) for the drive route, deg/s.
pub const TURN_RATE_DEG_S: i32 = 90;

/// The velocity of one line-following step for a left-sensor reading.
pub open spec fn spec_line_follow(left: i16) -> DriveVelocity {
    if left >= LINE_BLACK_THRESHOLD {
        DriveVelocity { linear_mm_s: 20, angular_deg_s: -60i32 }
    } else {
        DriveVelocity { linear_mm_s: 40, angular_deg_s: 0 }
    }
}

/// One bang-bang line-following step: forward while the left sensor sees
/// white, steer right while it sees black.
pub fn line_follow_step(left: i16) -> (r: DriveVelocity)
    ensures
        r == spec_line_follow(left),
{
    if left >= LINE_BLACK_THRESHOLD {
        // left over the line: steer back to the right
        DriveVelocity { linear_mm_s: 20, angular_deg_s: -60i32 }
    } else {
        DriveVelocity { linear_mm_s: 40, angular_deg_s: 0 }
    }
}

/// The velocity of one roomba step for the centre distance (mm).
pub open spec fn spec_roomba(center_mm: i16) -> DriveVelocity {
    if center_mm < ROOMBA_NEAR_MM {
        DriveVelocity { linear_mm_s: 0, angular_deg_s: -90i32 }
    } else {
        DriveVelocity { linear_mm_s: 50, angular_deg_s: 0 }
    }
}

/// One roomba step: drive forward until the centre time-of-flight sensor
/// reads a wall closer than [`ROOMBA_NEAR_MM`], then spin right to clear it.
pub fn roomba_step(center_mm: i16) -> (r: DriveVelocity)
    ensures
        r == spec_roomba(center_mm),
{
    if center_mm < ROOMBA_NEAR_MM {
        DriveVelocity { linear_mm_s: 0, angular_deg_s: -90i32 }
    } else {
        DriveVelocity { linear_mm_s: 50, angular_deg_s: 0 }
    }
}

/// The drive route's velocity for its `:dir` parameter; any other value
/// (including `stop`) stops.
pub open spec fn spec_drive_route(dir: Seq<char>) -> DriveVelocity {
    if dir == "forward"@ {
        DriveVelocity { linear_mm_s: DRIVE_SPEED_MM_S, angular_deg_s: 0 }
    } else if dir == "back"@ {
        DriveVelocity { linear_mm_s: (-DRIVE_SPEED_MM_S) as i32, angular_deg_s: 0 }
    } else if dir == "left"@ {
        DriveVelocity { linear_mm_s: 0, angular_deg_s: TURN_RATE_DEG_S }
    } else if dir == "right"@ {
        DriveVelocity { linear_mm_s: 0, angular_deg_s: (-TURN_RATE_DEG_S) as i32 }
    } else {
        DriveVelocity { linear_mm_s: 0, angular_deg_s: 0 }
    }
}

/// `:dir` -> a continuous drive velocity; a missing parameter stops.
pub fn drive_route(dir: Option<&str>) -> (r: DriveVelocity)
    ensures
        r == (match dir {
            Some(d) => spec_drive_route(d@),
            None => DriveVelocity { linear_mm_s: 0, angular_deg_s: 0 },
        }),
{
    let d = match dir {
        Some(d) => d,
        None => return DriveVelocity { linear_mm_s: 0, angular_deg_s: 0 },
    };
    if str_eq(d, "forward") {
        DriveVelocity { linear_mm_s: DRIVE_SPEED_MM_S, angular_deg_s: 0 }
    } else if str_eq(d, "back") {
        DriveVelocity { linear_mm_s: -DRIVE_SPEED_MM_S, angular_deg_s: 0 }
    } else if str_eq(d, "left") {
        DriveVelocity { linear_mm_s: 0, angular_deg_s: TURN_RATE_DEG_S }
    } else if str_eq(d, "right") {
        DriveVelocity { linear_mm_s: 0, angular_deg_s: -TURN_RATE_DEG_S }
    } else {
        DriveVelocity { linear_mm_s: 0, angular_deg_s: 0 }
    }
}

/// The LED route's target for its `:side` and `:state` parameters: the left
/// LED for `left`, otherwise the right one; lit (white) exactly for `on`.
pub open spec fn spec_led_route(side: Option<Seq<char>>, state: Option<Seq<char>>) -> (Side, bool) {
    (
        if side == Some("left"@) {
            Side::Left
        } else {
            Side::Right
        },
        state == Some("on"@),
    )
}

/// `:side`/`:state` -> which UI LED to set, and whether it is lit (white)
/// or dark (black).
pub fn led_route(side: Option<&str>, state: Option<&str>) -> (r: (Side, bool))
    ensures
        r == spec_led_route(
            match side {
                Some(s) => Some(s@),
                None => None,
            },
            match state {
                Some(s) => Some(s@),
                None => None,
            },
        ),
{
    let want = match side {
        Some(s) => if str_eq(s, "left") {
            Side::Left
        } else {
            Side::Right
        },
        None => Side::Right,
    };
    let on = match state {
        Some(s) => str_eq(s, "on"),
        None => false,
    };
    (want, on)
}

/// The direction an agent heads next.
#[derive(Debug, Clone, Copy, PartialEq, Eq, Structural)]
pub enum Heading {
    /// Drive straight ahead.
    Forward,
    /// Turn to the left.
    Left,
    /// Turn to the right.
    Right,
}

/// How a heading maps onto the wheels. Velocities are the bit patterns of
/// the 32-bit floats the drive takes (mm/s and deg/s, positive turning
/// left); the step's duration is in nanoseconds.
#[derive(Debug, Clone, Copy, PartialEq, Eq, Structural)]
pub struct DriveStepConfig {
    /// Forward speed of a `Forward` heading.
    pub speed: u32,
    /// Turn rate of a `Left`/`Right` heading (spin in place).
    pub turn_rate: u32,
    /// How long a heading drives before the robot stops.
    pub duration_nanos: u64,
}

/// The bit pattern of `60.0f32`.
pub const SPEED_60_BITS: u32 = 0x4270_0000;

/// The bit pattern of `90.0f32`.
pub const TURN_90_BITS: u32 = 0x42B4_0000;

/// The sign bit of a 32-bit float.
pub const SIGN_BIT: u32 = 0x8000_0000;

impl Default for DriveStepConfig {
    /// 60 mm/s forward, 90 deg/s turns, 0.8 s steps.
    fn default() -> (r: Self)
        ensures
            r.speed == SPEED_60_BITS,
            r.turn_rate == TURN_90_BITS,
            r.duration_nanos == 800_000_000,
    {
        DriveStepConfig {
            speed: SPEED_60_BITS,
            turn_rate: TURN_90_BITS,
            duration_nanos: 800_000_000,
        }
    }
}

/// A drive step: the velocities to command (float bit patterns) and how
/// long the caller should wait for the robot to settle.
#[derive(Debug, Clone, Copy, PartialEq, Eq, Structural)]
pub struct HeadingStep {
    pub linear: u32,
    pub angular: u32,
    pub settle_nanos: u64,
}

/// The step for `heading`: forward at the configured speed, or spin in
/// place at the configured turn rate (negated for a right turn); it settles
/// after the configured duration when a robot is there to move, at once
/// otherwise.
pub open spec fn spec_heading_step(heading: Heading, config: DriveStepConfig, robot: bool) -> HeadingStep {
    let (linear, angular) = match heading {
        Heading::Forward => (config.speed, 0u32),
        Heading::Left => (0u32, config.turn_rate),
        Heading::Right => (0u32, config.turn_rate ^ SIGN_BIT),
    };
    HeadingStep {
        linear,
        angular,
        settle_nanos: if robot {
            config.duration_nanos
        } else {
            0
        },
    }
}

/// Map a heading onto the drive with the route's tuning; `robot` tells
/// whether the robot is up to move.
pub fn apply_heading(heading: Heading, config: DriveStepConfig, robot: bool) -> (r: HeadingStep)
    ensures
        r == spec_heading_step(heading, config, robot),
{
    let (linear, angular) = match heading {
        Heading::Forward => (config.speed, 0u32),
        Heading::Left => (0u32, config.turn_rate),
        Heading::Right => (0u32, config.turn_rate ^ SIGN_BIT),
    };
    HeadingStep {
        linear,
        angular,
        settle_nanos: if robot {
            config.duration_nanos
        } else {
            0
        },
    }
}

} // verus!
