//! The robot-side state the status stream updates, and the per-frame
//! decisions that turn commanded state into wire [`Command`]s.
//!
//! Every reading is held as it arrives (see [`Status`]): counts as integers,
//! 32-bit floats as their bit patterns. Each field of [`RobotState`] is
//! optional: `None` when the application keeps no such readout, in which
//! case the update leaves it absent.
use crate::driver::StatusSnapshot;
use crate::protocol::Command;
use crate::protocol::Status;
use crate::types::Side;
use vstd::prelude::*;

verus! {

/// Time-of-flight distances, mm.
#[derive(Debug, Clone, Copy, PartialEq, Eq, Structural)]
pub struct TofReading {
    pub left: i16,
    pub center_left: i16,
    pub center: i16,
    pub center_right: i16,
    pub right: i16,
    pub top: i16,
    pub bottom: i16,
}

/// The readouts an application keeps on its robot root. `None` marks a
/// readout the application does not keep.
#[derive(Debug, Clone, Copy)]
pub struct RobotState {
    /// Pose x, y (mm) and theta (deg).
    pub pose: Option<(u32, u32, u32)>,
    /// IMU `ax, ay, az, gx, gy, gz`.
    pub imu: Option<[u32; 6]>,
    /// Roll, pitch, yaw (deg).
    pub orientation: Option<(u32, u32, u32)>,
    /// Line sensors left, center, right (raw).
    pub line: Option<(i16, i16, i16)>,
    /// Color sensor raw red, green, blue.
    pub color: Option<(i16, i16, i16)>,
    /// Time-of-flight distances.
    pub tof: Option<TofReading>,
    /// Linear velocity (mm/s).
    pub linear: Option<u32>,
    /// Angular velocity (deg/s).
    pub angular: Option<u32>,
    /// Battery percent and charging flag.
    pub battery: Option<(u32, bool)>,
    /// Touch button bitmask.
    pub touch: Option<u8>,
    /// Move/tilt bitmask.
    pub motion: Option<u8>,
    /// Behavior code.
    pub behavior: Option<u8>,
    /// Whether the link is up.
    pub connected: Option<bool>,
    /// Carrier firmware version.
    pub firmware: Option<(u8, u8, u8)>,
}

/// A kept readout takes the new value; an absent one stays absent.
pub open spec fn refresh<T>(slot: Option<T>, v: T) -> Option<T> {
    match slot {
        Some(_) => Some(v),
        None => None,
    }
}

/// One wheel's measured state (rpm and deg, as bit patterns).
#[derive(Debug, Clone, Copy, PartialEq, Eq, Structural)]
pub struct WheelReading {
    pub side: Side,
    pub speed: u32,
    pub position: u32,
}

impl RobotState {
    /// The readouts after the continuous snapshot `s`.
    pub open spec fn with_snapshot(self, s: StatusSnapshot) -> RobotState {
        RobotState {
            pose: refresh(self.pose, s.pose),
            imu: refresh(self.imu, s.imu),
            orientation: refresh(self.orientation, s.orientation),
            line: refresh(self.line, s.line),
            color: refresh(self.color, s.color),
            tof: refresh(
                self.tof,
                TofReading {
                    left: s.tof_left,
                    center_left: s.tof_center_left,
                    center: s.tof_center,
                    center_right: s.tof_center_right,
                    right: s.tof_right,
                    top: s.tof_top,
                    bottom: s.tof_bottom,
                },
            ),
            linear: refresh(self.linear, s.velocity.0),
            angular: refresh(self.angular, s.velocity.1),
            battery: refresh(self.battery, s.battery),
            ..self
        }
    }

    /// The readouts after one discrete message. A firmware report also marks
    /// the link up.
    pub open spec fn with_event(self, st: Status) -> RobotState {
        match st {
            Status::Touch(bits) => RobotState { touch: refresh(self.touch, bits), ..self },
            Status::Motion(bits) => RobotState { motion: refresh(self.motion, bits), ..self },
            Status::Behavior(code) => RobotState { behavior: refresh(self.behavior, code), ..self },
            Status::FwVersion { major, minor, patch } => RobotState {
                firmware: refresh(self.firmware, (major, minor, patch)),
                connected: refresh(self.connected, true),
                ..self
            },
            _ => self,
        }
    }

    /// The readouts after the discrete messages `events`, in order.
    pub open spec fn with_events(self, events: Seq<Status>) -> RobotState
        decreases events.len(),
    {
        if events.len() == 0 {
            self
        } else {
            self.with_events(events.drop_last()).with_event(events.last())
        }
    }

    /// Apply the latest continuous snapshot, if one arrived.
    pub fn apply_snapshot(&mut self, s: &StatusSnapshot)
        ensures
            *final(self) == old(self).with_snapshot(*s),
    {
        if self.pose.is_some() {
            self.pose = Some(s.pose);
        }
        if self.imu.is_some() {
            self.imu = Some(s.imu);
        }
        if self.orientation.is_some() {
            self.orientation = Some(s.orientation);
        }
        if self.line.is_some() {
            self.line = Some(s.line);
        }
        if self.color.is_some() {
            self.color = Some(s.color);
        }
        if self.tof.is_some() {
            self.tof = Some(
                TofReading {
                    left: s.tof_left,
                    center_left: s.tof_center_left,
                    center: s.tof_center,
                    center_right: s.tof_center_right,
                    right: s.tof_right,
                    top: s.tof_top,
                    bottom: s.tof_bottom,
                },
            );
        }
        if self.linear.is_some() {
            self.linear = Some(s.velocity.0);
        }
        if self.angular.is_some() {
            self.angular = Some(s.velocity.1);
        }
        if self.battery.is_some() {
            self.battery = Some(s.battery);
        }
    }

    /// Apply one discrete message.
    pub fn apply_event(&mut self, st: &Status)
        ensures
            *final(self) == old(self).with_event(*st),
    {
        match *st {
            Status::Touch(bits) => {
                if self.touch.is_some() {
                    self.touch = Some(bits);
                }
            },
            Status::Motion(bits) => {
                if self.motion.is_some() {
                    self.motion = Some(bits);
                }
            },
            Status::Behavior(code) => {
                if self.behavior.is_some() {
                    self.behavior = Some(code);
                }
            },
            Status::FwVersion { major, minor, patch } => {
                if self.firmware.is_some() {
                    self.firmware = Some((major, minor, patch));
                }
                if self.connected.is_some() {
                    self.connected = Some(true);
                }
            },
            _ => {},
        }
    }
}

/// A wheel's reading after the snapshot `s`.
pub open spec fn wheel_after(w: WheelReading, s: StatusSnapshot) -> WheelReading {
    match w.side {
        Side::Left => WheelReading {
            side: w.side,
            speed: s.wheel_left_speed,
            position: s.wheel_left_position,
        },
        Side::Right => WheelReading {
            side: w.side,
            speed: s.wheel_right_speed,
            position: s.wheel_right_position,
        },
    }
}

/// Apply the latest continuous snapshot (if one arrived) and then every
/// queued discrete message, in order, to the robot's readouts and its
/// wheels.
pub fn apply_status(
    robot: &mut RobotState,
    wheels: &mut Vec<WheelReading>,
    snapshot: Option<StatusSnapshot>,
    events: &[Status],
)
    ensures
        *final(robot) == (match snapshot {
            Some(s) => old(robot).with_snapshot(s),
            None => *old(robot),
        }).with_events(events@),
        final(wheels)@.len() == old(wheels)@.len(),
        forall|i: int|
            0 <= i < old(wheels)@.len() ==> #[trigger] final(wheels)@[i] == (match snapshot {
                Some(s) => wheel_after(old(wheels)@[i], s),
                None => old(wheels)@[i],
            }),
{
    if let Some(s) = snapshot {
        robot.apply_snapshot(&s);
        let mut i: usize = 0;
        while i < wheels.len()
            invariant
                wheels@.len() == old(wheels)@.len(),
                0 <= i <= wheels@.len(),
                forall|j: int| 0 <= j < i ==> #[trigger] wheels@[j] == wheel_after(old(wheels)@[j], s),
                forall|j: int| i <= j < wheels@.len() ==> #[trigger] wheels@[j] == old(wheels)@[j],
            decreases wheels@.len() - i,
        {
            let w = wheels[i];
            let updated = match w.side {
                Side::Left => WheelReading {
                    side: w.side,
                    speed: s.wheel_left_speed,
                    position: s.wheel_left_position,
                },
                Side::Right => WheelReading {
                    side: w.side,
                    speed: s.wheel_right_speed,
                    position: s.wheel_right_position,
                },
            };
            wheels.set(i, updated);
            i = i + 1;
        }
    }
    let ghost base = *robot;
    let mut k: usize = 0;
    while k < events.len()
        invariant
            k <= events@.len(),
            *robot == base.with_events(events@.subrange(0, k as int)),
        decreases events@.len() - k,
    {
        robot.apply_event(&events[k]);
        proof {
            assert(events@.subrange(0, k + 1).drop_last() =~= events@.subrange(0, k as int));
        }
        k = k + 1;
    }
    proof {
        assert(events@.subrange(0, events@.len() as int) =~= events@);
    }
}

// ---------------------------------------------------------------------------
// Commanded state -> wire commands
// ---------------------------------------------------------------------------

/// A wheel's commanded intent: a speed (rpm) or a target position (deg).
#[derive(Debug, Clone, Copy, PartialEq, Eq, Structural)]
pub enum WheelTarget {
    Speed(u32),
    Position(u32),
}

/// The per-wheel command for a changed [`WheelTarget`].
pub open spec fn spec_wheel_command(side: Side, target: WheelTarget) -> Command {
    match target {
        WheelTarget::Speed(speed) => Command::WheelSpeed { wheel: side, speed },
        WheelTarget::Position(position) => Command::WheelPosition { wheel: side, position },
    }
}

/// The commands for the wheels whose targets changed this frame, in order.
pub fn flush_wheels(changed: &[(Side, WheelTarget)]) -> (r: Vec<Command>)
    ensures
        r@.len() == changed@.len(),
        forall|i: int|
            0 <= i < changed@.len() ==> #[trigger] r@[i] == spec_wheel_command(
                changed@[i].0,
                changed@[i].1,
            ),
{
    let mut out: Vec<Command> = Vec::new();
    let mut i: usize = 0;
    while i < changed.len()
        invariant
            i <= changed@.len(),
            out@.len() == i,
            forall|j: int|
                0 <= j < i ==> #[trigger] out@[j] == spec_wheel_command(
                    changed@[j].0,
                    changed@[j].1,
                ),
        decreases changed@.len() - i,
    {
        let (side, target) = changed[i];
        let command = match target {
            WheelTarget::Speed(speed) => Command::WheelSpeed { wheel: side, speed },
            WheelTarget::Position(position) => Command::WheelPosition { wheel: side, position },
        };
        out.push(command);
        i = i + 1;
    }
    out
}

/// The drive command for a changed differential drive: linear (mm/s) and
/// angular (deg/s) velocity bit patterns.
pub fn flush_drive(linear: u32, angular: u32) -> (r: Command)
    ensures
        r == (Command::Drive { linear, angular }),
{
    Command::Drive { linear, angular }
}

/// Which servo header a servo drives.
#[derive(Debug, Clone, Copy, PartialEq, Eq, Structural)]
pub enum ServoId {
    A,
    B,
}

/// A servo and its position in whole degrees (already clamped to 0..=180).
#[derive(Debug, Clone, Copy, PartialEq, Eq, Structural)]
pub struct ServoPos {
    pub id: ServoId,
    pub degrees: u8,
}

/// The positions of servos A and B among `servos` (the last one listed for
/// each header wins; `None` when a header has none).
pub open spec fn servo_positions(servos: Seq<ServoPos>) -> (Option<u8>, Option<u8>)
    decreases servos.len(),
{
    if servos.len() == 0 {
        (None, None)
    } else {
        let (a, b) = servo_positions(servos.drop_last());
        let s = servos.last();
        match s.id {
            ServoId::A => (Some(s.degrees), b),
            ServoId::B => (a, Some(s.degrees)),
        }
    }
}

/// The servo command to send (if any) and the positions remembered as last
/// sent, given the positions last sent and the servos now.
pub open spec fn spec_flush_servos(last: Option<(u8, u8)>, servos: Seq<ServoPos>) -> (
    Option<Command>,
    Option<(u8, u8)>,
) {
    let (a, b) = servo_positions(servos);
    if a is Some && b is Some && last != Some((a->0, b->0)) {
        (Some(Command::SetServo { a: a->0, b: b->0 }), Some((a->0, b->0)))
    } else {
        (None, last)
    }
}

/// Compose both servo positions into one `S` command when either changed
/// since the last one sent (`last`). Nothing is sent until both servos exist.
pub fn flush_servos(last: &mut Option<(u8, u8)>, servos: &[ServoPos]) -> (r: Option<Command>)
    ensures
        (r, *final(last)) == spec_flush_servos(*old(last), servos@),
{
    let mut a: Option<u8> = None;
    let mut b: Option<u8> = None;
    let mut i: usize = 0;
    while i < servos.len()
        invariant
            i <= servos@.len(),
            (a, b) == servo_positions(servos@.subrange(0, i as int)),
        decreases servos@.len() - i,
    {
        let servo = servos[i];
        match servo.id {
            ServoId::A => a = Some(servo.degrees),
            ServoId::B => b = Some(servo.degrees),
        }
        proof {
            assert(servos@.subrange(0, i + 1).drop_last() =~= servos@.subrange(0, i as int));
        }
        i = i + 1;
    }
    proof {
        assert(servos@.subrange(0, servos@.len() as int) =~= servos@);
    }
    match (a, b) {
        (Some(a), Some(b)) => {
            let changed = match *last {
                Some((la, lb)) => la != a || lb != b,
                None => true,
            };
            if changed {
                *last = Some((a, b));
                Some(Command::SetServo { a, b })
            } else {
                None
            }
        },
        _ => None,
    }
}

/// One RGB UI LED, each channel already thresholded on or off.
#[derive(Debug, Clone, Copy, PartialEq, Eq, Structural)]
pub struct LedLit {
    pub side: Side,
    pub red: bool,
    pub green: bool,
    pub blue: bool,
}

/// The builtin LED's bit of the `L` state byte.
pub const LED_BUILTIN: u8 = 0x01;

/// The illuminator's bit of the `L` state byte.
pub const LED_ILLUMINATOR: u8 = 0x02;

/// The red, green and blue bits of a UI LED in the `L` state byte.
pub open spec fn channel_bits(side: Side) -> (u8, u8, u8) {
    match side {
        Side::Left => (0x04u8, 0x08u8, 0x10u8),
        Side::Right => (0x20u8, 0x40u8, 0x80u8),
    }
}

/// The bits one UI LED sets in the `L` state byte.
pub open spec fn lit_bits(led: LedLit) -> u8 {
    let (r, g, b) = channel_bits(led.side);
    (if led.red {
        r
    } else {
        0u8
    }) | (if led.green {
        g
    } else {
        0u8
    }) | (if led.blue {
        b
    } else {
        0u8
    })
}

/// `base` with the bits of every LED in `leds` set.
pub open spec fn leds_byte(base: u8, leds: Seq<LedLit>) -> u8
    decreases leds.len(),
{
    if leds.len() == 0 {
        base
    } else {
        leds_byte(base, leds.drop_last()) | lit_bits(leds.last())
    }
}

/// The `L` state byte for the builtin LED, the illuminator and the UI LEDs;
/// `None` when the application drives none of them (so the illuminator set
/// at bring-up is left alone).
pub open spec fn led_state(builtin: Option<bool>, illuminator: Option<bool>, leds: Seq<LedLit>) -> Option<u8> {
    if leds.len() == 0 && illuminator is None && builtin is None {
        None
    } else {
        let base = (if builtin == Some(true) {
            LED_BUILTIN
        } else {
            0u8
        }) | (if illuminator == Some(true) {
            LED_ILLUMINATOR
        } else {
            0u8
        });
        Some(leds_byte(base, leds))
    }
}

/// The LED command to send (if any) and the byte remembered as last sent.
pub open spec fn spec_flush_leds(
    last: Option<u8>,
    builtin: Option<bool>,
    illuminator: Option<bool>,
    leds: Seq<LedLit>,
) -> (Option<Command>, Option<u8>) {
    match led_state(builtin, illuminator, leds) {
        Some(byte) => if last != Some(byte) {
            (Some(Command::SetLeds(byte)), Some(byte))
        } else {
            (None, last)
        },
        None => (None, last),
    }
}

/// Aggregate the builtin LED, illuminator and UI LEDs into the `L` state
/// byte, and command it when it differs from the last one sent (`last`).
pub fn flush_alvik_leds(
    last: &mut Option<u8>,
    builtin: Option<bool>,
    illuminator: Option<bool>,
    leds: &[LedLit],
) -> (r: Option<Command>)
    ensures
        (r, *final(last)) == spec_flush_leds(*old(last), builtin, illuminator, leds@),
{
    if leds.len() == 0 && illuminator.is_none() && builtin.is_none() {
        return None;
    }
    let mut byte: u8 = 0;
    if let Some(true) = builtin {
        byte = byte | LED_BUILTIN;
    }
    if let Some(true) = illuminator {
        byte = byte | LED_ILLUMINATOR;
    }
    proof {
        let b0 = (if builtin == Some(true) {
            LED_BUILTIN
        } else {
            0u8
        });
        let i0 = (if illuminator == Some(true) {
            LED_ILLUMINATOR
        } else {
            0u8
        });
        assert(0u8 | b0 == b0) by (bit_vector);
        assert((0u8 | b0) | i0 == b0 | i0) by (bit_vector);
        assert(b0 | 0u8 == b0) by (bit_vector);
    }
    let ghost base = byte;
    let mut i: usize = 0;
    while i < leds.len()
        invariant
            i <= leds@.len(),
            byte == leds_byte(base, leds@.subrange(0, i as int)),
        decreases leds@.len() - i,
    {
        let led = leds[i];
        let ghost before = byte;
        let (red, green, blue): (u8, u8, u8) = match led.side {
            Side::Left => (0x04, 0x08, 0x10),
            Side::Right => (0x20, 0x40, 0x80),
        };
        let r: u8 = if led.red { red } else { 0 };
        let g: u8 = if led.green { green } else { 0 };
        let b: u8 = if led.blue { blue } else { 0 };
        byte = byte | r;
        byte = byte | g;
        byte = byte | b;
        proof {
            assert(((before | r) | g) | b == before | ((r | g) | b)) by (bit_vector);
            assert(leds@.subrange(0, i + 1).drop_last() =~= leds@.subrange(0, i as int));
        }
        i = i + 1;
    }
    proof {
        assert(leds@.subrange(0, leds@.len() as int) =~= leds@);
    }
    if *last != Some(byte) {
        *last = Some(byte);
        Some(Command::SetLeds(byte))
    } else {
        None
    }
}

/// Whether `led` is the UI LED on `side` with channel `ch` lit (0 red,
/// 1 green, 2 blue).
pub open spec fn lit_on(led: LedLit, side: Side, ch: int) -> bool {
    led.side == side && if ch == 0 {
        led.red
    } else if ch == 1 {
        led.green
    } else {
        led.blue
    }
}

/// Some UI LED in `leds` is on `side` with channel `ch` lit.
pub open spec fn some_lit(leds: Seq<LedLit>, side: Side, ch: int) -> bool {
    exists|i: int| 0 <= i < leds.len() && lit_on(#[trigger] leds[i], side, ch)
}

/// The `L` byte bit that belongs to channel `ch` of the LED on `side`.
proof fn lemma_lit_bits_bit(led: LedLit, m: u8, side: Side, ch: int)
    requires
        (m == 0x04 && side == Side::Left && ch == 0) || (m == 0x08 && side == Side::Left && ch
            == 1) || (m == 0x10 && side == Side::Left && ch == 2) || (m == 0x20 && side
            == Side::Right && ch == 0) || (m == 0x40 && side == Side::Right && ch == 1) || (m
            == 0x80 && side == Side::Right && ch == 2),
    ensures
        (lit_bits(led) & m != 0) <==> lit_on(led, side, ch),
        lit_bits(led) & 0x03u8 == 0,
{
    let r = led.red;
    let g = led.green;
    let b = led.blue;
    let v = lit_bits(led);
    match led.side {
        Side::Left => {
            assert(v == ((if r { 0x04u8 } else { 0u8 }) | (if g { 0x08u8 } else { 0u8 }) | (if b {
                0x10u8
            } else {
                0u8
            })));
            assert((v & 0x04u8 != 0) == r && (v & 0x08u8 != 0) == g && (v & 0x10u8 != 0) == b
                && v & 0x20u8 == 0 && v & 0x40u8 == 0 && v & 0x80u8 == 0 && v & 0x03u8 == 0)
                by (bit_vector)
                requires
                    v == ((if r { 0x04u8 } else { 0u8 }) | (if g { 0x08u8 } else { 0u8 }) | (if b {
                        0x10u8
                    } else {
                        0u8
                    })),
            ;
        },
        Side::Right => {
            assert(v == ((if r { 0x20u8 } else { 0u8 }) | (if g { 0x40u8 } else { 0u8 }) | (if b {
                0x80u8
            } else {
                0u8
            })));
            assert((v & 0x20u8 != 0) == r && (v & 0x40u8 != 0) == g && (v & 0x80u8 != 0) == b
                && v & 0x04u8 == 0 && v & 0x08u8 == 0 && v & 0x10u8 == 0 && v & 0x03u8 == 0)
                by (bit_vector)
                requires
                    v == ((if r { 0x20u8 } else { 0u8 }) | (if g { 0x40u8 } else { 0u8 }) | (if b {
                        0x80u8
                    } else {
                        0u8
                    })),
            ;
        },
    }
}

/// A bit of `base | x` is set exactly when it is set in either.
proof fn lemma_or_bit(x: u8, y: u8, m: u8)
    ensures
        ((x | y) & m != 0) <==> (x & m != 0 || y & m != 0),
        (x | y) & 0x03u8 == (x & 0x03u8) | (y & 0x03u8),
{
    assert(((x | y) & m != 0) <==> (x & m != 0 || y & m != 0)) by (bit_vector);
    assert((x | y) & 0x03u8 == (x & 0x03u8) | (y & 0x03u8)) by (bit_vector);
}

proof fn lemma_leds_byte_bit(base: u8, leds: Seq<LedLit>, m: u8, side: Side, ch: int)
    requires
        (m == 0x04 && side == Side::Left && ch == 0) || (m == 0x08 && side == Side::Left && ch
            == 1) || (m == 0x10 && side == Side::Left && ch == 2) || (m == 0x20 && side
            == Side::Right && ch == 0) || (m == 0x40 && side == Side::Right && ch == 1) || (m
            == 0x80 && side == Side::Right && ch == 2),
    ensures
        (leds_byte(base, leds) & m != 0) <==> (base & m != 0 || some_lit(leds, side, ch)),
        leds_byte(base, leds) & 0x03u8 == base & 0x03u8,
    decreases leds.len(),
{
    if leds.len() > 0 {
        let prev = leds.drop_last();
        let last = leds.last();
        lemma_leds_byte_bit(base, prev, m, side, ch);
        lemma_lit_bits_bit(last, m, side, ch);
        lemma_or_bit(leds_byte(base, prev), lit_bits(last), m);
        assert(lit_bits(last) & 0x03u8 == 0);
        let x = leds_byte(base, prev);
        assert((x & 0x03u8) | 0u8 == x & 0x03u8) by (bit_vector);
        if some_lit(leds, side, ch) {
            let i = choose|i: int| 0 <= i < leds.len() && lit_on(#[trigger] leds[i], side, ch);
            if i < leds.len() - 1 {
                assert(prev[i] == leds[i]);
                assert(some_lit(prev, side, ch));
            }
        }
        if some_lit(prev, side, ch) {
            let i = choose|i: int| 0 <= i < prev.len() && lit_on(#[trigger] prev[i], side, ch);
            assert(prev[i] == leds[i]);
            assert(some_lit(leds, side, ch));
        }
        if lit_on(last, side, ch) {
            assert(leds[leds.len() - 1] == last);
            assert(some_lit(leds, side, ch));
        }
    } else {
        assert(!some_lit(leds, side, ch));
    }
}

/// What each bit of the `L` state byte means, whatever the inputs: bit 0 the
/// builtin LED on, bit 1 the illuminator on, bits 2, 3, 4 red, green and
/// blue of the left UI LED, bits 5, 6, 7 red, green and blue of the right
/// one; a channel's bit is set exactly when some LED on that side has it lit.
pub proof fn lemma_led_state_bits(builtin: Option<bool>, illuminator: Option<bool>, leds: Seq<LedLit>)
    requires
        led_state(builtin, illuminator, leds) is Some,
    ensures
        ({
            let byte = led_state(builtin, illuminator, leds)->0;
            &&& (byte & 0x01u8 != 0) <==> builtin == Some(true)
            &&& (byte & 0x02u8 != 0) <==> illuminator == Some(true)
            &&& (byte & 0x04u8 != 0) <==> some_lit(leds, Side::Left, 0)
            &&& (byte & 0x08u8 != 0) <==> some_lit(leds, Side::Left, 1)
            &&& (byte & 0x10u8 != 0) <==> some_lit(leds, Side::Left, 2)
            &&& (byte & 0x20u8 != 0) <==> some_lit(leds, Side::Right, 0)
            &&& (byte & 0x40u8 != 0) <==> some_lit(leds, Side::Right, 1)
            &&& (byte & 0x80u8 != 0) <==> some_lit(leds, Side::Right, 2)
        }),
{
    let bi = builtin == Some(true);
    let il = illuminator == Some(true);
    let base: u8 = (if bi { 0x01u8 } else { 0u8 }) | (if il { 0x02u8 } else { 0u8 });
    assert(base & 0x04u8 == 0 && base & 0x08u8 == 0 && base & 0x10u8 == 0 && base & 0x20u8 == 0
        && base & 0x40u8 == 0 && base & 0x80u8 == 0 && ((base & 0x03u8) & 0x01u8 != 0) == bi
        && ((base & 0x03u8) & 0x02u8 != 0) == il) by (bit_vector)
        requires
            base == (if bi { 0x01u8 } else { 0u8 }) | (if il { 0x02u8 } else { 0u8 }),
    ;
    let byte = leds_byte(base, leds);
    assert(led_state(builtin, illuminator, leds) == Some(byte));
    lemma_leds_byte_bit(base, leds, 0x04, Side::Left, 0);
    lemma_leds_byte_bit(base, leds, 0x08, Side::Left, 1);
    lemma_leds_byte_bit(base, leds, 0x10, Side::Left, 2);
    lemma_leds_byte_bit(base, leds, 0x20, Side::Right, 0);
    lemma_leds_byte_bit(base, leds, 0x40, Side::Right, 1);
    lemma_leds_byte_bit(base, leds, 0x80, Side::Right, 2);
    let low = byte & 0x03u8;
    assert((byte & 0x01u8 != 0) == (low & 0x01u8 != 0) && (byte & 0x02u8 != 0) == (low & 0x02u8
        != 0)) by (bit_vector)
        requires
            low == byte & 0x03u8,
    ;
}

/// Flushing unchanged LEDs again sends nothing: the state just sent is
/// remembered.
pub proof fn lemma_led_flush_idempotent(
    last: Option<u8>,
    builtin: Option<bool>,
    illuminator: Option<bool>,
    leds: Seq<LedLit>,
)
    ensures
        spec_flush_leds(spec_flush_leds(last, builtin, illuminator, leds).1, builtin, illuminator, leds).0 is None,
{
}

/// Flushing unchanged servos again sends nothing.
pub proof fn lemma_servo_flush_idempotent(last: Option<(u8, u8)>, servos: Seq<ServoPos>)
    ensures
        spec_flush_servos(spec_flush_servos(last, servos).1, servos).0 is None,
{
}

} // verus!
