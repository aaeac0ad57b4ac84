//! Alvik-specific message types and their mapping to ucPack frames.
//!
//! [`Command`]s flow ESP32 → STM32 ([`encode`](Command::encode) via the ucPack
//! [`Encoder`]); [`Status`] messages flow STM32 → ESP32
//! ([`decode`](Status::decode) from a ucPack [`Frame`]). Every value is held as
//! it travels on the wire: counts and bitmasks as integers, the wire's 32-bit
//! floats as their IEEE-754 bit patterns in the wire's fixed units (deg, rpm,
//! mm, mm/s, deg/s). Converting those to typed quantities happens at the edge
//! of the application, nowhere here.
use crate::types::Side;
use crate::ucpack::encode_frame;
use crate::ucpack::le_bytes;
use crate::ucpack::le_i16;
use crate::ucpack::le_u32;
use crate::ucpack::lemma_le_u32_of_le_bytes;
use crate::ucpack::Encoder;
use crate::ucpack::Frame;
use crate::ucpack::PAYLOAD_MAX;
use vstd::prelude::*;

verus! {

/// A command sent to the STM32 carrier. Fields typed `u32` are the IEEE-754
/// bit patterns of 32-bit floats in the unit named on the variant.
#[derive(Debug, Clone, Copy, PartialEq, Eq, Structural)]
pub enum Command {
    /// `B`: set behavior code.
    SetBehavior(u8),
    /// `R`: rotate in place by an angle (deg).
    Rotate(u32),
    /// `G`: move forward/back by a distance (mm).
    Move(u32),
    /// `J`: set both wheel speeds (rpm).
    SetWheelSpeeds { left: u32, right: u32 },
    /// `A`: set both wheel target angles (deg).
    SetWheelAngles { left: u32, right: u32 },
    /// `V`: drive by linear (mm/s) + angular (deg/s) velocity.
    Drive { linear: u32, angular: u32 },
    /// `S`: set servo A/B positions (0..=180°, sent as raw degrees).
    SetServo { a: u8, b: u8 },
    /// `L`: set the aggregated LED state byte.
    SetLeds(u8),
    /// `Z`: reset the robot pose (mm, mm, deg).
    ResetPose { x: u32, y: u32, theta: u32 },
    /// `W`+`Z`: reset a wheel's reference position (deg).
    WheelReset { wheel: Side, position: u32 },
    /// `W`+`V`: set a single wheel's speed (rpm).
    WheelSpeed { wheel: Side, speed: u32 },
    /// `W`+`P`: set a single wheel's target position (deg).
    WheelPosition { wheel: Side, position: u32 },
    /// `P`: set a wheel's PID gains.
    SetPidGains { wheel: Side, kp: u32, ki: u32, kd: u32 },
    /// `X`: handshake / acknowledgement (payload is usually `'K'`).
    Ack(u8),
}

impl Command {
    /// The code byte and payload bytes this command travels as.
    pub open spec fn wire(self) -> (u8, Seq<u8>) {
        match self {
            Command::SetBehavior(b) => (0x42, seq![b]),  // 'B'
            Command::Rotate(deg) => (0x52, le_bytes(deg)),  // 'R'
            Command::Move(mm) => (0x47, le_bytes(mm)),  // 'G'
            Command::SetWheelSpeeds { left, right } => (0x4A, le_bytes(left) + le_bytes(right)),  // 'J'
            Command::SetWheelAngles { left, right } => (0x41, le_bytes(left) + le_bytes(right)),  // 'A'
            Command::Drive { linear, angular } => (0x56, le_bytes(linear) + le_bytes(angular)),  // 'V'
            Command::SetServo { a, b } => (0x53, seq![a, b]),  // 'S'
            Command::SetLeds(state) => (0x4C, seq![state]),  // 'L'
            Command::ResetPose { x, y, theta } => (
                0x5A,
                le_bytes(x) + le_bytes(y) + le_bytes(theta),
            ),  // 'Z'
            Command::WheelReset { wheel, position } => (
                0x57,
                seq![wheel.spec_label(), 0x5Au8] + le_bytes(position),
            ),  // 'W' 'Z'
            Command::WheelSpeed { wheel, speed } => (
                0x57,
                seq![wheel.spec_label(), 0x56u8] + le_bytes(speed),
            ),  // 'W' 'V'
            Command::WheelPosition { wheel, position } => (
                0x57,
                seq![wheel.spec_label(), 0x50u8] + le_bytes(position),
            ),  // 'W' 'P'
            Command::SetPidGains { wheel, kp, ki, kd } => (
                0x50,
                seq![wheel.spec_label()] + le_bytes(kp) + le_bytes(ki) + le_bytes(kd),
            ),  // 'P'
            Command::Ack(b) => (0x58, seq![b]),  // 'X'
        }
    }

    /// Frame this command into `enc`'s scratch buffer, ready for the UART.
    pub fn encode<'a>(&self, enc: &'a mut Encoder) -> (r: &'a [u8])
        ensures
            r@ == encode_frame(self.wire().0, self.wire().1),
    {
        match *self {
            Command::SetBehavior(b) => enc.c1b(0x42, b),
            Command::Rotate(angle) => enc.c1f(0x52, angle),
            Command::Move(distance) => enc.c1f(0x47, distance),
            Command::SetWheelSpeeds { left, right } => enc.c2f(0x4A, left, right),
            Command::SetWheelAngles { left, right } => enc.c2f(0x41, left, right),
            Command::Drive { linear, angular } => enc.c2f(0x56, linear, angular),
            Command::SetServo { a, b } => enc.c2b(0x53, a, b),
            Command::SetLeds(state) => enc.c1b(0x4C, state),
            Command::ResetPose { x, y, theta } => enc.c3f(0x5A, x, y, theta),
            Command::WheelReset { wheel, position } => enc.c2b1f(0x57, wheel.label(), 0x5A, position),
            Command::WheelSpeed { wheel, speed } => enc.c2b1f(0x57, wheel.label(), 0x56, speed),
            Command::WheelPosition { wheel, position } => enc.c2b1f(
                0x57,
                wheel.label(),
                0x50,
                position,
            ),
            Command::SetPidGains { wheel, kp, ki, kd } => enc.c1b3f(0x50, wheel.label(), kp, ki, kd),
            Command::Ack(b) => enc.c1b(0x58, b),
        }
    }
}

/// A status message received from the STM32 carrier. Fields typed `u32` are
/// the IEEE-754 bit patterns of 32-bit floats in the unit named on the
/// variant; `i16` fields are the raw wire counts.
#[derive(Debug, Clone, Copy, PartialEq, Eq)]
pub enum Status {
    /// `j`: measured wheel speeds (rpm).
    WheelSpeeds { left: u32, right: u32 },
    /// `w`: measured wheel positions (deg).
    WheelPositions { left: u32, right: u32 },
    /// `l`: line sensors L, C, R (raw).
    Line { left: i16, center: i16, right: i16 },
    /// `c`: color sensor raw R, G, B.
    Color { red: i16, green: i16, blue: i16 },
    /// `i`: IMU `ax, ay, az, gx, gy, gz`.
    Imu([u32; 6]),
    /// `q`: orientation roll, pitch, yaw (deg).
    Orientation { roll: u32, pitch: u32, yaw: u32 },
    /// `p`: battery state of charge (percent, the magnitude of the wire value);
    /// `charging` is the sign of the wire value.
    Battery { percent: u32, charging: bool },
    /// `d`: ToF distances L, C, R (mm).
    Tof { left: i16, center: i16, right: i16 },
    /// `f`: ToF matrix L, CL, C, CR, R, top, bottom (mm).
    TofMatrix {
        left: i16,
        center_left: i16,
        center: i16,
        center_right: i16,
        right: i16,
        top: i16,
        bottom: i16,
    },
    /// `t`: touch button bitmask.
    Touch(u8),
    /// `m`: move/tilt bitmask.
    Motion(u8),
    /// `b`: current behavior code.
    Behavior(u8),
    /// `v`: robot linear (mm/s) + angular (deg/s) velocity.
    Velocity { linear: u32, angular: u32 },
    /// `z`: robot pose x, y (mm), theta (deg).
    Pose { x: u32, y: u32, theta: u32 },
    /// `x`: acknowledgement byte.
    Ack(u8),
    /// `0x7E`: firmware version major, minor, patch.
    FwVersion { major: u8, minor: u8, patch: u8 },
}

/// The IEEE-754 single with bit pattern `b` is a NaN.
pub open spec fn bits_is_nan(b: u32) -> bool {
    (b & 0x7fff_ffffu32) > 0x7f80_0000u32
}

/// The IEEE-754 comparison `x < 0.0` for the single with bit pattern `b`.
pub open spec fn bits_below_zero(b: u32) -> bool {
    b & 0x8000_0000u32 != 0 && b & 0x7fff_ffffu32 != 0 && !bits_is_nan(b)
}

/// The IEEE-754 comparison `x > 0.0` for the single with bit pattern `b`.
pub open spec fn bits_above_zero(b: u32) -> bool {
    b & 0x8000_0000u32 == 0 && b & 0x7fff_ffffu32 != 0 && !bits_is_nan(b)
}

/// The bit pattern of `if x < 0.0 { -x } else { x }` (negation flips the sign
/// bit).
pub open spec fn bits_magnitude(b: u32) -> u32 {
    if bits_below_zero(b) {
        b ^ 0x8000_0000u32
    } else {
        b
    }
}

/// Little-endian `i16` at `o` in the padded payload `p`.
pub open spec fn pi16(p: Seq<u8>, o: int) -> i16 {
    le_i16(p[o], p[o + 1])
}

/// Little-endian 32-bit word at `o` in the padded payload `p`.
pub open spec fn pu32(p: Seq<u8>, o: int) -> u32 {
    le_u32(p[o], p[o + 1], p[o + 2], p[o + 3])
}

/// The status a frame with `code` and zero-padded payload `p` decodes to, or
/// `None` for an unrecognised code. A short payload reads as zero-extended.
pub open spec fn spec_decode(code: u8, p: Seq<u8>) -> Option<Status> {
    if code == 0x6A {  // 'j'
        Some(Status::WheelSpeeds { left: pu32(p, 0), right: pu32(p, 4) })
    } else if code == 0x77 {  // 'w'
        Some(Status::WheelPositions { left: pu32(p, 0), right: pu32(p, 4) })
    } else if code == 0x6C {  // 'l'
        Some(Status::Line { left: pi16(p, 0), center: pi16(p, 2), right: pi16(p, 4) })
    } else if code == 0x63 {  // 'c'
        Some(Status::Color { red: pi16(p, 0), green: pi16(p, 2), blue: pi16(p, 4) })
    } else if code == 0x69 {  // 'i'
        Some(
            Status::Imu(
                [pu32(p, 0), pu32(p, 4), pu32(p, 8), pu32(p, 12), pu32(p, 16), pu32(p, 20)],
            ),
        )
    } else if code == 0x71 {  // 'q'
        Some(Status::Orientation { roll: pu32(p, 0), pitch: pu32(p, 4), yaw: pu32(p, 8) })
    } else if code == 0x70 {  // 'p'
        Some(
            Status::Battery {
                percent: bits_magnitude(pu32(p, 0)),
                charging: bits_above_zero(pu32(p, 0)),
            },
        )
    } else if code == 0x64 {  // 'd'
        Some(Status::Tof { left: pi16(p, 0), center: pi16(p, 2), right: pi16(p, 4) })
    } else if code == 0x66 {  // 'f'
        Some(
            Status::TofMatrix {
                left: pi16(p, 0),
                center_left: pi16(p, 2),
                center: pi16(p, 4),
                center_right: pi16(p, 6),
                right: pi16(p, 8),
                top: pi16(p, 10),
                bottom: pi16(p, 12),
            },
        )
    } else if code == 0x74 {  // 't'
        Some(Status::Touch(p[0]))
    } else if code == 0x6D {  // 'm'
        Some(Status::Motion(p[0]))
    } else if code == 0x62 {  // 'b'
        Some(Status::Behavior(p[0]))
    } else if code == 0x76 {  // 'v'
        Some(Status::Velocity { linear: pu32(p, 0), angular: pu32(p, 4) })
    } else if code == 0x7A {  // 'z'
        Some(Status::Pose { x: pu32(p, 0), y: pu32(p, 4), theta: pu32(p, 8) })
    } else if code == 0x78 {  // 'x'
        Some(Status::Ack(p[0]))
    } else if code == 0x7E {
        Some(Status::FwVersion { major: p[0], minor: p[1], patch: p[2] })
    } else {
        None
    }
}

/// `if x < 0.0 { -x } else { x }` on the bit pattern of `x`.
fn magnitude(b: u32) -> (r: u32)
    ensures
        r == bits_magnitude(b),
{
    let nan = (b & 0x7fff_ffff) > 0x7f80_0000;
    if b & 0x8000_0000 != 0 && b & 0x7fff_ffff != 0 && !nan {
        b ^ 0x8000_0000
    } else {
        b
    }
}

/// `x > 0.0` on the bit pattern of `x`.
fn above_zero(b: u32) -> (r: bool)
    ensures
        r == bits_above_zero(b),
{
    let nan = (b & 0x7fff_ffff) > 0x7f80_0000;
    b & 0x8000_0000 == 0 && b & 0x7fff_ffff != 0 && !nan
}

impl Status {
    /// Decode a validated ucPack [`Frame`] into a [`Status`], or `None` for an
    /// unrecognised code.
    pub fn decode(frame: &Frame) -> (r: Option<Status>)
        ensures
            r == spec_decode(frame.code, frame.spec_padded()),
    {
        let code = frame.code;
        if code == 0x6A {
            Some(Status::WheelSpeeds { left: frame.f32_bits(0), right: frame.f32_bits(4) })
        } else if code == 0x77 {
            Some(Status::WheelPositions { left: frame.f32_bits(0), right: frame.f32_bits(4) })
        } else if code == 0x6C {
            Some(Status::Line { left: frame.i16(0), center: frame.i16(2), right: frame.i16(4) })
        } else if code == 0x63 {
            Some(Status::Color { red: frame.i16(0), green: frame.i16(2), blue: frame.i16(4) })
        } else if code == 0x69 {
            Some(
                Status::Imu(
                    [
                        frame.f32_bits(0),
                        frame.f32_bits(4),
                        frame.f32_bits(8),
                        frame.f32_bits(12),
                        frame.f32_bits(16),
                        frame.f32_bits(20),
                    ],
                ),
            )
        } else if code == 0x71 {
            Some(
                Status::Orientation {
                    roll: frame.f32_bits(0),
                    pitch: frame.f32_bits(4),
                    yaw: frame.f32_bits(8),
                },
            )
        } else if code == 0x70 {
            let raw = frame.f32_bits(0);
            Some(Status::Battery { percent: magnitude(raw), charging: above_zero(raw) })
        } else if code == 0x64 {
            Some(Status::Tof { left: frame.i16(0), center: frame.i16(2), right: frame.i16(4) })
        } else if code == 0x66 {
            Some(
                Status::TofMatrix {
                    left: frame.i16(0),
                    center_left: frame.i16(2),
                    center: frame.i16(4),
                    center_right: frame.i16(6),
                    right: frame.i16(8),
                    top: frame.i16(10),
                    bottom: frame.i16(12),
                },
            )
        } else if code == 0x74 {
            Some(Status::Touch(frame.u8(0)))
        } else if code == 0x6D {
            Some(Status::Motion(frame.u8(0)))
        } else if code == 0x62 {
            Some(Status::Behavior(frame.u8(0)))
        } else if code == 0x76 {
            Some(Status::Velocity { linear: frame.f32_bits(0), angular: frame.f32_bits(4) })
        } else if code == 0x7A {
            Some(
                Status::Pose {
                    x: frame.f32_bits(0),
                    y: frame.f32_bits(4),
                    theta: frame.f32_bits(8),
                },
            )
        } else if code == 0x78 {
            Some(Status::Ack(frame.u8(0)))
        } else if code == 0x7E {
            Some(Status::FwVersion { major: frame.u8(0), minor: frame.u8(1), patch: frame.u8(2) })
        } else {
            None
        }
    }
}


// ---------------------------------------------------------------------------
// Field order on the wire
// ---------------------------------------------------------------------------

/// The little-endian bytes of a 16-bit count, least significant first.
pub open spec fn i16_le_bytes(v: i16) -> Seq<u8> {
    seq![(v as u16) as u8, ((v as u16) >> 8u16) as u8]
}

/// A sequence that begins with `q` holds `q`'s elements at its front.
proof fn lemma_prefix_elements(p: Seq<u8>, q: Seq<u8>)
    requires
        q.len() <= p.len(),
        p.subrange(0, q.len() as int) == q,
    ensures
        forall|i: int| 0 <= i < q.len() ==> p[i] == q[i],
{
    assert forall|i: int| 0 <= i < q.len() implies p[i] == q[i] by {
        assert(p.subrange(0, q.len() as int)[i] == p[i]);
    }
}

/// The word whose little-endian bytes sit at `o` reads back as that word.
proof fn lemma_word_at(p: Seq<u8>, o: int, w: u32)
    requires
        0 <= o,
        o + 4 <= p.len(),
        p.subrange(o, o + 4) == le_bytes(w),
    ensures
        pu32(p, o) == w,
{
    assert(p[o] == p.subrange(o, o + 4)[0]);
    assert(p[o + 1] == p.subrange(o, o + 4)[1]);
    assert(p[o + 2] == p.subrange(o, o + 4)[2]);
    assert(p[o + 3] == p.subrange(o, o + 4)[3]);
    lemma_le_u32_of_le_bytes(w);
}

/// The count whose little-endian bytes sit at `o` reads back as that count.
proof fn lemma_count_at(p: Seq<u8>, o: int, v: i16)
    requires
        0 <= o,
        o + 2 <= p.len(),
        p.subrange(o, o + 2) == i16_le_bytes(v),
    ensures
        pi16(p, o) == v,
{
    let lo = (v as u16) as u8;
    let hi = ((v as u16) >> 8u16) as u8;
    assert(p[o] == p.subrange(o, o + 2)[0]);
    assert(p[o + 1] == p.subrange(o, o + 2)[1]);
    assert(le_i16(lo, hi) == v) by (bit_vector)
        requires
            lo == (v as u16) as u8,
            hi == ((v as u16) >> 8u16) as u8,
    ;
}

/// The two-word statuses read their fields in declaration order: the first
/// from payload bytes 0..4, the second from 4..8, each least significant
/// byte first (`j` wheel speeds left then right, `w` wheel positions left
/// then right, `v` velocity linear then angular).
pub proof fn lemma_decode_two_words(p: Seq<u8>, a: u32, b: u32)
    requires
        p.len() >= 8,
        p.subrange(0, 8) == le_bytes(a) + le_bytes(b),
    ensures
        spec_decode(0x6A, p) == Some(Status::WheelSpeeds { left: a, right: b }),
        spec_decode(0x77, p) == Some(Status::WheelPositions { left: a, right: b }),
        spec_decode(0x76, p) == Some(Status::Velocity { linear: a, angular: b }),
{
    lemma_prefix_elements(p, le_bytes(a) + le_bytes(b));
    assert(p.subrange(0, 4) =~= le_bytes(a));
    assert(p.subrange(4, 8) =~= le_bytes(b));
    lemma_word_at(p, 0, a);
    lemma_word_at(p, 4, b);
}

/// The three-word statuses read their fields in declaration order from bytes
/// 0..4, 4..8 and 8..12 (`q` roll, pitch, yaw; `z` x, y, theta).
pub proof fn lemma_decode_three_words(p: Seq<u8>, a: u32, b: u32, c: u32)
    requires
        p.len() >= 12,
        p.subrange(0, 12) == le_bytes(a) + le_bytes(b) + le_bytes(c),
    ensures
        spec_decode(0x71, p) == Some(Status::Orientation { roll: a, pitch: b, yaw: c }),
        spec_decode(0x7A, p) == Some(Status::Pose { x: a, y: b, theta: c }),
{
    lemma_prefix_elements(p, le_bytes(a) + le_bytes(b) + le_bytes(c));
    assert(p.subrange(0, 4) =~= le_bytes(a));
    assert(p.subrange(4, 8) =~= le_bytes(b));
    assert(p.subrange(8, 12) =~= le_bytes(c));
    lemma_word_at(p, 0, a);
    lemma_word_at(p, 4, b);
    lemma_word_at(p, 8, c);
}

/// The IMU status reads its six words in order from bytes 0..24:
/// acceleration x, y, z, then rotation rate x, y, z.
pub proof fn lemma_decode_imu(p: Seq<u8>, ax: u32, ay: u32, az: u32, gx: u32, gy: u32, gz: u32)
    requires
        p.len() >= 24,
        p.subrange(0, 24) == le_bytes(ax) + le_bytes(ay) + le_bytes(az) + le_bytes(gx) + le_bytes(
            gy,
        ) + le_bytes(gz),
    ensures
        spec_decode(0x69, p) == Some(Status::Imu([ax, ay, az, gx, gy, gz])),
{
    let q = le_bytes(ax) + le_bytes(ay) + le_bytes(az) + le_bytes(gx) + le_bytes(gy) + le_bytes(gz);
    lemma_prefix_elements(p, q);
    assert(p.subrange(0, 4) =~= le_bytes(ax));
    assert(p.subrange(4, 8) =~= le_bytes(ay));
    assert(p.subrange(8, 12) =~= le_bytes(az));
    assert(p.subrange(12, 16) =~= le_bytes(gx));
    assert(p.subrange(16, 20) =~= le_bytes(gy));
    assert(p.subrange(20, 24) =~= le_bytes(gz));
    lemma_word_at(p, 0, ax);
    lemma_word_at(p, 4, ay);
    lemma_word_at(p, 8, az);
    lemma_word_at(p, 12, gx);
    lemma_word_at(p, 16, gy);
    lemma_word_at(p, 20, gz);
}

/// The three-count statuses read their fields in declaration order from
/// bytes 0..2, 2..4 and 4..6 (`l` line left, centre, right; `c` colour red,
/// green, blue; `d` distance left, centre, right).
pub proof fn lemma_decode_three_counts(p: Seq<u8>, a: i16, b: i16, c: i16)
    requires
        p.len() >= 6,
        p.subrange(0, 6) == i16_le_bytes(a) + i16_le_bytes(b) + i16_le_bytes(c),
    ensures
        spec_decode(0x6C, p) == Some(Status::Line { left: a, center: b, right: c }),
        spec_decode(0x63, p) == Some(Status::Color { red: a, green: b, blue: c }),
        spec_decode(0x64, p) == Some(Status::Tof { left: a, center: b, right: c }),
{
    lemma_prefix_elements(p, i16_le_bytes(a) + i16_le_bytes(b) + i16_le_bytes(c));
    assert(p.subrange(0, 2) =~= i16_le_bytes(a));
    assert(p.subrange(2, 4) =~= i16_le_bytes(b));
    assert(p.subrange(4, 6) =~= i16_le_bytes(c));
    lemma_count_at(p, 0, a);
    lemma_count_at(p, 2, b);
    lemma_count_at(p, 4, c);
}

/// The distance matrix reads its seven counts in declaration order from
/// bytes 0..14: left, centre-left, centre, centre-right, right, top, bottom.
pub proof fn lemma_decode_tof_matrix(
    p: Seq<u8>,
    l: i16,
    cl: i16,
    c: i16,
    cr: i16,
    r: i16,
    t: i16,
    b: i16,
)
    requires
        p.len() >= 14,
        p.subrange(0, 14) == i16_le_bytes(l) + i16_le_bytes(cl) + i16_le_bytes(c) + i16_le_bytes(
            cr,
        ) + i16_le_bytes(r) + i16_le_bytes(t) + i16_le_bytes(b),
    ensures
        spec_decode(0x66, p) == Some(
            Status::TofMatrix {
                left: l,
                center_left: cl,
                center: c,
                center_right: cr,
                right: r,
                top: t,
                bottom: b,
            },
        ),
{
    let q = i16_le_bytes(l) + i16_le_bytes(cl) + i16_le_bytes(c) + i16_le_bytes(cr) + i16_le_bytes(
        r,
    ) + i16_le_bytes(t) + i16_le_bytes(b);
    lemma_prefix_elements(p, q);
    assert(p.subrange(0, 2) =~= i16_le_bytes(l));
    assert(p.subrange(2, 4) =~= i16_le_bytes(cl));
    assert(p.subrange(4, 6) =~= i16_le_bytes(c));
    assert(p.subrange(6, 8) =~= i16_le_bytes(cr));
    assert(p.subrange(8, 10) =~= i16_le_bytes(r));
    assert(p.subrange(10, 12) =~= i16_le_bytes(t));
    assert(p.subrange(12, 14) =~= i16_le_bytes(b));
    lemma_count_at(p, 0, l);
    lemma_count_at(p, 2, cl);
    lemma_count_at(p, 4, c);
    lemma_count_at(p, 6, cr);
    lemma_count_at(p, 8, r);
    lemma_count_at(p, 10, t);
    lemma_count_at(p, 12, b);
}

/// The single-byte statuses carry their byte first (`t` touch, `m` motion,
/// `b` behaviour, `x` acknowledgement), and the firmware version its major,
/// minor and patch numbers in that order.
pub proof fn lemma_decode_bytes(p: Seq<u8>, major: u8, minor: u8, patch: u8)
    requires
        p.len() >= 3,
        p.subrange(0, 3) == seq![major, minor, patch],
    ensures
        spec_decode(0x74, p) == Some(Status::Touch(major)),
        spec_decode(0x6D, p) == Some(Status::Motion(major)),
        spec_decode(0x62, p) == Some(Status::Behavior(major)),
        spec_decode(0x78, p) == Some(Status::Ack(major)),
        spec_decode(0x7E, p) == Some(Status::FwVersion { major, minor, patch }),
{
    assert(p[0] == p.subrange(0, 3)[0]);
    assert(p[1] == p.subrange(0, 3)[1]);
    assert(p[2] == p.subrange(0, 3)[2]);
}

/// The battery status reads the word at bytes 0..4: its magnitude is the
/// charge and its sign whether the robot charges.
pub proof fn lemma_decode_battery(p: Seq<u8>, w: u32)
    requires
        p.len() >= 4,
        p.subrange(0, 4) == le_bytes(w),
    ensures
        spec_decode(0x70, p) == Some(
            Status::Battery { percent: bits_magnitude(w), charging: bits_above_zero(w) },
        ),
{
    lemma_word_at(p, 0, w);
}

/// Every command's payload carries its fields in declaration order: each
/// float word, read least significant byte first at its offset, gives back
/// the field it came from, and each byte field sits at its place. A
/// single-wheel command leads with the wheel's label and its sub-command.
pub proof fn lemma_wire_fields_in_order(c: Command)
    ensures
        match c {
            Command::SetBehavior(b) => c.wire() == (0x42u8, seq![b]),
            Command::Rotate(deg) => c.wire().0 == 0x52 && c.wire().1.len() == 4 && pu32(c.wire().1, 0) == deg,
            Command::Move(mm) => c.wire().0 == 0x47 && c.wire().1.len() == 4 && pu32(c.wire().1, 0) == mm,
            Command::SetWheelSpeeds { left, right } => c.wire().0 == 0x4A && c.wire().1.len() == 8
                && pu32(c.wire().1, 0) == left && pu32(c.wire().1, 4) == right,
            Command::SetWheelAngles { left, right } => c.wire().0 == 0x41 && c.wire().1.len() == 8
                && pu32(c.wire().1, 0) == left && pu32(c.wire().1, 4) == right,
            Command::Drive { linear, angular } => c.wire().0 == 0x56 && c.wire().1.len() == 8
                && pu32(c.wire().1, 0) == linear && pu32(c.wire().1, 4) == angular,
            Command::SetServo { a, b } => c.wire() == (0x53u8, seq![a, b]),
            Command::SetLeds(state) => c.wire() == (0x4Cu8, seq![state]),
            Command::ResetPose { x, y, theta } => c.wire().0 == 0x5A && c.wire().1.len() == 12
                && pu32(c.wire().1, 0) == x && pu32(c.wire().1, 4) == y && pu32(c.wire().1, 8)
                == theta,
            Command::WheelReset { wheel, position } => c.wire().0 == 0x57 && c.wire().1.len() == 6
                && c.wire().1[0] == wheel.spec_label() && c.wire().1[1] == 0x5A && pu32(
                c.wire().1,
                2,
            ) == position,
            Command::WheelSpeed { wheel, speed } => c.wire().0 == 0x57 && c.wire().1.len() == 6
                && c.wire().1[0] == wheel.spec_label() && c.wire().1[1] == 0x56 && pu32(
                c.wire().1,
                2,
            ) == speed,
            Command::WheelPosition { wheel, position } => c.wire().0 == 0x57 && c.wire().1.len()
                == 6 && c.wire().1[0] == wheel.spec_label() && c.wire().1[1] == 0x50 && pu32(
                c.wire().1,
                2,
            ) == position,
            Command::SetPidGains { wheel, kp, ki, kd } => c.wire().0 == 0x50 && c.wire().1.len()
                == 13 && c.wire().1[0] == wheel.spec_label() && pu32(c.wire().1, 1) == kp && pu32(
                c.wire().1,
                5,
            ) == ki && pu32(c.wire().1, 9) == kd,
            Command::Ack(b) => c.wire() == (0x58u8, seq![b]),
        },
{
    let p = c.wire().1;
    match c {
        Command::Rotate(w) | Command::Move(w) => {
            assert(p.subrange(0, 4) =~= le_bytes(w));
            lemma_word_at(p, 0, w);
        },
        Command::SetWheelSpeeds { left: a, right: b } | Command::SetWheelAngles {
            left: a,
            right: b,
        } | Command::Drive { linear: a, angular: b } => {
            assert(p.subrange(0, 4) =~= le_bytes(a));
            assert(p.subrange(4, 8) =~= le_bytes(b));
            lemma_word_at(p, 0, a);
            lemma_word_at(p, 4, b);
        },
        Command::ResetPose { x, y, theta } => {
            assert(p.subrange(0, 4) =~= le_bytes(x));
            assert(p.subrange(4, 8) =~= le_bytes(y));
            assert(p.subrange(8, 12) =~= le_bytes(theta));
            lemma_word_at(p, 0, x);
            lemma_word_at(p, 4, y);
            lemma_word_at(p, 8, theta);
        },
        Command::WheelReset { wheel: _, position: w } | Command::WheelSpeed { wheel: _, speed: w }
        | Command::WheelPosition { wheel: _, position: w } => {
            assert(p.subrange(2, 6) =~= le_bytes(w));
            lemma_word_at(p, 2, w);
        },
        Command::SetPidGains { wheel: _, kp, ki, kd } => {
            assert(p.subrange(1, 5) =~= le_bytes(kp));
            assert(p.subrange(5, 9) =~= le_bytes(ki));
            assert(p.subrange(9, 13) =~= le_bytes(kd));
            lemma_word_at(p, 1, kp);
            lemma_word_at(p, 5, ki);
            lemma_word_at(p, 9, kd);
        },
        _ => {},
    }
}

} // verus!
