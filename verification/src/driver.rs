//! The decisions of the Alvik UART driver, apart from its I/O: folding
//! continuous sensor status into a [`StatusSnapshot`] (discrete messages are
//! handed back for the event queue), and the bring-up [`Handshake`] that
//! waits for the carrier's acknowledgement and firmware version.
use crate::protocol::spec_decode;
use crate::protocol::Command;
use crate::protocol::Status;
use crate::ucpack::keep_last;
use crate::ucpack::lemma_drain_step;
use crate::ucpack::padded_payload;
use crate::ucpack::spec_drain;
use crate::ucpack::spec_pop;
use crate::ucpack::Decoder;
use crate::ucpack::DECODER_CAP;
use vstd::prelude::*;

verus! {

/// The firmware version this driver targets. A mismatch is reported and
/// otherwise ignored.
pub const REQUIRED_FW: (u8, u8, u8) = (1, 1, 1);

/// Coalesced snapshot of the continuous sensor state, in wire values (see
/// [`Status`]). The driver folds each streaming sensor message into one of
/// these and publishes the whole snapshot; discrete messages are returned for
/// the event queue.
#[derive(Debug, Clone, Copy, PartialEq, Eq)]
pub struct StatusSnapshot {
    pub wheel_left_speed: u32,
    pub wheel_right_speed: u32,
    pub wheel_left_position: u32,
    pub wheel_right_position: u32,
    pub line: (i16, i16, i16),
    pub color: (i16, i16, i16),
    pub imu: [u32; 6],
    pub orientation: (u32, u32, u32),
    pub battery: (u32, bool),
    pub tof_left: i16,
    pub tof_center_left: i16,
    pub tof_center: i16,
    pub tof_center_right: i16,
    pub tof_right: i16,
    pub tof_top: i16,
    pub tof_bottom: i16,
    pub velocity: (u32, u32),
    pub pose: (u32, u32, u32),
}

/// The all-zero snapshot (every float reads `0.0`, every count `0`, the
/// charging flag `false`).
pub open spec fn is_zero_snapshot(s: StatusSnapshot) -> bool {
    &&& s.wheel_left_speed == 0 && s.wheel_right_speed == 0
    &&& s.wheel_left_position == 0 && s.wheel_right_position == 0
    &&& s.line == (0i16, 0i16, 0i16) && s.color == (0i16, 0i16, 0i16)
    &&& s.imu@ == Seq::new(6, |i: int| 0u32)
    &&& s.orientation == (0u32, 0u32, 0u32)
    &&& s.battery == (0u32, false)
    &&& s.tof_left == 0 && s.tof_center_left == 0 && s.tof_center == 0
    &&& s.tof_center_right == 0 && s.tof_right == 0 && s.tof_top == 0 && s.tof_bottom == 0
    &&& s.velocity == (0u32, 0u32)
    &&& s.pose == (0u32, 0u32, 0u32)
}

impl Default for StatusSnapshot {
    fn default() -> (r: Self)
        ensures
            is_zero_snapshot(r),
    {
        let r = StatusSnapshot {
            wheel_left_speed: 0,
            wheel_right_speed: 0,
            wheel_left_position: 0,
            wheel_right_position: 0,
            line: (0, 0, 0),
            color: (0, 0, 0),
            imu: [0u32; 6],
            orientation: (0, 0, 0),
            battery: (0, false),
            tof_left: 0,
            tof_center_left: 0,
            tof_center: 0,
            tof_center_right: 0,
            tof_right: 0,
            tof_top: 0,
            tof_bottom: 0,
            velocity: (0, 0),
            pose: (0, 0, 0),
        };
        proof {
            assert(r.imu@ =~= Seq::new(6, |i: int| 0u32));
        }
        r
    }
}

/// Whether a status is continuous sensor state (folded into the snapshot)
/// rather than a discrete message (touch, motion, behavior, ack, firmware).
pub open spec fn is_continuous(status: Status) -> bool {
    match status {
        Status::Touch(_) | Status::Motion(_) | Status::Behavior(_) | Status::Ack(_)
        | Status::FwVersion { .. } => false,
        _ => true,
    }
}

impl StatusSnapshot {
    /// The snapshot after folding in continuous `status` (unchanged for a
    /// discrete one). A short ToF read (`d`) updates only left, center and
    /// right; the matrix read (`f`) updates all seven.
    pub open spec fn folded(self, status: Status) -> StatusSnapshot {
        match status {
            Status::WheelSpeeds { left, right } => StatusSnapshot {
                wheel_left_speed: left,
                wheel_right_speed: right,
                ..self
            },
            Status::WheelPositions { left, right } => StatusSnapshot {
                wheel_left_position: left,
                wheel_right_position: right,
                ..self
            },
            Status::Line { left, center, right } => StatusSnapshot {
                line: (left, center, right),
                ..self
            },
            Status::Color { red, green, blue } => StatusSnapshot {
                color: (red, green, blue),
                ..self
            },
            Status::Imu(imu) => StatusSnapshot { imu, ..self },
            Status::Orientation { roll, pitch, yaw } => StatusSnapshot {
                orientation: (roll, pitch, yaw),
                ..self
            },
            Status::Battery { percent, charging } => StatusSnapshot {
                battery: (percent, charging),
                ..self
            },
            Status::Tof { left, center, right } => StatusSnapshot {
                tof_left: left,
                tof_center: center,
                tof_right: right,
                ..self
            },
            Status::TofMatrix { left, center_left, center, center_right, right, top, bottom } =>
                StatusSnapshot {
                tof_left: left,
                tof_center_left: center_left,
                tof_center: center,
                tof_center_right: center_right,
                tof_right: right,
                tof_top: top,
                tof_bottom: bottom,
                ..self
            },
            Status::Velocity { linear, angular } => StatusSnapshot {
                velocity: (linear, angular),
                ..self
            },
            Status::Pose { x, y, theta } => StatusSnapshot { pose: (x, y, theta), ..self },
            _ => self,
        }
    }

    /// Fold a continuous sensor `status` into the snapshot; return discrete
    /// messages unchanged for the caller to enqueue.
    pub fn apply(&mut self, status: Status) -> (r: Option<Status>)
        ensures
            *final(self) == old(self).folded(status),
            r == (if is_continuous(status) { None } else { Some(status) }),
    {
        match status {
            Status::WheelSpeeds { left, right } => {
                self.wheel_left_speed = left;
                self.wheel_right_speed = right;
            },
            Status::WheelPositions { left, right } => {
                self.wheel_left_position = left;
                self.wheel_right_position = right;
            },
            Status::Line { left, center, right } => self.line = (left, center, right),
            Status::Color { red, green, blue } => self.color = (red, green, blue),
            Status::Imu(imu) => self.imu = imu,
            Status::Orientation { roll, pitch, yaw } => self.orientation = (roll, pitch, yaw),
            Status::Battery { percent, charging } => self.battery = (percent, charging),
            Status::Tof { left, center, right } => {
                self.tof_left = left;
                self.tof_center = center;
                self.tof_right = right;
            },
            Status::TofMatrix { left, center_left, center, center_right, right, top, bottom } => {
                self.tof_left = left;
                self.tof_center_left = center_left;
                self.tof_center = center;
                self.tof_center_right = center_right;
                self.tof_right = right;
                self.tof_top = top;
                self.tof_bottom = bottom;
            },
            Status::Velocity { linear, angular } => self.velocity = (linear, angular),
            Status::Pose { x, y, theta } => self.pose = (x, y, theta),
            discrete => return Some(discrete),
        }
        None
    }
}

/// What the driver hands to the application after a frame: the whole
/// snapshot once a continuous reading has been folded in, or a discrete
/// message for the event queue.
#[derive(Debug, Clone, Copy)]
pub enum Published {
    /// The latest continuous state.
    Snapshot(StatusSnapshot),
    /// A discrete message (touch, motion, behavior, ack, firmware).
    Event(Status),
}

/// One decoded frame's effect: the snapshot afterwards and what is
/// published (nothing for an unrecognised frame).
pub open spec fn pump_step(snap: StatusSnapshot, status: Option<Status>) -> (
    StatusSnapshot,
    Seq<Published>,
) {
    match status {
        None => (snap, Seq::empty()),
        Some(st) => if is_continuous(st) {
            (snap.folded(st), seq![Published::Snapshot(snap.folded(st))])
        } else {
            (snap, seq![Published::Event(st)])
        },
    }
}

/// The effect of the frames `frames`, in order, each decoded as a status.
pub open spec fn pump_frames(snap: StatusSnapshot, frames: Seq<(u8, Seq<u8>)>) -> (
    StatusSnapshot,
    Seq<Published>,
)
    decreases frames.len(),
{
    if frames.len() == 0 {
        (snap, Seq::empty())
    } else {
        let f = frames.last();
        let (s1, o1) = pump_frames(snap, frames.drop_last());
        let (s2, o2) = pump_step(s1, spec_decode(f.0, padded_payload(f.1)));
        (s2, o1 + o2)
    }
}

/// Feed bytes read from the UART to `decoder`, decode every frame it can now
/// complete, fold continuous readings into `snapshot`, and return what to
/// publish, in order.
pub fn pump(snapshot: &mut StatusSnapshot, decoder: &mut Decoder, bytes: &[u8]) -> (r: Vec<
    Published,
>)
    ensures
        ({
            let all = keep_last(old(decoder)@ + bytes@, DECODER_CAP as nat);
            &&& final(decoder)@ == spec_drain(all).1
            &&& (*final(snapshot), r@) == pump_frames(*old(snapshot), spec_drain(all).0)
        }),
{
    decoder.extend(bytes);
    let ghost all = decoder@;
    let ghost mut done: Seq<(u8, Seq<u8>)> = Seq::empty();
    let ghost start = *snapshot;
    let mut out: Vec<Published> = Vec::new();
    loop
        invariant_except_break
            spec_drain(all).0 == done + spec_drain(decoder@).0,
            spec_drain(all).1 == spec_drain(decoder@).1,
        invariant
            (*snapshot, out@) == pump_frames(start, done),
        ensures
            decoder@ == spec_drain(all).1,
            done == spec_drain(all).0,
        decreases decoder@.len(),
    {
        let ghost before = decoder@;
        proof {
            crate::ucpack::lemma_pop_shrinks(before);
        }
        match decoder.pop() {
            None => {
                proof {
                    assert(done + Seq::<(u8, Seq<u8>)>::empty() =~= done);
                }
                break;
            },
            Some(frame) => {
                let ghost f = spec_pop(before).0->0;
                let ghost out_before = out@;
                proof {
                    lemma_drain_step(before);
                    frame.lemma_padded();
                    assert(done.push(f) + spec_drain(decoder@).0 =~= done + spec_drain(before).0);
                    assert(done.push(f).drop_last() =~= done);
                }
                if let Some(status) = Status::decode(&frame) {
                    match snapshot.apply(status) {
                        None => out.push(Published::Snapshot(*snapshot)),
                        Some(discrete) => out.push(Published::Event(discrete)),
                    }
                    proof {
                        assert(out@ =~= out_before + pump_step(
                            pump_frames(start, done).0,
                            Some(status),
                        ).1);
                    }
                } else {
                    proof {
                        assert(out@ =~= out_before + Seq::<Published>::empty());
                    }
                }
                proof {
                    done = done.push(f);
                }
            },
        }
    }
    out
}

/// How the reported firmware compares with [`REQUIRED_FW`].
#[derive(Debug, Clone, Copy, PartialEq, Eq)]
pub enum FirmwareCheck {
    /// The required version was reported.
    Matches((u8, u8, u8)),
    /// Another version was reported; bring-up continues anyway.
    Mismatch((u8, u8, u8)),
    /// No version arrived before the deadline; bring-up continues anyway.
    Missing,
}

/// Progress of the bring-up handshake: the `0x00` acknowledgement and the
/// firmware version, each awaited from the decoded status stream.
#[derive(Debug, Clone, Copy, PartialEq, Eq)]
pub struct Handshake {
    /// The `x` acknowledgement with byte `0` has arrived.
    pub got_ack: bool,
    /// The most recent firmware version reported, if any.
    pub firmware: Option<(u8, u8, u8)>,
}

impl Handshake {
    /// Nothing received yet.
    pub fn new() -> (r: Self)
        ensures
            !r.got_ack,
            r.firmware is None,
    {
        Handshake { got_ack: false, firmware: None }
    }

    /// The handshake after noting one decoded status.
    pub open spec fn observed(self, status: Option<Status>) -> Handshake {
        Handshake {
            got_ack: self.got_ack || status == Some(Status::Ack(0)),
            firmware: match status {
                Some(Status::FwVersion { major, minor, patch }) => Some((major, minor, patch)),
                _ => self.firmware,
            },
        }
    }

    /// The handshake after noting every frame of `frames` in order, each
    /// decoded as a status.
    pub open spec fn observed_frames(self, frames: Seq<(u8, Seq<u8>)>) -> Handshake
        decreases frames.len(),
    {
        if frames.len() == 0 {
            self
        } else {
            let f = frames.last();
            self.observed_frames(frames.drop_last()).observed(
                spec_decode(f.0, padded_payload(f.1)),
            )
        }
    }

    /// Take note of one decoded status (`None` for an unrecognised frame):
    /// an `Ack(0)` marks the acknowledgement, a firmware report records the
    /// version; anything else is ignored.
    pub fn observe(&mut self, status: Option<Status>)
        ensures
            *final(self) == old(self).observed(status),
    {
        match status {
            Some(Status::Ack(0)) => self.got_ack = true,
            Some(Status::FwVersion { major, minor, patch }) => self.firmware = Some(
                (major, minor, patch),
            ),
            _ => {},
        }
    }

    /// Feed bytes read during bring-up to `decoder` and note every frame it
    /// can now complete.
    pub fn observe_bytes(&mut self, decoder: &mut Decoder, bytes: &[u8])
        ensures
            ({
                let all = keep_last(old(decoder)@ + bytes@, DECODER_CAP as nat);
                &&& final(decoder)@ == spec_drain(all).1
                &&& *final(self) == old(self).observed_frames(spec_drain(all).0)
            }),
    {
        decoder.extend(bytes);
        let ghost all = decoder@;
        let ghost mut done: Seq<(u8, Seq<u8>)> = Seq::empty();
        let ghost start = *self;
        loop
            invariant_except_break
                spec_drain(all).0 == done + spec_drain(decoder@).0,
                spec_drain(all).1 == spec_drain(decoder@).1,
            invariant
                *self == start.observed_frames(done),
            ensures
                decoder@ == spec_drain(all).1,
                done == spec_drain(all).0,
            decreases decoder@.len(),
        {
            let ghost before = decoder@;
            proof {
                crate::ucpack::lemma_pop_shrinks(before);
            }
            match decoder.pop() {
                None => {
                    proof {
                        assert(done + Seq::<(u8, Seq<u8>)>::empty() =~= done);
                    }
                    break;
                },
                Some(frame) => {
                    let ghost f = spec_pop(before).0->0;
                    proof {
                        lemma_drain_step(before);
                        frame.lemma_padded();
                        assert(done.push(f) + spec_drain(decoder@).0 =~= done + spec_drain(before).0);
                        assert(done.push(f).drop_last() =~= done);
                    }
                    let status = Status::decode(&frame);
                    self.observe(status);
                    proof {
                        done = done.push(f);
                    }
                },
            }
        }
    }

    /// Both the acknowledgement and a firmware version have arrived, so the
    /// driver may stop waiting before its deadline.
    pub fn complete(&self) -> (r: bool)
        ensures
            r == (self.got_ack && self.firmware is Some),
    {
        self.got_ack && self.firmware.is_some()
    }

    /// Compare the reported firmware with [`REQUIRED_FW`].
    pub fn firmware_check(&self) -> (r: FirmwareCheck)
        ensures
            r == (match self.firmware {
                Some(v) => if v == REQUIRED_FW {
                    FirmwareCheck::Matches(v)
                } else {
                    FirmwareCheck::Mismatch(v)
                },
                None => FirmwareCheck::Missing,
            }),
    {
        match self.firmware {
            Some(v) => {
                if v.0 == REQUIRED_FW.0 && v.1 == REQUIRED_FW.1 && v.2 == REQUIRED_FW.2 {
                    FirmwareCheck::Matches(v)
                } else {
                    FirmwareCheck::Mismatch(v)
                }
            },
            None => FirmwareCheck::Missing,
        }
    }

    /// The status to enqueue once bring-up ends, telling the application the
    /// link is up: the firmware version, when one was reported.
    pub fn link_event(&self) -> (r: Option<Status>)
        ensures
            r == (match self.firmware {
                Some((major, minor, patch)) => Some(Status::FwVersion { major, minor, patch }),
                None => None,
            }),
    {
        match self.firmware {
            Some((major, minor, patch)) => Some(Status::FwVersion { major, minor, patch }),
            None => None,
        }
    }
}

/// The commands sent once the handshake ends: illuminator on, behaviors 1
/// and 2, servos centred.
pub open spec fn spec_init_commands() -> Seq<Command> {
    seq![
        Command::SetLeds(0x02),
        Command::SetBehavior(1),
        Command::SetBehavior(2),
        Command::SetServo { a: 90, b: 90 },
    ]
}

/// The commands sent once the handshake ends, in order.
pub fn init_commands() -> (r: Vec<Command>)
    ensures
        r@ == spec_init_commands(),
{
    let r = vec![
        Command::SetLeds(0x02),
        Command::SetBehavior(1),
        Command::SetBehavior(2),
        Command::SetServo { a: 90, b: 90 },
    ];
    proof {
        assert(r@ =~= spec_init_commands());
    }
    r
}

} // verus!
