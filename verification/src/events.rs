//! Touch and motion edge events. [`detect_events`] compares the previous and
//! current touch / motion bitmasks each frame and reports an event on each
//! rising (or, for a drop, falling) edge, in a fixed order.
use crate::types::EdgeState;
use crate::types::TiltAxis;
use crate::types::TouchButton;
use crate::types::MOTION_TILT_NEG_Z;
use vstd::prelude::*;

verus! {

// Touch button bits in the `t` status bitmask.
const TOUCH_OK: u8 = 0x02;
const TOUCH_CANCEL: u8 = 0x04;
const TOUCH_CENTER: u8 = 0x08;
const TOUCH_UP: u8 = 0x10;
const TOUCH_LEFT: u8 = 0x20;
const TOUCH_DOWN: u8 = 0x40;
const TOUCH_RIGHT: u8 = 0x80;

// Move/tilt bits in the `m` status bitmask.
const MOTION_SHAKE: u8 = 0x01;
const MOTION_LIFT: u8 = 0x02;
const MOTION_TILT_X: u8 = 0x04;
const MOTION_TILT_NEG_X: u8 = 0x08;
const MOTION_TILT_Y: u8 = 0x10;
const MOTION_TILT_NEG_Y: u8 = 0x20;
const MOTION_TILT_Z: u8 = 0x40;

/// A touch button was just pressed.
#[derive(Debug, Clone, Copy, PartialEq, Eq, Structural)]
pub struct TouchPressed(pub TouchButton);

/// The robot was just shaken.
#[derive(Debug, Clone, Copy, PartialEq, Eq, Structural)]
pub struct Shaken;

/// The robot was just lifted off the ground.
#[derive(Debug, Clone, Copy, PartialEq, Eq, Structural)]
pub struct Lifted;

/// The robot was just set back down.
#[derive(Debug, Clone, Copy, PartialEq, Eq, Structural)]
pub struct Dropped;

/// The robot was just tilted onto an axis.
#[derive(Debug, Clone, Copy, PartialEq, Eq, Structural)]
pub struct Tilted(pub TiltAxis);

/// One detected edge, in the order [`detect_events`] reports them.
#[derive(Debug, Clone, Copy, PartialEq, Eq, Structural)]
pub enum EdgeEvent {
    TouchPressed(TouchPressed),
    Shaken(Shaken),
    Lifted(Lifted),
    Dropped(Dropped),
    Tilted(Tilted),
}

/// `mask` is clear in `prev` and set in `next`.
pub open spec fn spec_rising(prev: u8, next: u8, mask: u8) -> bool {
    prev & mask == 0 && next & mask != 0
}

/// `mask` is set in `prev` and clear in `next`.
pub open spec fn spec_falling(prev: u8, next: u8, mask: u8) -> bool {
    prev & mask != 0 && next & mask == 0
}

/// `e` alone when `c` holds, nothing otherwise.
pub open spec fn when(c: bool, e: EdgeEvent) -> Seq<EdgeEvent> {
    if c {
        seq![e]
    } else {
        Seq::empty()
    }
}

/// Presses: each newly set touch bit, buttons in the order
/// ok, cancel, center, up, left, down, right.
pub open spec fn touch_events(prev: u8, next: u8) -> Seq<EdgeEvent> {
    when(spec_rising(prev, next, 0x02), EdgeEvent::TouchPressed(TouchPressed(TouchButton::OkKey)))
        + when(
        spec_rising(prev, next, 0x04),
        EdgeEvent::TouchPressed(TouchPressed(TouchButton::Cancel)),
    ) + when(
        spec_rising(prev, next, 0x08),
        EdgeEvent::TouchPressed(TouchPressed(TouchButton::Center)),
    ) + when(spec_rising(prev, next, 0x10), EdgeEvent::TouchPressed(TouchPressed(TouchButton::Up)))
        + when(
        spec_rising(prev, next, 0x20),
        EdgeEvent::TouchPressed(TouchPressed(TouchButton::Left)),
    ) + when(
        spec_rising(prev, next, 0x40),
        EdgeEvent::TouchPressed(TouchPressed(TouchButton::Down)),
    ) + when(
        spec_rising(prev, next, 0x80),
        EdgeEvent::TouchPressed(TouchPressed(TouchButton::Right)),
    )
}

/// Motion: shake and lift on their rising edge, drop on the lift bit's
/// falling edge, then each newly set tilt bit in the order
/// x, -x, y, -y, z, -z.
pub open spec fn motion_events(prev: u8, next: u8) -> Seq<EdgeEvent> {
    when(spec_rising(prev, next, 0x01), EdgeEvent::Shaken(Shaken)) + when(
        spec_rising(prev, next, 0x02),
        EdgeEvent::Lifted(Lifted),
    ) + when(spec_falling(prev, next, 0x02), EdgeEvent::Dropped(Dropped)) + when(
        spec_rising(prev, next, 0x04),
        EdgeEvent::Tilted(Tilted(TiltAxis::X)),
    ) + when(spec_rising(prev, next, 0x08), EdgeEvent::Tilted(Tilted(TiltAxis::NegX))) + when(
        spec_rising(prev, next, 0x10),
        EdgeEvent::Tilted(Tilted(TiltAxis::Y)),
    ) + when(spec_rising(prev, next, 0x20), EdgeEvent::Tilted(Tilted(TiltAxis::NegY))) + when(
        spec_rising(prev, next, 0x40),
        EdgeEvent::Tilted(Tilted(TiltAxis::Z)),
    ) + when(spec_rising(prev, next, 0x80), EdgeEvent::Tilted(Tilted(TiltAxis::NegZ)))
}

/// True if `mask` is newly set going from `prev` to `next`.
fn rising(prev: u8, next: u8, mask: u8) -> (r: bool)
    ensures
        r == spec_rising(prev, next, mask),
{
    prev & mask == 0 && next & mask != 0
}

/// True if `mask` was set in `prev` and cleared in `next`.
fn falling(prev: u8, next: u8, mask: u8) -> (r: bool)
    ensures
        r == spec_falling(prev, next, mask),
{
    prev & mask != 0 && next & mask == 0
}

/// Append `e` to `out` when `c` holds.
fn report(out: &mut Vec<EdgeEvent>, c: bool, e: EdgeEvent)
    ensures
        final(out)@ == old(out)@ + when(c, e),
{
    if c {
        out.push(e);
    } else {
        proof {
            assert(out@ + when(c, e) =~= out@);
        }
    }
}

/// The touch presses between two touch masks.
fn touch_edges(pt: u8, touch: u8) -> (out: Vec<EdgeEvent>)
    ensures
        out@ == touch_events(pt, touch),
{
    let mut out: Vec<EdgeEvent> = Vec::new();
    let ghost empty = out@;
    report(&mut out, rising(pt, touch, TOUCH_OK), EdgeEvent::TouchPressed(TouchPressed(TouchButton::OkKey)));
    proof {
        assert(empty + when(spec_rising(pt, touch, 0x02), EdgeEvent::TouchPressed(TouchPressed(TouchButton::OkKey)))
            =~= when(spec_rising(pt, touch, 0x02), EdgeEvent::TouchPressed(TouchPressed(TouchButton::OkKey))));
    }
    report(&mut out, rising(pt, touch, TOUCH_CANCEL), EdgeEvent::TouchPressed(TouchPressed(TouchButton::Cancel)));
    report(&mut out, rising(pt, touch, TOUCH_CENTER), EdgeEvent::TouchPressed(TouchPressed(TouchButton::Center)));
    report(&mut out, rising(pt, touch, TOUCH_UP), EdgeEvent::TouchPressed(TouchPressed(TouchButton::Up)));
    report(&mut out, rising(pt, touch, TOUCH_LEFT), EdgeEvent::TouchPressed(TouchPressed(TouchButton::Left)));
    report(&mut out, rising(pt, touch, TOUCH_DOWN), EdgeEvent::TouchPressed(TouchPressed(TouchButton::Down)));
    report(&mut out, rising(pt, touch, TOUCH_RIGHT), EdgeEvent::TouchPressed(TouchPressed(TouchButton::Right)));
    out
}

/// The motion events between two motion masks.
fn motion_edges(pm: u8, motion: u8) -> (out: Vec<EdgeEvent>)
    ensures
        out@ == motion_events(pm, motion),
{
    let mut out: Vec<EdgeEvent> = Vec::new();
    let ghost empty = out@;
    report(&mut out, rising(pm, motion, MOTION_SHAKE), EdgeEvent::Shaken(Shaken));
    proof {
        assert(empty + when(spec_rising(pm, motion, 0x01), EdgeEvent::Shaken(Shaken))
            =~= when(spec_rising(pm, motion, 0x01), EdgeEvent::Shaken(Shaken)));
    }
    report(&mut out, rising(pm, motion, MOTION_LIFT), EdgeEvent::Lifted(Lifted));
    report(&mut out, falling(pm, motion, MOTION_LIFT), EdgeEvent::Dropped(Dropped));
    report(&mut out, rising(pm, motion, MOTION_TILT_X), EdgeEvent::Tilted(Tilted(TiltAxis::X)));
    report(&mut out, rising(pm, motion, MOTION_TILT_NEG_X), EdgeEvent::Tilted(Tilted(TiltAxis::NegX)));
    report(&mut out, rising(pm, motion, MOTION_TILT_Y), EdgeEvent::Tilted(Tilted(TiltAxis::Y)));
    report(&mut out, rising(pm, motion, MOTION_TILT_NEG_Y), EdgeEvent::Tilted(Tilted(TiltAxis::NegY)));
    report(&mut out, rising(pm, motion, MOTION_TILT_Z), EdgeEvent::Tilted(Tilted(TiltAxis::Z)));
    report(&mut out, rising(pm, motion, MOTION_TILT_NEG_Z), EdgeEvent::Tilted(Tilted(TiltAxis::NegZ)));
    out
}

/// Compare this frame's touch / motion bitmasks against last frame's (held in
/// `prev`, which is then updated) and return the events to fire: every touch
/// press first, then the motion events.
pub fn detect_events(prev: &mut EdgeState, touch: u8, motion: u8) -> (events: Vec<EdgeEvent>)
    ensures
        events@ == touch_events(old(prev).touch, touch) + motion_events(old(prev).motion, motion),
        final(prev).touch == touch,
        final(prev).motion == motion,
{
    let mut out = touch_edges(prev.touch, touch);
    let mut rest = motion_edges(prev.motion, motion);
    out.append(&mut rest);
    prev.touch = touch;
    prev.motion = motion;
    out
}

/// A frame that repeats the previous masks fires nothing.
pub proof fn lemma_steady_state_is_quiet(touch: u8, motion: u8)
    ensures
        touch_events(touch, touch) + motion_events(motion, motion) == Seq::<EdgeEvent>::empty(),
{
    assert(touch_events(touch, touch) + motion_events(motion, motion) =~= Seq::<EdgeEvent>::empty());
}

} // verus!
