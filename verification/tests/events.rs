use beet_esp::events::detect_events;
use beet_esp::events::EdgeEvent;
use beet_esp::events::Lifted;
use beet_esp::events::Dropped;
use beet_esp::events::Shaken;
use beet_esp::events::Tilted;
use beet_esp::events::TouchPressed;
use beet_esp::types::EdgeState;
use beet_esp::types::TiltAxis;
use beet_esp::types::TouchButton;

#[test]
fn a_fresh_level_robot_is_quiet() {
    let mut prev = EdgeState::default();
    assert!(detect_events(&mut prev, 0, 0x80).is_empty());
}

#[test]
fn presses_fire_once_on_the_rising_edge() {
    let mut prev = EdgeState::default();
    let events = detect_events(&mut prev, 0x02 | 0x80, 0x80);
    assert_eq!(
        events,
        vec![
            EdgeEvent::TouchPressed(TouchPressed(TouchButton::OkKey)),
            EdgeEvent::TouchPressed(TouchPressed(TouchButton::Right)),
        ]
    );
    // Held: nothing more.
    assert!(detect_events(&mut prev, 0x02 | 0x80, 0x80).is_empty());
}

#[test]
fn lift_then_drop() {
    let mut prev = EdgeState::default();
    assert_eq!(
        detect_events(&mut prev, 0, 0x80 | 0x02 | 0x01),
        vec![EdgeEvent::Shaken(Shaken), EdgeEvent::Lifted(Lifted)]
    );
    assert_eq!(detect_events(&mut prev, 0, 0x80), vec![EdgeEvent::Dropped(Dropped)]);
}

#[test]
fn tilts_fire_on_new_axes() {
    let mut prev = EdgeState::default();
    assert_eq!(
        detect_events(&mut prev, 0, 0x04),
        vec![EdgeEvent::Tilted(Tilted(TiltAxis::X))]
    );
    assert_eq!(
        detect_events(&mut prev, 0, 0x80),
        vec![EdgeEvent::Tilted(Tilted(TiltAxis::NegZ))]
    );
}
