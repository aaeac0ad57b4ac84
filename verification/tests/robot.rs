use beet_esp::driver::StatusSnapshot;
use beet_esp::protocol::Command;
use beet_esp::protocol::Status;
use beet_esp::robot::apply_status;
use beet_esp::robot::flush_alvik_leds;
use beet_esp::robot::flush_drive;
use beet_esp::robot::flush_servos;
use beet_esp::robot::flush_wheels;
use beet_esp::robot::LedLit;
use beet_esp::robot::RobotState;
use beet_esp::robot::ServoId;
use beet_esp::robot::ServoPos;
use beet_esp::robot::WheelReading;
use beet_esp::robot::WheelTarget;
use beet_esp::types::Side;

fn robot() -> RobotState {
    RobotState {
        pose: None,
        imu: None,
        orientation: None,
        line: Some((0, 0, 0)),
        color: None,
        tof: None,
        linear: None,
        angular: None,
        battery: Some((0, false)),
        touch: Some(0),
        motion: None,
        behavior: None,
        connected: Some(false),
        firmware: Some((0, 0, 0)),
    }
}

#[test]
fn snapshot_updates_only_kept_readouts() {
    let mut state = robot();
    let mut snapshot = StatusSnapshot::default();
    snapshot.line = (1, 2, 3);
    snapshot.battery = (0x4200_0000, true);
    snapshot.wheel_left_speed = 11;
    snapshot.wheel_right_position = 22;
    let mut wheels = vec![
        WheelReading { side: Side::Left, speed: 0, position: 0 },
        WheelReading { side: Side::Right, speed: 0, position: 0 },
    ];
    apply_status(&mut state, &mut wheels, Some(snapshot), &[]);
    assert_eq!(state.line, Some((1, 2, 3)));
    assert_eq!(state.battery, Some((0x4200_0000, true)));
    assert_eq!(state.pose, None);
    assert_eq!(wheels[0], WheelReading { side: Side::Left, speed: 11, position: 0 });
    assert_eq!(wheels[1], WheelReading { side: Side::Right, speed: 0, position: 22 });
}

#[test]
fn firmware_event_marks_the_link_up() {
    let mut state = robot();
    let mut wheels = Vec::new();
    let events = [
        Status::Touch(4),
        Status::Motion(1),
        Status::FwVersion { major: 1, minor: 2, patch: 3 },
        Status::Touch(8),
    ];
    apply_status(&mut state, &mut wheels, None, &events);
    assert_eq!(state.touch, Some(8));
    assert_eq!(state.motion, None);
    assert_eq!(state.firmware, Some((1, 2, 3)));
    assert_eq!(state.connected, Some(true));
    assert_eq!(state.line, Some((0, 0, 0)));
}

#[test]
fn led_byte_aggregates_every_led() {
    let mut last = None;
    let leds = [
        LedLit { side: Side::Left, red: true, green: false, blue: true },
        LedLit { side: Side::Right, red: false, green: true, blue: false },
    ];
    let cmd = flush_alvik_leds(&mut last, Some(true), Some(false), &leds);
    assert_eq!(cmd, Some(Command::SetLeds(0x01 | 0x04 | 0x10 | 0x40)));
    // Unchanged: nothing is sent again.
    assert_eq!(flush_alvik_leds(&mut last, Some(true), Some(false), &leds), None);
}

#[test]
fn no_leds_driven_sends_nothing() {
    let mut last = None;
    assert_eq!(flush_alvik_leds(&mut last, None, None, &[]), None);
    assert_eq!(last, None);
}

#[test]
fn servos_send_once_both_exist_and_change() {
    let mut last = None;
    let only_a = [ServoPos { id: ServoId::A, degrees: 10 }];
    assert_eq!(flush_servos(&mut last, &only_a), None);
    let both = [ServoPos { id: ServoId::A, degrees: 10 }, ServoPos { id: ServoId::B, degrees: 170 }];
    assert_eq!(flush_servos(&mut last, &both), Some(Command::SetServo { a: 10, b: 170 }));
    assert_eq!(flush_servos(&mut last, &both), None);
}

#[test]
fn wheel_targets_become_per_wheel_commands() {
    let cmds = flush_wheels(&[
        (Side::Left, WheelTarget::Speed(5)),
        (Side::Right, WheelTarget::Position(6)),
    ]);
    assert_eq!(
        cmds,
        vec![
            Command::WheelSpeed { wheel: Side::Left, speed: 5 },
            Command::WheelPosition { wheel: Side::Right, position: 6 },
        ]
    );
    assert_eq!(flush_drive(1, 2), Command::Drive { linear: 1, angular: 2 });
}
