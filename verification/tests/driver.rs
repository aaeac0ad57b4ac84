use beet_esp::driver::init_commands;
use beet_esp::driver::pump;
use beet_esp::driver::FirmwareCheck;
use beet_esp::driver::Handshake;
use beet_esp::driver::Published;
use beet_esp::driver::StatusSnapshot;
use beet_esp::protocol::Command;
use beet_esp::protocol::Status;
use beet_esp::ucpack::crc8;
use beet_esp::ucpack::Decoder;

fn framed(code: u8, payload: &[u8]) -> Vec<u8> {
    let mut body = vec![code];
    body.extend_from_slice(payload);
    let mut out = vec![0x41, (payload.len() + 1) as u8, code];
    out.extend_from_slice(payload);
    out.push(0x23);
    out.push(crc8(&body));
    out
}

#[test]
fn continuous_readings_fold_into_the_snapshot() {
    let mut snapshot = StatusSnapshot::default();
    let mut decoder = Decoder::new();
    let mut bytes = framed(0x6C, &[100, 0, 254, 255, 188, 2]);
    bytes.extend(framed(0x74, &[0x02]));
    let published = pump(&mut snapshot, &mut decoder, &bytes);
    assert_eq!(published.len(), 2);
    match published[0] {
        Published::Snapshot(s) => assert_eq!(s.line, (100, -2, 700)),
        _ => panic!("expected a snapshot"),
    }
    match published[1] {
        Published::Event(Status::Touch(bits)) => assert_eq!(bits, 0x02),
        _ => panic!("expected a touch event"),
    }
    assert_eq!(snapshot.line, (100, -2, 700));
}

#[test]
fn a_frame_split_across_reads_is_published_once_whole() {
    let mut snapshot = StatusSnapshot::default();
    let mut decoder = Decoder::new();
    let bytes = framed(0x64, &[10, 0, 20, 0, 30, 0]);
    assert!(pump(&mut snapshot, &mut decoder, &bytes[..5]).is_empty());
    let published = pump(&mut snapshot, &mut decoder, &bytes[5..]);
    assert_eq!(published.len(), 1);
    assert_eq!((snapshot.tof_left, snapshot.tof_center, snapshot.tof_right), (10, 20, 30));
}

#[test]
fn handshake_waits_for_ack_and_firmware() {
    let mut hs = Handshake::new();
    let mut decoder = Decoder::new();
    hs.observe_bytes(&mut decoder, &framed(0x78, &[0]));
    assert!(hs.got_ack);
    assert!(!hs.complete());
    assert_eq!(hs.firmware_check(), FirmwareCheck::Missing);
    hs.observe_bytes(&mut decoder, &framed(0x7E, &[1, 1, 1]));
    assert!(hs.complete());
    assert_eq!(hs.firmware_check(), FirmwareCheck::Matches((1, 1, 1)));
    assert_eq!(hs.link_event(), Some(Status::FwVersion { major: 1, minor: 1, patch: 1 }));
}

#[test]
fn other_firmware_is_a_mismatch() {
    let mut hs = Handshake::new();
    hs.observe(Some(Status::FwVersion { major: 2, minor: 0, patch: 0 }));
    hs.observe(Some(Status::Ack(1)));
    assert!(!hs.got_ack);
    assert_eq!(hs.firmware_check(), FirmwareCheck::Mismatch((2, 0, 0)));
}

#[test]
fn init_sequence_is_illuminator_behaviors_servos() {
    assert_eq!(
        init_commands(),
        vec![
            Command::SetLeds(0x02),
            Command::SetBehavior(1),
            Command::SetBehavior(2),
            Command::SetServo { a: 90, b: 90 },
        ]
    );
}

#[test]
fn discrete_statuses_pass_through_apply() {
    let mut snapshot = StatusSnapshot::default();
    assert_eq!(snapshot.apply(Status::Motion(3)), Some(Status::Motion(3)));
    assert_eq!(snapshot.apply(Status::Velocity { linear: 7, angular: 8 }), None);
    assert_eq!(snapshot.velocity, (7, 8));
}
