use beet_esp::protocol::Command;
use beet_esp::protocol::Status;
use beet_esp::types::Side;
use beet_esp::ucpack::crc8;
use beet_esp::ucpack::Decoder;
use beet_esp::ucpack::Encoder;

fn decode(bytes: &[u8]) -> Option<Status> {
    let mut dec = Decoder::new();
    dec.extend(bytes);
    let frame = dec.pop().expect("a whole frame");
    Status::decode(&frame)
}

fn framed(code: u8, payload: &[u8]) -> Vec<u8> {
    let mut body = vec![code];
    body.extend_from_slice(payload);
    let mut out = vec![0x41, (payload.len() + 1) as u8, code];
    out.extend_from_slice(payload);
    out.push(0x23);
    out.push(crc8(&body));
    out
}

#[test]
fn drive_command_encodes_two_floats() {
    let mut enc = Encoder::new();
    let bytes = Command::Drive { linear: 0x4220_0000, angular: 0 }.encode(&mut enc).to_vec();
    assert_eq!(bytes, vec![0x41, 9, 0x56, 0, 0, 0x20, 0x42, 0, 0, 0, 0, 0x23, 0x4F]);
}

#[test]
fn wheel_speed_command_carries_the_side_label() {
    let mut enc = Encoder::new();
    let bytes = Command::WheelSpeed { wheel: Side::Right, speed: 0 }.encode(&mut enc).to_vec();
    assert_eq!(bytes, framed(0x57, &[0x52, 0x56, 0, 0, 0, 0]));
}

#[test]
fn line_status_decodes_signed_counts() {
    let status = decode(&framed(0x6C, &[100, 0, 254, 255, 188, 2]));
    assert_eq!(status, Some(Status::Line { left: 100, center: -2, right: 700 }));
}

#[test]
fn touch_and_firmware_statuses_decode() {
    assert_eq!(decode(&framed(0x74, &[5])), Some(Status::Touch(5)));
    assert_eq!(
        decode(&framed(0x7E, &[1, 1, 1])),
        Some(Status::FwVersion { major: 1, minor: 1, patch: 1 })
    );
}

#[test]
fn battery_sign_is_the_charging_flag() {
    // -55.5 %: not charging, magnitude 55.5.
    let status = decode(&framed(0x70, &0xC25E_0000u32.to_le_bytes()));
    assert_eq!(status, Some(Status::Battery { percent: 0x425E_0000, charging: false }));
    let status = decode(&framed(0x70, &0x425E_0000u32.to_le_bytes()));
    assert_eq!(status, Some(Status::Battery { percent: 0x425E_0000, charging: true }));
}

#[test]
fn unknown_code_decodes_to_none() {
    assert_eq!(decode(&framed(0x01, &[1, 2])), None);
}
