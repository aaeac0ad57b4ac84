use beet_esp::ucpack::crc8;
use beet_esp::ucpack::Decoder;
use beet_esp::ucpack::Encoder;

#[test]
fn crc8_maxim_check_value() {
    // The standard CRC-8/MAXIM check value over "123456789".
    assert_eq!(crc8(b"123456789"), 0xA1);
    assert_eq!(crc8(&[]), 0);
}

#[test]
fn encoder_frames_one_byte() {
    let mut enc = Encoder::new();
    assert_eq!(enc.c1b(0x42, 7), &[0x41, 0x02, 0x42, 0x07, 0x23, 0x89][..]);
}

#[test]
fn encoder_frames_three_bytes() {
    let mut enc = Encoder::new();
    let frame = enc.c3b(0x7E, 1, 2, 3).to_vec();
    assert_eq!(frame.len(), 3 + 5);
    assert_eq!(&frame[..3], &[0x41, 0x04, 0x7E]);
    assert_eq!(&frame[3..6], &[1, 2, 3]);
    assert_eq!(frame[6], 0x23);
    assert_eq!(frame[7], crc8(&[0x7E, 1, 2, 3]));
}

#[test]
fn decoder_round_trips_a_frame() {
    let mut enc = Encoder::new();
    let frame = enc.c2b(0x53, 90, 45).to_vec();
    let mut dec = Decoder::new();
    dec.extend(&frame);
    dec.extend(&[0x41]);
    let popped = dec.pop().unwrap();
    assert_eq!(popped.code, 0x53);
    assert_eq!(popped.payload(), &[90, 45][..]);
    assert_eq!(popped.u8(1), 45);
    // The trailing START byte stays buffered, waiting for its frame.
    assert!(dec.pop().is_none());
}

#[test]
fn decoder_skips_noise_before_a_frame() {
    let mut enc = Encoder::new();
    let frame = enc.c1b(0x74, 5).to_vec();
    let mut dec = Decoder::new();
    dec.extend(&[0x00, 0xFF, 0x23, 0x10]);
    dec.extend(&frame);
    let popped = dec.pop().unwrap();
    assert_eq!(popped.code, 0x74);
    assert_eq!(popped.payload(), &[5][..]);
    assert!(dec.pop().is_none());
}

#[test]
fn decoder_waits_for_a_partial_frame() {
    let mut enc = Encoder::new();
    let frame = enc.c2b(0x53, 1, 2).to_vec();
    let mut dec = Decoder::new();
    dec.extend(&frame[..4]);
    assert!(dec.pop().is_none());
    dec.extend(&frame[4..]);
    assert_eq!(dec.pop().unwrap().code, 0x53);
}

#[test]
fn decoder_drops_a_frame_with_a_bad_crc() {
    let mut dec = Decoder::new();
    dec.extend(&[0x41, 0x02, 0x42, 0x07, 0x23, 0x00]);
    assert!(dec.pop().is_none());
    // A good frame after it is still found.
    dec.extend(&[0x41, 0x02, 0x42, 0x07, 0x23, 0x89]);
    assert_eq!(dec.pop().unwrap().payload(), &[7][..]);
}

#[test]
fn frame_reads_little_endian_scalars() {
    let mut enc = Encoder::new();
    let frame = enc.c2f(0x56, 0x4220_0000, 0x0000_0001).to_vec();
    let mut dec = Decoder::new();
    dec.extend(&frame);
    let popped = dec.pop().unwrap();
    assert_eq!(popped.f32_bits(0), 0x4220_0000);
    assert_eq!(popped.f32_bits(4), 1);
    assert_eq!(popped.i16(0), 0);
    assert_eq!(popped.i16(2), 0x4220);
    // Past the received bytes the payload reads as zero.
    assert_eq!(popped.u8(20), 0);
}

#[test]
fn decoder_keeps_only_the_newest_bytes() {
    let mut dec = Decoder::new();
    for _ in 0..300 {
        dec.push(0x00);
    }
    let mut enc = Encoder::new();
    let frame = enc.c1b(0x62, 9).to_vec();
    dec.extend(&frame);
    assert_eq!(dec.pop().unwrap().payload(), &[9][..]);
}
