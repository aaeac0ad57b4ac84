use beet_esp::led::Grb;
use beet_esp::led::Rgb8;

fn srgb(red: u8, green: u8, blue: u8) -> Rgb8 {
    Rgb8 { red, green, blue }
}

#[test]
fn grb_packs_in_wire_order() {
    // WS2812 wire order is green, red, blue: `g << 16 | r << 8 | b`.
    assert_eq!(Grb::from_color(srgb(255, 0, 0), 255).0, 0x00_FF_00);
    assert_eq!(Grb::from_color(srgb(0, 255, 0), 255).0, 0xFF_00_00);
    assert_eq!(Grb::from_color(srgb(0, 0, 255), 255).0, 0x00_00_FF);
}

#[test]
fn grb_scales_by_brightness() {
    // Half brightness halves every channel (255 * 128 / 255 == 128).
    assert_eq!(Grb::from_color(srgb(255, 255, 255), 128).0, 0x80_80_80);
}

use beet_esp::led::pack_color;
use beet_esp::led::unpack_color;
use beet_esp::led::Pulse;

#[test]
fn pack_and_unpack_colors() {
    assert_eq!(pack_color(srgb(0x12, 0x34, 0x56)), 0x12_34_56);
    assert_eq!(unpack_color(0xAB_12_34_56), srgb(0x12, 0x34, 0x56));
    assert_eq!(unpack_color(pack_color(srgb(1, 2, 3))), srgb(1, 2, 3));
}

#[test]
fn default_brightness_dims_each_channel() {
    // 24/255 brightness: 255 -> 24, 100 -> 9.
    assert_eq!(Grb::from_color(srgb(100, 255, 0), 24).0, (24 << 16) | (9 << 8));
}

#[test]
fn pixel_encodes_msb_first_then_end() {
    let mut buf = [Pulse::End; 25];
    Grb(0x80_00_01).encode(&mut buf);
    assert_eq!(buf[0], Pulse::One);
    assert!(buf[1..23].iter().all(|p| *p == Pulse::Zero));
    assert_eq!(buf[23], Pulse::One);
    assert_eq!(buf[24], Pulse::End);
}
