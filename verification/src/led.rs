//! LED colour values on their way to the wire: 8-bit sRGB channels, the
//! packed `0xRRGGBB` integer scripts trade in, and the WS2812 pixel in wire
//! order (green, red, blue) with its per-bit pulse encoding.
use vstd::prelude::*;

verus! {

/// A colour as 8-bit sRGB channels.
#[derive(Debug, Clone, Copy, PartialEq, Eq, Structural)]
pub struct Rgb8 {
    pub red: u8,
    pub green: u8,
    pub blue: u8,
}

/// The packed `0xRRGGBB` value of a colour.
pub open spec fn spec_pack(c: Rgb8) -> u32 {
    ((c.red as u32) * 0x1_0000 + (c.green as u32) * 0x100 + c.blue as u32) as u32
}

/// Pack a colour into a `0xRRGGBB` integer.
pub fn pack_color(color: Rgb8) -> (r: u32)
    ensures
        r == spec_pack(color),
{
    let r = ((color.red as u32) << 16u32) | ((color.green as u32) << 8u32) | color.blue as u32;
    let (red, green, blue) = (color.red, color.green, color.blue);
    assert(((red as u32) << 16u32) | ((green as u32) << 8u32) | blue as u32 == (red as u32)
        * 0x1_0000 + (green as u32) * 0x100 + blue as u32) by (bit_vector);
    r
}

/// The colour a packed `0xRRGGBB` integer holds (bits above the low 24 are
/// ignored).
pub open spec fn spec_unpack(packed: u32) -> Rgb8 {
    Rgb8 {
        red: ((packed / 0x1_0000) % 256) as u8,
        green: ((packed / 0x100) % 256) as u8,
        blue: (packed % 256) as u8,
    }
}

/// Unpack a `0xRRGGBB` integer into a colour.
pub fn unpack_color(packed: u32) -> (r: Rgb8)
    ensures
        r == spec_unpack(packed),
{
    let red = (packed >> 16u32) as u8;
    let green = (packed >> 8u32) as u8;
    let blue = packed as u8;
    assert((packed >> 16u32) as u8 == ((packed / 0x1_0000) % 256) as u8 && (packed >> 8u32) as u8
        == ((packed / 0x100) % 256) as u8 && packed as u8 == (packed % 256) as u8) by (bit_vector);
    Rgb8 { red, green, blue }
}

/// Unpacking a packed colour gives the colour back.
pub proof fn lemma_unpack_pack(c: Rgb8)
    ensures
        spec_unpack(spec_pack(c)) == c,
{
    let (r, g, b) = (c.red, c.green, c.blue);
    assert((((r as u32) * 0x1_0000 + (g as u32) * 0x100 + b as u32) / 0x1_0000) % 256 == r as u32
        && (((r as u32) * 0x1_0000 + (g as u32) * 0x100 + b as u32) / 0x100) % 256 == g as u32
        && ((r as u32) * 0x1_0000 + (g as u32) * 0x100 + b as u32) % 256 == b as u32)
        by (bit_vector);
}

/// Packing an unpacked value keeps exactly its low 24 bits.
pub proof fn lemma_pack_unpack(packed: u32)
    ensures
        spec_pack(spec_unpack(packed)) == packed % 0x100_0000,
{
    assert(((packed / 0x1_0000) % 256) * 0x1_0000 + ((packed / 0x100) % 256) * 0x100 + packed % 256
        == packed % 0x100_0000) by (bit_vector);
}

/// A channel value scaled by `brightness` out of 255.
pub open spec fn scale(v: u8, brightness: u8) -> u32 {
    ((v as int) * (brightness as int) / 255) as u32
}

/// A single WS2812 pixel packed in wire order (green, red, blue), 8 bits per
/// channel.
#[derive(Debug, Clone, Copy, PartialEq, Eq, Structural)]
pub struct Grb(pub u32);

/// One RMT pulse code of the WS2812 bit stream.
#[derive(Debug, Clone, Copy, PartialEq, Eq, Structural)]
pub enum Pulse {
    /// A `0` bit: 0.40 us high, 0.85 us low.
    Zero,
    /// A `1` bit: 0.85 us high, 0.40 us low.
    One,
    /// The end marker after the last bit.
    End,
}

/// Number of pulse codes for one WS2812 pixel: 24 data bits + end marker.
pub const PIXEL_CODES: usize = 25;

/// The pulse for bit `k` (0 = least significant) of `v`.
pub open spec fn bit_pulse(v: u32, k: u32) -> Pulse {
    if (v >> k) & 1 == 1 {
        Pulse::One
    } else {
        Pulse::Zero
    }
}

fn scale_exec(v: u8, brightness: u8) -> (r: u32)
    ensures
        r == scale(v, brightness),
        r <= 255,
{
    assert((v as int) * (brightness as int) <= 255 * 255) by (nonlinear_arith)
        requires
            v <= 255,
            brightness <= 255,
    ;
    assert((v as int) * (brightness as int) / 255 <= 255) by (nonlinear_arith)
        requires
            (v as int) * (brightness as int) <= 255 * 255,
            (v as int) * (brightness as int) >= 0,
    ;
    ((v as u16) * (brightness as u16) / 255) as u32
}

impl Grb {
    /// The pixel for a colour with each channel scaled by `brightness`
    /// (0..=255), since the bare LED is blinding at full scale.
    pub open spec fn spec_from(color: Rgb8, brightness: u8) -> u32 {
        (scale(color.green, brightness) * 0x1_0000 + scale(color.red, brightness) * 0x100 + scale(
            color.blue,
            brightness,
        )) as u32
    }

    /// Convert a colour to a WS2812 pixel, scaling each channel by
    /// `brightness`.
    pub fn from_color(color: Rgb8, brightness: u8) -> (r: Self)
        ensures
            r.0 == Self::spec_from(color, brightness),
    {
        let g = scale_exec(color.green, brightness);
        let r = scale_exec(color.red, brightness);
        let b = scale_exec(color.blue, brightness);
        assert((g << 16u32) | (r << 8u32) | b == g * 0x1_0000 + r * 0x100 + b) by (bit_vector)
            requires
                g <= 255,
                r <= 255,
                b <= 255,
        ;
        Grb((g << 16u32) | (r << 8u32) | b)
    }

    /// Encode this pixel into pulse codes, most significant bit first, then
    /// the end marker.
    pub fn encode(self, buf: &mut [Pulse; 25])
        ensures
            forall|i: int| 0 <= i < 24 ==> #[trigger] final(buf)@[i] == bit_pulse(self.0, (23 - i) as u32),
            final(buf)@[24] == Pulse::End,
    {
        let mut i: usize = 0;
        while i < 24
            invariant
                i <= 24,
                buf@.len() == 25,
                forall|j: int| 0 <= j < i ==> #[trigger] buf@[j] == bit_pulse(self.0, (23 - j) as u32),
            decreases 24 - i,
        {
            let shift = (23 - i) as u32;
            buf[i] = if (self.0 >> shift) & 1 == 1 {
                Pulse::One
            } else {
                Pulse::Zero
            };
            i = i + 1;
        }
        buf[24] = Pulse::End;
    }
}

/// At full brightness the pixel carries the colour's channels unchanged, in
/// wire order.
pub proof fn lemma_full_brightness(c: Rgb8)
    ensures
        Grb::spec_from(c, 255) == ((c.green as u32) * 0x1_0000 + (c.red as u32) * 0x100
            + c.blue as u32) as u32,
{
    assert(scale(c.green, 255) == c.green as u32);
    assert(scale(c.red, 255) == c.red as u32);
    assert(scale(c.blue, 255) == c.blue as u32);
}

/// A brighter setting never dims a channel.
pub proof fn lemma_scale_monotonic(v: u8, b1: u8, b2: u8)
    requires
        b1 <= b2,
    ensures
        scale(v, b1) <= scale(v, b2),
{
    assert((v as int) * (b1 as int) <= (v as int) * (b2 as int)) by (nonlinear_arith)
        requires
            b1 <= b2,
    ;
    assert((v as int) * (b1 as int) / 255 <= (v as int) * (b2 as int) / 255) by (nonlinear_arith)
        requires
            (v as int) * (b1 as int) <= (v as int) * (b2 as int),
    ;
    assert(0 <= (v as int) * (b1 as int) / 255 && (v as int) * (b2 as int) / 255 <= 255)
        by (nonlinear_arith)
        requires
            v <= 255,
            b1 <= 255,
            b2 <= 255,
    ;
}

/// The value of a run of pulse codes read as bits, most significant first.
pub open spec fn pulses_value(ps: Seq<Pulse>) -> u32
    decreases ps.len(),
{
    if ps.len() == 0 {
        0
    } else {
        ((pulses_value(ps.drop_last()) as int) * 2 + if ps.last() == Pulse::One {
            1int
        } else {
            0int
        }) as u32
    }
}

proof fn lemma_top_bits_step(v: u32, k: u32)
    requires
        k < 24,
    ensures
        (v >> (23 - k) as u32) & ((1u32 << (k + 1) as u32) - 1) as u32 == (((v >> (24 - k) as u32) & ((
        1u32 << k) - 1) as u32) * 2 + ((v >> (23 - k) as u32) & 1)) as u32,
        ((v >> (24 - k) as u32) & ((1u32 << k) - 1) as u32) < (1u32 << k),
        (1u32 << k) <= 0x80_0000,
{
    assert((v >> (23 - k) as u32) & ((1u32 << (k + 1) as u32) - 1) as u32 == (((v >> (24 - k) as u32)
        & ((1u32 << k) - 1) as u32) * 2 + ((v >> (23 - k) as u32) & 1)) as u32) by (bit_vector)
        requires
            k < 24,
    ;
    assert(((v >> (24 - k) as u32) & ((1u32 << k) - 1) as u32) < (1u32 << k)) by (bit_vector)
        requires
            k < 24,
    ;
    assert((1u32 << k) <= 0x80_0000) by (bit_vector)
        requires
            k < 24,
    ;
}

/// The first `k` pulses an encoding holds carry the top `k` of the pixel's
/// 24 bits.
proof fn lemma_pulses_prefix(buf: Seq<Pulse>, v: u32, k: u32)
    requires
        k <= 24,
        buf.len() == 25,
        forall|i: int| 0 <= i < 24 ==> #[trigger] buf[i] == bit_pulse(v, (23 - i) as u32),
    ensures
        pulses_value(buf.subrange(0, k as int)) == (v >> (24 - k) as u32) & ((1u32 << k) - 1) as u32,
    decreases k,
{
    if k == 0 {
        assert((v >> 24u32) & ((1u32 << 0u32) - 1) as u32 == 0) by (bit_vector);
    } else {
        let j = (k - 1) as u32;
        lemma_pulses_prefix(buf, v, j);
        lemma_top_bits_step(v, j);
        let p = buf.subrange(0, k as int);
        assert(p.drop_last() =~= buf.subrange(0, j as int));
        assert(p.last() == buf[j as int]);
        assert(buf[j as int] == bit_pulse(v, (23 - j) as u32));
        assert((v >> (23 - j) as u32) & 1 == 1 || (v >> (23 - j) as u32) & 1 == 0) by (bit_vector);
    }
}

/// Reading back the 24 data pulses of an encoded pixel gives the pixel's
/// value (its low 24 bits), so the encoding loses nothing.
pub proof fn lemma_encode_roundtrip(buf: Seq<Pulse>, v: u32)
    requires
        buf.len() == 25,
        forall|i: int| 0 <= i < 24 ==> #[trigger] buf[i] == bit_pulse(v, (23 - i) as u32),
    ensures
        pulses_value(buf.subrange(0, 24)) == v % 0x100_0000,
{
    lemma_pulses_prefix(buf, v, 24);
    assert((v >> 0u32) & ((1u32 << 24u32) - 1) as u32 == v % 0x100_0000) by (bit_vector);
}

} // verus!
