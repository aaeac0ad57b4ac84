//! The ucPack wire codec: frame encoder, streaming decoder and CRC8.
//!
//! ucPack frames a payload as:
//!
//! ```text
//! [START=0x41 'A'] [LEN] [CODE] [PAYLOAD...] [END=0x23 '#'] [CRC8]
//! ```
//!
//! where `LEN` counts `CODE` through the last payload byte (`1 + payload`) and
//! `CRC8` is CRC8-MAXIM (poly `0x8C`) over those `LEN` bytes. This module knows
//! only frames, codes, scalars and CRC, so it is reusable for any ucPack peer;
//! the Alvik-specific command / status mapping lives in `protocol`.
use crate::text::slice_range;
use vstd::prelude::*;

verus! {

/// First byte of every frame (`'A'`).
pub const START: u8 = 0x41;

/// Byte that closes the framed bytes, just before the CRC (`'#'`).
pub const END: u8 = 0x23;

/// Largest payload we send or receive (six 32-bit values = 24 bytes).
pub const PAYLOAD_MAX: usize = 24;

/// Largest full frame: `START LEN CODE …payload… END CRC` = `PAYLOAD_MAX + 5`.
pub const FRAME_MAX: usize = 29;

// ---------------------------------------------------------------------------
// CRC8-MAXIM
// ---------------------------------------------------------------------------

/// Feed the low `n` bits of `bits` (least significant first) through the
/// reflected CRC8-MAXIM register `crc`.
pub open spec fn crc_bits(crc: u8, bits: u8, n: nat) -> u8
    decreases n,
{
    if n == 0 {
        crc
    } else {
        let shifted = crc >> 1u8;
        let next = if (crc ^ bits) & 1u8 != 0 { shifted ^ 0x8Cu8 } else { shifted };
        crc_bits(next, bits >> 1u8, (n - 1) as nat)
    }
}

/// CRC8-MAXIM (poly `0x8C`, reflected, init `0x00`) of a byte string.
pub open spec fn spec_crc8(data: Seq<u8>) -> u8
    decreases data.len(),
{
    if data.len() == 0 {
        0
    } else {
        crc_bits(spec_crc8(data.drop_last()), data.last(), 8)
    }
}

/// CRC8-MAXIM (poly `0x8C`, reflected, init `0x00`), computed over `CODE` plus
/// payload: the `LEN` bytes the frame's trailing CRC covers.
pub fn crc8(data: &[u8]) -> (crc: u8)
    ensures
        crc == spec_crc8(data@),
{
    let mut crc: u8 = 0;
    let mut i: usize = 0;
    while i < data.len()
        invariant
            i <= data.len(),
            crc == spec_crc8(data@.subrange(0, i as int)),
        decreases data.len() - i,
    {
        let byte = data[i];
        let mut bits = byte;
        let mut round: u8 = 0;
        let ghost start = crc;
        while round < 8
            invariant
                round <= 8,
                crc_bits(start, byte, 8) == crc_bits(crc, bits, (8 - round) as nat),
            decreases 8 - round,
        {
            let mix = (crc ^ bits) & 1;
            crc = crc >> 1;
            if mix != 0 {
                crc = crc ^ 0x8C;
            }
            bits = bits >> 1;
            round = round + 1;
        }
        proof {
            let prefix = data@.subrange(0, i + 1);
            assert(prefix.drop_last() =~= data@.subrange(0, i as int));
        }
        i = i + 1;
    }
    proof {
        assert(data@.subrange(0, data@.len() as int) =~= data@);
    }
    crc
}

// ---------------------------------------------------------------------------
// Frames
// ---------------------------------------------------------------------------

/// The wire bytes of one frame carrying `code` and `payload`.
pub open spec fn encode_frame(code: u8, payload: Seq<u8>) -> Seq<u8> {
    seq![START, (payload.len() + 1) as u8, code] + payload + seq![
        END,
        spec_crc8(seq![code] + payload),
    ]
}

/// The 24-byte payload array holding `payload`, zero-padded.
pub open spec fn padded_payload(payload: Seq<u8>) -> Seq<u8> {
    Seq::new(PAYLOAD_MAX as nat, |i: int| if i < payload.len() { payload[i] } else { 0u8 })
}

/// A decoded, CRC-validated frame: its `code` and an owned copy of the payload.
///
/// Owned (not borrowed) so the [`Decoder`] can keep filling its buffer after a
/// frame is popped. Scalar accessors read the wire's little-endian layout; the
/// payload array is zero past the received bytes, so a short frame reads as
/// zero-extended.
#[derive(Clone, Copy)]
pub struct Frame {
    /// The single-byte message code (`'j'`, `0x7E`, …).
    pub code: u8,
    /// The payload bytes, zero past `len`.
    pub payload: [u8; 24],
    /// How many payload bytes were received.
    pub len: usize,
}

impl Frame {
    /// The received payload bytes.
    pub open spec fn spec_payload(&self) -> Seq<u8> {
        self.payload@.subrange(0, self.len as int)
    }

    /// The whole 24-byte payload array (received bytes, then zeros).
    pub open spec fn spec_padded(&self) -> Seq<u8> {
        self.payload@
    }

    /// A frame as the decoder builds it: at most [`PAYLOAD_MAX`] payload bytes,
    /// zero-padded to the full array.
    pub open spec fn wf(&self) -> bool {
        &&& self.len <= PAYLOAD_MAX
        &&& self.payload@ == padded_payload(self.spec_payload())
    }

    /// The padded array of a well-formed frame is its payload, zero-padded.
    pub proof fn lemma_padded(&self)
        requires
            self.wf(),
        ensures
            self.spec_padded() == padded_payload(self.spec_payload()),
            self.spec_padded().len() == PAYLOAD_MAX,
            self.spec_payload().len() <= PAYLOAD_MAX,
    {
    }

    /// The raw payload bytes after `code`.
    pub fn payload(&self) -> (r: &[u8])
        requires
            self.wf(),
        ensures
            r@ == self.spec_payload(),
    {
        slice_prefix(&self.payload, self.len)
    }

    /// The `u8` at byte `offset` of the zero-padded payload.
    pub fn u8(&self, offset: usize) -> (r: u8)
        requires
            offset < PAYLOAD_MAX,
        ensures
            r == self.spec_padded()[offset as int],
    {
        self.payload[offset]
    }

    /// The little-endian `i16` at byte `offset`.
    pub fn i16(&self, offset: usize) -> (r: i16)
        requires
            offset + 1 < PAYLOAD_MAX,
        ensures
            r == le_i16(self.spec_padded()[offset as int], self.spec_padded()[offset + 1]),
    {
        le_i16_exec(self.payload[offset], self.payload[offset + 1])
    }

    /// The little-endian 32-bit word at byte `offset`: the bit pattern of the
    /// IEEE-754 single the wire carries there (the float itself is rebuilt from these bits by the caller).
    pub fn f32_bits(&self, offset: usize) -> (r: u32)
        requires
            offset + 3 < PAYLOAD_MAX,
        ensures
            r == le_u32(
                self.spec_padded()[offset as int],
                self.spec_padded()[offset + 1],
                self.spec_padded()[offset + 2],
                self.spec_padded()[offset + 3],
            ),
    {
        le_u32_exec(
            self.payload[offset],
            self.payload[offset + 1],
            self.payload[offset + 2],
            self.payload[offset + 3],
        )
    }
}

/// The little-endian `i16` made of `lo` then `hi`.
pub open spec fn le_i16(lo: u8, hi: u8) -> i16 {
    (lo as u16 | ((hi as u16) << 8u16)) as i16
}

/// The little-endian `u32` made of `b0` (least significant) to `b3`.
pub open spec fn le_u32(b0: u8, b1: u8, b2: u8, b3: u8) -> u32 {
    b0 as u32 | ((b1 as u32) << 8u32) | ((b2 as u32) << 16u32) | ((b3 as u32) << 24u32)
}

fn le_i16_exec(lo: u8, hi: u8) -> (r: i16)
    ensures
        r == le_i16(lo, hi),
{
    (lo as u16 | ((hi as u16) << 8u16)) as i16
}

fn le_u32_exec(b0: u8, b1: u8, b2: u8, b3: u8) -> (r: u32)
    ensures
        r == le_u32(b0, b1, b2, b3),
{
    b0 as u32 | ((b1 as u32) << 8u32) | ((b2 as u32) << 16u32) | ((b3 as u32) << 24u32)
}

/// The first `n` elements of `data`.
fn slice_prefix(data: &[u8], n: usize) -> (r: &[u8])
    requires
        n <= data@.len(),
    ensures
        r@ == data@.subrange(0, n as int),
{
    &data[0..n]
}


// ---------------------------------------------------------------------------
// Decoder
// ---------------------------------------------------------------------------

/// Bytes the [`Decoder`] buffers: several max frames, so a burst read never
/// overflows mid-frame.
pub const DECODER_CAP: usize = 256;

/// What the decoder makes of the bytes at the front of its buffer.
pub enum Scan {
    /// Not the start of a valid frame: drop one byte and resync.
    Skip,
    /// A plausible frame has begun but has not fully arrived.
    Wait,
    /// A complete frame with a valid END byte and CRC.
    Found,
}

/// Classify the front of a non-empty buffer `s`.
pub open spec fn scan_head(s: Seq<u8>) -> Scan
    recommends
        s.len() > 0,
{
    if s[0] != START {
        Scan::Skip
    } else if s.len() < 2 {
        Scan::Wait
    } else if s[1] == 0 || s[1] > PAYLOAD_MAX + 1 {
        Scan::Skip
    } else if s.len() < s[1] + 4 {
        Scan::Wait
    } else if s[s[1] + 2] != END || s[s[1] + 3] != spec_crc8(s.subrange(2, 2 + s[1])) {
        Scan::Skip
    } else {
        Scan::Found
    }
}

/// One `pop` over buffered bytes `s`: the frame found (its code and payload),
/// if any, and the bytes left buffered afterwards.
///
/// Bytes that cannot start a valid frame are dropped one at a time until a
/// complete valid frame (consumed and returned) or the beginning of one that
/// has not fully arrived (kept, with nothing returned) is at the front.
pub open spec fn spec_pop(s: Seq<u8>) -> (Option<(u8, Seq<u8>)>, Seq<u8>)
    decreases s.len(),
{
    if s.len() == 0 {
        (None, s)
    } else {
        match scan_head(s) {
            Scan::Skip => spec_pop(s.drop_first()),
            Scan::Wait => (None, s),
            Scan::Found => (
                Some((s[2], s.subrange(3, s[1] + 2))),
                s.subrange(s[1] + 4, s.len() as int),
            ),
        }
    }
}

/// The last `cap` elements of `s` (all of it when shorter).
pub open spec fn keep_last(s: Seq<u8>, cap: nat) -> Seq<u8> {
    if s.len() > cap {
        s.subrange(s.len() - cap, s.len() as int)
    } else {
        s
    }
}

/// Streaming frame parser: bytes are [`push`](Self::push)ed in as the UART
/// delivers them, and complete frames [`pop`](Self::pop)ped out once `START`,
/// `LEN`, `END` and `CRC` all line up. A bad CRC or misframe drops the leading
/// byte and resyncs on the next `START`.
pub struct Decoder {
    buf: [u8; 256],
    len: usize,
}

impl View for Decoder {
    type V = Seq<u8>;

    /// The buffered, not yet consumed bytes, oldest first.
    closed spec fn view(&self) -> Seq<u8> {
        self.buf@.subrange(0, self.len as int)
    }
}

impl Default for Decoder {
    fn default() -> (r: Self)
        ensures
            r@ == Seq::<u8>::empty(),
    {
        Decoder::new()
    }
}

impl Decoder {
    #[verifier::type_invariant]
    spec fn inv(self) -> bool {
        self.len <= DECODER_CAP
    }

    /// An empty decoder.
    pub fn new() -> (r: Self)
        ensures
            r@ == Seq::<u8>::empty(),
    {
        let r = Decoder { buf: [0u8; 256], len: 0 };
        proof {
            assert(r@ =~= Seq::<u8>::empty());
        }
        r
    }

    /// Append one received byte, dropping the oldest if the buffer is full
    /// (only happens under sustained garbage, where old bytes are worthless).
    pub fn push(&mut self, byte: u8)
        ensures
            final(self)@ == keep_last(old(self)@.push(byte), DECODER_CAP as nat),
    {
        proof {
            use_type_invariant(&*self);
        }
        let ghost before = self@;
        if self.len == DECODER_CAP {
            self.drop_front(1);
        }
        proof {
            use_type_invariant(&*self);
        }
        let ghost mid = self@;
        assert(mid.len() == self.len);
        assert(self.len < DECODER_CAP);
        self.buf[self.len] = byte;
        self.len = self.len + 1;
        proof {
            assert(self@ =~= mid.push(byte));
            assert(self@ =~= keep_last(before.push(byte), DECODER_CAP as nat));
        }
    }

    /// Append a slice of received bytes.
    pub fn extend(&mut self, bytes: &[u8])
        ensures
            final(self)@ == keep_last(old(self)@ + bytes@, DECODER_CAP as nat),
    {
        proof {
            use_type_invariant(&*self);
        }
        let ghost start = self@;
        let mut i: usize = 0;
        proof {
            assert(start + bytes@.subrange(0, 0) =~= start);
        }
        while i < bytes.len()
            invariant
                i <= bytes@.len(),
                start.len() <= DECODER_CAP,
                self@ == keep_last(start + bytes@.subrange(0, i as int), DECODER_CAP as nat),
            decreases bytes@.len() - i,
        {
            let ghost prev = self@;
            self.push(bytes[i]);
            proof {
                let all = start + bytes@.subrange(0, i as int);
                assert(start + bytes@.subrange(0, i + 1) =~= all.push(bytes@[i as int]));
                lemma_keep_last_push(all, bytes@[i as int], DECODER_CAP as nat);
            }
            i = i + 1;
        }
        proof {
            assert(bytes@.subrange(0, bytes@.len() as int) =~= bytes@);
        }
    }

    /// Pop the next complete, CRC-valid frame, or `None` if more bytes are
    /// needed. Call in a loop to drain everything a read delivered.
    pub fn pop(&mut self) -> (r: Option<Frame>)
        ensures
            final(self)@ == spec_pop(old(self)@).1,
            match (r, spec_pop(old(self)@).0) {
                (None, None) => true,
                (Some(frame), Some((code, payload))) => {
                    &&& frame.wf()
                    &&& frame.code == code
                    &&& frame.spec_payload() == payload
                },
                _ => false,
            },
    {
        let ghost original = self@;
        loop
            invariant
                original == old(self)@,
                spec_pop(self@) == spec_pop(original),
            decreases self@.len(),
        {
            proof {
                use_type_invariant(&*self);
                assert(self@.len() == self.len);
            }
            // Resync: discard anything before a START byte.
            if self.len == 0 {
                proof {
                    assert(self@ =~= Seq::<u8>::empty());
                }
                return None;
            }
            if self.buf[0] != START {
                let ghost v = self@;
                self.drop_front(1);
                proof {
                    assert(self@ =~= v.drop_first());
                }
                continue;
            }
            if self.len < 2 {
                return None;  // need LEN
            }
            let len_field = self.buf[1] as usize;
            if len_field == 0 || len_field - 1 > PAYLOAD_MAX {
                // implausible length: resync
                let ghost v = self@;
                self.drop_front(1);
                proof {
                    assert(self@ =~= v.drop_first());
                }
                continue;
            }
            let total = len_field + 4;
            if self.len < total {
                return None;  // frame not fully arrived yet
            }
            let end_ok = self.buf[len_field + 2] == END;
            let crc = crc8(slice_range(&self.buf, 2, 2 + len_field));
            let crc_ok = self.buf[len_field + 3] == crc;
            proof {
                assert(self.buf@.subrange(2, 2 + len_field as int) =~= self@.subrange(
                    2,
                    2 + len_field as int,
                ));
            }
            if !end_ok || !crc_ok {
                // misframe: resync past this START
                let ghost v = self@;
                self.drop_front(1);
                proof {
                    assert(self@ =~= v.drop_first());
                }
                continue;
            }
            let payload_len = len_field - 1;
            let mut payload = [0u8; 24];
            let mut i: usize = 0;
            while i < payload_len
                invariant
                    payload_len <= PAYLOAD_MAX,
                    payload_len + 4 <= self.len,
                    self.len <= DECODER_CAP,
                    i <= payload_len,
                    forall|j: int| 0 <= j < i ==> payload@[j] == self.buf@[3 + j],
                    forall|j: int| i <= j < PAYLOAD_MAX ==> payload@[j] == 0u8,
                decreases payload_len - i,
            {
                payload[i] = self.buf[3 + i];
                i = i + 1;
            }
            let frame = Frame { code: self.buf[2], payload, len: payload_len };
            proof {
                assert(frame.spec_payload() =~= self@.subrange(3, len_field + 2));
                assert(frame.payload@ =~= padded_payload(frame.spec_payload()));
            }
            let ghost v = self@;
            self.drop_front(total);
            proof {
                assert(self@ =~= v.subrange(total as int, v.len() as int));
            }
            return Some(frame);
        }
    }

    /// Forget the oldest `n` buffered bytes.
    fn drop_front(&mut self, n: usize)
        requires
            n <= old(self)@.len(),
        ensures
            final(self)@ == old(self)@.subrange(n as int, old(self)@.len() as int),
    {
        proof {
            use_type_invariant(&*self);
        }
        let ghost before = self.buf@;
        let keep = self.len - n;
        let mut i: usize = 0;
        while i < keep
            invariant
                keep + n == self.len,
                self.len <= DECODER_CAP,
                i <= keep,
                self.buf@.len() == DECODER_CAP,
                forall|j: int| 0 <= j < i ==> self.buf@[j] == before[j + n],
                forall|j: int| i <= j < DECODER_CAP ==> self.buf@[j] == before[j],
            decreases keep - i,
        {
            self.buf[i] = self.buf[i + n];
            i = i + 1;
        }
        self.len = keep;
        proof {
            assert(self@ =~= before.subrange(0, (keep + n) as int).subrange(
                n as int,
                (keep + n) as int,
            ));
        }
    }
}

/// Pushing onto a window already cut to `cap` is cutting the whole.
proof fn lemma_keep_last_push(s: Seq<u8>, b: u8, cap: nat)
    requires
        cap > 0,
    ensures
        keep_last(keep_last(s, cap).push(b), cap) == keep_last(s.push(b), cap),
{
    assert(keep_last(keep_last(s, cap).push(b), cap) =~= keep_last(s.push(b), cap));
}

/// A `pop` never grows the buffer, and shrinks it whenever it yields a frame.
pub proof fn lemma_pop_shrinks(s: Seq<u8>)
    ensures
        spec_pop(s).1.len() <= s.len(),
        spec_pop(s).0 is Some ==> spec_pop(s).1.len() < s.len(),
    decreases s.len(),
{
    if s.len() > 0 {
        match scan_head(s) {
            Scan::Skip => lemma_pop_shrinks(s.drop_first()),
            _ => {},
        }
    }
}

/// Repeated `pop`s over buffered bytes `s` until one yields nothing: the
/// frames found, oldest first, and the bytes left buffered.
pub open spec fn spec_drain(s: Seq<u8>) -> (Seq<(u8, Seq<u8>)>, Seq<u8>)
    decreases s.len(),
{
    let (found, rest) = spec_pop(s);
    match found {
        None => (Seq::empty(), rest),
        Some(f) => if rest.len() < s.len() {
            let (fs, left) = spec_drain(rest);
            (seq![f] + fs, left)
        } else {
            (seq![f], rest)
        },
    }
}

/// Draining after a pop that yielded `f` is `f` followed by draining the rest.
pub proof fn lemma_drain_step(s: Seq<u8>)
    requires
        spec_pop(s).0 is Some,
    ensures
        spec_drain(s).0 == seq![spec_pop(s).0->0] + spec_drain(spec_pop(s).1).0,
        spec_drain(s).1 == spec_drain(spec_pop(s).1).1,
{
    lemma_pop_shrinks(s);
}

// ---------------------------------------------------------------------------
// Laws
// ---------------------------------------------------------------------------

/// Round trip: a frame the encoder produces, followed by any further bytes, is
/// popped back whole (same code, same payload) and exactly the following bytes
/// stay buffered.
pub proof fn lemma_pop_encoded(code: u8, payload: Seq<u8>, rest: Seq<u8>)
    requires
        payload.len() <= PAYLOAD_MAX,
    ensures
        spec_pop(encode_frame(code, payload) + rest) == (Some((code, payload)), rest),
{
    let f = encode_frame(code, payload);
    let s = f + rest;
    let n = payload.len();
    assert(f.len() == n + 5);
    assert(s[0] == START);
    assert(s[1] == (n + 1) as u8);
    assert(s[1] == n + 1);
    assert(s[s[1] + 2] == END);
    assert(s.subrange(2, 2 + s[1]) =~= seq![code] + payload);
    assert(s[s[1] + 3] == spec_crc8(seq![code] + payload));
    assert(scan_head(s) is Found);
    assert(s.subrange(3, s[1] + 2) =~= payload);
    assert(s.subrange(s[1] + 4, s.len() as int) =~= rest);
}

/// Resync: bytes that hold no `START` byte, received before a frame, are
/// discarded and the frame is still popped whole.
pub proof fn lemma_pop_skips_noise(noise: Seq<u8>, code: u8, payload: Seq<u8>, rest: Seq<u8>)
    requires
        payload.len() <= PAYLOAD_MAX,
        forall|i: int| 0 <= i < noise.len() ==> noise[i] != START,
    ensures
        spec_pop(noise + encode_frame(code, payload) + rest) == (Some((code, payload)), rest),
    decreases noise.len(),
{
    if noise.len() == 0 {
        assert(noise + encode_frame(code, payload) + rest =~= encode_frame(code, payload) + rest);
        lemma_pop_encoded(code, payload, rest);
    } else {
        let s = noise + encode_frame(code, payload) + rest;
        assert(s[0] == noise[0]);
        assert(scan_head(s) is Skip);
        assert(s.drop_first() =~= noise.drop_first() + encode_frame(code, payload) + rest);
        lemma_pop_skips_noise(noise.drop_first(), code, payload, rest);
    }
}

// ---------------------------------------------------------------------------
// Encoder
// ---------------------------------------------------------------------------

/// Builds ucPack frames into a reused scratch buffer.
///
/// Each `c*` method mirrors a ucPack packer (`packetC1B`, …), writing the
/// framed bytes and returning the slice ready to hand to the UART. No
/// allocation: the scratch is a fixed [`FRAME_MAX`] array.
pub struct Encoder {
    buf: [u8; 29],
}

impl Default for Encoder {
    fn default() -> (r: Self)
        ensures
            r.scratch() == Seq::new(FRAME_MAX as nat, |i: int| 0u8),
    {
        Encoder::new()
    }
}

impl Encoder {
    /// An encoder with a zeroed scratch buffer.
    pub fn new() -> (r: Self)
        ensures
            r.scratch() == Seq::new(FRAME_MAX as nat, |i: int| 0u8),
    {
        let r = Encoder { buf: [0u8; 29] };
        proof {
            assert(r.buf@ =~= Seq::new(FRAME_MAX as nat, |i: int| 0u8));
        }
        r
    }

    /// The scratch buffer's current bytes.
    pub closed spec fn scratch(&self) -> Seq<u8> {
        self.buf@
    }

    /// Frame `code` + `payload` into the scratch and return the full frame.
    pub fn frame(&mut self, code: u8, payload: &[u8]) -> (r: &[u8])
        requires
            payload@.len() <= PAYLOAD_MAX,
        ensures
            r@ == encode_frame(code, payload@),
            final(self).scratch().subrange(0, r@.len() as int) == r@,
            final(self).scratch().len() == FRAME_MAX,
    {
        let n = payload.len();
        let len = 1 + n;
        self.buf[0] = START;
        self.buf[1] = len as u8;
        self.buf[2] = code;
        let mut i: usize = 0;
        while i < n
            invariant
                n == payload@.len(),
                n <= PAYLOAD_MAX,
                i <= n,
                self.buf@.len() == FRAME_MAX,
                self.buf@[0] == START,
                self.buf@[1] == (n + 1) as u8,
                self.buf@[2] == code,
                forall|j: int| 0 <= j < i ==> self.buf@[3 + j] == payload@[j],
            decreases n - i,
        {
            self.buf[3 + i] = payload[i];
            i = i + 1;
        }
        proof {
            assert(self.buf@.subrange(2, 2 + len as int) =~= seq![code] + payload@);
        }
        let crc = crc8(slice_range(&self.buf, 2, 2 + len));
        self.buf[2 + len] = END;
        self.buf[3 + len] = crc;
        let r = slice_prefix(&self.buf, len + 4);
        proof {
            assert(r@ =~= encode_frame(code, payload@));
        }
        r
    }

    /// 1 × `u8`.
    pub fn c1b(&mut self, code: u8, a: u8) -> (r: &[u8])
        ensures
            r@ == encode_frame(code, seq![a]),
    {
        let payload = [a];
        proof {
            assert(payload@ =~= seq![a]);
        }
        self.frame(code, &payload)
    }

    /// 2 × `u8`.
    pub fn c2b(&mut self, code: u8, a: u8, b: u8) -> (r: &[u8])
        ensures
            r@ == encode_frame(code, seq![a, b]),
    {
        let payload = [a, b];
        proof {
            assert(payload@ =~= seq![a, b]);
        }
        self.frame(code, &payload)
    }

    /// 3 × `u8`.
    pub fn c3b(&mut self, code: u8, a: u8, b: u8, c: u8) -> (r: &[u8])
        ensures
            r@ == encode_frame(code, seq![a, b, c]),
    {
        let payload = [a, b, c];
        proof {
            assert(payload@ =~= seq![a, b, c]);
        }
        self.frame(code, &payload)
    }

    /// 1 × 32-bit float, given as its IEEE-754 bit pattern.
    pub fn c1f(&mut self, code: u8, a: u32) -> (r: &[u8])
        ensures
            r@ == encode_frame(code, le_bytes(a)),
    {
        let payload = [byte_at(a, 0), byte_at(a, 1), byte_at(a, 2), byte_at(a, 3)];
        proof {
            assert(payload@ =~= le_bytes(a));
        }
        self.frame(code, &payload)
    }

    /// 2 × 32-bit float, given as IEEE-754 bit patterns.
    pub fn c2f(&mut self, code: u8, a: u32, b: u32) -> (r: &[u8])
        ensures
            r@ == encode_frame(code, le_bytes(a) + le_bytes(b)),
    {
        let payload = [
            byte_at(a, 0), byte_at(a, 1), byte_at(a, 2), byte_at(a, 3),
            byte_at(b, 0), byte_at(b, 1), byte_at(b, 2), byte_at(b, 3),
        ];
        proof {
            assert(payload@ =~= le_bytes(a) + le_bytes(b));
        }
        self.frame(code, &payload)
    }

    /// 3 × 32-bit float, given as IEEE-754 bit patterns.
    pub fn c3f(&mut self, code: u8, a: u32, b: u32, c: u32) -> (r: &[u8])
        ensures
            r@ == encode_frame(code, le_bytes(a) + le_bytes(b) + le_bytes(c)),
    {
        let payload = [
            byte_at(a, 0), byte_at(a, 1), byte_at(a, 2), byte_at(a, 3),
            byte_at(b, 0), byte_at(b, 1), byte_at(b, 2), byte_at(b, 3),
            byte_at(c, 0), byte_at(c, 1), byte_at(c, 2), byte_at(c, 3),
        ];
        proof {
            assert(payload@ =~= le_bytes(a) + le_bytes(b) + le_bytes(c));
        }
        self.frame(code, &payload)
    }

    /// `u8` + 3 × 32-bit float (wheel PID gains), floats as bit patterns.
    pub fn c1b3f(&mut self, code: u8, a: u8, x: u32, y: u32, z: u32) -> (r: &[u8])
        ensures
            r@ == encode_frame(code, seq![a] + le_bytes(x) + le_bytes(y) + le_bytes(z)),
    {
        let payload = [
            a,
            byte_at(x, 0), byte_at(x, 1), byte_at(x, 2), byte_at(x, 3),
            byte_at(y, 0), byte_at(y, 1), byte_at(y, 2), byte_at(y, 3),
            byte_at(z, 0), byte_at(z, 1), byte_at(z, 2), byte_at(z, 3),
        ];
        proof {
            assert(payload@ =~= seq![a] + le_bytes(x) + le_bytes(y) + le_bytes(z));
        }
        self.frame(code, &payload)
    }

    /// 2 × `u8` + 32-bit float (per-wheel label/sub-command + value).
    pub fn c2b1f(&mut self, code: u8, a: u8, b: u8, x: u32) -> (r: &[u8])
        ensures
            r@ == encode_frame(code, seq![a, b] + le_bytes(x)),
    {
        let payload = [a, b, byte_at(x, 0), byte_at(x, 1), byte_at(x, 2), byte_at(x, 3)];
        proof {
            assert(payload@ =~= seq![a, b] + le_bytes(x));
        }
        self.frame(code, &payload)
    }
}

/// The little-endian bytes of `x`, least significant first.
pub open spec fn le_bytes(x: u32) -> Seq<u8> {
    seq![x as u8, (x >> 8u32) as u8, (x >> 16u32) as u8, (x >> 24u32) as u8]
}

/// Byte `i` (0 = least significant) of `x`.
pub(crate) fn byte_at(x: u32, i: u32) -> (r: u8)
    requires
        i < 4,
    ensures
        r == le_bytes(x)[i as int],
{
    if i == 0 {
        x as u8
    } else if i == 1 {
        (x >> 8u32) as u8
    } else if i == 2 {
        (x >> 16u32) as u8
    } else {
        (x >> 24u32) as u8
    }
}

/// Reading back the little-endian bytes of a word gives the word.
pub proof fn lemma_le_u32_of_le_bytes(x: u32)
    ensures
        le_u32(le_bytes(x)[0], le_bytes(x)[1], le_bytes(x)[2], le_bytes(x)[3]) == x,
{
    let b0 = x as u8;
    let b1 = (x >> 8u32) as u8;
    let b2 = (x >> 16u32) as u8;
    let b3 = (x >> 24u32) as u8;
    assert(le_u32(b0, b1, b2, b3) == x) by (bit_vector)
        requires
            b0 == x as u8,
            b1 == (x >> 8u32) as u8,
            b2 == (x >> 16u32) as u8,
            b3 == (x >> 24u32) as u8,
    ;
}


} // verus!
