//! The mDNS wire format: the minimal DNS (RFC 1035) subset for single-label
//! `.local` `A` records, used by the responder (answer queries for our own
//! `hostname.local`) and the resolver (query a peer's name, match its answer).
//!
//! Names here are exactly two labels: `<label>` + `local`. Everything we emit
//! is uncompressed; when scanning inbound packets we skip over compression
//! pointers but never follow them.
use crate::text::slice_range;
use vstd::prelude::*;
use vstd::string::StringSliceAdditionalSpecFns;

verus! {

/// DNS `TYPE` for an IPv4 host address (`A`).
pub const TYPE_A: u16 = 1;

/// DNS `CLASS` `IN` (internet). mDNS sets the top bit for cache-flush /
/// unicast hints; it is masked off when comparing.
pub const CLASS_IN: u16 = 1;

/// Mask for the cache-flush / unicast-response bit mDNS overloads onto
/// `CLASS`.
pub const CLASS_MASK: u16 = 0x7fff;

/// `.local` suffix every mDNS name carries.
pub const LOCAL_SUFFIX: &'static str = ".local";

// ---------------------------------------------------------------------------
// Byte-level model
// ---------------------------------------------------------------------------

/// The bytes of the second label, `local`.
pub open spec fn local_label() -> Seq<u8> {
    seq![0x6Cu8, 0x6F, 0x63, 0x61, 0x6C]
}

/// Big-endian bytes of a 16-bit value.
pub open spec fn be16(v: u16) -> Seq<u8> {
    seq![(v / 256) as u8, (v % 256) as u8]
}

/// Big-endian bytes of a 32-bit value.
pub open spec fn be32(v: u32) -> Seq<u8> {
    seq![(v / 0x100_0000) as u8, ((v / 0x1_0000) % 256) as u8, ((v / 256) % 256) as u8, (v % 256) as u8]
}

/// A DNS label the writer accepts: 1..=63 bytes.
pub open spec fn valid_label(label: Seq<u8>) -> bool {
    1 <= label.len() <= 63
}

/// `<label>.local` as DNS labels terminated by a zero byte.
pub open spec fn name_bytes(label: Seq<u8>) -> Seq<u8> {
    seq![label.len() as u8] + label + seq![5u8] + local_label() + seq![0u8]
}

/// A 12-byte DNS header: id 0, `flags`, and the four section counts.
pub open spec fn header(flags: u16, qd: u16, an: u16) -> Seq<u8> {
    be16(0) + be16(flags) + be16(qd) + be16(an) + be16(0) + be16(0)
}

/// The header of a multicast `A` query: standard query, one question.
pub open spec fn query_header() -> Seq<u8> {
    header(0, 1, 0)
}

/// The header of an unsolicited authoritative answer (QR=1, AA=1), one answer.
pub open spec fn answer_header() -> Seq<u8> {
    header(0x8400, 0, 1)
}

/// A multicast `A` query for `label.local`.
pub open spec fn query_packet(label: Seq<u8>) -> Seq<u8> {
    query_header() + name_bytes(label) + be16(TYPE_A) + be16(CLASS_IN)
}

/// An `A` answer advertising `label.local -> ip`: cache-flush bit set with
/// class `IN`, a 120 s TTL, and the 4 address bytes.
pub open spec fn answer_packet(label: Seq<u8>, ip: Seq<u8>) -> Seq<u8> {
    answer_header() + name_bytes(label) + be16(TYPE_A) + be16(0x8001) + be32(120) + be16(4) + ip
}

/// `buf` with `data` written from `pos` on, as far as `buf` reaches.
pub open spec fn write_at(buf: Seq<u8>, pos: int, data: Seq<u8>) -> Seq<u8> {
    Seq::new(
        buf.len(),
        |i: int| if pos <= i < pos + data.len() { data[i - pos] } else { buf[i] },
    )
}

/// What a build leaves in its buffer: the whole packet when the label is
/// valid, only the header otherwise (the name is refused before it is
/// written). Bytes past the buffer's end are never written.
pub open spec fn built(label: Seq<u8>, packet: Seq<u8>) -> Seq<u8> {
    if valid_label(label) {
        packet
    } else {
        packet.subrange(0, 12)
    }
}

proof fn lemma_write_at_concat(buf: Seq<u8>, pos: int, a: Seq<u8>, b: Seq<u8>)
    requires
        0 <= pos,
        pos + a.len() <= buf.len(),
    ensures
        write_at(write_at(buf, pos, a), pos + a.len(), b) == write_at(buf, pos, a + b),
{
    assert(write_at(write_at(buf, pos, a), pos + a.len(), b) =~= write_at(buf, pos, a + b));
}

proof fn lemma_write_at_empty(buf: Seq<u8>, pos: int)
    ensures
        write_at(buf, pos, Seq::empty()) == buf,
{
    assert(write_at(buf, pos, Seq::empty()) =~= buf);
}

// ---------------------------------------------------------------------------
// Writer
// ---------------------------------------------------------------------------

/// Forward-only writer position over a caller's fixed buffer; every method
/// returns `None` on overflow so a too-long name fails the whole build
/// cleanly.
pub struct Writer {
    /// Bytes written so far.
    pub pos: usize,
}

impl Writer {
    /// A writer at the start of its buffer.
    pub fn new() -> (r: Self)
        ensures
            r.pos == 0,
    {
        Writer { pos: 0 }
    }

    /// Write one byte.
    pub fn u8(&mut self, buf: &mut [u8], v: u8) -> (r: Option<()>)
        ensures
            final(buf)@ == write_at(old(buf)@, old(self).pos as int, seq![v]),
            r is Some <==> old(self).pos + 1 <= old(buf)@.len(),
            r is Some ==> final(self).pos == old(self).pos + 1,
    {
        if self.pos < buf.len() {
            buf[self.pos] = v;
            self.pos = self.pos + 1;
            proof {
                assert(buf@ =~= write_at(old(buf)@, old(self).pos as int, seq![v]));
            }
            Some(())
        } else {
            proof {
                assert(buf@ =~= write_at(old(buf)@, old(self).pos as int, seq![v]));
            }
            None
        }
    }

    /// Write `data` byte by byte, stopping at the buffer's end.
    pub fn bytes(&mut self, buf: &mut [u8], data: &[u8]) -> (r: Option<()>)
        requires
            data@.len() > 0,
        ensures
            final(buf)@ == write_at(old(buf)@, old(self).pos as int, data@),
            r is Some <==> old(self).pos + data@.len() <= old(buf)@.len(),
            r is Some ==> final(self).pos == old(self).pos + data@.len(),
    {
        let ghost start = self.pos as int;
        let ghost original = buf@;
        let mut i: usize = 0;
        proof {
            lemma_write_at_empty(original, start);
            assert(data@.subrange(0, 0) =~= Seq::<u8>::empty());
        }
        while i < data.len()
            invariant
                start == old(self).pos,
                original == old(buf)@,
                i <= data@.len(),
                self.pos == start + i,
                i > 0 ==> start + i <= original.len(),
                buf@.len() == original.len(),
                buf@ == write_at(original, start, data@.subrange(0, i as int)),
            decreases data@.len() - i,
        {
            let ghost before = buf@;
            if self.u8(buf, data[i]).is_none() {
                proof {
                    assert(buf@ =~= write_at(original, start, data@));
                }
                return None;
            }
            proof {
                lemma_write_at_concat(original, start, data@.subrange(0, i as int), seq![data@[i as int]]);
                assert(data@.subrange(0, i as int) + seq![data@[i as int]] =~= data@.subrange(0, i + 1));
            }
            i = i + 1;
        }
        proof {
            assert(data@.subrange(0, data@.len() as int) =~= data@);
        }
        Some(())
    }

    /// Write a big-endian 16-bit value.
    pub fn u16(&mut self, buf: &mut [u8], v: u16) -> (r: Option<()>)
        ensures
            final(buf)@ == write_at(old(buf)@, old(self).pos as int, be16(v)),
            r is Some <==> old(self).pos + 2 <= old(buf)@.len(),
            r is Some ==> final(self).pos == old(self).pos + 2,
    {
        let data = [(v >> 8) as u8, v as u8];
        proof {
            assert((v >> 8u16) as u8 == (v / 256) as u8 && v as u8 == (v % 256) as u8) by (bit_vector);
            assert(data@ =~= be16(v));
        }
        self.bytes(buf, &data)
    }

    /// Write a big-endian 32-bit value.
    pub fn u32(&mut self, buf: &mut [u8], v: u32) -> (r: Option<()>)
        ensures
            final(buf)@ == write_at(old(buf)@, old(self).pos as int, be32(v)),
            r is Some <==> old(self).pos + 4 <= old(buf)@.len(),
            r is Some ==> final(self).pos == old(self).pos + 4,
    {
        let data = [(v >> 24) as u8, (v >> 16) as u8, (v >> 8) as u8, v as u8];
        proof {
            assert((v >> 24u32) as u8 == (v / 0x100_0000) as u8 && (v >> 16u32) as u8 == ((v
                / 0x1_0000) % 256) as u8 && (v >> 8u32) as u8 == ((v / 256) % 256) as u8 && v as u8
                == (v % 256) as u8) by (bit_vector);
            assert(data@ =~= be32(v));
        }
        self.bytes(buf, &data)
    }

    /// Write `<label>.local` as DNS labels terminated by a zero byte. Each
    /// label must be 1..=63 bytes; an invalid label is refused before any of
    /// the name is written.
    pub fn name(&mut self, buf: &mut [u8], label: &str) -> (r: Option<()>)
        ensures
            valid_label(label.spec_bytes()) ==> final(buf)@ == write_at(
                old(buf)@,
                old(self).pos as int,
                name_bytes(label.spec_bytes()),
            ),
            !valid_label(label.spec_bytes()) ==> final(buf)@ == old(buf)@,
            r is Some <==> valid_label(label.spec_bytes()) && old(self).pos + name_bytes(
                label.spec_bytes(),
            ).len() <= old(buf)@.len(),
            r is Some ==> final(self).pos == old(self).pos + name_bytes(label.spec_bytes()).len(),
    {
        let bytes = label.as_bytes();
        let ghost l = bytes@;
        let ghost start = self.pos as int;
        let ghost original = buf@;
        if bytes.len() == 0 || bytes.len() > 63 {
            return None;
        }
        let head = [bytes.len() as u8];
        let tail = [5u8, 0x6C, 0x6F, 0x63, 0x61, 0x6C, 0u8];
        proof {
            assert(head@ =~= seq![l.len() as u8]);
            assert(tail@ =~= seq![5u8] + local_label() + seq![0u8]);
            assert(name_bytes(l) =~= head@ + l + tail@);
        }
        if self.bytes(buf, &head).is_none() {
            proof {
                assert(buf@ =~= write_at(original, start, name_bytes(l)));
            }
            return None;
        }
        let ghost after_head = buf@;
        if self.bytes(buf, bytes).is_none() {
            proof {
                lemma_write_at_concat(original, start, head@, l);
                assert(buf@ =~= write_at(original, start, name_bytes(l)));
            }
            return None;
        }
        proof {
            lemma_write_at_concat(original, start, head@, l);
        }
        let r = self.bytes(buf, &tail);
        proof {
            lemma_write_at_concat(original, start, head@ + l, tail@);
            assert(head@ + l + tail@ =~= name_bytes(l));
        }
        r
    }
}

/// Build a multicast `A` query for `label.local` into `buf`, returning its
/// length. `None` if the label is not 1..=63 bytes or the query does not fit.
pub fn build_query(buf: &mut [u8], label: &str) -> (r: Option<usize>)
    ensures
        final(buf)@ == write_at(old(buf)@, 0, built(label.spec_bytes(), query_packet(label.spec_bytes()))),
        r is Some <==> valid_label(label.spec_bytes()) && query_packet(label.spec_bytes()).len() <= old(
            buf,
        )@.len(),
        r matches Some(n) ==> n == query_packet(label.spec_bytes()).len(),
{
    let ghost l = label.spec_bytes();
    let ghost original = buf@;
    let mut w = Writer::new();
    let ghost h = query_header();
    proof {
        lemma_write_at_empty(original, 0);
        assert(h =~= be16(0) + be16(0) + be16(1) + be16(0) + be16(0) + be16(0));
        assert(query_packet(l).subrange(0, 12) =~= h);
    }
    let r = build_query_header(&mut w, buf);
    if r.is_none() {
        proof {
            assert(query_packet(l) =~= h + (name_bytes(l) + be16(TYPE_A) + be16(CLASS_IN)));
            assert(built(l, query_packet(l)).subrange(0, 12) =~= h);
            assert(write_at(original, 0, built(l, query_packet(l))) =~= write_at(original, 0, h));
        }
        return None;
    }
    let ghost after_header = buf@;
    let n = w.name(buf, label);
    if n.is_none() {
        proof {
            if valid_label(l) {
                lemma_write_at_concat(original, 0, h, name_bytes(l));
                assert(write_at(original, 0, query_packet(l)) =~= write_at(original, 0, h + name_bytes(l)));
            } else {
                assert(query_packet(l).subrange(0, 12) =~= h);
            }
        }
        return None;
    }
    proof {
        lemma_write_at_concat(original, 0, h, name_bytes(l));
    }
    let t = w.u16(buf, TYPE_A);
    proof {
        lemma_write_at_concat(original, 0, h + name_bytes(l), be16(TYPE_A));
    }
    if t.is_none() {
        proof {
            assert(write_at(original, 0, query_packet(l)) =~= buf@);
        }
        return None;
    }
    let c = w.u16(buf, CLASS_IN);
    proof {
        lemma_write_at_concat(original, 0, h + name_bytes(l) + be16(TYPE_A), be16(CLASS_IN));
        assert(h + name_bytes(l) + be16(TYPE_A) + be16(CLASS_IN) =~= query_packet(l));
    }
    if c.is_none() {
        return None;
    }
    Some(w.pos)
}

/// The query header: id 0, standard query flags, one question.
fn build_query_header(w: &mut Writer, buf: &mut [u8]) -> (r: Option<()>)
    ensures
        final(buf)@ == write_at(old(buf)@, old(w).pos as int, query_header()),
        r is Some <==> old(w).pos + 12 <= old(buf)@.len(),
        r is Some ==> final(w).pos == old(w).pos + 12,
{
    let data = [0u8, 0, 0, 0, 0, 1, 0, 0, 0, 0, 0, 0];
    proof {
        assert(data@ =~= query_header());
    }
    w.bytes(buf, &data)
}

/// The answer header: id 0, QR=1 + AA=1 flags, one answer.
fn build_answer_header(w: &mut Writer, buf: &mut [u8]) -> (r: Option<()>)
    ensures
        final(buf)@ == write_at(old(buf)@, old(w).pos as int, answer_header()),
        r is Some <==> old(w).pos + 12 <= old(buf)@.len(),
        r is Some ==> final(w).pos == old(w).pos + 12,
{
    let data = [0u8, 0, 0x84, 0, 0, 0, 0, 1, 0, 0, 0, 0];
    proof {
        assert(data@ =~= answer_header());
    }
    w.bytes(buf, &data)
}

/// The record tail of an answer: type `A`, cache-flush + `IN`, 120 s TTL,
/// 4-byte rdata length, then the address.
pub open spec fn answer_tail(ip: Seq<u8>) -> Seq<u8> {
    be16(TYPE_A) + be16(0x8001) + be32(120) + be16(4) + ip
}

/// Build an `A` answer advertising `label.local -> ip` into `buf`, returning
/// its length. Sent as an unsolicited authoritative response (QR=1, AA=1), the
/// mDNS convention. `None` if the label is invalid or the answer does not fit.
pub fn build_answer(buf: &mut [u8], label: &str, ip: [u8; 4]) -> (r: Option<usize>)
    ensures
        final(buf)@ == write_at(
            old(buf)@,
            0,
            built(label.spec_bytes(), answer_packet(label.spec_bytes(), ip@)),
        ),
        r is Some <==> valid_label(label.spec_bytes()) && answer_packet(
            label.spec_bytes(),
            ip@,
        ).len() <= old(buf)@.len(),
        r matches Some(n) ==> n == answer_packet(label.spec_bytes(), ip@).len(),
{
    let ghost l = label.spec_bytes();
    let ghost original = buf@;
    let ghost h = answer_header();
    let mut w = Writer::new();
    proof {
        assert(answer_packet(l, ip@) =~= h + name_bytes(l) + answer_tail(ip@));
        assert(answer_packet(l, ip@).subrange(0, 12) =~= h);
    }
    if build_answer_header(&mut w, buf).is_none() {
        proof {
            assert(built(l, answer_packet(l, ip@)).subrange(0, 12) =~= h);
            assert(write_at(original, 0, built(l, answer_packet(l, ip@))) =~= write_at(
                original,
                0,
                h,
            ));
        }
        return None;
    }
    if w.name(buf, label).is_none() {
        proof {
            if valid_label(l) {
                lemma_write_at_concat(original, 0, h, name_bytes(l));
                assert(write_at(original, 0, answer_packet(l, ip@)) =~= write_at(
                    original,
                    0,
                    h + name_bytes(l),
                ));
            }
        }
        return None;
    }
    proof {
        lemma_write_at_concat(original, 0, h, name_bytes(l));
    }
    let tail = [
        0u8, 1,  // TYPE_A
        0x80, 0x01,  // cache-flush + IN
        0, 0, 0, 120,  // TTL
        0, 4,  // RDLENGTH
        ip[0], ip[1], ip[2], ip[3],
    ];
    proof {
        assert(tail@ =~= answer_tail(ip@));
    }
    let r = w.bytes(buf, &tail);
    proof {
        lemma_write_at_concat(original, 0, h + name_bytes(l), answer_tail(ip@));
    }
    if r.is_none() {
        return None;
    }
    Some(w.pos)
}

// ---------------------------------------------------------------------------
// Reader
// ---------------------------------------------------------------------------

/// The big-endian 16-bit value at `p`.
pub open spec fn rd_be16(pkt: Seq<u8>, p: int) -> u16 {
    (pkt[p] as int * 256 + pkt[p + 1] as int) as u16
}

/// The big-endian 32-bit value at `p`.
pub open spec fn rd_be32(pkt: Seq<u8>, p: int) -> u32 {
    (rd_be16(pkt, p) as int * 0x1_0000 + rd_be16(pkt, p + 2) as int) as u32
}

/// ASCII lower-casing of one byte (other bytes unchanged).
pub open spec fn lower(b: u8) -> u8 {
    if 0x41 <= b <= 0x5A {
        (b + 32) as u8
    } else {
        b
    }
}

/// ASCII case-insensitive equality of two byte strings.
pub open spec fn eq_ignore_case(a: Seq<u8>, b: Seq<u8>) -> bool {
    a.len() == b.len() && forall|i: int| 0 <= i < a.len() ==> lower(#[trigger] a[i]) == lower(b[i])
}

/// The label expected at position `idx` of `<label>.local`.
pub open spec fn expected_label(idx: int, label: Seq<u8>) -> Seq<u8> {
    if idx == 0 {
        label
    } else {
        local_label()
    }
}

/// Compare the name at `pos` against `<label>.local` case-insensitively,
/// having already matched `idx` labels (`-1` once a label has failed):
/// whether it matched, and the position past the name. A compression pointer
/// ends the name as a non-match; a truncated name is a non-match whose
/// position lies past the packet's end, so every later read fails.
pub open spec fn scan_name(pkt: Seq<u8>, pos: int, label: Seq<u8>, idx: int) -> (bool, int)
    decreases pkt.len() - pos,
{
    if pos < 0 || pos >= pkt.len() {
        (false, pos)
    } else {
        let len = pkt[pos];
        let p1 = pos + 1;
        if len & 0xc0u8 == 0xc0u8 {
            (false, if p1 < pkt.len() { p1 + 1 } else { p1 })
        } else if len == 0 {
            (idx == 2, p1)
        } else if p1 + len > usize::MAX {
            (false, p1)
        } else if p1 + len > pkt.len() {
            (false, p1 + len)
        } else {
            let ok = 0 <= idx < 2 && eq_ignore_case(
                pkt.subrange(p1, p1 + len),
                expected_label(idx, label),
            );
            scan_name(pkt, p1 + len, label, if ok { idx + 1 } else { -1 })
        }
    }
}

/// The position past the name at `pos`, or `None` when it is truncated or
/// uses a reserved length code.
pub open spec fn scan_skip_name(pkt: Seq<u8>, pos: int) -> Option<int>
    decreases pkt.len() - pos,
{
    if pos < 0 || pos >= pkt.len() {
        None
    } else {
        let len = pkt[pos];
        let p1 = pos + 1;
        if len & 0xc0u8 == 0xc0u8 {
            if p1 < pkt.len() {
                Some(p1 + 1)
            } else {
                None
            }
        } else if len & 0xc0u8 == 0 {
            if len == 0 {
                Some(p1)
            } else if p1 + len <= pkt.len() {
                scan_skip_name(pkt, p1 + len)
            } else {
                None
            }
        } else {
            None
        }
    }
}

/// Whether one of `k` questions from `pos` on asks for `host.local` type `A`
/// class `IN` (cache-flush bit ignored). A truncated question ends the scan
/// with no match.
pub open spec fn questions_hit(pkt: Seq<u8>, pos: int, k: nat, host: Seq<u8>) -> bool
    decreases k,
{
    if k == 0 {
        false
    } else {
        let (matched, p) = scan_name(pkt, pos, host, 0);
        if p + 4 > pkt.len() {
            false
        } else if matched && rd_be16(pkt, p) == TYPE_A && rd_be16(pkt, p + 2) & CLASS_MASK
            == CLASS_IN {
            true
        } else {
            questions_hit(pkt, p + 4, (k - 1) as nat, host)
        }
    }
}

/// `pkt` is a query (QR=0) with a question for `host.local` type `A`.
pub open spec fn spec_is_query_for(pkt: Seq<u8>, host: Seq<u8>) -> bool {
    pkt.len() >= 12 && rd_be16(pkt, 2) & 0x8000u16 == 0 && questions_hit(
        pkt,
        12,
        rd_be16(pkt, 4) as nat,
        host,
    )
}

/// The question at `pos` asks for `host.local` type `A` class `IN`
/// (cache-flush bit ignored), with its type and class inside the packet.
pub open spec fn asks_for_a(pkt: Seq<u8>, pos: int, host: Seq<u8>) -> bool {
    let (matched, p) = scan_name(pkt, pos, host, 0);
    &&& matched
    &&& p + 4 <= pkt.len()
    &&& rd_be16(pkt, p) == TYPE_A
    &&& rd_be16(pkt, p + 2) & CLASS_MASK == CLASS_IN
}

/// Where the `i`-th question from `pos` on starts, if every question before
/// it is whole.
pub open spec fn question_start(pkt: Seq<u8>, pos: int, i: nat, host: Seq<u8>) -> Option<int>
    decreases i,
{
    if i == 0 {
        Some(pos)
    } else {
        let p = scan_name(pkt, pos, host, 0).1;
        if p + 4 <= pkt.len() {
            question_start(pkt, p + 4, (i - 1) as nat, host)
        } else {
            None
        }
    }
}

/// Some question among the `k` from `pos` on asks for `host.local` type `A`.
pub open spec fn some_question_asks(pkt: Seq<u8>, pos: int, k: nat, host: Seq<u8>) -> bool {
    exists|i: nat|
        i < k && (#[trigger] question_start(pkt, pos, i, host)) is Some && asks_for_a(
            pkt,
            question_start(pkt, pos, i, host)->0,
            host,
        )
}

proof fn lemma_questions_hit_any(pkt: Seq<u8>, pos: int, k: nat, host: Seq<u8>)
    ensures
        questions_hit(pkt, pos, k, host) <==> some_question_asks(pkt, pos, k, host),
    decreases k,
{
    if k > 0 {
        let p = scan_name(pkt, pos, host, 0).1;
        assert(question_start(pkt, pos, 0, host) == Some(pos));
        if p + 4 > pkt.len() {
            assert forall|i: nat| i < k implies !((#[trigger] question_start(pkt, pos, i, host)) is Some
                && asks_for_a(pkt, question_start(pkt, pos, i, host)->0, host)) by {
                if i > 0 {
                    assert(question_start(pkt, pos, i, host) is None);
                }
            }
        } else if asks_for_a(pkt, pos, host) {
            assert(some_question_asks(pkt, pos, k, host));
        } else {
            lemma_questions_hit_any(pkt, p + 4, (k - 1) as nat, host);
            if some_question_asks(pkt, p + 4, (k - 1) as nat, host) {
                let i = choose|i: nat|
                    i < (k - 1) as nat && (#[trigger] question_start(pkt, p + 4, i, host)) is Some
                        && asks_for_a(pkt, question_start(pkt, p + 4, i, host)->0, host);
                assert(question_start(pkt, pos, i + 1, host) == question_start(pkt, p + 4, i, host));
                assert(some_question_asks(pkt, pos, k, host));
            }
            if some_question_asks(pkt, pos, k, host) {
                let i = choose|i: nat|
                    i < k && (#[trigger] question_start(pkt, pos, i, host)) is Some && asks_for_a(
                        pkt,
                        question_start(pkt, pos, i, host)->0,
                        host,
                    );
                assert(i != 0);
                let j = (i - 1) as nat;
                assert(question_start(pkt, pos, i, host) == question_start(pkt, p + 4, j, host));
                assert(some_question_asks(pkt, p + 4, (k - 1) as nat, host));
            }
        }
    }
}

/// A packet is a query for `host.local` exactly when it is a query (QR=0)
/// and some question among its QDCOUNT questions, not only the first, asks
/// for `host.local` type `A` class `IN`. Questions for other names or types
/// before or after that one change nothing.
pub proof fn lemma_query_for_any_question(pkt: Seq<u8>, host: Seq<u8>)
    ensures
        spec_is_query_for(pkt, host) <==> (pkt.len() >= 12 && rd_be16(pkt, 2) & 0x8000u16 == 0
            && some_question_asks(pkt, 12, rd_be16(pkt, 4) as nat, host)),
{
    lemma_questions_hit_any(pkt, 12, rd_be16(pkt, 4) as nat, host);
}

/// The position past `k` questions from `pos` on, or `None` if one is
/// truncated or malformed.
pub open spec fn skip_questions(pkt: Seq<u8>, pos: int, k: nat) -> Option<int>
    decreases k,
{
    if k == 0 {
        Some(pos)
    } else {
        match scan_skip_name(pkt, pos) {
            None => None,
            Some(p) => if p + 4 <= pkt.len() {
                skip_questions(pkt, p + 4, (k - 1) as nat)
            } else {
                None
            },
        }
    }
}

/// The address of the first of `k` answer records from `pos` on that is an
/// `A` record with 4 bytes of data for `label.local`; `None` if there is none
/// or a record is truncated first.
pub open spec fn answers_find(pkt: Seq<u8>, pos: int, k: nat, label: Seq<u8>) -> Option<Seq<u8>>
    decreases k,
{
    if k == 0 {
        None
    } else {
        let (matched, p) = scan_name(pkt, pos, label, 0);
        if p + 10 > pkt.len() {
            None
        } else {
            let rtype = rd_be16(pkt, p);
            let rdlen = rd_be16(pkt, p + 8);
            let p2 = p + 10;
            if matched && rtype == TYPE_A && rdlen == 4 {
                if p2 + 4 <= pkt.len() {
                    Some(pkt.subrange(p2, p2 + 4))
                } else {
                    None
                }
            } else if p2 + rdlen <= pkt.len() {
                answers_find(pkt, p2 + rdlen, (k - 1) as nat, label)
            } else {
                None
            }
        }
    }
}

/// If `pkt` is a response (QR=1) carrying an `A` record for `label.local`, the
/// record's IPv4 address.
pub open spec fn spec_parse_answer(pkt: Seq<u8>, label: Seq<u8>) -> Option<Seq<u8>> {
    if pkt.len() < 12 || rd_be16(pkt, 2) & 0x8000u16 == 0 {
        None
    } else {
        match skip_questions(pkt, 12, rd_be16(pkt, 4) as nat) {
            None => None,
            Some(p) => answers_find(pkt, p, rd_be16(pkt, 6) as nat, label),
        }
    }
}

/// Forward-only reader over a received packet, holding the parsed header.
/// Bounds-checked: any out-of-range read returns `None`.
pub struct Reader<'a> {
    /// The packet.
    pub buf: &'a [u8],
    /// Read position.
    pub pos: usize,
    /// Header flags word.
    pub flags: u16,
    /// Question count.
    pub qdcount: u16,
    /// Answer count.
    pub ancount: u16,
}

fn be16_exec(a: u8, b: u8) -> (r: u16)
    ensures
        r == (a as int * 256 + b as int) as u16,
{
    let r = ((a as u16) << 8u16) | (b as u16);
    assert(((a as u16) << 8u16) | (b as u16) == (a as int * 256 + b as int) as u16) by (bit_vector);
    r
}

/// ASCII lower-casing of one byte.
fn lower_exec(b: u8) -> (r: u8)
    ensures
        r == lower(b),
{
    if 0x41 <= b && b <= 0x5A {
        b + 32
    } else {
        b
    }
}

impl<'a> Reader<'a> {
    /// Parse the 12-byte header, leaving `pos` at the first question.
    pub fn new(buf: &'a [u8]) -> (r: Option<Self>)
        ensures
            r is Some <==> buf@.len() >= 12,
            r matches Some(r) ==> {
                &&& r.buf@ == buf@
                &&& r.pos == 12
                &&& r.flags == rd_be16(buf@, 2)
                &&& r.qdcount == rd_be16(buf@, 4)
                &&& r.ancount == rd_be16(buf@, 6)
            },
    {
        if buf.len() < 12 {
            return None;
        }
        let flags = be16_exec(buf[2], buf[3]);
        let qdcount = be16_exec(buf[4], buf[5]);
        let ancount = be16_exec(buf[6], buf[7]);
        Some(Reader { buf, pos: 12, flags, qdcount, ancount })
    }

    /// Read one byte.
    pub fn u8(&mut self) -> (r: Option<u8>)
        ensures
            final(self).buf == old(self).buf,
            final(self).flags == old(self).flags,
            final(self).qdcount == old(self).qdcount,
            final(self).ancount == old(self).ancount,
            r is Some <==> old(self).pos < old(self).buf@.len(),
            r is Some ==> r == Some(old(self).buf@[old(self).pos as int]),
            r is Some ==> final(self).pos == old(self).pos + 1,
            r is None ==> final(self).pos == old(self).pos,
    {
        if self.pos < self.buf.len() {
            let v = self.buf[self.pos];
            self.pos = self.pos + 1;
            Some(v)
        } else {
            None
        }
    }

    /// Read a big-endian 16-bit value.
    pub fn u16(&mut self) -> (r: Option<u16>)
        ensures
            final(self).buf == old(self).buf,
            final(self).flags == old(self).flags,
            final(self).qdcount == old(self).qdcount,
            final(self).ancount == old(self).ancount,
            r is Some <==> old(self).pos + 2 <= old(self).buf@.len(),
            r is Some ==> r == Some(rd_be16(old(self).buf@, old(self).pos as int)),
            r is Some ==> final(self).pos == old(self).pos + 2,
            r is None ==> final(self).pos <= old(self).pos + 1,
            r is None && old(self).pos >= old(self).buf@.len() ==> final(self).pos == old(self).pos,
    {
        let a = self.u8()?;
        let b = self.u8()?;
        Some(be16_exec(a, b))
    }

    /// Read a big-endian 32-bit value.
    pub fn u32(&mut self) -> (r: Option<u32>)
        ensures
            final(self).buf == old(self).buf,
            final(self).flags == old(self).flags,
            final(self).qdcount == old(self).qdcount,
            final(self).ancount == old(self).ancount,
            r is Some <==> old(self).pos + 4 <= old(self).buf@.len(),
            r is Some ==> r == Some(rd_be32(old(self).buf@, old(self).pos as int)),
            r is Some ==> final(self).pos == old(self).pos + 4,
    {
        let hi = self.u16()?;
        let lo = self.u16()?;
        let r = ((hi as u32) << 16u32) | (lo as u32);
        assert(((hi as u32) << 16u32) | (lo as u32) == (hi as int * 0x1_0000 + lo as int) as u32)
            by (bit_vector);
        Some(r)
    }

    /// Advance `n` bytes; `None` if that passes the packet's end (the position
    /// then lies past the end, or stays put if the sum would overflow).
    pub fn skip(&mut self, n: usize) -> (r: Option<()>)
        ensures
            final(self).buf == old(self).buf,
            final(self).flags == old(self).flags,
            final(self).qdcount == old(self).qdcount,
            final(self).ancount == old(self).ancount,
            r is Some <==> old(self).pos + n <= old(self).buf@.len(),
            r is Some ==> final(self).pos == old(self).pos + n,
            final(self).pos == (if old(self).pos + n <= usize::MAX {
                old(self).pos + n
            } else {
                old(self).pos as int
            }),
    {
        let len = self.buf.len();
        self.pos = self.pos.checked_add(n)?;
        if self.pos > len {
            return None;
        }
        Some(())
    }

    /// Advance past a DNS name (a run of length-prefixed labels ending in a
    /// zero byte, or terminated by a compression pointer). Does not decode it.
    pub fn skip_name(&mut self) -> (r: Option<()>)
        ensures
            final(self).buf == old(self).buf,
            final(self).flags == old(self).flags,
            final(self).qdcount == old(self).qdcount,
            final(self).ancount == old(self).ancount,
            r is Some <==> scan_skip_name(old(self).buf@, old(self).pos as int) is Some,
            r is Some ==> scan_skip_name(old(self).buf@, old(self).pos as int) == Some(
                final(self).pos as int,
            ),
    {
        let ghost pkt = self.buf@;
        let ghost start = self.pos as int;
        loop
            invariant
                self.buf@ == pkt,
                self.buf == old(self).buf,
                self.flags == old(self).flags,
                self.qdcount == old(self).qdcount,
                self.ancount == old(self).ancount,
                pkt == old(self).buf@,
                start == old(self).pos,
                scan_skip_name(pkt, self.pos as int) == scan_skip_name(pkt, start),
            decreases pkt.len() - self.pos,
        {
            let ghost p = self.pos as int;
            let len = match self.u8() {
                Some(len) => len,
                None => return None,
            };
            proof {
                assert(len == pkt[p]);
            }
            if len & 0xc0 == 0xc0 {
                // Compression pointer (top two bits set): one more byte, then
                // the name ends here.
                let r = self.u8();
                if r.is_none() {
                    return None;
                }
                return Some(());
            } else if len & 0xc0 == 0 {
                if len == 0 {
                    return Some(());  // root label terminates the name
                }
                if self.skip(len as usize).is_none() {
                    return None;
                }
                proof {
                    assert(scan_skip_name(pkt, p) == scan_skip_name(pkt, p + 1 + len));
                }
            } else {
                // 0x40 / 0x80 length codes are reserved; treat as malformed.
                return None;
            }
        }
    }

    /// Compare the name at `pos` against `<label>.local` case-insensitively,
    /// advancing `pos` past the name either way. Returns whether it matched.
    ///
    /// Only handles uncompressed names (the form responders emit); a name that
    /// uses a compression pointer is skipped and reported as a non-match, which
    /// is safe for our single-question / single-answer matching.
    pub fn name_matches(&mut self, label: &str) -> (r: bool)
        ensures
            final(self).buf == old(self).buf,
            final(self).flags == old(self).flags,
            final(self).qdcount == old(self).qdcount,
            final(self).ancount == old(self).ancount,
            (r, final(self).pos as int) == scan_name(
                old(self).buf@,
                old(self).pos as int,
                label.spec_bytes(),
                0,
            ),
    {
        let first = label.as_bytes();
        let local: [u8; 5] = [0x6C, 0x6F, 0x63, 0x61, 0x6C];
        proof {
            assert(local@ =~= local_label());
        }
        let ghost pkt = self.buf@;
        let ghost l = first@;
        let ghost start = self.pos as int;
        let total = self.buf.len();
        let mut idx: usize = 0;
        let ghost mut sidx: int = 0;
        loop
            invariant
                self.buf@ == pkt,
                self.buf == old(self).buf,
                self.flags == old(self).flags,
                self.qdcount == old(self).qdcount,
                self.ancount == old(self).ancount,
                pkt == old(self).buf@,
                start == old(self).pos,
                total == pkt.len(),
                l == label.spec_bytes(),
                first@ == l,
                local@ == local_label(),
                sidx == -1 || 0 <= sidx <= 2,
                idx == (if sidx < 0 { usize::MAX as int } else { sidx }),
                scan_name(pkt, self.pos as int, l, sidx) == scan_name(pkt, start, l, 0),
            decreases pkt.len() - self.pos,
        {
            let ghost p = self.pos as int;
            let len = match self.u8() {
                Some(l) => l,
                None => return false,
            };
            proof {
                assert(len == pkt[p]);
            }
            if len & 0xc0 == 0xc0 {
                // Compression pointer: consume the second byte, can't compare.
                let _ = self.u8();
                return false;
            }
            if len == 0 {
                // End of name: matched iff we consumed exactly the expected labels.
                return idx == 2;
            }
            let n = len as usize;
            let start_label = self.pos;
            if self.skip(n).is_none() {
                return false;
            }
            let ok = if idx < 2 {
                let expected: &[u8] = if idx == 0 {
                    first
                } else {
                    local.as_slice()
                };
                expected.len() == n && labels_equal(
                    slice_range(self.buf, start_label, self.pos),
                    expected,
                )
            } else {
                false
            };
            proof {
                assert(ok == (0 <= sidx < 2 && eq_ignore_case(
                    pkt.subrange(p + 1, p + 1 + len),
                    expected_label(sidx, l),
                )));
                assert(scan_name(pkt, p, l, sidx) == scan_name(
                    pkt,
                    p + 1 + len,
                    l,
                    if ok { sidx + 1 } else { -1 },
                ));
            }
            // Keep scanning to leave pos past the name even on mismatch, but
            // record the failure.
            if !ok {
                idx = usize::MAX;
                proof {
                    sidx = -1;
                }
            } else {
                idx = idx + 1;
                proof {
                    sidx = sidx + 1;
                }
            }
        }
    }
}

/// Case-insensitive equality of two byte strings of the same length.
fn labels_equal(got: &[u8], expected: &[u8]) -> (r: bool)
    requires
        got@.len() == expected@.len(),
    ensures
        r == eq_ignore_case(got@, expected@),
{
    let mut i: usize = 0;
    while i < got.len()
        invariant
            got@.len() == expected@.len(),
            i <= got@.len(),
            forall|j: int| 0 <= j < i ==> lower(#[trigger] got@[j]) == lower(expected@[j]),
        decreases got@.len() - i,
    {
        if lower_exec(got[i]) != lower_exec(expected[i]) {
            return false;
        }
        i = i + 1;
    }
    true
}


/// Is `pkt` a query (QR=0) whose question is `hostname.local` type `A`?
pub fn is_query_for(pkt: &[u8], hostname: &str) -> (r: bool)
    ensures
        r == spec_is_query_for(pkt@, hostname.spec_bytes()),
{
    let mut r = match Reader::new(pkt) {
        Some(r) => r,
        None => return false,
    };
    // QR bit must be 0 (a query).
    if r.flags & 0x8000 != 0 {
        return false;
    }
    let qd = r.qdcount;
    if qd == 0 {
        return false;
    }
    // Walk the questions; any matching `hostname.local`/A is a hit.
    let ghost host = hostname.spec_bytes();
    let mut i: u16 = 0;
    while i < qd
        invariant
            r.buf@ == pkt@,
            i <= qd,
            qd == rd_be16(pkt@, 4),
            host == hostname.spec_bytes(),
            spec_is_query_for(pkt@, host) == questions_hit(pkt@, r.pos as int, (qd - i) as nat, host),
        decreases qd - i,
    {
        let ghost before = r.pos as int;
        let matched = r.name_matches(hostname);
        let ghost after_name = r.pos as int;
        let qtype = r.u16();
        let qclass = r.u16();
        let (qtype, qclass) = match (qtype, qclass) {
            (Some(t), Some(c)) => (t, c),
            _ => return false,
        };
        if matched && qtype == TYPE_A && (qclass & CLASS_MASK) == CLASS_IN {
            return true;
        }
        i = i + 1;
    }
    false
}

/// If `pkt` is a response carrying an `A` record for `label.local`, return its
/// IPv4 address. Scans the answer section.
pub fn parse_answer(pkt: &[u8], label: &str) -> (r: Option<[u8; 4]>)
    ensures
        match (r, spec_parse_answer(pkt@, label.spec_bytes())) {
            (None, None) => true,
            (Some(ip), Some(spec_ip)) => ip@ == spec_ip,
            _ => false,
        },
{
    let mut r = Reader::new(pkt)?;
    // QR bit must be 1 (a response).
    if r.flags & 0x8000 == 0 {
        return None;
    }
    let ghost l = label.spec_bytes();
    // Skip the question section, if any.
    let qd = r.qdcount;
    let mut i: u16 = 0;
    while i < qd
        invariant
            r.buf@ == pkt@,
            i <= qd,
            r.qdcount == qd,
            qd == rd_be16(pkt@, 4),
            r.ancount == rd_be16(pkt@, 6),
            r.flags == rd_be16(pkt@, 2),
            r.flags & 0x8000u16 != 0,
            pkt@.len() >= 12,
            skip_questions(pkt@, 12, qd as nat) == skip_questions(pkt@, r.pos as int, (qd - i) as nat),
        decreases qd - i,
    {
        r.skip_name()?;
        r.u16()?;  // qtype
        r.u16()?;  // qclass
        i = i + 1;
    }
    // Walk answers looking for our `label.local` A record.
    let an = r.ancount;
    let mut j: u16 = 0;
    while j < an
        invariant
            r.buf@ == pkt@,
            j <= an,
            an == rd_be16(pkt@, 6),
            l == label.spec_bytes(),
            spec_parse_answer(pkt@, l) == answers_find(pkt@, r.pos as int, (an - j) as nat, l),
        decreases an - j,
    {
        let matched = r.name_matches(label);
        let rtype = r.u16()?;
        let _rclass = r.u16()?;
        let _ttl = r.u32()?;
        let rdlen = r.u16()? as usize;
        if matched && rtype == TYPE_A && rdlen == 4 {
            let a = r.u8()?;
            let b = r.u8()?;
            let c = r.u8()?;
            let d = r.u8()?;
            let ip = [a, b, c, d];
            proof {
                assert(ip@ =~= pkt@.subrange(r.pos - 4, r.pos as int));
            }
            return Some(ip);
        }
        r.skip(rdlen)?;
        j = j + 1;
    }
    None
}


// ---------------------------------------------------------------------------
// Responder and resolver decisions
// ---------------------------------------------------------------------------

/// Responder: when `pkt` is a query for `hostname.local` and the device has
/// an IPv4 `ip`, write the `A` answer into `buf` and return its length;
/// otherwise (answers, other names, no address yet) leave `buf` alone.
pub fn answer_for(pkt: &[u8], hostname: &str, ip: Option<[u8; 4]>, buf: &mut [u8]) -> (r: Option<
    usize,
>)
    ensures
        match ip {
            Some(a) => if spec_is_query_for(pkt@, hostname.spec_bytes()) {
                &&& final(buf)@ == write_at(
                    old(buf)@,
                    0,
                    built(hostname.spec_bytes(), answer_packet(hostname.spec_bytes(), a@)),
                )
                &&& (r is Some <==> valid_label(hostname.spec_bytes()) && answer_packet(
                    hostname.spec_bytes(),
                    a@,
                ).len() <= old(buf)@.len())
                &&& (r matches Some(n) ==> n == answer_packet(hostname.spec_bytes(), a@).len())
            } else {
                r is None && final(buf)@ == old(buf)@
            },
            None => r is None && final(buf)@ == old(buf)@,
        },
{
    if !is_query_for(pkt, hostname) {
        return None;
    }
    match ip {
        Some(a) => build_answer(buf, hostname, a),
        None => None,
    }
}

/// What the resolver does with a packet received while it waits for
/// `label.local`.
#[derive(Debug, Clone, Copy, PartialEq, Eq)]
pub enum ResolverStep {
    /// The awaited answer: the peer's IPv4.
    Resolved([u8; 4]),
    /// A query for our own name: send the answer of this length from the
    /// reply buffer.
    Reply(usize),
    /// Anything else.
    Ignore,
}

/// Resolver: a packet that answers for `label.local` resolves it; otherwise
/// the device stays responsive by answering queries for its own
/// `hostname.local` (written into `buf`).
pub fn resolver_step(
    pkt: &[u8],
    label: &str,
    hostname: &str,
    ip: Option<[u8; 4]>,
    buf: &mut [u8],
) -> (r: ResolverStep)
    ensures
        match spec_parse_answer(pkt@, label.spec_bytes()) {
            Some(addr) => r matches ResolverStep::Resolved(a) && a@ == addr && final(buf)@ == old(
                buf,
            )@,
            None => match ip {
                Some(a) => if spec_is_query_for(pkt@, hostname.spec_bytes()) {
                    &&& final(buf)@ == write_at(
                        old(buf)@,
                        0,
                        built(hostname.spec_bytes(), answer_packet(hostname.spec_bytes(), a@)),
                    )
                    &&& if valid_label(hostname.spec_bytes()) && answer_packet(
                        hostname.spec_bytes(),
                        a@,
                    ).len() <= old(buf)@.len() {
                        r == ResolverStep::Reply(answer_packet(hostname.spec_bytes(), a@).len() as usize)
                    } else {
                        r == ResolverStep::Ignore
                    }
                } else {
                    r == ResolverStep::Ignore && final(buf)@ == old(buf)@
                },
                None => r == ResolverStep::Ignore && final(buf)@ == old(buf)@,
            },
        },
{
    if let Some(addr) = parse_answer(pkt, label) {
        return ResolverStep::Resolved(addr);
    }
    match answer_for(pkt, hostname, ip, buf) {
        Some(n) => ResolverStep::Reply(n),
        None => ResolverStep::Ignore,
    }
}

// ---------------------------------------------------------------------------
// Laws
// ---------------------------------------------------------------------------

proof fn lemma_rd_be16_of_be16(pkt: Seq<u8>, p: int, v: u16)
    requires
        0 <= p,
        p + 2 <= pkt.len(),
        pkt.subrange(p, p + 2) == be16(v),
    ensures
        rd_be16(pkt, p) == v,
{
    assert(pkt[p] == pkt.subrange(p, p + 2)[0]);
    assert(pkt[p + 1] == pkt.subrange(p, p + 2)[1]);
    let hi = (v / 256) as u8;
    let lo = (v % 256) as u8;
    assert(((v / 256) as u8) as int * 256 + ((v % 256) as u8) as int == v as int) by (bit_vector);
}

/// Scanning the name that `name_bytes(label)` writes matches `host` exactly
/// when the two labels agree ignoring ASCII case, and stops right after it.
proof fn lemma_scan_name_bytes(pkt: Seq<u8>, pos: int, label: Seq<u8>, host: Seq<u8>)
    requires
        valid_label(label),
        0 <= pos,
        pos + name_bytes(label).len() <= pkt.len() <= usize::MAX,
        pkt.subrange(pos, pos + name_bytes(label).len()) == name_bytes(label),
    ensures
        scan_name(pkt, pos, host, 0) == (eq_ignore_case(label, host), pos + name_bytes(label).len()),
{
    let nb = name_bytes(label);
    let n = label.len() as int;
    let first = (label.len() as u8);
    assert(pkt[pos] == nb[0]);
    assert(nb[0] == first);
    assert(first & 0xc0u8 == 0u8) by (bit_vector)
        requires
            1 <= first <= 63,
    ;
    let p1 = pos + 1;
    assert(pkt.subrange(p1, p1 + n) =~= label) by {
        assert forall|i: int| 0 <= i < n implies pkt.subrange(p1, p1 + n)[i] == label[i] by {
            assert(pkt[p1 + i] == nb[1 + i]);
        }
    }
    let ok1 = eq_ignore_case(label, host);
    assert(expected_label(0, host) == host);
    let p2 = p1 + n;
    assert(pkt[p2] == nb[1 + n]);
    assert(5u8 & 0xc0u8 == 0u8) by (bit_vector);
    assert(pkt.subrange(p2 + 1, p2 + 6) =~= local_label()) by {
        assert forall|i: int| 0 <= i < 5 implies pkt.subrange(p2 + 1, p2 + 6)[i] == local_label()[i] by {
            assert(pkt[p2 + 1 + i] == nb[2 + n + i]);
        }
    }
    assert(eq_ignore_case(local_label(), expected_label(1, host)));
    let p3 = p2 + 6;
    assert(pkt[p3] == nb[n + 7]);
    assert(0u8 & 0xc0u8 == 0u8) by (bit_vector);
    let s2 = if ok1 { 1int } else { -1int };
    let s3 = if ok1 { 2int } else { -1int };
    assert(scan_name(pkt, p3, host, s3) == (ok1, p3 + 1));
    assert(scan_name(pkt, p2, host, s2) == scan_name(pkt, p3, host, s3));
    assert(scan_name(pkt, pos, host, 0) == scan_name(pkt, p2, host, s2));
}

/// A query built for `label` is recognised by `is_query_for` as a query for
/// exactly the hostnames equal to `label` ignoring ASCII case.
pub proof fn lemma_query_roundtrip(label: Seq<u8>, host: Seq<u8>)
    requires
        valid_label(label),
    ensures
        spec_is_query_for(query_packet(label), host) == eq_ignore_case(label, host),
{
    let pkt = query_packet(label);
    let nb = name_bytes(label);
    let n = nb.len() as int;
    assert(pkt.subrange(2, 4) =~= be16(0));
    lemma_rd_be16_of_be16(pkt, 2, 0);
    assert(pkt.subrange(4, 6) =~= be16(1));
    lemma_rd_be16_of_be16(pkt, 4, 1);
    assert(0u16 & 0x8000u16 == 0u16) by (bit_vector);
    assert(pkt.subrange(12, 12 + n) =~= nb);
    lemma_scan_name_bytes(pkt, 12, label, host);
    assert(pkt.subrange(12 + n, 14 + n) =~= be16(TYPE_A));
    lemma_rd_be16_of_be16(pkt, 12 + n, TYPE_A);
    assert(pkt.subrange(14 + n, 16 + n) =~= be16(CLASS_IN));
    lemma_rd_be16_of_be16(pkt, 14 + n, CLASS_IN);
    assert(1u16 & 0x7fffu16 == 1u16) by (bit_vector);
    assert(pkt.len() == 16 + n);
    assert(questions_hit(pkt, 16 + n, 0, host) == false);
    assert(questions_hit(pkt, 12, 1, host) == eq_ignore_case(label, host));
}

proof fn lemma_answer_layout(label: Seq<u8>, ip: Seq<u8>)
    ensures
        ({
            let pkt = answer_packet(label, ip);
            let n = name_bytes(label).len() as int;
            &&& pkt.len() == 22 + n + ip.len()
            &&& pkt.subrange(2, 4) == be16(0x8400)
            &&& pkt.subrange(4, 6) == be16(0)
            &&& pkt.subrange(6, 8) == be16(1)
            &&& pkt.subrange(12, 12 + n) == name_bytes(label)
            &&& pkt.subrange(12 + n, 14 + n) == be16(TYPE_A)
            &&& pkt.subrange(20 + n, 22 + n) == be16(4)
            &&& pkt.subrange(22 + n, 22 + n + ip.len()) == ip
        }),
{
    let pkt = answer_packet(label, ip);
    let n = name_bytes(label).len() as int;
    let h = answer_header();
    let t = answer_tail(ip);
    assert(pkt =~= h + name_bytes(label) + t);
    assert(pkt.subrange(2, 4) =~= be16(0x8400));
    assert(pkt.subrange(4, 6) =~= be16(0));
    assert(pkt.subrange(6, 8) =~= be16(1));
    assert(pkt.subrange(12, 12 + n) =~= name_bytes(label));
    assert(pkt.subrange(12 + n, 14 + n) =~= be16(TYPE_A));
    assert(pkt.subrange(20 + n, 22 + n) =~= be16(4));
    assert(pkt.subrange(22 + n, 22 + n + ip.len()) =~= ip);
}

/// An answer built for `label -> ip` is parsed by `parse_answer` back to `ip`
/// for exactly the names equal to `label` ignoring ASCII case, and to `None`
/// for every other name.
pub proof fn lemma_answer_roundtrip(label: Seq<u8>, ip: Seq<u8>, host: Seq<u8>)
    requires
        valid_label(label),
        ip.len() == 4,
    ensures
        spec_parse_answer(answer_packet(label, ip), host) == (if eq_ignore_case(label, host) {
            Some(ip)
        } else {
            None
        }),
{
    let pkt = answer_packet(label, ip);
    let n = name_bytes(label).len() as int;
    lemma_answer_layout(label, ip);
    lemma_rd_be16_of_be16(pkt, 2, 0x8400);
    assert(0x8400u16 & 0x8000u16 != 0u16) by (bit_vector);
    lemma_rd_be16_of_be16(pkt, 4, 0);
    lemma_rd_be16_of_be16(pkt, 6, 1);
    lemma_scan_name_bytes(pkt, 12, label, host);
    let p = 12 + n;
    lemma_rd_be16_of_be16(pkt, p, TYPE_A);
    lemma_rd_be16_of_be16(pkt, p + 8, 4);
    assert(answers_find(pkt, p + 14, 0, host) is None);
    assert(skip_questions(pkt, 12, 0) == Some(12int));
    assert(answers_find(pkt, 12, 1, host) == (if eq_ignore_case(label, host) {
        Some(ip)
    } else {
        None
    }));
}

/// A query is never taken for an answer: `parse_answer` finds nothing in it.
pub proof fn lemma_query_is_not_answer(label: Seq<u8>, host: Seq<u8>)
    ensures
        spec_parse_answer(query_packet(label), host) is None,
{
    let pkt = query_packet(label);
    assert(pkt.subrange(2, 4) =~= be16(0));
    lemma_rd_be16_of_be16(pkt, 2, 0);
    assert(0u16 & 0x8000u16 == 0u16) by (bit_vector);
}

/// An answer is never taken for a query: `is_query_for` rejects it for every
/// name.
pub proof fn lemma_answer_is_not_query(label: Seq<u8>, ip: Seq<u8>, host: Seq<u8>)
    ensures
        !spec_is_query_for(answer_packet(label, ip), host),
{
    let pkt = answer_packet(label, ip);
    assert(pkt.subrange(2, 4) =~= be16(0x8400));
    lemma_rd_be16_of_be16(pkt, 2, 0x8400);
    assert(0x8400u16 & 0x8000u16 != 0u16) by (bit_vector);
}

} // verus!
