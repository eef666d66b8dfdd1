//! SLIP framing: the packed four-byte header, byte stuffing between the two
//! frame markers, and its reversal.

use vstd::prelude::*;
use crate::crc::{calc_crc16_default, crc16, CRC16_DEFAULT_SEED};
use crate::error::UploadError;

verus! {

/// Marks both ends of a frame.
pub const SLIP_END: u8 = 0xc0;

/// Announces an escape code.
pub const SLIP_ESC: u8 = 0xdb;

/// After [`SLIP_ESC`]: stands for a literal [`SLIP_END`].
pub const SLIP_ESC_END: u8 = 0xdc;

/// After [`SLIP_ESC`]: stands for a literal [`SLIP_ESC`].
pub const SLIP_ESC_ESC: u8 = 0xdd;

/// The packet type of every frame of this protocol.
pub const HCI_PACKET_TYPE: u8 = 14;

/// Payload lengths must stay below this bound to fit the header's 12 bits.
pub const PAYLOAD_LIMIT: usize = 0x1000;

/// The fields that the four header bytes pack.
#[derive(Clone, Copy, Debug, PartialEq, Eq, Structural)]
pub struct SlipHeader {
    /// Sequence number of this frame.
    pub sequence: u8,
    /// Sequence number that the acknowledgement must carry.
    pub next_sequence: u8,
    /// Whether a checksum follows the payload.
    pub integrity_check: bool,
    /// Whether the frame asks for an acknowledgement.
    pub reliable: bool,
    /// Packet type, four bits.
    pub packet_type: u8,
    /// Number of payload bytes, twelve bits.
    pub payload_len: u16,
}

/// The number that follows `sequence` in the cycle 0, 1, .., 7, 0.
pub open spec fn next_sequence(sequence: u8) -> u8 {
    ((sequence + 1) % 8) as u8
}

/// The fourth header byte: the two's complement of the sum of the other
/// three, so that all four add up to a multiple of 256.
pub open spec fn header_parity(b0: u8, b1: u8, b2: u8) -> u8 {
    ((256 - (b0 + b1 + b2) % 256) % 256) as u8
}

/// The header of a frame with the given sequence number and payload length.
pub open spec fn header_for(sequence: u8, payload_len: nat) -> SlipHeader {
    SlipHeader {
        sequence,
        next_sequence: next_sequence(sequence),
        integrity_check: true,
        reliable: true,
        packet_type: HCI_PACKET_TYPE,
        payload_len: payload_len as u16,
    }
}

impl SlipHeader {
    /// Every field fits the bits that the wire format gives it.
    pub open spec fn wf(&self) -> bool {
        &&& self.sequence < 8
        &&& self.next_sequence < 8
        &&& self.packet_type < 16
        &&& self.payload_len < 0x1000
    }

    /// The four bytes on the wire. Byte 0 holds the sequence number in bits
    /// 0-2, the next one in bits 3-5 and the two flags in bits 6 and 7; byte 1
    /// the packet type below the low four bits of the length; byte 2 the high
    /// eight bits of the length; byte 3 the parity.
    pub open spec fn bytes(&self) -> Seq<u8> {
        let b0 = (self.sequence + 8 * self.next_sequence + (if self.integrity_check {
            64int
        } else {
            0int
        }) + (if self.reliable {
            128int
        } else {
            0int
        })) as u8;
        let b1 = (self.packet_type + 16 * (self.payload_len % 16)) as u8;
        let b2 = (self.payload_len / 16) as u8;
        seq![b0, b1, b2, header_parity(b0, b1, b2)]
    }

    /// The header that four bytes stand for, if their parity is right.
    pub open spec fn parse(bytes: Seq<u8>) -> Option<SlipHeader> {
        if bytes.len() == 4 && (bytes[0] + bytes[1] + bytes[2] + bytes[3]) % 256 == 0 {
            Some(
                SlipHeader {
                    sequence: bytes[0] % 8,
                    next_sequence: (bytes[0] / 8) % 8,
                    integrity_check: (bytes[0] / 64) % 2 == 1,
                    reliable: bytes[0] / 128 == 1,
                    packet_type: bytes[1] % 16,
                    payload_len: (bytes[1] / 16 + 16 * bytes[2]) as u16,
                },
            )
        } else {
            None
        }
    }

    /// Header of a frame that carries `payload_len` bytes under `sequence`.
    pub fn for_payload(sequence: u8, payload_len: usize) -> (header: SlipHeader)
        requires
            sequence < 8,
            payload_len < PAYLOAD_LIMIT,
        ensures
            header == header_for(sequence, payload_len as nat),
            header.wf(),
    {
        SlipHeader {
            sequence,
            next_sequence: (sequence + 1) % 8,
            integrity_check: true,
            reliable: true,
            packet_type: HCI_PACKET_TYPE,
            payload_len: payload_len as u16,
        }
    }

    /// Packs the fields into their four bytes.
    pub fn pack(&self) -> (bytes: [u8; 4])
        requires
            self.wf(),
        ensures
            bytes@ == self.bytes(),
    {
        let seq: u8 = self.sequence;
        let next: u8 = self.next_sequence;
        let dip: u8 = if self.integrity_check { 1 } else { 0 };
        let rp: u8 = if self.reliable { 1 } else { 0 };
        let b0: u8 = seq | (next << 3u8) | (dip << 6u8) | (rp << 7u8);
        assert(b0 == seq + 8 * next + 64 * dip + 128 * rp) by (bit_vector)
            requires
                seq < 8,
                next < 8,
                dip < 2,
                rp < 2,
                b0 == seq | (next << 3u8) | (dip << 6u8) | (rp << 7u8),
        ;
        let ty: u8 = self.packet_type;
        let len: u16 = self.payload_len;
        let low: u16 = (len & 0x00fu16) << 4u16;
        let high: u16 = (len & 0xff0u16) >> 4u16;
        assert(low == 16 * (len % 16) && low < 256 && high == len / 16 && high < 256)
            by (bit_vector)
            requires
                len < 0x1000,
                low == (len & 0x00fu16) << 4u16,
                high == (len & 0xff0u16) >> 4u16,
        ;
        let low_byte: u8 = low as u8;
        let b1: u8 = ty | low_byte;
        assert(b1 == ty + low_byte) by (bit_vector)
            requires
                ty < 16,
                low_byte % 16 == 0,
                b1 == ty | low_byte,
        ;
        let b2: u8 = high as u8;
        let sum: u8 = b0.wrapping_add(b1).wrapping_add(b2);
        let flipped: u8 = !sum;
        assert(flipped == 255 - sum) by (bit_vector)
            requires
                flipped == !sum,
        ;
        let b3: u8 = flipped.wrapping_add(1);
        assert(sum == (b0 + b1 + b2) % 256);
        assert(b3 == header_parity(b0, b1, b2));
        let bytes: [u8; 4] = [b0, b1, b2, b3];
        assert(bytes@ =~= self.bytes());
        bytes
    }

    /// Reads a header back from its four bytes; `None` unless there are
    /// exactly four and they add up to a multiple of 256.
    pub fn unpack(bytes: &[u8]) -> (header: Option<SlipHeader>)
        ensures
            header == SlipHeader::parse(bytes@),
    {
        if bytes.len() != 4 {
            return None;
        }
        let b0: u8 = bytes[0];
        let b1: u8 = bytes[1];
        let b2: u8 = bytes[2];
        let b3: u8 = bytes[3];
        let sum: u8 = b0.wrapping_add(b1).wrapping_add(b2).wrapping_add(b3);
        assert(sum == (b0 + b1 + b2 + b3) % 256);
        if sum != 0 {
            return None;
        }
        let sequence: u8 = b0 & 0x07u8;
        let next: u8 = (b0 >> 3u8) & 0x07u8;
        let flags: u8 = b0 >> 6u8;
        let ty: u8 = b1 & 0x0fu8;
        let len: u16 = ((b1 >> 4u8) as u16) | ((b2 as u16) << 4u16);
        assert(sequence == b0 % 8 && next == (b0 / 8) % 8 && flags == b0 / 64) by (bit_vector)
            requires
                sequence == b0 & 0x07u8,
                next == (b0 >> 3u8) & 0x07u8,
                flags == b0 >> 6u8,
        ;
        assert(ty == b1 % 16 && len == b1 / 16 + 16 * b2) by (bit_vector)
            requires
                ty == b1 & 0x0fu8,
                len == ((b1 >> 4u8) as u16) | ((b2 as u16) << 4u16),
        ;
        Some(
            SlipHeader {
                sequence,
                next_sequence: next,
                integrity_check: flags % 2 == 1,
                reliable: flags / 2 == 1,
                packet_type: ty,
                payload_len: len,
            },
        )
    }
}

/// The sequence number that an acknowledgement reports: bits 3-5 of its first
/// byte.
pub open spec fn acknowledged(byte: u8) -> u8 {
    ((byte / 8) % 8) as u8
}

/// Reads the acknowledged sequence number out of the first header byte.
pub fn ack_number(byte: u8) -> (number: u8)
    ensures
        number == acknowledged(byte),
        number < 8,
{
    let number: u8 = (byte >> 3u8) & 0x07u8;
    assert(number == (byte / 8) % 8) by (bit_vector)
        requires
            number == (byte >> 3u8) & 0x07u8,
    ;
    number
}

/// A 16-bit value as two bytes, low byte first.
pub open spec fn le16(value: u16) -> Seq<u8> {
    seq![(value % 256) as u8, (value / 256) as u8]
}

/// What one byte becomes between the markers.
pub open spec fn stuff_byte(byte: u8) -> Seq<u8> {
    if byte == SLIP_END {
        seq![SLIP_ESC, SLIP_ESC_END]
    } else if byte == SLIP_ESC {
        seq![SLIP_ESC, SLIP_ESC_ESC]
    } else {
        seq![byte]
    }
}

/// Byte stuffing: every byte replaced by what [`stuff_byte`] makes of it.
pub open spec fn stuff(bytes: Seq<u8>) -> Seq<u8>
    decreases bytes.len(),
{
    if bytes.len() == 0 {
        Seq::empty()
    } else {
        stuff(bytes.drop_last()) + stuff_byte(bytes.last())
    }
}

/// Stuffed bytes between a leading and a trailing marker.
pub open spec fn framed(bytes: Seq<u8>) -> Seq<u8> {
    seq![SLIP_END] + stuff(bytes) + seq![SLIP_END]
}

/// `byte` put in front of what comes out of the rest, if anything does.
pub open spec fn prepend(byte: u8, rest: Option<Seq<u8>>) -> Option<Seq<u8>> {
    match rest {
        Some(bytes) => Some(seq![byte] + bytes),
        None => None,
    }
}

/// Reversal of byte stuffing, read from the front: an escape byte and the
/// code behind it become the byte they stand for, every other byte stays.
/// There is no result when an escape byte is followed by anything but one of
/// the two codes, or by nothing.
pub open spec fn unstuff(bytes: Seq<u8>) -> Option<Seq<u8>>
    decreases bytes.len(),
{
    if bytes.len() == 0 {
        Some(Seq::empty())
    } else if bytes[0] != SLIP_ESC {
        prepend(bytes[0], unstuff(bytes.skip(1)))
    } else if bytes.len() >= 2 && bytes[1] == SLIP_ESC_END {
        prepend(SLIP_END, unstuff(bytes.skip(2)))
    } else if bytes.len() >= 2 && bytes[1] == SLIP_ESC_ESC {
        prepend(SLIP_ESC, unstuff(bytes.skip(2)))
    } else {
        None
    }
}

/// An escape byte stands at `at` with no valid code behind it.
pub open spec fn bad_escape_at(bytes: Seq<u8>, at: int) -> bool {
    &&& 0 <= at < bytes.len()
    &&& bytes[at] == SLIP_ESC
    &&& (at + 1 == bytes.len() || (bytes[at + 1] != SLIP_ESC_END && bytes[at + 1]
        != SLIP_ESC_ESC))
}

/// Bytes followed by their checksum from the default seed, low byte first.
pub open spec fn with_checksum(covered: Seq<u8>) -> Seq<u8> {
    covered + le16(crc16(covered, CRC16_DEFAULT_SEED))
}

/// What lies between the markers before stuffing: header, payload, and the
/// checksum of both.
pub open spec fn frame_body(sequence: u8, payload: Seq<u8>) -> Seq<u8> {
    with_checksum(header_for(sequence, payload.len()).bytes() + payload)
}

/// The frame that carries `payload` under `sequence`, as it goes on the wire.
pub open spec fn frame(sequence: u8, payload: Seq<u8>) -> Seq<u8> {
    framed(frame_body(sequence, payload))
}

/// Wraps `unescaped` in markers and stuffs what lies between them.
pub fn escape(unescaped: &[u8]) -> (escaped: Vec<u8>)
    ensures
        escaped@ == framed(unescaped@),
{
    let mut res: Vec<u8> = Vec::new();
    res.push(SLIP_END);
    let mut i: usize = 0;
    while i < unescaped.len()
        invariant
            i <= unescaped.len(),
            res@ == seq![SLIP_END] + stuff(unescaped@.take(i as int)),
        decreases unescaped.len() - i,
    {
        let byte: u8 = unescaped[i];
        proof {
            assert(unescaped@.take(i + 1).drop_last() =~= unescaped@.take(i as int));
        }
        if byte == SLIP_END {
            res.push(SLIP_ESC);
            res.push(SLIP_ESC_END);
        } else if byte == SLIP_ESC {
            res.push(SLIP_ESC);
            res.push(SLIP_ESC_ESC);
        } else {
            res.push(byte);
        }
        i += 1;
        assert(res@ =~= seq![SLIP_END] + stuff(unescaped@.take(i as int)));
    }
    proof {
        assert(unescaped@.take(unescaped.len() as int) =~= unescaped@);
    }
    res.push(SLIP_END);
    res
}

/// Reverses the stuffing of `escaped`. Markers are ordinary bytes here and
/// stay where they are.
pub fn unescape(escaped: &[u8]) -> (unescaped: Result<Vec<u8>, UploadError>)
    ensures
        match unescaped {
            Ok(bytes) => unstuff(escaped@) == Some(bytes@),
            Err(error) => unstuff(escaped@) is None && error == UploadError::FramingError,
        },
{
    let mut res: Vec<u8> = Vec::new();
    let mut i: usize = 0;
    proof {
        assert(escaped@.skip(0) =~= escaped@);
        if let Some(rest) = unstuff(escaped@) {
            assert(res@ + rest =~= rest);
        }
    }
    while i < escaped.len()
        invariant
            i <= escaped.len(),
            unstuff(escaped@) == match unstuff(escaped@.skip(i as int)) {
                Some(rest) => Some(res@ + rest),
                None => None,
            },
        decreases escaped.len() - i,
    {
        let ghost here = escaped@.skip(i as int);
        let byte: u8 = escaped[i];
        if byte != SLIP_ESC {
            proof {
                assert(here.skip(1) =~= escaped@.skip(i + 1));
                lemma_append_prepend(res@, byte, unstuff(here.skip(1)));
            }
            res.push(byte);
            i += 1;
        } else if i + 1 < escaped.len() && escaped[i + 1] == SLIP_ESC_END {
            proof {
                assert(here.skip(2) =~= escaped@.skip(i + 2));
                lemma_append_prepend(res@, SLIP_END, unstuff(here.skip(2)));
            }
            res.push(SLIP_END);
            i += 2;
        } else if i + 1 < escaped.len() && escaped[i + 1] == SLIP_ESC_ESC {
            proof {
                assert(here.skip(2) =~= escaped@.skip(i + 2));
                lemma_append_prepend(res@, SLIP_ESC, unstuff(here.skip(2)));
            }
            res.push(SLIP_ESC);
            i += 2;
        } else {
            return Err(UploadError::FramingError);
        }
    }
    proof {
        assert(res@ + Seq::<u8>::empty() =~= res@);
    }
    Ok(res)
}

proof fn lemma_append_prepend(front: Seq<u8>, byte: u8, rest: Option<Seq<u8>>)
    ensures
        (match prepend(byte, rest) {
            Some(bytes) => Some(front + bytes),
            None => None,
        }) == (match rest {
            Some(bytes) => Some(front.push(byte) + bytes),
            None => None::<Seq<u8>>,
        }),
{
    if let Some(bytes) = rest {
        assert(front + (seq![byte] + bytes) =~= front.push(byte) + bytes);
    }
}

/// Appends the bytes of `src` to `dst`.
pub fn append_bytes(dst: &mut Vec<u8>, src: &[u8])
    ensures
        final(dst)@ == old(dst)@ + src@,
{
    let mut i: usize = 0;
    while i < src.len()
        invariant
            i <= src.len(),
            dst@ == old(dst)@ + src@.take(i as int),
        decreases src.len() - i,
    {
        dst.push(src[i]);
        i += 1;
        assert(dst@ =~= old(dst)@ + src@.take(i as int));
    }
    assert(src@.take(src.len() as int) =~= src@);
}

/// Puts `header` and `payload` on the wire: both followed by their checksum,
/// stuffed between two markers.
pub fn encode_frame(header: &[u8], payload: &[u8]) -> (bytes: Vec<u8>)
    ensures
        bytes@ == framed(with_checksum(header@ + payload@)),
{
    let mut body: Vec<u8> = Vec::new();
    append_bytes(&mut body, header);
    append_bytes(&mut body, payload);
    let ghost covered = header@ + payload@;
    assert(body@ =~= covered);
    let crc: u16 = calc_crc16_default(body.as_slice());
    let low: u16 = crc & 0x00ffu16;
    let high: u16 = crc >> 8u16;
    assert(low == crc % 256 && high == crc / 256 && low < 256 && high < 256) by (bit_vector)
        requires
            low == crc & 0x00ffu16,
            high == crc >> 8u16,
    ;
    body.push(low as u8);
    body.push(high as u8);
    assert(body@ =~= covered + le16(crc));
    escape(body.as_slice())
}

/// A header that fits its bits is read back from its four bytes unchanged.
pub proof fn lemma_header_round_trip(header: SlipHeader)
    requires
        header.wf(),
    ensures
        header.bytes().len() == 4,
        SlipHeader::parse(header.bytes()) == Some(header),
{
    let bytes = header.bytes();
    assert((bytes[0] + bytes[1] + bytes[2] + bytes[3]) % 256 == 0);
}

/// Four bytes that read as a header are the bytes of that header, and the
/// header fits its bits.
pub proof fn lemma_header_parse_exact(bytes: Seq<u8>)
    requires
        SlipHeader::parse(bytes) is Some,
    ensures
        SlipHeader::parse(bytes)->0.wf(),
        SlipHeader::parse(bytes)->0.bytes() == bytes,
{
    let header = SlipHeader::parse(bytes)->0;
    let b0 = bytes[0];
    let b1 = bytes[1];
    let b2 = bytes[2];
    let b3 = bytes[3];
    let flags: int = (if (b0 / 64) % 2 == 1 {
        64int
    } else {
        0int
    }) + (if b0 / 128 == 1 {
        128int
    } else {
        0int
    });
    assert(flags == 64 * (b0 / 64));
    assert(b0 % 8 + 8 * ((b0 / 8) % 8) + 64 * (b0 / 64) == b0);
    let len: int = b1 / 16 + 16 * b2;
    assert(len % 16 == b1 / 16 && len / 16 == b2);
    assert(header.payload_len == len);
    let sum: int = (b0 + b1 + b2) % 256;
    assert((sum + b3) % 256 == 0);
    assert(b3 == header_parity(b0, b1, b2));
    assert(header.bytes()[0] == b0);
    assert(header.bytes()[1] == b1);
    assert(header.bytes()[2] == b2);
    assert(header.bytes() =~= bytes);
}

/// Before stuffing, a frame holds its payload, four header bytes and two
/// checksum bytes; the header in it is the one for its sequence number and
/// length.
pub proof fn lemma_frame_body_layout(sequence: u8, payload: Seq<u8>)
    requires
        sequence < 8,
        payload.len() < PAYLOAD_LIMIT,
    ensures
        frame_body(sequence, payload).len() == payload.len() + 6,
        SlipHeader::parse(frame_body(sequence, payload).take(4)) == Some(
            header_for(sequence, payload.len()),
        ),
        frame_body(sequence, payload).subrange(4, 4 + payload.len() as int) == payload,
{
    let header = header_for(sequence, payload.len());
    lemma_header_round_trip(header);
    let body = frame_body(sequence, payload);
    assert(body.take(4) =~= header.bytes());
    assert(body.subrange(4, 4 + payload.len() as int) =~= payload);
}

/// Stuffing works byte by byte, so it distributes over concatenation.
pub proof fn lemma_stuff_concat(head: Seq<u8>, tail: Seq<u8>)
    ensures
        stuff(head + tail) == stuff(head) + stuff(tail),
    decreases tail.len(),
{
    if tail.len() == 0 {
        assert(head + tail =~= head);
        assert(stuff(head) + stuff(tail) =~= stuff(head));
    } else {
        lemma_stuff_concat(head, tail.drop_last());
        assert((head + tail).drop_last() =~= head + tail.drop_last());
        assert(stuff(head + tail) =~= stuff(head) + stuff(tail));
    }
}

/// Stuffed bytes never hold a marker, and are at least as many as before and
/// at most twice as many.
pub proof fn lemma_stuff_has_no_marker(bytes: Seq<u8>)
    ensures
        forall|i: int| 0 <= i < stuff(bytes).len() ==> stuff(bytes)[i] != SLIP_END,
        bytes.len() <= stuff(bytes).len() <= 2 * bytes.len(),
    decreases bytes.len(),
{
    if bytes.len() > 0 {
        lemma_stuff_has_no_marker(bytes.drop_last());
    }
}

/// In an encoded frame the marker stands at the first and the last position
/// and nowhere else, whatever bytes the payload, header or checksum hold.
pub proof fn lemma_frame_markers_only_at_ends(sequence: u8, payload: Seq<u8>)
    ensures
        frame(sequence, payload).len() >= 2,
        forall|i: int|
            0 <= i < frame(sequence, payload).len() ==> (frame(sequence, payload)[i] == SLIP_END
                <==> (i == 0 || i == frame(sequence, payload).len() - 1)),
{
    let body = frame_body(sequence, payload);
    lemma_stuff_has_no_marker(body);
    let encoded = frame(sequence, payload);
    assert forall|i: int| 0 <= i < encoded.len() implies (encoded[i] == SLIP_END <==> (i == 0 || i
        == encoded.len() - 1)) by {
        if 0 < i < encoded.len() - 1 {
            assert(encoded[i] == stuff(body)[i - 1]);
        }
    }
}

/// Unstuffing undoes stuffing, for every byte sequence.
pub proof fn lemma_unstuff_stuff(bytes: Seq<u8>)
    ensures
        unstuff(stuff(bytes)) == Some(bytes),
    decreases bytes.len(),
{
    if bytes.len() == 0 {
    } else {
        let first = bytes[0];
        let rest = bytes.skip(1);
        lemma_unstuff_stuff(rest);
        lemma_stuff_concat(seq![first], rest);
        assert(seq![first] + rest =~= bytes);
        assert(seq![first].drop_last() =~= Seq::<u8>::empty());
        assert(stuff(Seq::<u8>::empty()) =~= Seq::<u8>::empty());
        assert(stuff(seq![first]) =~= stuff_byte(first));
        let stuffed = stuff(bytes);
        assert(stuffed == stuff_byte(first) + stuff(rest));
        if first == SLIP_END || first == SLIP_ESC {
            assert(stuffed.skip(2) =~= stuff(rest));
        } else {
            assert(stuffed.skip(1) =~= stuff(rest));
        }
    }
}

/// Round trip of a whole frame: with one marker stripped from each end,
/// unstuffing an encoded frame gives back header, payload and checksum
/// exactly. Unstuffed with its markers on, it gives the same between them.
pub proof fn lemma_frame_round_trip(sequence: u8, payload: Seq<u8>)
    ensures
        frame(sequence, payload).first() == SLIP_END,
        frame(sequence, payload).last() == SLIP_END,
        unstuff(frame(sequence, payload).subrange(1, frame(sequence, payload).len() - 1)) == Some(
            frame_body(sequence, payload),
        ),
        unstuff(frame(sequence, payload)) == Some(
            seq![SLIP_END] + frame_body(sequence, payload) + seq![SLIP_END],
        ),
{
    let body = frame_body(sequence, payload);
    let encoded = frame(sequence, payload);
    lemma_unstuff_stuff(body);
    assert(encoded.subrange(1, encoded.len() - 1) =~= stuff(body));
    let plain = seq![SLIP_END] + body + seq![SLIP_END];
    lemma_unstuff_stuff(plain);
    lemma_stuff_concat(seq![SLIP_END] + body, seq![SLIP_END]);
    lemma_stuff_concat(seq![SLIP_END], body);
    lemma_unstuff_marker_ends(stuff(body));
}

/// Markers at both ends pass through unstuffing unchanged.
proof fn lemma_unstuff_marker_ends(inner: Seq<u8>)
    requires
        unstuff(inner) is Some,
    ensures
        unstuff(seq![SLIP_END] + inner + seq![SLIP_END]) == Some(
            seq![SLIP_END] + unstuff(inner)->0 + seq![SLIP_END],
        ),
{
    let whole = seq![SLIP_END] + inner + seq![SLIP_END];
    assert(whole.skip(1) =~= inner + seq![SLIP_END]);
    lemma_unstuff_concat(inner, seq![SLIP_END]);
    assert(seq![SLIP_END].skip(1) =~= Seq::<u8>::empty());
    assert(unstuff(seq![SLIP_END]) == Some(seq![SLIP_END])) by {
        assert(unstuff(Seq::<u8>::empty()) == Some(Seq::<u8>::empty()));
        assert(seq![SLIP_END] + Seq::<u8>::empty() =~= seq![SLIP_END]);
    }
    assert(seq![SLIP_END] + (unstuff(inner)->0 + seq![SLIP_END]) =~= seq![SLIP_END] + unstuff(
        inner,
    )->0 + seq![SLIP_END]);
}

/// What follows bytes that unstuff well is unstuffed on its own.
pub proof fn lemma_unstuff_concat(head: Seq<u8>, tail: Seq<u8>)
    requires
        unstuff(head) is Some,
    ensures
        unstuff(head + tail) == match unstuff(tail) {
            Some(rest) => Some(unstuff(head)->0 + rest),
            None => None,
        },
    decreases head.len(),
{
    let whole = head + tail;
    if head.len() == 0 {
        assert(whole =~= tail);
        if let Some(rest) = unstuff(tail) {
            assert(unstuff(head)->0 + rest =~= rest);
        }
    } else if head[0] != SLIP_ESC {
        lemma_unstuff_concat(head.skip(1), tail);
        assert(whole.skip(1) =~= head.skip(1) + tail);
        if let Some(rest) = unstuff(tail) {
            assert(seq![head[0]] + (unstuff(head.skip(1))->0 + rest) =~= unstuff(head)->0 + rest);
        }
    } else {
        lemma_unstuff_concat(head.skip(2), tail);
        assert(whole.skip(2) =~= head.skip(2) + tail);
        let byte = if head[1] == SLIP_ESC_END { SLIP_END } else { SLIP_ESC };
        if let Some(rest) = unstuff(tail) {
            assert(seq![byte] + (unstuff(head.skip(2))->0 + rest) =~= unstuff(head)->0 + rest);
        }
    }
}

/// Unstuffing fails exactly when somewhere an escape byte is followed by
/// something other than one of the two escape codes, or by nothing.
pub proof fn lemma_unstuff_fails_iff_bad_escape(bytes: Seq<u8>)
    ensures
        unstuff(bytes) is None <==> exists|at: int| bad_escape_at(bytes, at),
    decreases bytes.len(),
{
    if bytes.len() == 0 {
    } else if bytes[0] != SLIP_ESC {
        lemma_bad_escape_shift(bytes, 1);
        lemma_unstuff_fails_iff_bad_escape(bytes.skip(1));
    } else if bytes.len() >= 2 && (bytes[1] == SLIP_ESC_END || bytes[1] == SLIP_ESC_ESC) {
        lemma_bad_escape_shift(bytes, 2);
        lemma_unstuff_fails_iff_bad_escape(bytes.skip(2));
    } else {
        assert(bad_escape_at(bytes, 0));
    }
}

/// Leading bytes that hold no bad escape can be dropped without gaining or
/// losing one.
proof fn lemma_bad_escape_shift(bytes: Seq<u8>, skipped: int)
    requires
        0 <= skipped <= bytes.len(),
        forall|at: int| 0 <= at < skipped ==> !bad_escape_at(bytes, at),
    ensures
        (exists|at: int| bad_escape_at(bytes, at)) <==> (exists|at: int|
            bad_escape_at(bytes.skip(skipped), at)),
{
    let rest = bytes.skip(skipped);
    if exists|at: int| bad_escape_at(bytes, at) {
        let at = choose|at: int| bad_escape_at(bytes, at);
        assert(bad_escape_at(rest, at - skipped));
    }
    if exists|at: int| bad_escape_at(rest, at) {
        let at = choose|at: int| bad_escape_at(rest, at);
        assert(bad_escape_at(bytes, at + skipped));
    }
}

} // verus!
