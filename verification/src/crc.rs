//! The 16-bit checksum that protects every frame and the image as a whole.
//!
//! The algorithm is defined bit for bit by [`crc16_step`]; it is applied to
//! the bytes of a message from first to last, starting from a seed.

use vstd::prelude::*;

verus! {

/// Seed of a checksum when the caller supplies none.
pub const CRC16_DEFAULT_SEED: u16 = 0xffff;

/// One round of the checksum: the accumulator is byte-swapped, the input byte
/// is mixed into its low half, and three shifted copies are folded back in.
pub open spec fn crc16_step(crc: u16, byte: u8) -> u16 {
    let swapped: u16 = (crc >> 8u16) | (crc << 8u16);
    let mixed: u16 = swapped ^ (byte as u16);
    let folded: u16 = mixed ^ ((mixed & 0x00ffu16) >> 4u16);
    let spread: u16 = folded ^ ((folded << 8u16) << 4u16);
    spread ^ (((spread & 0x00ffu16) << 4u16) << 1u16)
}

/// The checksum of `data` starting from `seed`: the rounds applied to the
/// bytes in order.
pub open spec fn crc16(data: Seq<u8>, seed: u16) -> u16
    decreases data.len(),
{
    if data.len() == 0 {
        seed
    } else {
        crc16_step(crc16(data.drop_last(), seed), data.last())
    }
}

/// The seed that an optional start value stands for.
pub open spec fn seed_of(start: Option<u16>) -> u16 {
    match start {
        Some(seed) => seed,
        None => CRC16_DEFAULT_SEED,
    }
}

fn crc16_round(crc: u16, byte: u8) -> (next: u16)
    ensures
        next == crc16_step(crc, byte),
{
    let swapped: u16 = (crc >> 8u16) | (crc << 8u16);
    let mixed: u16 = swapped ^ (byte as u16);
    let folded: u16 = mixed ^ ((mixed & 0x00ffu16) >> 4u16);
    let spread: u16 = folded ^ ((folded << 8u16) << 4u16);
    spread ^ (((spread & 0x00ffu16) << 4u16) << 1u16)
}

/// Checksum of `data`, continuing from `start` or, without one, from
/// [`CRC16_DEFAULT_SEED`].
pub fn calc_crc16(data: &[u8], start: Option<u16>) -> (crc: u16)
    ensures
        crc == crc16(data@, seed_of(start)),
{
    let seed: u16 = match start {
        Some(seed) => seed,
        None => CRC16_DEFAULT_SEED,
    };
    let mut crc: u16 = seed;
    let mut i: usize = 0;
    while i < data.len()
        invariant
            i <= data.len(),
            crc == crc16(data@.take(i as int), seed),
        decreases data.len() - i,
    {
        proof {
            assert(data@.take(i + 1).drop_last() =~= data@.take(i as int));
        }
        crc = crc16_round(crc, data[i]);
        i += 1;
    }
    proof {
        assert(data@.take(data.len() as int) =~= data@);
    }
    crc
}

/// Checksum of `data` from the default seed.
pub fn calc_crc16_default(data: &[u8]) -> (crc: u16)
    ensures
        crc == crc16(data@, CRC16_DEFAULT_SEED),
{
    calc_crc16(data, None)
}

/// The checksum depends on the bytes and the seed alone: two messages that
/// hold the same bytes in the same order have the same checksum.
pub proof fn lemma_crc16_deterministic(a: Seq<u8>, b: Seq<u8>, seed: u16)
    requires
        a.len() == b.len(),
        forall|i: int| 0 <= i < a.len() ==> a[i] == b[i],
    ensures
        crc16(a, seed) == crc16(b, seed),
{
    assert(a =~= b);
}

/// A checksum can be computed piecewise: the checksum of the first part is
/// the seed for the second.
pub proof fn lemma_crc16_concat(head: Seq<u8>, tail: Seq<u8>, seed: u16)
    ensures
        crc16(head + tail, seed) == crc16(tail, crc16(head, seed)),
    decreases tail.len(),
{
    if tail.len() == 0 {
        assert(head + tail =~= head);
    } else {
        lemma_crc16_concat(head, tail.drop_last(), seed);
        assert((head + tail).drop_last() =~= head + tail.drop_last());
    }
}

/// A round loses nothing: different accumulators stay different under the
/// same byte, and different bytes lead one accumulator to different values.
pub proof fn lemma_crc16_step_injective(crc_a: u16, byte_a: u8, crc_b: u16, byte_b: u8)
    ensures
        crc_a != crc_b ==> crc16_step(crc_a, byte_a) != crc16_step(crc_b, byte_a),
        byte_a != byte_b ==> crc16_step(crc_a, byte_a) != crc16_step(crc_a, byte_b),
{
    assert(crc_a != crc_b ==> crc16_step(crc_a, byte_a) != crc16_step(crc_b, byte_a))
        by (bit_vector);
    assert(byte_a != byte_b ==> crc16_step(crc_a, byte_a) != crc16_step(crc_a, byte_b))
        by (bit_vector);
}

/// Two messages of one length that differ in exactly one byte never share a
/// checksum, whatever the seed.
pub proof fn lemma_crc16_detects_single_byte(a: Seq<u8>, b: Seq<u8>, at: int, seed: u16)
    requires
        a.len() == b.len(),
        0 <= at < a.len(),
        a[at] != b[at],
        forall|i: int| 0 <= i < a.len() && i != at ==> a[i] == b[i],
    ensures
        crc16(a, seed) != crc16(b, seed),
    decreases a.len(),
{
    let a_front = a.drop_last();
    let b_front = b.drop_last();
    if at == a.len() - 1 {
        assert(a_front =~= b_front);
        lemma_crc16_step_injective(crc16(a_front, seed), a.last(), crc16(a_front, seed), b.last());
    } else {
        lemma_crc16_detects_single_byte(a_front, b_front, at, seed);
        lemma_crc16_step_injective(crc16(a_front, seed), a.last(), crc16(b_front, seed), b.last());
    }
}

} // verus!
