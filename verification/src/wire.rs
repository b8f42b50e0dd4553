//! Big-endian integers and in-place byte copies.
use vstd::prelude::*;

verus! {

/// The 16-bit big-endian integer stored at `at`.
pub open spec fn be16(bytes: Seq<u8>, at: int) -> int {
    bytes[at] * 0x100 + bytes[at + 1]
}

/// The 32-bit big-endian integer stored at `at`.
pub open spec fn be32(bytes: Seq<u8>, at: int) -> int {
    be16(bytes, at) * 0x1_0000 + be16(bytes, at + 2)
}

/// The 64-bit big-endian integer stored at `at`.
pub open spec fn be64(bytes: Seq<u8>, at: int) -> int {
    be32(bytes, at) * 0x1_0000_0000 + be32(bytes, at + 4)
}

/// The big-endian form of a 64-bit integer.
pub open spec fn be64_bytes(value: u64) -> Seq<u8> {
    be32_bytes((value / 0x1_0000_0000) as u32) + be32_bytes((value % 0x1_0000_0000) as u32)
}

/// The big-endian form of a 16-bit integer.
pub open spec fn be16_bytes(value: u16) -> Seq<u8> {
    seq![(value / 0x100) as u8, (value % 0x100) as u8]
}

/// The big-endian form of a 32-bit integer.
pub open spec fn be32_bytes(value: u32) -> Seq<u8> {
    seq![
        (value / 0x100_0000) as u8,
        (value / 0x1_0000 % 0x100) as u8,
        (value / 0x100 % 0x100) as u8,
        (value % 0x100) as u8,
    ]
}

/// The bit of weight `weight` (a power of two) in `byte`.
pub open spec fn bit(byte: u8, weight: int) -> bool {
    (byte as int) / weight % 2 == 1
}

/// One when the flag is set, zero otherwise.
pub open spec fn flag(value: bool) -> int {
    if value {
        1
    } else {
        0
    }
}

/// Reading back a 16-bit integer gives the integer that was written.
pub proof fn lemma_be16_round_trip(value: u16)
    ensures
        be16_bytes(value).len() == 2,
        be16(be16_bytes(value), 0) == value,
{
}

/// Reading back a 32-bit integer gives the integer that was written.
pub proof fn lemma_be32_round_trip(value: u32)
    ensures
        be32_bytes(value).len() == 4,
        be32(be32_bytes(value), 0) == value,
{
}

/// Reading back a 64-bit integer gives the integer that was written.
pub proof fn lemma_be64_round_trip(value: u64)
    ensures
        be64_bytes(value).len() == 8,
        be64(be64_bytes(value), 0) == value,
{
    let high = (value / 0x1_0000_0000) as u32;
    let low = (value % 0x1_0000_0000) as u32;
    lemma_be32_round_trip(high);
    lemma_be32_round_trip(low);
    let bytes = be64_bytes(value);
    assert(be32(bytes, 0) == be32(be32_bytes(high), 0));
    assert(be32(bytes, 4) == be32(be32_bytes(low), 0));
}

/// Reads the 16-bit big-endian integer at `at`.
pub fn read_be16(bytes: &[u8], at: usize) -> (r: u16)
    requires
        at + 2 <= bytes@.len(),
    ensures
        r == be16(bytes@, at as int),
{
    (bytes[at] as u16) * 0x100 + (bytes[at + 1] as u16)
}

/// Reads the 32-bit big-endian integer at `at`.
pub fn read_be32(bytes: &[u8], at: usize) -> (r: u32)
    requires
        at + 4 <= bytes@.len(),
    ensures
        r == be32(bytes@, at as int),
{
    assert(bytes.len() == bytes@.len());
    (read_be16(bytes, at) as u32) * 0x1_0000 + (read_be16(bytes, at + 2) as u32)
}

/// Reads the 64-bit big-endian integer at `at`.
pub fn read_be64(bytes: &[u8], at: usize) -> (r: u64)
    requires
        at + 8 <= bytes@.len(),
    ensures
        r == be64(bytes@, at as int),
{
    assert(bytes.len() == bytes@.len());
    let high: u64 = read_be32(bytes, at) as u64;
    let low: u64 = read_be32(bytes, at + 4) as u64;
    high * 0x1_0000_0000 + low
}

/// Overwrites `dst[at..at + src.len()]` with `src`.
pub fn write_at(dst: &mut [u8], at: usize, src: &[u8])
    requires
        at + src@.len() <= old(dst)@.len(),
    ensures
        final(dst)@ == old(dst)@.take(at as int) + src@ + old(dst)@.skip(at + src@.len()),
        final(dst)@.len() == old(dst)@.len(),
{
    let ghost before = dst@;
    assert(dst.len() == before.len());
    let mut i: usize = 0;
    while i < src.len()
        invariant
            i <= src@.len(),
            before.len() <= usize::MAX,
            at + src@.len() <= before.len(),
            dst@.len() == before.len(),
            forall|k: int|
                0 <= k < before.len() ==> #[trigger] dst@[k] == (if at <= k < at + i {
                    src@[k - at]
                } else {
                    before[k]
                }),
        decreases src@.len() - i,
    {
        dst[at + i] = src[i];
        i += 1;
    }
    assert(dst@ =~= before.take(at as int) + src@ + before.skip(at + src@.len()));
}

/// The big-endian form of a 16-bit integer.
pub fn to_be16(value: u16) -> (r: [u8; 2])
    ensures
        r@ == be16_bytes(value),
{
    [(value / 0x100) as u8, (value % 0x100) as u8]
}

/// The big-endian form of a 32-bit integer.
pub fn to_be32(value: u32) -> (r: [u8; 4])
    ensures
        r@ == be32_bytes(value),
{
    [
        (value / 0x100_0000) as u8,
        (value / 0x1_0000 % 0x100) as u8,
        (value / 0x100 % 0x100) as u8,
        (value % 0x100) as u8,
    ]
}

/// Appends a 16-bit integer in big-endian form.
pub fn push_be16(out: &mut Vec<u8>, value: u16)
    ensures
        final(out)@ == old(out)@ + be16_bytes(value),
{
    out.push((value / 0x100) as u8);
    out.push((value % 0x100) as u8);
    assert(out@ =~= old(out)@ + be16_bytes(value));
}

/// Appends a 32-bit integer in big-endian form.
pub fn push_be32(out: &mut Vec<u8>, value: u32)
    ensures
        final(out)@ == old(out)@ + be32_bytes(value),
{
    out.push((value / 0x100_0000) as u8);
    out.push((value / 0x1_0000 % 0x100) as u8);
    out.push((value / 0x100 % 0x100) as u8);
    out.push((value % 0x100) as u8);
    assert(out@ =~= old(out)@ + be32_bytes(value));
}

/// Appends a 64-bit integer in big-endian form.
pub fn push_be64(out: &mut Vec<u8>, value: u64)
    ensures
        final(out)@ == old(out)@ + be64_bytes(value),
{
    push_be32(out, (value / 0x1_0000_0000) as u32);
    push_be32(out, (value % 0x1_0000_0000) as u32);
    assert(out@ =~= old(out)@ + be64_bytes(value));
}

/// The first byte of an integer counts most: dividing by the weights of the bytes behind gives the
/// bytes in front, in order.
pub proof fn law_first_byte_counts_most(bytes: Seq<u8>, at: int)
    requires
        0 <= at,
        at + 8 <= bytes.len(),
    ensures
        0 <= be16(bytes, at) <= 0xffff,
        be16(bytes, at) / 0x100 == bytes[at],
        be16(bytes, at) % 0x100 == bytes[at + 1],
        0 <= be32(bytes, at) <= 0xffff_ffff,
        be32(bytes, at) / 0x100_0000 == bytes[at],
        be32(bytes, at) / 0x1_0000 % 0x100 == bytes[at + 1],
        be32(bytes, at) / 0x100 % 0x100 == bytes[at + 2],
        be32(bytes, at) % 0x100 == bytes[at + 3],
        be64(bytes, at) / 0x1_0000_0000 == be32(bytes, at),
        be64(bytes, at) % 0x1_0000_0000 == be32(bytes, at + 4),
{
}

/// A bit is set if what the higher bits leave of the byte reaches its weight.
pub proof fn law_bits_have_weights(byte: u8)
    ensures
        bit(byte, 128) <==> byte >= 128,
        bit(byte, 64) <==> byte % 128 >= 64,
        bit(byte, 32) <==> byte % 64 >= 32,
        bit(byte, 16) <==> byte % 32 >= 16,
        flag(true) == 1,
        flag(false) == 0,
{
}

/// A number is written with the byte that counts most in front.
pub proof fn law_numbers_are_written_in_order(short: u16, word: u32, long: u64)
    ensures
        be16_bytes(short).len() == 2,
        be16_bytes(short)[0] * 256 + be16_bytes(short)[1] == short,
        be32_bytes(word).len() == 4,
        be32_bytes(word)[0] * 16777216 + be32_bytes(word)[1] * 65536 + be32_bytes(word)[2] * 256
            + be32_bytes(word)[3] == word,
        be64_bytes(long).len() == 8,
        be64_bytes(long).take(4) == be32_bytes((long / 4294967296) as u32),
        be64_bytes(long).skip(4) == be32_bytes((long % 4294967296) as u32),
{
    assert(be64_bytes(long).take(4) =~= be32_bytes((long / 4294967296) as u32));
    assert(be64_bytes(long).skip(4) =~= be32_bytes((long % 4294967296) as u32));
}

} // verus!
