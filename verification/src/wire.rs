//! Fixed-width integers as byte sequences.
use vstd::prelude::*;

verus! {

/// The two big-endian bytes of a number.
pub open spec fn be16(value: u16) -> Seq<u8> {
    seq![(value / 0x100) as u8, (value % 0x100) as u8]
}

/// The four big-endian bytes of a number.
pub open spec fn be32(value: u32) -> Seq<u8> {
    seq![
        (value / 0x100_0000) as u8,
        (value / 0x1_0000 % 0x100) as u8,
        (value / 0x100 % 0x100) as u8,
        (value % 0x100) as u8,
    ]
}

/// The eight big-endian bytes of a number.
pub open spec fn be64(value: u64) -> Seq<u8> {
    be32((value / 0x1_0000_0000) as u32) + be32((value % 0x1_0000_0000) as u32)
}

/// The number that four big-endian bytes stand for.
pub open spec fn from_be32(bytes: Seq<u8>) -> nat {
    (bytes[0] * 0x100_0000 + bytes[1] * 0x1_0000 + bytes[2] * 0x100 + bytes[3]) as nat
}

/// The two little-endian bytes of a number.
pub open spec fn le16(value: u16) -> Seq<u8> {
    seq![(value % 0x100) as u8, (value / 0x100) as u8]
}

/// The four little-endian bytes of a number.
pub open spec fn le32(value: u32) -> Seq<u8> {
    seq![
        (value % 0x100) as u8,
        (value / 0x100 % 0x100) as u8,
        (value / 0x1_0000 % 0x100) as u8,
        (value / 0x100_0000) as u8,
    ]
}

/// The eight little-endian bytes of a number.
pub open spec fn le64(value: u64) -> Seq<u8> {
    le32((value % 0x1_0000_0000) as u32) + le32((value / 0x1_0000_0000) as u32)
}

/// The number that two little-endian bytes stand for.
pub open spec fn from_le16(bytes: Seq<u8>) -> nat {
    (bytes[0] + bytes[1] * 0x100) as nat
}

/// The number that four little-endian bytes stand for.
pub open spec fn from_le32(bytes: Seq<u8>) -> nat {
    (bytes[0] + bytes[1] * 0x100 + bytes[2] * 0x1_0000 + bytes[3] * 0x100_0000) as nat
}

/// The number that eight little-endian bytes stand for.
pub open spec fn from_le64(bytes: Seq<u8>) -> nat {
    from_le32(bytes) + from_le32(bytes.skip(4)) * 0x1_0000_0000
}

/// A run of zero bytes.
pub open spec fn zeros(count: nat) -> Seq<u8> {
    Seq::new(count, |i: int| 0u8)
}

/// Little-endian bytes read back as the number they were written from.
pub proof fn little_endian_round_trip(short: u16, word: u32, long: u64)
    ensures
        from_le16(le16(short)) == short,
        from_le32(le32(word)) == word,
        from_le64(le64(long)) == long,
{
    assert(from_le32(le32(word)) == word);
    let low = (long % 0x1_0000_0000) as u32;
    let high = (long / 0x1_0000_0000) as u32;
    assert(from_le32(le32(low)) == low);
    assert(from_le32(le32(high)) == high);
    let bytes = le64(long);
    assert(bytes.skip(4) =~= le32(high));
    assert(bytes[0] == le32(low)[0] && bytes[1] == le32(low)[1] && bytes[2] == le32(low)[2]
        && bytes[3] == le32(low)[3]);
}

/// Eight little-endian bytes inside a longer sequence read back.
pub proof fn lemma_le64_at(bytes: Seq<u8>, at: int, value: u64)
    requires
        0 <= at,
        at + 8 <= bytes.len(),
        bytes.subrange(at, at + 8) == le64(value),
    ensures
        from_le64(bytes.skip(at)) == value,
{
    little_endian_round_trip(0, 0, value);
    let part = bytes.subrange(at, at + 8);
    let rest = bytes.skip(at);
    assert(rest[0] == part[0] && rest[1] == part[1] && rest[2] == part[2] && rest[3] == part[3]);
    assert(rest.skip(4)[0] == part.skip(4)[0] && rest.skip(4)[1] == part.skip(4)[1] && rest.skip(
        4,
    )[2] == part.skip(4)[2] && rest.skip(4)[3] == part.skip(4)[3]);
}

/// Four little-endian bytes inside a longer sequence read back.
pub proof fn lemma_le32_at(bytes: Seq<u8>, at: int, value: u32)
    requires
        0 <= at,
        at + 4 <= bytes.len(),
        bytes.subrange(at, at + 4) == le32(value),
    ensures
        from_le32(bytes.skip(at)) == value,
{
    little_endian_round_trip(0, value, 0);
    let part = bytes.subrange(at, at + 4);
    let rest = bytes.skip(at);
    assert(rest[0] == part[0] && rest[1] == part[1] && rest[2] == part[2] && rest[3] == part[3]);
}

/// Two little-endian bytes inside a longer sequence read back.
pub proof fn lemma_le16_at(bytes: Seq<u8>, at: int, value: u16)
    requires
        0 <= at,
        at + 2 <= bytes.len(),
        bytes.subrange(at, at + 2) == le16(value),
    ensures
        from_le16(bytes.skip(at)) == value,
{
    little_endian_round_trip(value, 0, 0);
    let part = bytes.subrange(at, at + 2);
    let rest = bytes.skip(at);
    assert(rest[0] == part[0] && rest[1] == part[1]);
}

/// Big-endian bytes read back as the number they were written from.
pub proof fn big_endian_round_trip(word: u32)
    ensures
        from_be32(be32(word)) == word,
{
}

pub fn put_u16(bytes: &mut Vec<u8>, value: u16)
    ensures
        final(bytes)@ == old(bytes)@ + be16(value),
{
    bytes.push((value / 0x100) as u8);
    bytes.push((value % 0x100) as u8);
    assert(bytes@ =~= old(bytes)@ + be16(value));
}

pub fn put_u32(bytes: &mut Vec<u8>, value: u32)
    ensures
        final(bytes)@ == old(bytes)@ + be32(value),
{
    bytes.push((value / 0x100_0000) as u8);
    bytes.push((value / 0x1_0000 % 0x100) as u8);
    bytes.push((value / 0x100 % 0x100) as u8);
    bytes.push((value % 0x100) as u8);
    assert(bytes@ =~= old(bytes)@ + be32(value));
}

pub fn put_u64(bytes: &mut Vec<u8>, value: u64)
    ensures
        final(bytes)@ == old(bytes)@ + be64(value),
{
    put_u32(bytes, (value / 0x1_0000_0000) as u32);
    put_u32(bytes, (value % 0x1_0000_0000) as u32);
    assert(bytes@ =~= old(bytes)@ + be64(value));
}

pub fn put_zeros(bytes: &mut Vec<u8>, count: usize)
    ensures
        final(bytes)@ == old(bytes)@ + zeros(count as nat),
{
    let mut index: usize = 0;
    assert(bytes@ =~= old(bytes)@ + zeros(0));
    while index < count
        invariant
            index <= count,
            bytes@ == old(bytes)@ + zeros(index as nat),
        decreases count - index,
    {
        bytes.push(0);
        assert(bytes@ =~= old(bytes)@ + zeros((index + 1) as nat));
        index = index + 1;
    }
}

pub fn put_le_u16(bytes: &mut Vec<u8>, value: u16)
    ensures
        final(bytes)@ == old(bytes)@ + le16(value),
{
    bytes.push((value % 0x100) as u8);
    bytes.push((value / 0x100) as u8);
    assert(bytes@ =~= old(bytes)@ + le16(value));
}

pub fn put_le_u32(bytes: &mut Vec<u8>, value: u32)
    ensures
        final(bytes)@ == old(bytes)@ + le32(value),
{
    bytes.push((value % 0x100) as u8);
    bytes.push((value / 0x100 % 0x100) as u8);
    bytes.push((value / 0x1_0000 % 0x100) as u8);
    bytes.push((value / 0x100_0000) as u8);
    assert(bytes@ =~= old(bytes)@ + le32(value));
}

pub fn put_le_u64(bytes: &mut Vec<u8>, value: u64)
    ensures
        final(bytes)@ == old(bytes)@ + le64(value),
{
    put_le_u32(bytes, (value % 0x1_0000_0000) as u32);
    put_le_u32(bytes, (value / 0x1_0000_0000) as u32);
    assert(bytes@ =~= old(bytes)@ + le64(value));
}

pub fn get_le_u16(bytes: &[u8], offset: usize) -> (result: u16)
    requires
        offset + 2 <= bytes@.len(),
    ensures
        result == from_le16(bytes@.skip(offset as int)),
{
    bytes[offset] as u16 + bytes[offset + 1] as u16 * 0x100
}

pub fn get_le_u32(bytes: &[u8], offset: usize) -> (result: u32)
    requires
        offset + 4 <= bytes@.len(),
    ensures
        result == from_le32(bytes@.skip(offset as int)),
{
    bytes[offset] as u32 + bytes[offset + 1] as u32 * 0x100 + bytes[offset + 2] as u32 * 0x1_0000
        + bytes[offset + 3] as u32 * 0x100_0000
}

pub fn get_le_u64(bytes: &[u8], offset: usize) -> (result: u64)
    requires
        offset + 8 <= bytes@.len(),
    ensures
        result == from_le64(bytes@.skip(offset as int)),
{
    assert(bytes@.skip(offset as int).skip(4) =~= bytes@.skip(offset + 4));
    assert(offset + 8 <= bytes.len());
    get_le_u32(bytes, offset) as u64 + get_le_u32(bytes, offset + 4) as u64 * 0x1_0000_0000
}

pub fn get_u32(bytes: &[u8], offset: usize) -> (result: u32)
    requires
        offset + 4 <= bytes@.len(),
    ensures
        result == from_be32(bytes@.skip(offset as int)),
{
    bytes[offset] as u32 * 0x100_0000 + bytes[offset + 1] as u32 * 0x1_0000 + bytes[offset
        + 2] as u32 * 0x100 + bytes[offset + 3] as u32
}

/// Numbers that are written for a file start with their highest byte, those for
/// a socket with their lowest.
pub proof fn byte_orders_are_opposite(value: u32)
    ensures
        ({
            let high_first = be32(value);
            let low_first = le32(value);
            &&& high_first[0] * 16_777_216 + high_first[1] * 65_536 + high_first[2] * 256
                + high_first[3] == value
            &&& low_first[0] + low_first[1] * 256 + low_first[2] * 65_536 + low_first[3]
                * 16_777_216 == value
            &&& low_first == high_first.reverse()
        }),
{
    let top = value / 0x100_0000;
    let second = value / 0x1_0000 % 0x100;
    let third = value / 0x100 % 0x100;
    assert(value / 0x1_0000 == top * 0x100 + second);
    assert(value / 0x100 == (value / 0x1_0000) * 0x100 + third);
    assert(value == (value / 0x100) * 0x100 + value % 0x100);
    assert(le32(value) =~= be32(value).reverse());
}

} // verus!
