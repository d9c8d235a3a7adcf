//! Integers as little-endian bytes.

use vstd::prelude::*;

verus! {

/// The four bytes of `value`, least significant first.
pub open spec fn le_bytes32(value: u32) -> Seq<u8> {
    seq![
        (value & 0xff) as u8,
        ((value >> 8) & 0xff) as u8,
        ((value >> 16) & 0xff) as u8,
        ((value >> 24) & 0xff) as u8,
    ]
}

/// The eight bytes of `value`, least significant first.
pub open spec fn le_bytes64(value: u64) -> Seq<u8> {
    le_bytes32((value & 0xffff_ffff) as u32) + le_bytes32((value >> 32) as u32)
}

/// Appends the four bytes of `value` to `bytes`.
pub(crate) fn push_le_bytes32(bytes: &mut Vec<u8>, value: u32)
    ensures
        final(bytes)@ == old(bytes)@ + le_bytes32(value),
{
    bytes.push((value & 0xff) as u8);
    bytes.push(((value >> 8) & 0xff) as u8);
    bytes.push(((value >> 16) & 0xff) as u8);
    bytes.push(((value >> 24) & 0xff) as u8);
    assert(bytes@ =~= old(bytes)@ + le_bytes32(value));
}

/// Appends the eight bytes of `value` to `bytes`.
pub(crate) fn push_le_bytes64(bytes: &mut Vec<u8>, value: u64)
    ensures
        final(bytes)@ == old(bytes)@ + le_bytes64(value),
{
    push_le_bytes32(bytes, (value & 0xffff_ffff) as u32);
    push_le_bytes32(bytes, (value >> 32) as u32);
    assert(bytes@ =~= old(bytes)@ + le_bytes64(value));
}

/// Different 32-bit integers have different bytes.
pub proof fn le_bytes32_injective(a: u32, b: u32)
    requires
        le_bytes32(a) == le_bytes32(b),
    ensures
        a == b,
{
    let x = le_bytes32(a);
    let y = le_bytes32(b);
    assert(x[0] == y[0] && x[1] == y[1] && x[2] == y[2] && x[3] == y[3]);
    assert(a == b) by (bit_vector)
        requires
            (a & 0xff) as u8 == (b & 0xff) as u8,
            ((a >> 8) & 0xff) as u8 == ((b >> 8) & 0xff) as u8,
            ((a >> 16) & 0xff) as u8 == ((b >> 16) & 0xff) as u8,
            ((a >> 24) & 0xff) as u8 == ((b >> 24) & 0xff) as u8,
    ;
}

/// Different 64-bit integers have different bytes.
pub proof fn le_bytes64_injective(a: u64, b: u64)
    requires
        le_bytes64(a) == le_bytes64(b),
    ensures
        a == b,
{
    let x = le_bytes64(a);
    let y = le_bytes64(b);
    assert(x.take(4) =~= le_bytes32((a & 0xffff_ffff) as u32));
    assert(y.take(4) =~= le_bytes32((b & 0xffff_ffff) as u32));
    assert(x.skip(4) =~= le_bytes32((a >> 32) as u32));
    assert(y.skip(4) =~= le_bytes32((b >> 32) as u32));
    le_bytes32_injective((a & 0xffff_ffff) as u32, (b & 0xffff_ffff) as u32);
    le_bytes32_injective((a >> 32) as u32, (b >> 32) as u32);
    assert(a == b) by (bit_vector)
        requires
            (a & 0xffff_ffff) as u32 == (b & 0xffff_ffff) as u32,
            (a >> 32) as u32 == (b >> 32) as u32,
    ;
}

/// The bytes of a 32-bit integer are its digits to the base 256, the least
/// significant first.
pub proof fn le_bytes32_are_digits(value: u32)
    ensures
        le_bytes32(value).len() == 4,
        value == le_bytes32(value)[0] + 0x100 * le_bytes32(value)[1] + 0x1_0000 * le_bytes32(value)[2]
            + 0x100_0000 * le_bytes32(value)[3],
{
    assert(value & 0xff < 256 && (value >> 8) & 0xff < 256 && (value >> 16) & 0xff < 256 && (value
        >> 24) & 0xff < 256) by (bit_vector);
    assert(value == (value & 0xff) + 0x100 * ((value >> 8) & 0xff) + 0x1_0000 * ((value >> 16) & 0xff)
        + 0x100_0000 * ((value >> 24) & 0xff)) by (bit_vector);
}

/// The bytes of a 64-bit integer are its digits to the base 256, the least
/// significant first.
pub proof fn le_bytes64_are_digits(value: u64)
    ensures
        le_bytes64(value).len() == 8,
        ({
            let b = le_bytes64(value);
            value == b[0] + 0x100 * b[1] + 0x1_0000 * b[2] + 0x100_0000 * b[3] + 0x1_0000_0000 * b[4]
                + 0x100_0000_0000 * b[5] + 0x1_0000_0000_0000 * b[6] + 0x100_0000_0000_0000 * b[7]
        }),
{
    let low = (value & 0xffff_ffff) as u32;
    let high = (value >> 32) as u32;
    le_bytes32_are_digits(low);
    le_bytes32_are_digits(high);
    assert(value & 0xffff_ffff < 0x1_0000_0000 && value >> 32 < 0x1_0000_0000 && value == (value
        & 0xffff_ffff) + 0x1_0000_0000 * (value >> 32)) by (bit_vector);
    let b = le_bytes64(value);
    assert(b[4] == le_bytes32(high)[0] && b[5] == le_bytes32(high)[1] && b[6] == le_bytes32(high)[2]
        && b[7] == le_bytes32(high)[3]);
}

} // verus!
