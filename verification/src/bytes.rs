//! Big-endian integer fields: what they mean as mathematical values, and the
//! executable readers and writers for them.

use vstd::prelude::*;

use crate::errors::ConvertError;

verus! {

/// The 16-bit big-endian value stored at `pos` in `s`.
pub open spec fn be_u16_at(s: Seq<u8>, pos: int) -> u16 {
    (s[pos] * 0x100 + s[pos + 1]) as u16
}

/// The 32-bit big-endian value stored at `pos` in `s`.
pub open spec fn be_u32_at(s: Seq<u8>, pos: int) -> u32 {
    (s[pos] * 0x1000000 + s[pos + 1] * 0x10000 + s[pos + 2] * 0x100 + s[pos + 3]) as u32
}

/// The two bytes of `v` in big-endian order.
pub open spec fn u16_be_bytes(v: u16) -> Seq<u8> {
    seq![(v / 0x100) as u8, (v % 0x100) as u8]
}

/// The four bytes of `v` in big-endian order.
pub open spec fn u32_be_bytes(v: u32) -> Seq<u8> {
    seq![
        (v / 0x1000000) as u8,
        ((v / 0x10000) % 0x100) as u8,
        ((v / 0x100) % 0x100) as u8,
        (v % 0x100) as u8,
    ]
}

/// Reads the big-endian `u16` at `*pos`, advancing `*pos` past it; fails when
/// fewer than two bytes remain.
pub fn read_u16_be(input: &[u8], pos: &mut usize) -> (r: Result<u16, ConvertError>)
    ensures
        *old(pos) + 2 <= input@.len() ==> {
            &&& r == Ok::<u16, ConvertError>(be_u16_at(input@, *old(pos) as int))
            &&& *final(pos) == *old(pos) + 2
        },
        *old(pos) + 2 > input@.len() ==> {
            &&& r == Err::<u16, ConvertError>(ConvertError::TruncatedInput)
            &&& *final(pos) == *old(pos)
        },
{
    if input.len() >= 2 && *pos <= input.len() - 2 {
        let b0 = input[*pos];
        let b1 = input[*pos + 1];
        *pos = *pos + 2;
        Ok((b0 as u16) * 0x100 + (b1 as u16))
    } else {
        Err(ConvertError::TruncatedInput)
    }
}

/// Reads the big-endian `u32` at `*pos`, advancing `*pos` past it; fails when
/// fewer than four bytes remain.
pub fn read_u32_be(input: &[u8], pos: &mut usize) -> (r: Result<u32, ConvertError>)
    ensures
        *old(pos) + 4 <= input@.len() ==> {
            &&& r == Ok::<u32, ConvertError>(be_u32_at(input@, *old(pos) as int))
            &&& *final(pos) == *old(pos) + 4
        },
        *old(pos) + 4 > input@.len() ==> {
            &&& r == Err::<u32, ConvertError>(ConvertError::TruncatedInput)
            &&& *final(pos) == *old(pos)
        },
{
    if input.len() >= 4 && *pos <= input.len() - 4 {
        let b0 = input[*pos];
        let b1 = input[*pos + 1];
        let b2 = input[*pos + 2];
        let b3 = input[*pos + 3];
        *pos = *pos + 4;
        Ok((b0 as u32) * 0x1000000 + (b1 as u32) * 0x10000 + (b2 as u32) * 0x100 + (b3 as u32))
    } else {
        Err(ConvertError::TruncatedInput)
    }
}

/// Appends the two bytes of `num`, big-endian, to `output`.
pub fn write_u16_be(output: &mut Vec<u8>, num: u16)
    ensures
        final(output)@ == old(output)@ + u16_be_bytes(num),
{
    output.push((num / 0x100) as u8);
    output.push((num % 0x100) as u8);
    assert(output@ =~= old(output)@ + u16_be_bytes(num));
}

/// Appends the four bytes of `num`, big-endian, to `output`.
pub fn write_u32_be(output: &mut Vec<u8>, num: u32)
    ensures
        final(output)@ == old(output)@ + u32_be_bytes(num),
{
    output.push((num / 0x1000000) as u8);
    output.push(((num / 0x10000) % 0x100) as u8);
    output.push(((num / 0x100) % 0x100) as u8);
    output.push((num % 0x100) as u8);
    assert(output@ =~= old(output)@ + u32_be_bytes(num));
}

} // verus!
