//! Conversions between the integer widths that the format mixes.

use vstd::prelude::*;

verus! {

/// `x` brought into the range of `usize`: zero below it, the largest `usize`
/// above it.
pub open spec fn saturate(x: int) -> usize {
    if x < 0 {
        0
    } else if x > usize::MAX {
        usize::MAX
    } else {
        x as usize
    }
}

/// Reinterprets an unsigned byte as a signed one (two's complement).
pub open spec fn signed_8(x: u8) -> int {
    if x < 0x80 {
        x as int
    } else {
        x - 0x100
    }
}

/// Reinterprets an unsigned 32-bit value as a signed one (two's complement).
pub open spec fn signed_32(x: u32) -> int {
    if x < 0x8000_0000 {
        x as int
    } else {
        x - 0x1_0000_0000
    }
}

/// Reinterprets an unsigned byte as a signed one.
pub fn u8_i8(x: u8) -> (r: i8)
    ensures
        r == signed_8(x),
{
    if x < 0x80 {
        x as i8
    } else {
        let low: u8 = x - 0x80;
        (low as i8) - 0x7f - 1
    }
}

/// Widens a byte to sixteen bits.
pub fn u8_u16(x: u8) -> (r: u16)
    ensures
        r == x,
{
    x as u16
}

/// Widens a byte to an index.
pub fn u8_usize(x: u8) -> (r: usize)
    ensures
        r == x,
{
    x as usize
}

/// Widens sixteen bits to thirty-two.
pub fn u16_u32(x: u16) -> (r: u32)
    ensures
        r == x,
{
    x as u32
}

/// Reinterprets an unsigned 32-bit value as a signed one.
pub fn u32_i32(x: u32) -> (r: i32)
    ensures
        r == signed_32(x),
{
    if x < 0x8000_0000 {
        x as i32
    } else {
        let low: u32 = x - 0x8000_0000;
        (low as i32) - 0x7fff_ffff - 1
    }
}

/// Keeps the low eight bits.
pub fn u32_u8(x: u32) -> (r: u8)
    ensures
        r == x % 0x100,
{
    let low: u32 = x % 0x100;
    low as u8
}

/// Widens thirty-two bits to sixty-four.
pub fn u32_u64(x: u32) -> (r: u64)
    ensures
        r == x,
{
    x as u64
}

/// Widens thirty-two bits to an index.
pub fn u32_usize(x: u32) -> (r: usize)
    ensures
        r == x,
{
    x as usize
}

/// The number of bytes that `x` counts when it is not negative, and the one
/// that its two's-complement bit pattern counts when it is.
pub fn i32_usize(x: i32) -> (r: usize)
    ensures
        x >= 0 ==> r == x,
        x < 0 ==> r == usize::MAX + 1 + x,
{
    if x >= 0 {
        x as usize
    } else {
        let below: i32 = -(x + 1);
        usize::MAX - (below as usize)
    }
}

} // verus!
