//! Packed 24-bit RGB colours as the colour buffer stores them.

use vstd::prelude::*;
use crate::scalar::{is_trunc, Scalar};

verus! {

/// A channel value cut to the displayable range `0..=255`.
pub open spec fn clamp_channel(v: int) -> int {
    if v < 0 {
        0
    } else if v > 255 {
        255
    } else {
        v
    }
}

/// The packed colour `0x00RRGGBB` of three already clamped channels.
pub open spec fn rgb(r: int, g: int, b: int) -> int {
    r * 65536 + g * 256 + b
}

/// The packed colour of three unclamped channels.
pub open spec fn packed(r: int, g: int, b: int) -> int {
    rgb(clamp_channel(r), clamp_channel(g), clamp_channel(b))
}

/// The red channel of a packed colour.
pub open spec fn red_of(c: u32) -> int {
    (c as int / 65536) % 256
}

/// The green channel of a packed colour.
pub open spec fn green_of(c: u32) -> int {
    (c as int / 256) % 256
}

/// The blue channel of a packed colour.
pub open spec fn blue_of(c: u32) -> int {
    c as int % 256
}

/// Cuts one channel to `0..=255`.
pub fn clamp_to_byte(v: i32) -> (c: u8)
    ensures
        c as int == clamp_channel(v as int),
{
    if v < 0 {
        0
    } else if v > 255 {
        255
    } else {
        v as u8
    }
}

/// Clamps each channel to `0..=255` and packs the three as `0x00RRGGBB`.
pub fn pack_rgb(r: i32, g: i32, b: i32) -> (c: u32)
    ensures
        c as int == packed(r as int, g as int, b as int),
        c <= 0xFF_FFFF,
{
    let rc: u32 = clamp_to_byte(r) as u32;
    let gc: u32 = clamp_to_byte(g) as u32;
    let bc: u32 = clamp_to_byte(b) as u32;
    assert((rc << 16) + (gc << 8) + bc == rc * 65536 + gc * 256 + bc && (rc << 16) + (gc << 8)
        + bc <= 0xFF_FFFF) by (bit_vector)
        requires
            rc <= 255,
            gc <= 255,
            bc <= 255,
    ;
    (rc << 16) + (gc << 8) + bc
}

/// `c` is the packed colour of the triple `vec`: of the integer part that
/// the scalar gives for each channel, clamped to `0..=255`.
pub open spec fn is_packed_color<N: Scalar>(vec: [N; 3], c: u32) -> bool {
    exists|r: i32, g: i32, b: i32|
        #![trigger is_trunc(vec@[0], r), is_trunc(vec@[1], g), is_trunc(vec@[2], b)]
        {
            &&& is_trunc(vec@[0], r)
            &&& is_trunc(vec@[1], g)
            &&& is_trunc(vec@[2], b)
            &&& c as int == packed(r as int, g as int, b as int)
        }
}

/// The packed colour of a red, green, blue triple: the integer part of each
/// channel, clamped to `0..=255`.
pub fn vector3_to_u32<N: Scalar>(vec: &[N; 3]) -> (c: u32)
    ensures
        c <= 0xFF_FFFF,
        is_packed_color(*vec, c),
{
    let r: i32 = vec[0].trunc();
    let g: i32 = vec[1].trunc();
    let b: i32 = vec[2].trunc();
    let c: u32 = pack_rgb(r, g, b);
    assert(is_trunc(vec@[0], r) && is_trunc(vec@[1], g) && is_trunc(vec@[2], b) && c as int
        == packed(r as int, g as int, b as int));
    c
}

/// Splits a packed colour into its red, green and blue bytes; bits above the
/// low 24 are ignored.
pub fn unpack_rgb(c: u32) -> (channels: (u8, u8, u8))
    ensures
        channels.0 as int == red_of(c),
        channels.1 as int == green_of(c),
        channels.2 as int == blue_of(c),
{
    assert(((c >> 16) & 0xFF) == (c / 65536) % 256) by (bit_vector);
    assert(((c >> 8) & 0xFF) == (c / 256) % 256) by (bit_vector);
    assert((c & 0xFF) == c % 256) by (bit_vector);
    (((c >> 16) & 0xFF) as u8, ((c >> 8) & 0xFF) as u8, (c & 0xFF) as u8)
}

/// Packing then unpacking gives back the clamped channels.
pub proof fn lemma_unpack_packed(r: int, g: int, b: int)
    ensures
        0 <= packed(r, g, b) <= 0xFF_FFFF,
        red_of(packed(r, g, b) as u32) == clamp_channel(r),
        green_of(packed(r, g, b) as u32) == clamp_channel(g),
        blue_of(packed(r, g, b) as u32) == clamp_channel(b),
{
    let rc = clamp_channel(r);
    let gc = clamp_channel(g);
    let bc = clamp_channel(b);
    assert(0 <= rc <= 255 && 0 <= gc <= 255 && 0 <= bc <= 255);
    let p = rc * 65536 + gc * 256 + bc;
    assert(p / 65536 == rc && (p / 256) % 256 == gc && p % 256 == bc) by (nonlinear_arith)
        requires
            0 <= rc <= 255,
            0 <= gc <= 255,
            0 <= bc <= 255,
            p == rc * 65536 + gc * 256 + bc,
    ;
}

} // verus!
