use vstd::prelude::*;

verus! {

/// The packed value `0xAARRGGBB` of four 8-bit channels.
pub open spec fn argb(a: u8, r: u8, g: u8, b: u8) -> int {
    a * 0x100_0000 + r * 0x1_0000 + g * 0x100 + b
}

/// An 8-bit RGBA colour.
#[derive(Clone, Copy, Debug, PartialEq, Eq, Structural)]
pub struct Rgba8 {
    pub r: u8,
    pub g: u8,
    pub b: u8,
    pub a: u8,
}

/// Packs alpha, red, green and blue into `0xAARRGGBB`.
pub fn u8_to_hex(a: u8, r: u8, g: u8, b: u8) -> (v: u32)
    ensures
        v == argb(a, r, g, b),
{
    let (a32, r32, g32, b32) = (a as u32, r as u32, g as u32, b as u32);
    let v = (a32 << 24u32) | (r32 << 16u32) | (g32 << 8u32) | b32;
    assert(v == a32 * 0x100_0000 + r32 * 0x1_0000 + g32 * 0x100 + b32) by (bit_vector)
        requires
            v == (a32 << 24u32) | (r32 << 16u32) | (g32 << 8u32) | b32,
            a32 < 256,
            r32 < 256,
            g32 < 256,
            b32 < 256,
    ;
    v
}

/// Packs red, green and blue into `0x00RRGGBB`.
pub fn from_u8_rgb(r: u8, g: u8, b: u8) -> (v: u32)
    ensures
        v == argb(0, r, g, b),
{
    let (r32, g32, b32) = (r as u32, g as u32, b as u32);
    let v = (r32 << 16u32) | (g32 << 8u32) | b32;
    assert(v == r32 * 0x1_0000 + g32 * 0x100 + b32) by (bit_vector)
        requires
            v == (r32 << 16u32) | (g32 << 8u32) | b32,
            r32 < 256,
            g32 < 256,
            b32 < 256,
    ;
    v
}

} // verus!
