//! The packed 24-bit form of a colour: blue in the low byte, green in the
//! middle, red in the high byte.

use vstd::prelude::*;

verus! {

/// The packed form of three 8-bit channels.
pub open spec fn packed_rgb24(r: u8, g: u8, b: u8) -> nat {
    (b + 256 * g + 65536 * r) as nat
}

/// The red channel of a packed colour.
pub open spec fn red_of(rgb24: u32) -> u8 {
    ((rgb24 / 65536) % 256) as u8
}

/// The green channel of a packed colour.
pub open spec fn green_of(rgb24: u32) -> u8 {
    ((rgb24 / 256) % 256) as u8
}

/// The blue channel of a packed colour.
pub open spec fn blue_of(rgb24: u32) -> u8 {
    (rgb24 % 256) as u8
}

/// Packs three quantized channels into one 24-bit value.
pub fn pack_rgb24(r: u8, g: u8, b: u8) -> (rgb24: u32)
    ensures
        rgb24 == packed_rgb24(r, g, b),
        rgb24 < 0x100_0000,
{
    let r32: u32 = r as u32;
    let g32: u32 = g as u32;
    let b32: u32 = b as u32;
    proof {
        assert(g32 << 8 == g32 * 256) by (bit_vector)
            requires
                g32 < 256,
        ;
        assert(r32 << 16 == r32 * 65536) by (bit_vector)
            requires
                r32 < 256,
        ;
    }
    return b32 + (g32 << 8) + (r32 << 16);
}

/// Splits a packed colour into its red, green and blue channels. Bits above
/// the low 24 are ignored.
pub fn unpack_rgb24(rgb24: u32) -> (channels: (u8, u8, u8))
    ensures
        channels == (red_of(rgb24), green_of(rgb24), blue_of(rgb24)),
{
    proof {
        assert((rgb24 >> 16) & 0xFF == (rgb24 / 65536) % 256) by (bit_vector);
        assert((rgb24 >> 8) & 0xFF == (rgb24 / 256) % 256) by (bit_vector);
        assert(rgb24 & 0xFF == rgb24 % 256) by (bit_vector);
    }
    let r: u8 = ((rgb24 >> 16) & 0xFF) as u8;
    let g: u8 = ((rgb24 >> 8) & 0xFF) as u8;
    let b: u8 = (rgb24 & 0xFF) as u8;
    (r, g, b)
}

/// Unpacking a packed colour gives the three channels back.
pub proof fn lemma_unpack_pack(r: u8, g: u8, b: u8)
    ensures
        red_of(packed_rgb24(r, g, b) as u32) == r,
        green_of(packed_rgb24(r, g, b) as u32) == g,
        blue_of(packed_rgb24(r, g, b) as u32) == b,
{
}

/// Packing the channels of a 24-bit colour gives the colour back.
pub proof fn lemma_pack_unpack(rgb24: u32)
    requires
        rgb24 < 0x100_0000,
    ensures
        packed_rgb24(red_of(rgb24), green_of(rgb24), blue_of(rgb24)) == rgb24,
{
}

} // verus!
