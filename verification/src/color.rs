//! Packed `0x00RRGGBB` colours.

use vstd::prelude::*;

verus! {

/// Ink: the value a set pixel holds in a working image.
pub const BLACK: u32 = 0;

/// Paper: the value a cleared pixel holds in a working image.
pub const WHITE: u32 = 0xFF_FFFF;

pub const AZURE_BLUE: u32 = 0x00_7F_FF;

pub const RED: u32 = 0x9D_25_0A;

/// Marks a pixel that carries no colour at all. It lies above every packed
/// colour, so no call of [`from_u8_rgb`] can produce it.
pub const TRANSPARENT: u32 = 0xFF00_0000;

/// The packed colour with the given channels, as a number.
pub open spec fn rgb(r: u8, g: u8, b: u8) -> int {
    r as int * 65536 + g as int * 256 + b as int
}

/// Packs three channels into one `0x00RRGGBB` word.
pub fn from_u8_rgb(r: u8, g: u8, b: u8) -> (color: u32)
    ensures
        color == rgb(r, g, b),
        color <= WHITE,
{
    let (r, g, b) = (r as u32, g as u32, b as u32);
    let color = (r << 16) | (g << 8) | b;
    assert(color == r * 65536 + g * 256 + b) by (bit_vector)
        requires
            color == (r << 16) | (g << 8) | b,
            r < 256,
            g < 256,
            b < 256,
    ;
    color
}

/// The named colours are the packed forms of their channel triples.
pub proof fn lemma_named_colors()
    ensures
        BLACK == rgb(0, 0, 0),
        WHITE == rgb(255, 255, 255),
        AZURE_BLUE == rgb(0, 127, 255),
        RED == rgb(157, 37, 10),
{
}

/// Packing is one-to-one, and never yields the transparent marker.
pub proof fn lemma_rgb_injective(r1: u8, g1: u8, b1: u8, r2: u8, g2: u8, b2: u8)
    ensures
        rgb(r1, g1, b1) == rgb(r2, g2, b2) <==> (r1 == r2 && g1 == g2 && b1 == b2),
        rgb(r1, g1, b1) != TRANSPARENT,
{
}

} // verus!
