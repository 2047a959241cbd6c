//! Colours of the graphics driver: one byte per channel, packed as `0xAARRGGBB`.
use vstd::prelude::*;

verus! {

/// An ARGB colour with one byte per channel.
#[derive(Clone, Copy, PartialEq, Eq, Structural, Debug)]
pub struct Colour {
    pub red: u8,
    pub green: u8,
    pub blue: u8,
    pub alpha: u8,
}

/// The packed `0xAARRGGBB` word of the given channels.
pub open spec fn pack_argb(alpha: u8, red: u8, green: u8, blue: u8) -> u32 {
    ((alpha as u32) << 24u32) | ((red as u32) << 16u32) | ((green as u32) << 8u32) | (blue as u32)
}

/// The colour a packed word stands for; an alpha byte of zero reads as opaque.
pub open spec fn colour_of_hex(hex: u32) -> Colour {
    let a = ((hex >> 24u32) & 0xffu32) as u8;
    Colour {
        alpha: if a != 0 { a } else { 0xffu8 },
        red: ((hex >> 16u32) & 0xffu32) as u8,
        green: ((hex >> 8u32) & 0xffu32) as u8,
        blue: (hex & 0xffu32) as u8,
    }
}

impl Colour {
    /// An opaque colour.
    pub fn from_rgb(red: u8, green: u8, blue: u8) -> (c: Self)
        ensures
            c == (Colour { red, green, blue, alpha: 0xff }),
    {
        Colour { red, green, blue, alpha: 0xff }
    }

    /// A colour with the given transparency.
    pub fn from_rgba(red: u8, green: u8, blue: u8, alpha: u8) -> (c: Self)
        ensures
            c == (Colour { red, green, blue, alpha }),
    {
        Colour { red, green, blue, alpha }
    }

    /// Fully transparent black.
    pub fn const_default() -> (c: Self)
        ensures
            c == (Colour { red: 0, green: 0, blue: 0, alpha: 0 }),
    {
        Colour { red: 0, green: 0, blue: 0, alpha: 0 }
    }

    /// The packed `0xAARRGGBB` word.
    pub fn to_hex(&self) -> (hex: u32)
        ensures
            hex == pack_argb(self.alpha, self.red, self.green, self.blue),
    {
        (self.alpha as u32) << 24u32 | (self.red as u32) << 16u32 | (self.green as u32) << 8u32 | (
        self.blue as u32)
    }

    /// The colour of a packed `0xAARRGGBB` word; a zero alpha byte gives an opaque colour.
    pub fn from_hex(hex: u32) -> (c: Colour)
        ensures
            c == colour_of_hex(hex),
    {
        let a = ((hex >> 24u32) & 0xffu32) as u8;
        Colour {
            alpha: if a != 0 {
                a
            } else {
                0xff
            },
            red: ((hex >> 16u32) & 0xffu32) as u8,
            green: ((hex >> 8u32) & 0xffu32) as u8,
            blue: (hex & 0xffu32) as u8,
        }
    }
}

/// Packing a colour whose alpha is not zero and reading it back gives the colour.
pub proof fn lemma_hex_roundtrip(c: Colour)
    requires
        c.alpha != 0,
    ensures
        colour_of_hex(pack_argb(c.alpha, c.red, c.green, c.blue)) == c,
{
    let (a, r, g, b) = (c.alpha, c.red, c.green, c.blue);
    assert(((pack_argb(a, r, g, b) >> 24u32) & 0xffu32) as u8 == a) by (bit_vector);
    assert(((pack_argb(a, r, g, b) >> 16u32) & 0xffu32) as u8 == r) by (bit_vector);
    assert(((pack_argb(a, r, g, b) >> 8u32) & 0xffu32) as u8 == g) by (bit_vector);
    assert((pack_argb(a, r, g, b) & 0xffu32) as u8 == b) by (bit_vector);
}

/// Reading a word and packing the colour gives the word back, with a zero
/// alpha byte turned opaque.
pub proof fn lemma_hex_repack(hex: u32)
    ensures
        ({
            let c = colour_of_hex(hex);
            pack_argb(c.alpha, c.red, c.green, c.blue) == if hex >> 24u32 != 0 {
                hex
            } else {
                hex | 0xff00_0000u32
            }
        }),
{
    let a = ((hex >> 24u32) & 0xffu32) as u8;
    let r = ((hex >> 16u32) & 0xffu32) as u8;
    let g = ((hex >> 8u32) & 0xffu32) as u8;
    let b = (hex & 0xffu32) as u8;
    assert(pack_argb(a, r, g, b) == hex) by (bit_vector)
        requires
            a == ((hex >> 24u32) & 0xffu32) as u8,
            r == ((hex >> 16u32) & 0xffu32) as u8,
            g == ((hex >> 8u32) & 0xffu32) as u8,
            b == (hex & 0xffu32) as u8,
    ;
    if hex >> 24u32 == 0 {
        assert(pack_argb(0xffu8, r, g, b) == hex | 0xff00_0000u32) by (bit_vector)
            requires
                hex >> 24u32 == 0,
                r == ((hex >> 16u32) & 0xffu32) as u8,
                g == ((hex >> 8u32) & 0xffu32) as u8,
                b == (hex & 0xffu32) as u8,
        ;
    }
    assert((a != 0) == (hex >> 24u32 != 0)) by (bit_vector)
        requires
            a == ((hex >> 24u32) & 0xffu32) as u8,
    ;
}

} // verus!
