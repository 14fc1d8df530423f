//! A packed RGBA color, convertible to and from its 32-bit encoding.

use vstd::prelude::*;

verus! {

/// An RGBA color; the 32-bit encoding packs it as `0xRRGGBBAA`.
#[derive(Clone, PartialEq, Eq, Copy, Debug, Structural)]
pub struct Color {
    pub red: u8,
    pub green: u8,
    pub blue: u8,
    pub alpha: u8,
}

/// The color a packed `0xRRGGBBAA` word denotes.
pub open spec fn spec_color_of_u32(value: u32) -> Color {
    Color {
        red: ((value >> 24) & 0xFF) as u8,
        green: ((value >> 16) & 0xFF) as u8,
        blue: ((value >> 8) & 0xFF) as u8,
        alpha: (value & 0xFF) as u8,
    }
}

/// The packed `0xRRGGBBAA` word of a color.
pub open spec fn spec_u32_of_color(c: Color) -> u32 {
    ((c.red as u32) << 24) | ((c.green as u32) << 16) | ((c.blue as u32) << 8) | (c.alpha as u32)
}

impl Color {
    /// The component at `index`: red, green, blue, alpha in that order.
    pub fn component(&self, index: u8) -> (r: u8)
        requires
            index < 4,
        ensures
            index == 0 ==> r == self.red,
            index == 1 ==> r == self.green,
            index == 2 ==> r == self.blue,
            index == 3 ==> r == self.alpha,
    {
        match index {
            0 => self.red,
            1 => self.green,
            2 => self.blue,
            _ => self.alpha,
        }
    }
}

impl From<u32> for Color {
    fn from(value: u32) -> (r: Self) {
        Color {
            red: ((value >> 24) & 0xFF) as u8,
            green: ((value >> 16) & 0xFF) as u8,
            blue: ((value >> 8) & 0xFF) as u8,
            alpha: (value & 0xFF) as u8,
        }
    }
}

impl vstd::std_specs::convert::FromSpecImpl<u32> for Color {
    open spec fn obeys_from_spec() -> bool {
        true
    }

    open spec fn from_spec(v: u32) -> Color {
        spec_color_of_u32(v)
    }
}

impl From<Color> for u32 {
    fn from(value: Color) -> (r: Self) {
        ((value.red as u32) << 24) | ((value.green as u32) << 16) | ((value.blue as u32) << 8) | (
        value.alpha as u32)
    }
}

impl vstd::std_specs::convert::FromSpecImpl<Color> for u32 {
    open spec fn obeys_from_spec() -> bool {
        true
    }

    open spec fn from_spec(v: Color) -> u32 {
        spec_u32_of_color(v)
    }
}

/// Packing a color and unpacking the word gives the color back.
pub proof fn lemma_color_round_trip(c: Color)
    ensures
        spec_color_of_u32(spec_u32_of_color(c)) == c,
{
    let v = spec_u32_of_color(c);
    let r = c.red;
    let g = c.green;
    let b = c.blue;
    let a = c.alpha;
    assert(((v >> 24) & 0xFF) as u8 == r && ((v >> 16) & 0xFF) as u8 == g && ((v >> 8) & 0xFF) as u8
        == b && (v & 0xFF) as u8 == a) by (bit_vector)
        requires
            v == ((r as u32) << 24) | ((g as u32) << 16) | ((b as u32) << 8) | (a as u32),
    ;
}

} // verus!
