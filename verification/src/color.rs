//! True-color values used by styles and the renderer.

use vstd::prelude::*;
use vstd::string::StringExecFns;
use vstd::string::StrSliceExecFns;

use crate::protocol;

verus! {

/// An RGB color with one byte per channel.
#[derive(Clone, Copy, Debug, PartialEq, Eq, Structural)]
pub struct Color {
    pub r: u8,
    pub g: u8,
    pub b: u8,
}

impl Default for Color {
    fn default() -> (c: Color)
        ensures
            c == (Color { r: 0, g: 0, b: 0 }),
    {
        Color { r: 0, g: 0, b: 0 }
    }
}

/// The character for one hexadecimal digit, lower case.
pub open spec fn hex_digit(d: int) -> char {
    if d == 0 { '0' } else if d == 1 { '1' } else if d == 2 { '2' } else if d == 3 { '3' }
    else if d == 4 { '4' } else if d == 5 { '5' } else if d == 6 { '6' } else if d == 7 { '7' }
    else if d == 8 { '8' } else if d == 9 { '9' } else if d == 10 { 'a' } else if d == 11 { 'b' }
    else if d == 12 { 'c' } else if d == 13 { 'd' } else if d == 14 { 'e' } else { 'f' }
}

/// A byte as two lower-case hexadecimal digits.
pub open spec fn hex_byte(b: u8) -> Seq<char> {
    seq![hex_digit(b as int / 16), hex_digit(b as int % 16)]
}

/// A color written as "#rrggbb".
pub open spec fn hex_color(c: Color) -> Seq<char> {
    seq!['#'] + hex_byte(c.r) + hex_byte(c.g) + hex_byte(c.b)
}

/// The character of one hexadecimal digit value, as a one-character string.
fn hex_digit_str(d: u8) -> (s: &'static str)
    requires
        d < 16,
    ensures
        s@ == seq![hex_digit(d as int)],
{
    let table = "0123456789abcdef";
    proof {
        reveal_strlit("0123456789abcdef");
    }
    let s = table.substring_char(d as usize, d as usize + 1);
    proof {
        assert(s@ =~= seq![hex_digit(d as int)]);
    }
    s
}

impl Color {
    /// Extracts the red, green and blue channels of a 32-bit ARGB value,
    /// dropping the alpha channel.
    pub fn from_argb(argb: u32) -> (c: Color)
        ensures
            c.r == (argb >> 16u32) & 0xff,
            c.g == (argb >> 8u32) & 0xff,
            c.b == argb & 0xff,
    {
        proof {
            assert(((argb & 0x00ff_0000u32) >> 16u32) == ((argb >> 16u32) & 0xffu32))
                by (bit_vector);
            assert(((argb & 0x0000_ff00u32) >> 8u32) == ((argb >> 8u32) & 0xffu32))
                by (bit_vector);
            assert(((argb >> 16u32) & 0xffu32) < 256 && ((argb >> 8u32) & 0xffu32) < 256
                && (argb & 0xffu32) < 256) by (bit_vector);
        }
        Color {
            r: ((argb & 0x00ff_0000) >> 16) as u8,
            g: ((argb & 0x0000_ff00) >> 8) as u8,
            b: (argb & 0x0000_00ff) as u8,
        }
    }

    /// Renders the color as "#rrggbb", lower case.
    pub fn to_string(&self) -> (s: String)
        ensures
            s@ == hex_color(*self),
    {
        let mut s = String::new();
        s.append("#");
        proof {
            reveal_strlit("#");
        }
        s.append(hex_digit_str(self.r / 16));
        s.append(hex_digit_str(self.r % 16));
        s.append(hex_digit_str(self.g / 16));
        s.append(hex_digit_str(self.g % 16));
        s.append(hex_digit_str(self.b / 16));
        s.append(hex_digit_str(self.b % 16));
        proof {
            assert(s@ =~= hex_color(*self));
        }
        s
    }
}

impl From<protocol::Color> for Color {
    fn from(color: protocol::Color) -> (c: Color) {
        Color { r: color.r, g: color.g, b: color.b }
    }
}

impl vstd::std_specs::convert::FromSpecImpl<protocol::Color> for Color {
    open spec fn obeys_from_spec() -> bool {
        true
    }

    open spec fn from_spec(color: protocol::Color) -> Color {
        Color { r: color.r, g: color.g, b: color.b }
    }
}

} // verus!
