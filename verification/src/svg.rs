//! Colors and fill modes for simple SVG output.

use vstd::prelude::*;

use crate::text::hex_byte_repr;
use crate::text::push_hex_byte;
use crate::text::push_char;

verus! {

/// An opaque RGB color.
#[derive(Debug, Clone, Copy, PartialEq, Eq, Structural, PartialOrd, Ord, Hash)]
pub struct Color {
    pub r: u8,
    pub g: u8,
    pub b: u8,
}

impl Color {
    pub fn new(r: u8, g: u8, b: u8) -> (c: Color)
        ensures
            c == (Color { r, g, b }),
    {
        Color { r, g, b }
    }

    /// The color as `#RRGGBB`, upper-case.
    pub fn to_hex(&self) -> (s: String)
        ensures
            s@ == seq!['#'] + hex_byte_repr(self.r) + hex_byte_repr(self.g) + hex_byte_repr(
                self.b,
            ),
    {
        let mut out = String::new();
        push_char(&mut out, '#');
        push_hex_byte(&mut out, self.r);
        push_hex_byte(&mut out, self.g);
        push_hex_byte(&mut out, self.b);
        assert(((Seq::<char>::empty().push('#') + hex_byte_repr(self.r)) + hex_byte_repr(self.g))
            + hex_byte_repr(self.b) =~= seq!['#'] + hex_byte_repr(self.r) + hex_byte_repr(self.g)
            + hex_byte_repr(self.b));
        out
    }
}

/// How a shape is filled: not at all, or with a color.
#[derive(Debug, Clone, Copy, PartialEq, Eq, Structural, PartialOrd, Ord, Hash)]
pub enum FillMode {
    Hollow,
    Fill(Color),
}

} // verus!
