//! Colors.

use crate::text::{hex2, push_char, push_hex2};
use vstd::prelude::*;

verus! {

/// Straight-alpha 8-bit color.
#[derive(Clone, Copy, Debug, PartialEq, Eq, Structural)]
pub struct Rgba {
    pub r: u8,
    pub g: u8,
    pub b: u8,
    pub a: u8,
}

impl Rgba {
    pub fn opaque(r: u8, g: u8, b: u8) -> (c: Rgba)
        ensures
            c == (Rgba { r, g, b, a: 255 }),
    {
        Rgba { r, g, b, a: 255 }
    }

    pub open spec fn clear() -> Rgba {
        Rgba { r: 0, g: 0, b: 0, a: 0 }
    }

    pub fn transparent() -> (c: Rgba)
        ensures
            c == Rgba::clear(),
    {
        Rgba { r: 0, g: 0, b: 0, a: 0 }
    }

    /// `#rrggbbaa`.
    pub open spec fn text(self) -> Seq<char> {
        seq!['#'] + hex2(self.r) + hex2(self.g) + hex2(self.b) + hex2(self.a)
    }

    pub fn to_text(&self) -> (s: String)
        ensures
            s@ == self.text(),
    {
        let mut out = String::new();
        push_char(&mut out, '#');
        push_hex2(&mut out, self.r);
        push_hex2(&mut out, self.g);
        push_hex2(&mut out, self.b);
        push_hex2(&mut out, self.a);
        assert(out@ =~= self.text());
        out
    }
}

} // verus!
