//! The accent colour that dock panes and documents carry for their frames.

use vstd::prelude::*;

verus! {

/// An sRGBA colour with premultiplied alpha, one byte per channel: the same
/// four bytes that an `egui::Color32` holds.
#[derive(Clone, Copy, Debug, PartialEq, Eq, Structural)]
pub struct AccentColor {
    pub r: u8,
    pub g: u8,
    pub b: u8,
    pub a: u8,
}

impl AccentColor {
    /// An opaque colour from its red, green and blue channels.
    pub fn from_rgb(r: u8, g: u8, b: u8) -> (c: Self)
        ensures
            c == (AccentColor { r, g, b, a: 255 }),
    {
        AccentColor { r, g, b, a: 255 }
    }
}

} // verus!
