use vstd::prelude::*;

verus! {

/// A 16-bit-per-channel RGB colour, as the Hue entertainment stream expects it.
#[derive(Clone, Copy, Debug, PartialEq, Eq, Structural)]
pub struct Color {
    pub r: u16,
    pub g: u16,
    pub b: u16,
}

impl Color {
    /// Builds a colour from its three channels.
    pub fn new(r: u16, g: u16, b: u16) -> (c: Self)
        ensures
            c.r == r,
            c.g == g,
            c.b == b,
    {
        Color { r, g, b }
    }
}

} // verus!
