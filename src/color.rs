use vstd::prelude::*;

verus! {

/// An 8-bit-per-channel pixel colour.
#[derive(Clone, Copy, Debug, PartialEq, Eq, Structural)]
pub struct Color(pub u8, pub u8, pub u8);

impl Color {
    pub fn new(r: u8, g: u8, b: u8) -> (c: Color)
        ensures
            c == Color(r, g, b),
    {
        Color(r, g, b)
    }

    pub fn red(&self) -> (r: u8)
        ensures
            r == self.0,
    {
        self.0
    }

    pub fn green(&self) -> (g: u8)
        ensures
            g == self.1,
    {
        self.1
    }

    pub fn blue(&self) -> (b: u8)
        ensures
            b == self.2,
    {
        self.2
    }
}

} // verus!
