use vstd::prelude::*;

verus! {

/// A single-precision real value kept as its 32-bit pattern.
///
/// The core only stores such values and passes them on; whoever draws or
/// integrates decodes the pattern.
#[derive(Clone, Copy, Debug, PartialEq, Eq, Structural)]
pub struct RealBits(pub u32);

/// An opaque RGB color; each channel is a real value in `[0, 1]`.
#[derive(Clone, Copy, Debug, PartialEq, Eq, Structural)]
pub struct Rgb {
    pub r: RealBits,
    pub g: RealBits,
    pub b: RealBits,
}

impl Rgb {
    /// Builds a color from its three channels.
    pub fn new(r: RealBits, g: RealBits, b: RealBits) -> (c: Rgb)
        ensures
            c.r == r,
            c.g == g,
            c.b == b,
    {
        Rgb { r, g, b }
    }

    /// Black: every channel holds zero, whose pattern is all zero bits.
    pub open spec fn black_spec() -> Rgb {
        Rgb { r: RealBits(0), g: RealBits(0), b: RealBits(0) }
    }

    /// Black: every channel holds zero, whose pattern is all zero bits.
    pub fn black() -> (c: Rgb)
        ensures
            c == Rgb::black_spec(),
    {
        Rgb { r: RealBits(0), g: RealBits(0), b: RealBits(0) }
    }
}

} // verus!
