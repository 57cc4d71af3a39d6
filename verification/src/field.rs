//! The field elements that the channel draws: plain values of the Mersenne
//! field of modulus 2^31 - 1 and of its extensions.

use vstd::prelude::*;

verus! {

/// The modulus of the base field.
pub const P: u32 = 0x7fff_ffff;

/// An element of the base field.
#[derive(Clone, Copy, Debug, PartialEq, Eq, Structural)]
pub struct M31(pub u32);

/// An element of the complex extension: real part, imaginary part.
#[derive(Clone, Copy, Debug, PartialEq, Eq, Structural)]
pub struct CM31(pub M31, pub M31);

/// An element of the degree-4 extension, a pair of complex elements.
#[derive(Clone, Copy, Debug, PartialEq, Eq, Structural)]
pub struct QM31(pub CM31, pub CM31);

impl M31 {
    /// Whether the value is a canonical residue.
    pub open spec fn is_reduced(self) -> bool {
        self.0 < P
    }
}

impl QM31 {
    /// The four coordinates in the order in which they are built.
    pub open spec fn coordinates(self) -> Seq<u32> {
        seq![self.0.0.0, self.0.1.0, self.1.0.0, self.1.1.0]
    }

    /// Whether all four coordinates are canonical residues.
    pub open spec fn is_reduced(self) -> bool {
        self.0.0.is_reduced() && self.0.1.is_reduced() && self.1.0.is_reduced()
            && self.1.1.is_reduced()
    }

    /// Builds an element from its four coordinates.
    pub fn from_m31(a: M31, b: M31, c: M31, d: M31) -> (q: QM31)
        ensures
            q == QM31(CM31(a, b), CM31(c, d)),
            q.coordinates() == seq![a.0, b.0, c.0, d.0],
    {
        QM31(CM31(a, b), CM31(c, d))
    }
}

} // verus!
