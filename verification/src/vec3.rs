//! Triples of scalars: points, directions and colours as the library carries
//! them. Only what is exact on codes lives here: building, reading, negating
//! and the near-zero test.

use crate::scalar::Scalar;
use vstd::prelude::*;

verus! {

/// Magnitude of the threshold of `near_zero`, the single-precision value
/// nearest to one hundred-millionth.
pub const NEAR_ZERO_MAGNITUDE: i32 = 0x322b_cc77;

#[derive(Clone, Copy, Debug)]
pub struct Vec3 {
    pub e: [Scalar; 3],
}

impl Vec3 {
    /// The three components in order.
    pub open spec fn coords(self) -> Seq<Scalar> {
        self.e@
    }

    /// The zero vector.
    pub fn new() -> (r: Vec3)
        ensures
            r.coords() == seq![Scalar { code: 0 }, Scalar { code: 0 }, Scalar { code: 0 }],
    {
        Vec3 { e: [Scalar::zero(), Scalar::zero(), Scalar::zero()] }
    }

    pub fn from(e0: Scalar, e1: Scalar, e2: Scalar) -> (r: Vec3)
        ensures
            r.coords() == seq![e0, e1, e2],
    {
        Vec3 { e: [e0, e1, e2] }
    }

    pub fn x(&self) -> (r: Scalar)
        ensures
            r == self.coords()[0],
    {
        self.e[0]
    }

    pub fn y(&self) -> (r: Scalar)
        ensures
            r == self.coords()[1],
    {
        self.e[1]
    }

    pub fn z(&self) -> (r: Scalar)
        ensures
            r == self.coords()[2],
    {
        self.e[2]
    }

    pub fn get_at(&self, i: usize) -> (r: Scalar)
        requires
            i < 3,
        ensures
            r == self.coords()[i as int],
    {
        self.e[i]
    }

    /// The vector with every component negated.
    pub fn inv(&self) -> (r: Vec3)
        ensures
            r.coords() == seq![
                self.coords()[0].neg_spec(),
                self.coords()[1].neg_spec(),
                self.coords()[2].neg_spec(),
            ],
    {
        Vec3::from(self.e[0].neg(), self.e[1].neg(), self.e[2].neg())
    }

    /// Whether a component is a number of magnitude below the threshold.
    pub open spec fn component_near_zero(c: Scalar) -> bool {
        c.magnitude() < NEAR_ZERO_MAGNITUDE
    }

    /// Whether every component is closer to zero than the threshold.
    pub fn near_zero(&self) -> (r: bool)
        ensures
            r == (Self::component_near_zero(self.coords()[0]) && Self::component_near_zero(
                self.coords()[1],
            ) && Self::component_near_zero(self.coords()[2])),
    {
        let a: Scalar = self.e[0];
        let b: Scalar = self.e[1];
        let c: Scalar = self.e[2];
        let near_a: bool = -NEAR_ZERO_MAGNITUDE - 1 < a.code && a.code < NEAR_ZERO_MAGNITUDE;
        let near_b: bool = -NEAR_ZERO_MAGNITUDE - 1 < b.code && b.code < NEAR_ZERO_MAGNITUDE;
        let near_c: bool = -NEAR_ZERO_MAGNITUDE - 1 < c.code && c.code < NEAR_ZERO_MAGNITUDE;
        near_a && near_b && near_c
    }
}

/// Code of the number one.
pub const UNIT_CODE: i32 = 0x3f80_0000;

/// Whether rejection sampling keeps a candidate of the given squared
/// length: it is rejected where the squared length is a number of at least
/// one, and kept otherwise.
pub fn keeps_sample(len_squared: Scalar) -> (r: bool)
    ensures
        r == !(Scalar { code: UNIT_CODE }).le_spec(len_squared),
{
    !Scalar { code: UNIT_CODE }.le(len_squared)
}

/// Whether a sample lies in the hemisphere of a normal: its dot product with
/// the normal is a number above zero. A sample that does not is turned
/// round.
pub fn in_hemisphere(facing: Scalar) -> (r: bool)
    ensures
        r == (Scalar { code: 0 }).lt_spec(facing),
{
    Scalar::zero().lt(facing)
}

} // verus!
