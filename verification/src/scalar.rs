//! Single-precision numbers carried as integers.
//!
//! A `Scalar` stands for one IEEE-754 single-precision value. It keeps the
//! value's 32 bits, rearranged into a signed code so that the order of the
//! codes is the order of the numbers: a value with a clear sign bit has its
//! bit pattern as code, and a value with the sign bit set has the code
//! `-magnitude - 1`. Every bit pattern has exactly one code, so a value can be
//! carried through the library and handed back unchanged, and comparison,
//! negation and the not-a-number test are integer operations on the code.

use vstd::prelude::*;

verus! {

/// Magnitude of an infinity: exponent all ones, mantissa zero.
pub const INFINITY_MAGNITUDE: i32 = 0x7f80_0000;

/// One single-precision value, as its order-preserving code.
#[derive(Clone, Copy, Debug, PartialEq, Eq, Structural)]
pub struct Scalar {
    pub code: i32,
}

impl Scalar {
    /// Whether the sign bit is set.
    pub open spec fn negative(self) -> bool {
        self.code < 0
    }

    /// The low 31 bits: exponent and mantissa, read as one integer.
    pub open spec fn magnitude(self) -> int {
        if self.code >= 0 {
            self.code as int
        } else {
            -(self.code + 1)
        }
    }

    /// The 32-bit pattern of the value: sign bit on top of the magnitude.
    pub open spec fn bits(self) -> int {
        if self.negative() {
            0x8000_0000 + self.magnitude()
        } else {
            self.magnitude()
        }
    }

    /// Not-a-number: the magnitude lies above that of an infinity.
    pub open spec fn is_nan_spec(self) -> bool {
        self.magnitude() > INFINITY_MAGNITUDE
    }

    /// Position on the number line: the signed magnitude. Both zeros have
    /// rank 0; the infinities have the two extreme ranks among numbers.
    pub open spec fn rank(self) -> int {
        if self.negative() {
            -self.magnitude()
        } else {
            self.magnitude()
        }
    }

    /// Numeric less-than. It is false as soon as either side is not a number,
    /// and the two zeros are equal to each other.
    pub open spec fn lt_spec(self, other: Scalar) -> bool {
        !self.is_nan_spec() && !other.is_nan_spec() && self.rank() < other.rank()
    }

    /// Numeric less-than-or-equal, false as soon as either side is not a
    /// number.
    pub open spec fn le_spec(self, other: Scalar) -> bool {
        !self.is_nan_spec() && !other.is_nan_spec() && self.rank() <= other.rank()
    }

    /// The value with the sign bit flipped.
    pub open spec fn neg_spec(self) -> Scalar {
        Scalar { code: (-1 - self.code) as i32 }
    }

    /// The value whose bit pattern is `bits`.
    pub fn from_bits(bits: u32) -> (r: Scalar)
        ensures
            r.bits() == bits,
    {
        if bits < 0x8000_0000 {
            Scalar { code: bits as i32 }
        } else {
            let magnitude: u32 = bits - 0x8000_0000;
            Scalar { code: -1 - (magnitude as i32) }
        }
    }

    /// The bit pattern of the value.
    pub fn to_bits(self) -> (bits: u32)
        ensures
            bits == self.bits(),
    {
        if self.code >= 0 {
            self.code as u32
        } else {
            let magnitude: i32 = -1 - self.code;
            0x8000_0000u32 + (magnitude as u32)
        }
    }

    /// Positive zero.
    pub fn zero() -> (r: Scalar)
        ensures
            r.code == 0,
    {
        Scalar { code: 0 }
    }

    #[verifier::when_used_as_spec(is_nan_spec)]
    pub fn is_nan(self) -> (r: bool)
        ensures
            r == self.is_nan_spec(),
    {
        self.code > INFINITY_MAGNITUDE || self.code < -1 - INFINITY_MAGNITUDE
    }

    #[verifier::when_used_as_spec(lt_spec)]
    pub fn lt(self, other: Scalar) -> (r: bool)
        ensures
            r == self.lt_spec(other),
    {
        if self.is_nan() || other.is_nan() {
            false
        } else {
            let a: i32 = if self.code < 0 { self.code + 1 } else { self.code };
            let b: i32 = if other.code < 0 { other.code + 1 } else { other.code };
            a < b
        }
    }

    #[verifier::when_used_as_spec(le_spec)]
    pub fn le(self, other: Scalar) -> (r: bool)
        ensures
            r == self.le_spec(other),
    {
        if self.is_nan() || other.is_nan() {
            false
        } else {
            let a: i32 = if self.code < 0 { self.code + 1 } else { self.code };
            let b: i32 = if other.code < 0 { other.code + 1 } else { other.code };
            a <= b
        }
    }

    /// Flips the sign bit and keeps the magnitude.
    #[verifier::when_used_as_spec(neg_spec)]
    pub fn neg(self) -> (r: Scalar)
        ensures
            r == self.neg_spec(),
            r.magnitude() == self.magnitude(),
            r.negative() != self.negative(),
    {
        Scalar { code: -1 - self.code }
    }
}

/// Two scalars with the same bit pattern are the same scalar, so
/// `from_bits` undoes `to_bits` and `to_bits` undoes `from_bits`.
pub proof fn lemma_bits_determine_scalar(a: Scalar, b: Scalar)
    requires
        a.bits() == b.bits(),
    ensures
        a == b,
{
}

/// Negation mirrors the number line: it keeps not-a-number values
/// not-a-number, negates the rank, and reverses `lt`.
pub proof fn lemma_neg_reverses_order(a: Scalar, b: Scalar)
    ensures
        a.neg_spec().is_nan_spec() == a.is_nan_spec(),
        a.neg_spec().rank() == -a.rank(),
        a.neg_spec().neg_spec() == a,
        a.lt_spec(b) == b.neg_spec().lt_spec(a.neg_spec()),
{
}

} // verus!
