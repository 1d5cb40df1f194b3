//! Single-precision numbers as the simulation stores and transmits them.
//!
//! The simulation never does arithmetic on these values itself: positions and
//! velocities enter from the integrator and leave towards the renderer and the
//! wire. What it does need is to tell whether two values are the same number,
//! whether a value is finite, and whether one value lies above another. All
//! three are decided here on the IEEE 754 binary32 bit pattern.

use vstd::prelude::*;

verus! {

/// The sign bit of a binary32 pattern.
pub const SIGN_BIT: u32 = 0x8000_0000;

/// The magnitude bits of an infinity. Larger magnitudes are NaNs, smaller ones
/// are finite numbers.
pub const INFINITY_MAGNITUDE: u32 = 0x7f80_0000;

/// The pattern of the number one.
pub const ONE_BITS: u32 = 0x3f80_0000;

/// An IEEE 754 binary32 value, held as its bit pattern.
///
/// The derived `==` compares patterns. Two patterns can stand for the same
/// number (the two zeros) and one pattern can fail to equal itself as a number
/// (any NaN); [`Scalar::float_eq`] is the numeric comparison.
#[derive(Clone, Copy, Debug, PartialEq, Eq, Structural)]
pub struct Scalar {
    pub bits: u32,
}

impl Scalar {
    /// The pattern with the sign bit cleared.
    pub open spec fn spec_magnitude(self) -> u32 {
        if self.bits >= SIGN_BIT {
            (self.bits - SIGN_BIT) as u32
        } else {
            self.bits
        }
    }

    /// Whether the sign bit is set. True of negative zero and of half the NaNs.
    pub open spec fn spec_is_sign_negative(self) -> bool {
        self.bits >= SIGN_BIT
    }

    /// Whether the pattern is a NaN.
    pub open spec fn spec_is_nan(self) -> bool {
        self.spec_magnitude() > INFINITY_MAGNITUDE
    }

    /// Whether the pattern is a number other than an infinity.
    pub open spec fn spec_is_finite(self) -> bool {
        self.spec_magnitude() < INFINITY_MAGNITUDE
    }

    /// The position of a number on the extended real line, as an integer that
    /// grows with the number. Both zeros sit at 0. Meaningless for a NaN.
    pub open spec fn spec_rank(self) -> int {
        if self.spec_is_sign_negative() {
            -(self.spec_magnitude() as int)
        } else {
            self.spec_magnitude() as int
        }
    }

    /// IEEE 754 equality: both are numbers, and the same number.
    pub open spec fn spec_float_eq(self, other: Scalar) -> bool {
        &&& !self.spec_is_nan()
        &&& !other.spec_is_nan()
        &&& self.spec_rank() == other.spec_rank()
    }

    /// IEEE 754 greater-than: both are numbers, and `self` is the larger.
    pub open spec fn spec_float_gt(self, other: Scalar) -> bool {
        &&& !self.spec_is_nan()
        &&& !other.spec_is_nan()
        &&& self.spec_rank() > other.spec_rank()
    }

    /// The value brought into the range from zero to one: zero for what
    /// lies below, one for what lies above, and the value itself otherwise.
    /// A NaN lies neither below nor above and stays what it is.
    pub open spec fn spec_clamp_unit(self) -> Scalar {
        if (Scalar { bits: 0 }).spec_float_gt(self) {
            Scalar { bits: 0 }
        } else if self.spec_float_gt(Scalar { bits: ONE_BITS }) {
            Scalar { bits: ONE_BITS }
        } else {
            self
        }
    }

    /// Wraps a bit pattern.
    pub fn from_bits(bits: u32) -> (s: Scalar)
        ensures
            s.bits == bits,
    {
        Scalar { bits }
    }

    #[verifier::when_used_as_spec(spec_magnitude)]
    pub fn magnitude(self) -> (m: u32)
        ensures
            m == self.spec_magnitude(),
    {
        if self.bits >= SIGN_BIT {
            self.bits - SIGN_BIT
        } else {
            self.bits
        }
    }

    #[verifier::when_used_as_spec(spec_is_sign_negative)]
    pub fn is_sign_negative(self) -> (r: bool)
        ensures
            r == self.spec_is_sign_negative(),
    {
        self.bits >= SIGN_BIT
    }

    #[verifier::when_used_as_spec(spec_is_nan)]
    pub fn is_nan(self) -> (r: bool)
        ensures
            r == self.spec_is_nan(),
    {
        self.magnitude() > INFINITY_MAGNITUDE
    }

    #[verifier::when_used_as_spec(spec_is_finite)]
    pub fn is_finite(self) -> (r: bool)
        ensures
            r == self.spec_is_finite(),
    {
        self.magnitude() < INFINITY_MAGNITUDE
    }

    #[verifier::when_used_as_spec(spec_float_eq)]
    pub fn float_eq(self, other: Scalar) -> (r: bool)
        ensures
            r == self.spec_float_eq(other),
    {
        if self.is_nan() || other.is_nan() {
            false
        } else if self.magnitude() == 0 {
            other.magnitude() == 0
        } else {
            self.bits == other.bits
        }
    }

    #[verifier::when_used_as_spec(spec_float_gt)]
    pub fn float_gt(self, other: Scalar) -> (r: bool)
        ensures
            r == self.spec_float_gt(other),
    {
        if self.is_nan() || other.is_nan() {
            false
        } else if self.is_sign_negative() {
            other.is_sign_negative() && self.magnitude() < other.magnitude()
        } else if other.is_sign_negative() {
            self.magnitude() > 0 || other.magnitude() > 0
        } else {
            self.magnitude() > other.magnitude()
        }
    }

    #[verifier::when_used_as_spec(spec_clamp_unit)]
    pub fn clamp_unit(self) -> (r: Scalar)
        ensures
            r == self.spec_clamp_unit(),
    {
        if (Scalar { bits: 0 }).float_gt(self) {
            Scalar { bits: 0 }
        } else if self.float_gt(Scalar { bits: ONE_BITS }) {
            Scalar { bits: ONE_BITS }
        } else {
            self
        }
    }
}

/// A clamped number lies between zero and one, unless it is a NaN.
pub proof fn lemma_clamp_unit_is_in_range(value: Scalar)
    ensures
        !value.spec_is_nan() ==> {
            &&& !(Scalar { bits: 0 }).spec_float_gt(value.spec_clamp_unit())
            &&& !value.spec_clamp_unit().spec_float_gt(Scalar { bits: ONE_BITS })
            &&& !value.spec_clamp_unit().spec_is_nan()
        },
        value.spec_is_nan() ==> value.spec_clamp_unit() == value,
{
}

/// Three scalars: a position or a velocity.
///
/// As with [`Scalar`], the derived `==` compares bit patterns and
/// [`Vec3::float_eq`] compares numbers.
#[derive(Clone, Copy, Debug, PartialEq, Eq, Structural)]
pub struct Vec3 {
    pub x: Scalar,
    pub y: Scalar,
    pub z: Scalar,
}

impl Vec3 {
    /// The origin, all three components positive zero.
    pub open spec fn spec_zero() -> Vec3 {
        Vec3 { x: Scalar { bits: 0 }, y: Scalar { bits: 0 }, z: Scalar { bits: 0 } }
    }

    /// Component-wise IEEE 754 equality.
    pub open spec fn spec_float_eq(self, other: Vec3) -> bool {
        &&& self.x.spec_float_eq(other.x)
        &&& self.y.spec_float_eq(other.y)
        &&& self.z.spec_float_eq(other.z)
    }

    /// The negation of [`Vec3::spec_float_eq`]: some component differs as a
    /// number, or some component is a NaN.
    pub open spec fn spec_float_ne(self, other: Vec3) -> bool {
        !self.spec_float_eq(other)
    }

    /// Whether every component is finite.
    pub open spec fn spec_is_finite(self) -> bool {
        &&& self.x.spec_is_finite()
        &&& self.y.spec_is_finite()
        &&& self.z.spec_is_finite()
    }

    /// Whether some component is a NaN.
    pub open spec fn spec_is_nan(self) -> bool {
        ||| self.x.spec_is_nan()
        ||| self.y.spec_is_nan()
        ||| self.z.spec_is_nan()
    }

    /// Builds a vector from three bit patterns.
    pub fn from_bits(x: u32, y: u32, z: u32) -> (v: Vec3)
        ensures
            v.x.bits == x,
            v.y.bits == y,
            v.z.bits == z,
    {
        Vec3 { x: Scalar { bits: x }, y: Scalar { bits: y }, z: Scalar { bits: z } }
    }

    #[verifier::when_used_as_spec(spec_zero)]
    pub fn zero() -> (v: Vec3)
        ensures
            v == Vec3::spec_zero(),
    {
        Vec3 { x: Scalar { bits: 0 }, y: Scalar { bits: 0 }, z: Scalar { bits: 0 } }
    }

    #[verifier::when_used_as_spec(spec_float_eq)]
    pub fn float_eq(self, other: Vec3) -> (r: bool)
        ensures
            r == self.spec_float_eq(other),
    {
        self.x.float_eq(other.x) && self.y.float_eq(other.y) && self.z.float_eq(other.z)
    }

    #[verifier::when_used_as_spec(spec_float_ne)]
    pub fn float_ne(self, other: Vec3) -> (r: bool)
        ensures
            r == self.spec_float_ne(other),
    {
        !self.float_eq(other)
    }

    #[verifier::when_used_as_spec(spec_is_finite)]
    pub fn is_finite(self) -> (r: bool)
        ensures
            r == self.spec_is_finite(),
    {
        self.x.is_finite() && self.y.is_finite() && self.z.is_finite()
    }

    #[verifier::when_used_as_spec(spec_is_nan)]
    pub fn is_nan(self) -> (r: bool)
        ensures
            r == self.spec_is_nan(),
    {
        self.x.is_nan() || self.y.is_nan() || self.z.is_nan()
    }
}

/// A vector without a NaN component equals itself as a number, and a vector
/// with one does not.
pub proof fn lemma_float_eq_reflexive(v: Vec3)
    ensures
        v.spec_float_eq(v) <==> !v.spec_is_nan(),
{
}

/// Numeric equality does not depend on the order of its operands.
pub proof fn lemma_float_eq_symmetric(a: Vec3, b: Vec3)
    ensures
        a.spec_float_eq(b) == b.spec_float_eq(a),
{
}

/// Numeric equality carries across a common middle value.
pub proof fn lemma_float_eq_transitive(a: Vec3, b: Vec3, c: Vec3)
    requires
        a.spec_float_eq(b),
        b.spec_float_eq(c),
    ensures
        a.spec_float_eq(c),
{
}

/// Two numerically equal scalars share a pattern unless both are zeros.
pub proof fn lemma_float_eq_patterns(a: Scalar, b: Scalar)
    ensures
        a.spec_float_eq(b) <==> !a.spec_is_nan() && !b.spec_is_nan() && (a.bits == b.bits || (
            a.spec_magnitude() == 0 && b.spec_magnitude() == 0)),
{
}

} // verus!
