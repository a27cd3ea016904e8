use vstd::prelude::*;

verus! {

/// A number in the IEEE 754 single-precision encoding, held by its bit
/// pattern: the sign in the highest bit, then eight bits of exponent, then
/// twenty-three bits of fraction.
///
/// The crate never computes with a scalar. It stores scalars, hands them to
/// the arithmetic of its caller, and reads from the bit pattern what the
/// encoding fixes: whether the scalar is a number at all, and how two of them
/// compare. Two scalars are equal when their bit patterns are, so `+0` and
/// `-0` differ as scalars and a NaN equals itself; the comparisons below
/// follow the numbers instead.
#[derive(Clone, Copy, Debug, PartialEq, Eq, Structural)]
pub struct Scalar {
    pub bits: u32,
}

/// The bit pattern of the sign alone.
pub const SIGN: u32 = 0x8000_0000;

/// The bit pattern of positive infinity. A pattern without its sign is a NaN
/// exactly when it is greater.
pub const INFINITY: u32 = 0x7f80_0000;

/// The bit pattern of 1.
pub const ONE: u32 = 0x3f80_0000;

impl Scalar {
    /// The bit pattern without the sign. Among the scalars that are numbers
    /// it grows with the absolute value.
    pub open spec fn magnitude(self) -> int {
        if self.bits >= SIGN {
            self.bits - SIGN
        } else {
            self.bits as int
        }
    }

    /// The scalar is no number.
    pub open spec fn nan(self) -> bool {
        self.magnitude() > INFINITY
    }

    /// The place of the scalar on the number line: the magnitude, negative
    /// where the sign is set. Two numbers compare as their places do; the two
    /// zeros share the place 0.
    pub open spec fn place(self) -> int {
        if self.bits >= SIGN {
            -self.magnitude()
        } else {
            self.magnitude()
        }
    }

    /// The scalar is a number and not infinite.
    pub open spec fn finite(self) -> bool {
        self.magnitude() < INFINITY
    }

    /// Both are numbers, and `self` is at most `other`.
    pub open spec fn at_most(self, other: Scalar) -> bool {
        !self.nan() && !other.nan() && self.place() <= other.place()
    }

    /// Both are numbers, and they are equal: they share a place.
    pub open spec fn equals(self, other: Scalar) -> bool {
        !self.nan() && !other.nan() && self.place() == other.place()
    }

    /// The scalar is a number and equals zero: it is `+0` or `-0`.
    pub open spec fn zero(self) -> bool {
        self.magnitude() == 0
    }

    /// The scalar is a number and at least zero.
    pub open spec fn non_negative(self) -> bool {
        !self.nan() && self.place() >= 0
    }

    /// The scalar is a number between 0 and 1, both included.
    pub open spec fn unit(self) -> bool {
        !self.nan() && 0 <= self.place() <= ONE
    }

    fn place_of(&self) -> (place: i64)
        ensures
            place == self.place(),
    {
        if self.bits >= SIGN {
            -((self.bits - SIGN) as i64)
        } else {
            self.bits as i64
        }
    }

    /// Whether the scalar is no number.
    pub fn is_nan(&self) -> (r: bool)
        ensures
            r == self.nan(),
    {
        let place = self.place_of();
        place > INFINITY as i64 || place < -(INFINITY as i64)
    }

    /// Whether the scalar is a number and not infinite.
    pub fn is_finite(&self) -> (r: bool)
        ensures
            r == self.finite(),
    {
        let place = self.place_of();
        -(INFINITY as i64) < place && place < INFINITY as i64
    }

    /// Whether the scalar equals zero, as `x == 0.0` does.
    pub fn is_zero(&self) -> (r: bool)
        ensures
            r == self.zero(),
    {
        self.bits == 0 || self.bits == SIGN
    }

    /// Whether the scalar is at least zero, as `x >= 0.0` is: false for a
    /// NaN, true for `-0`.
    pub fn is_non_negative(&self) -> (r: bool)
        ensures
            r == self.non_negative(),
    {
        let place = self.place_of();
        0 <= place && place <= INFINITY as i64
    }

    /// Whether the scalar lies between 0 and 1, as `(0.0..=1.0).contains(&x)`
    /// does: false for a NaN, true for `-0`.
    pub fn is_unit(&self) -> (r: bool)
        ensures
            r == self.unit(),
    {
        let place = self.place_of();
        0 <= place && place <= ONE as i64
    }

    /// Whether `self` is at most `other`, as `x <= y` is: false as soon as
    /// one of the two is a NaN.
    pub fn le(&self, other: &Scalar) -> (r: bool)
        ensures
            r == self.at_most(*other),
    {
        !self.is_nan() && !other.is_nan() && self.place_of() <= other.place_of()
    }

    /// Whether the two are equal, as `x == y` is: false as soon as one of
    /// the two is a NaN, true for the two zeros.
    pub fn is_equal(&self, other: &Scalar) -> (r: bool)
        ensures
            r == self.equals(*other),
    {
        !self.is_nan() && !other.is_nan() && self.place_of() == other.place_of()
    }
}

} // verus!
