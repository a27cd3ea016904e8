use vstd::prelude::*;
use crate::scalar::Scalar;

verus! {

/// A point of the plane, or a vector between two points.
#[derive(Clone, Copy, Debug, PartialEq, Eq, Structural)]
pub struct Point2 {
    pub x: Scalar,
    pub y: Scalar,
}

impl Point2 {
    /// Both coordinates are numbers and not infinite.
    pub open spec fn finite(self) -> bool {
        self.x.finite() && self.y.finite()
    }

    /// The two have equal coordinates, as numbers.
    pub open spec fn equals(self, other: Point2) -> bool {
        self.x.equals(other.x) && self.y.equals(other.y)
    }

    /// Whether both coordinates are numbers and not infinite.
    pub fn is_finite(&self) -> (r: bool)
        ensures
            r == self.finite(),
    {
        self.x.is_finite() && self.y.is_finite()
    }

    /// Whether the two have equal coordinates, as numbers.
    pub fn is_equal(&self, other: &Point2) -> (r: bool)
        ensures
            r == self.equals(*other),
    {
        self.x.is_equal(&other.x) && self.y.is_equal(&other.y)
    }
}

/// The arithmetic of the plane in single precision, which this crate leaves
/// to its caller: it decides which operation is applied to what, and in which
/// order, and never what an operation gives.
///
/// No method promises anything of its result, so whatever this crate proves,
/// it proves of every implementation. A contract speaks of a result as one
/// that the operation may give for its arguments.
pub trait Arithmetic {
    /// An affine map of the plane.
    type Transform: Copy;

    /// The scalar nearest to the count `n`.
    fn from_count(n: usize) -> Scalar;

    /// `a + b`.
    fn sum(a: Scalar, b: Scalar) -> Scalar;

    /// `a - b`.
    fn difference(a: Scalar, b: Scalar) -> Scalar;

    /// `a * b`.
    fn product(a: Scalar, b: Scalar) -> Scalar;

    /// `a / b`.
    fn quotient(a: Scalar, b: Scalar) -> Scalar;

    /// `p + v`, coordinate by coordinate.
    fn moved(p: Point2, v: Point2) -> Point2;

    /// The vector `p - q` from `q` to `p`.
    fn vector(p: Point2, q: Point2) -> Point2;

    /// The vector `-v`.
    fn reversed(v: Point2) -> Point2;

    /// The vector `v` with both coordinates multiplied by `s`.
    fn scaled(v: Point2, s: Scalar) -> Point2;

    /// The vector of length 1 along `v`.
    fn normalized(v: Point2) -> Point2;

    /// Whether `v` has length 1, up to rounding.
    fn is_normalized(v: Point2) -> bool;

    /// The length of `v`.
    fn length(v: Point2) -> Scalar;

    /// The determinant of the matrix with the columns `v` and `w`.
    fn determinant(v: Point2, w: Point2) -> Scalar;

    /// The rotation about the origin by `angle`, in radians.
    fn rotation(angle: Scalar) -> Self::Transform;

    /// The translation by `v`.
    fn translation(v: Point2) -> Self::Transform;

    /// The scaling by `v.x` along the first axis and by `v.y` along the
    /// second.
    fn scaling(v: Point2) -> Self::Transform;

    /// The map that applies `second`, then `first`.
    fn composed(first: Self::Transform, second: Self::Transform) -> Self::Transform;

    /// The image of the point `p` under `t`.
    fn applied(t: Self::Transform, p: Point2) -> Point2;
}

/// Every operation of `K` gives one result for one list of arguments.
pub open spec fn single_valued<K: Arithmetic>() -> bool {
    &&& forall|n: usize, r1: Scalar, r2: Scalar|
        call_ensures(K::from_count, (n,), r1) && call_ensures(K::from_count, (n,), r2) ==> r1
            == r2
    &&& forall|a: Scalar, b: Scalar, r1: Scalar, r2: Scalar|
        call_ensures(K::sum, (a, b), r1) && call_ensures(K::sum, (a, b), r2) ==> r1 == r2
    &&& forall|a: Scalar, b: Scalar, r1: Scalar, r2: Scalar|
        call_ensures(K::difference, (a, b), r1) && call_ensures(K::difference, (a, b), r2)
            ==> r1 == r2
    &&& forall|a: Scalar, b: Scalar, r1: Scalar, r2: Scalar|
        call_ensures(K::product, (a, b), r1) && call_ensures(K::product, (a, b), r2) ==> r1
            == r2
    &&& forall|a: Scalar, b: Scalar, r1: Scalar, r2: Scalar|
        call_ensures(K::quotient, (a, b), r1) && call_ensures(K::quotient, (a, b), r2) ==> r1
            == r2
    &&& forall|p: Point2, v: Point2, r1: Point2, r2: Point2|
        call_ensures(K::moved, (p, v), r1) && call_ensures(K::moved, (p, v), r2) ==> r1 == r2
    &&& forall|p: Point2, q: Point2, r1: Point2, r2: Point2|
        call_ensures(K::vector, (p, q), r1) && call_ensures(K::vector, (p, q), r2) ==> r1 == r2
    &&& forall|v: Point2, r1: Point2, r2: Point2|
        call_ensures(K::reversed, (v,), r1) && call_ensures(K::reversed, (v,), r2) ==> r1 == r2
    &&& forall|v: Point2, s: Scalar, r1: Point2, r2: Point2|
        call_ensures(K::scaled, (v, s), r1) && call_ensures(K::scaled, (v, s), r2) ==> r1 == r2
    &&& forall|v: Point2, r1: Point2, r2: Point2|
        call_ensures(K::normalized, (v,), r1) && call_ensures(K::normalized, (v,), r2) ==> r1
            == r2
    &&& forall|v: Point2, r1: bool, r2: bool|
        call_ensures(K::is_normalized, (v,), r1) && call_ensures(K::is_normalized, (v,), r2)
            ==> r1 == r2
    &&& forall|v: Point2, r1: Scalar, r2: Scalar|
        call_ensures(K::length, (v,), r1) && call_ensures(K::length, (v,), r2) ==> r1 == r2
    &&& forall|v: Point2, w: Point2, r1: Scalar, r2: Scalar|
        call_ensures(K::determinant, (v, w), r1) && call_ensures(K::determinant, (v, w), r2)
            ==> r1 == r2
    &&& forall|angle: Scalar, r1: K::Transform, r2: K::Transform|
        call_ensures(K::rotation, (angle,), r1) && call_ensures(K::rotation, (angle,), r2) ==> r1
            == r2
    &&& forall|v: Point2, r1: K::Transform, r2: K::Transform|
        call_ensures(K::translation, (v,), r1) && call_ensures(K::translation, (v,), r2) ==> r1
            == r2
    &&& forall|v: Point2, r1: K::Transform, r2: K::Transform|
        call_ensures(K::scaling, (v,), r1) && call_ensures(K::scaling, (v,), r2) ==> r1 == r2
    &&& forall|t: K::Transform, u: K::Transform, r1: K::Transform, r2: K::Transform|
        call_ensures(K::composed, (t, u), r1) && call_ensures(K::composed, (t, u), r2) ==> r1
            == r2
    &&& forall|t: K::Transform, p: Point2, r1: Point2, r2: Point2|
        call_ensures(K::applied, (t, p), r1) && call_ensures(K::applied, (t, p), r2) ==> r1
            == r2
}

} // verus!
