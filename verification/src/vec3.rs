//! Vectors of three fixed-point components, used for points, directions and
//! colours alike.
//!
//! The model of a [`Vec3`] is a [`V3`], the three raw counts of its
//! components. The spec functions `v3_*` are the vector arithmetic of the
//! models; each executable method returns what its spec function names.
use crate::scalar::{
    abs_spec, add_spec, det2_spec, div_spec, dot3_spec, hypot3_spec, in_range, isqrt,
    lemma_dot3_spec_neg, lemma_dot3_spec_symmetric, lemma_quot_neg, lemma_unit3_length,
    lemma_unit3_parallel, mul_spec, sat, stretch_spec, sub_spec, unit3_spec, Scalar, FINE_RAW,
    ONE_RAW,
};
use vstd::prelude::*;

verus! {

/// The model of a vector: the raw counts of its components.
pub struct V3 {
    pub x: int,
    pub y: int,
    pub z: int,
}

/// The vector of the three components.
pub open spec fn v3(x: int, y: int, z: int) -> V3 {
    V3 { x, y, z }
}

/// Whether each component can be held by a scalar.
pub open spec fn v3_in_range(v: V3) -> bool {
    in_range(v.x) && in_range(v.y) && in_range(v.z)
}

/// The zero vector, which is also the colour black.
pub open spec fn v3_zero() -> V3 {
    V3 { x: 0, y: 0, z: 0 }
}

/// The sum of two vectors.
pub open spec fn v3_add(a: V3, b: V3) -> V3 {
    V3 { x: add_spec(a.x, b.x), y: add_spec(a.y, b.y), z: add_spec(a.z, b.z) }
}

/// The difference of two vectors.
pub open spec fn v3_sub(a: V3, b: V3) -> V3 {
    V3 { x: sub_spec(a.x, b.x), y: sub_spec(a.y, b.y), z: sub_spec(a.z, b.z) }
}

/// The opposite vector.
pub open spec fn v3_neg(a: V3) -> V3 {
    V3 { x: -a.x, y: -a.y, z: -a.z }
}

/// The vector `a` stretched by the factor `t`.
pub open spec fn v3_scale(a: V3, t: int) -> V3 {
    V3 { x: mul_spec(a.x, t), y: mul_spec(a.y, t), z: mul_spec(a.z, t) }
}

/// The vector `a` shrunk by the divisor `t`.
pub open spec fn v3_div(a: V3, t: int) -> V3 {
    V3 { x: div_spec(a.x, t), y: div_spec(a.y, t), z: div_spec(a.z, t) }
}

/// The product of `a` and `b`, channel by channel.
pub open spec fn v3_hadamard(a: V3, b: V3) -> V3 {
    V3 { x: mul_spec(a.x, b.x), y: mul_spec(a.y, b.y), z: mul_spec(a.z, b.z) }
}

/// The dot product, rounded once.
pub open spec fn v3_dot(a: V3, b: V3) -> int {
    dot3_spec(a.x, b.x, a.y, b.y, a.z, b.z)
}

/// The cross product, by the right-hand rule.
pub open spec fn v3_cross(a: V3, b: V3) -> V3 {
    V3 {
        x: det2_spec(a.y, b.z, a.z, b.y),
        y: det2_spec(a.z, b.x, a.x, b.z),
        z: det2_spec(a.x, b.y, a.y, b.x),
    }
}

/// The length, rounded down.
pub open spec fn v3_length(a: V3) -> int {
    hypot3_spec(a.x, a.y, a.z)
}

/// The vector of length one along `a`. The zero vector has no direction and
/// is returned as it is.
pub open spec fn v3_normalize(a: V3) -> V3 {
    let u = unit3_spec(a.x, a.y, a.z);
    V3 { x: u.0, y: u.1, z: u.2 }
}

/// Negating one of two vectors negates their dot product, and the order of
/// the two does not matter.
pub proof fn lemma_v3_dot_neg(a: V3, b: V3)
    ensures
        v3_dot(a, v3_neg(b)) == -v3_dot(a, b),
        v3_dot(v3_neg(a), b) == -v3_dot(a, b),
        v3_dot(v3_neg(a), v3_neg(b)) == v3_dot(a, b),
        v3_dot(a, b) == v3_dot(b, a),
{
    lemma_dot3_spec_neg(a.x, b.x, a.y, b.y, a.z, b.z);
    lemma_dot3_spec_neg(a.x, -b.x, a.y, -b.y, a.z, -b.z);
    lemma_dot3_spec_symmetric(a.x, b.x, a.y, b.y, a.z, b.z);
}

/// A vector and its opposite have one length, and opposite directions.
pub proof fn lemma_v3_normalize_neg(a: V3)
    ensures
        v3_length(v3_neg(a)) == v3_length(a),
        v3_normalize(v3_neg(a)) == v3_neg(v3_normalize(a)),
{
    assert((-a.x) * (-a.x) == a.x * a.x) by (nonlinear_arith);
    assert((-a.y) * (-a.y) == a.y * a.y) by (nonlinear_arith);
    assert((-a.z) * (-a.z) == a.z * a.z) by (nonlinear_arith);
    let len = v3_length(a);
    let x = stretch_spec(a.x, len);
    let y = stretch_spec(a.y, len);
    let z = stretch_spec(a.z, len);
    assert((-a.x) * FINE_RAW == -(a.x * FINE_RAW));
    assert((-a.y) * FINE_RAW == -(a.y * FINE_RAW));
    assert((-a.z) * FINE_RAW == -(a.z * FINE_RAW));
    lemma_quot_neg(a.x * FINE_RAW, len);
    lemma_quot_neg(a.y * FINE_RAW, len);
    lemma_quot_neg(a.z * FINE_RAW, len);
    assert((-x) * (-x) == x * x) by (nonlinear_arith);
    assert((-y) * (-y) == y * y) by (nonlinear_arith);
    assert((-z) * (-z) == z * z) by (nonlinear_arith);
    let fine = isqrt(x * x + y * y + z * z);
    assert((-x) * ONE_RAW == -(x * ONE_RAW));
    assert((-y) * ONE_RAW == -(y * ONE_RAW));
    assert((-z) * ONE_RAW == -(z * ONE_RAW));
    lemma_quot_neg(x * ONE_RAW, fine);
    lemma_quot_neg(y * ONE_RAW, fine);
    lemma_quot_neg(z * ONE_RAW, fine);
}

/// The direction of a vector is parallel to the vector, up to rounding and
/// whatever the length of the vector: each component of the cross product
/// of the two is less than twice the sum of two components of the vector,
/// in the units in which a product of two components is counted before it
/// is rounded. So the directions of two vectors along one line agree to the
/// last digits of a scalar.
pub proof fn lemma_v3_normalize_parallel(a: V3)
    requires
        v3_in_range(a),
        v3_length(a) != 0,
    ensures
        ({
            let u = v3_normalize(a);
            &&& -2 * (abs_spec(a.x) + abs_spec(a.y)) <= u.x * a.y - u.y * a.x <= 2 * (abs_spec(a.x)
                + abs_spec(a.y))
            &&& -2 * (abs_spec(a.y) + abs_spec(a.z)) <= u.y * a.z - u.z * a.y <= 2 * (abs_spec(a.y)
                + abs_spec(a.z))
            &&& -2 * (abs_spec(a.z) + abs_spec(a.x)) <= u.z * a.x - u.x * a.z <= 2 * (abs_spec(a.z)
                + abs_spec(a.x))
        }),
{
    lemma_unit3_parallel(a.x, a.y, a.z);
}

/// The direction of a vector that is not zero has length one, up to the
/// last digits of a scalar: its squared length is at most one and less
/// than one by at most four billionths.
pub proof fn lemma_v3_normalize_length(a: V3)
    requires
        v3_in_range(a),
        v3_length(a) != 0,
    ensures
        -ONE_RAW <= v3_normalize(a).x <= ONE_RAW,
        -ONE_RAW <= v3_normalize(a).y <= ONE_RAW,
        -ONE_RAW <= v3_normalize(a).z <= ONE_RAW,
        ONE_RAW - 4 <= v3_dot(v3_normalize(a), v3_normalize(a)) <= ONE_RAW,
{
    lemma_unit3_length(a.x, a.y, a.z);
}

/// A vector of three scalars.
#[derive(Clone, Copy, Debug)]
pub struct Vec3 {
    pub x: Scalar,
    pub y: Scalar,
    pub z: Scalar,
}

impl View for Vec3 {
    type V = V3;

    open spec fn view(&self) -> V3 {
        V3 { x: self.x@, y: self.y@, z: self.z@ }
    }
}

impl Vec3 {
    /// The vector of the three components.
    pub fn new(x: Scalar, y: Scalar, z: Scalar) -> (r: Vec3)
        ensures
            r@ == v3(x@, y@, z@),
            r.x == x,
            r.y == y,
            r.z == z,
    {
        Vec3 { x, y, z }
    }

    /// The vector of the three raw counts, each saturated.
    pub fn from_raw(x: i64, y: i64, z: i64) -> (r: Vec3)
        ensures
            r@ == v3(sat(x as int), sat(y as int), sat(z as int)),
    {
        Vec3 { x: Scalar::from_raw(x), y: Scalar::from_raw(y), z: Scalar::from_raw(z) }
    }

    /// The zero vector.
    pub fn zero() -> (r: Vec3)
        ensures
            r@ == v3_zero(),
    {
        Vec3 { x: Scalar::zero(), y: Scalar::zero(), z: Scalar::zero() }
    }

    /// The sum of the two vectors.
    pub fn add(self, o: Vec3) -> (r: Vec3)
        ensures
            r@ == v3_add(self@, o@),
    {
        Vec3 { x: self.x.add(o.x), y: self.y.add(o.y), z: self.z.add(o.z) }
    }

    /// The difference of the two vectors.
    pub fn sub(self, o: Vec3) -> (r: Vec3)
        ensures
            r@ == v3_sub(self@, o@),
    {
        Vec3 { x: self.x.sub(o.x), y: self.y.sub(o.y), z: self.z.sub(o.z) }
    }

    /// The opposite vector.
    pub fn neg(self) -> (r: Vec3)
        ensures
            r@ == v3_neg(self@),
    {
        Vec3 { x: self.x.neg(), y: self.y.neg(), z: self.z.neg() }
    }

    /// The vector stretched by the factor `t`.
    pub fn scale(self, t: Scalar) -> (r: Vec3)
        ensures
            r@ == v3_scale(self@, t@),
    {
        Vec3 { x: self.x.mul(t), y: self.y.mul(t), z: self.z.mul(t) }
    }

    /// The vector shrunk by the divisor `t`.
    pub fn div(self, t: Scalar) -> (r: Vec3)
        ensures
            r@ == v3_div(self@, t@),
    {
        Vec3 { x: self.x.div(t), y: self.y.div(t), z: self.z.div(t) }
    }

    /// The dot product of the two vectors.
    pub fn dot(self, o: Vec3) -> (r: Scalar)
        ensures
            r@ == v3_dot(self@, o@),
    {
        Scalar::dot3(self.x, o.x, self.y, o.y, self.z, o.z)
    }

    /// The cross product of the two vectors.
    pub fn cross(self, o: Vec3) -> (r: Vec3)
        ensures
            r@ == v3_cross(self@, o@),
    {
        Vec3 {
            x: Scalar::det2(self.y, o.z, self.z, o.y),
            y: Scalar::det2(self.z, o.x, self.x, o.z),
            z: Scalar::det2(self.x, o.y, self.y, o.x),
        }
    }

    /// The length of the vector.
    pub fn length(self) -> (r: Scalar)
        ensures
            r@ == v3_length(self@),
    {
        Scalar::hypot3(self.x, self.y, self.z)
    }

    /// The vector of length one along this one; the zero vector stays as
    /// it is.
    pub fn normalize(self) -> (r: Vec3)
        ensures
            r@ == v3_normalize(self@),
    {
        let (x, y, z) = Scalar::unit3(self.x, self.y, self.z);
        Vec3 { x, y, z }
    }
}

} // verus!
