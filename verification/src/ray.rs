//! Rays: a point of origin and a direction.
use crate::scalar::{
    in_range, lemma_quot_bounds, lemma_quot_exact, quot, rounds_to, Scalar, ONE_RAW,
};
use crate::vec3::{v3_add, v3_in_range, v3_scale, Vec3, V3};
use vstd::prelude::*;

verus! {

/// The model of a ray.
pub struct RayModel {
    pub origin: V3,
    pub direction: V3,
}

/// The point of the ray at the distance `t`: `origin + t * direction`.
pub open spec fn ray_at(r: RayModel, t: int) -> V3 {
    v3_add(r.origin, v3_scale(r.direction, t))
}

/// A half-line from `origin` along `direction`. The direction need not have
/// length one.
#[derive(Clone, Copy, Debug)]
pub struct Ray {
    pub origin: Vec3,
    pub direction: Vec3,
}

impl View for Ray {
    type V = RayModel;

    open spec fn view(&self) -> RayModel {
        RayModel { origin: self.origin@, direction: self.direction@ }
    }
}

impl Ray {
    /// The ray from `origin` along `direction`.
    pub fn new(origin: Vec3, direction: Vec3) -> (r: Ray)
        ensures
            r.origin == origin,
            r.direction == direction,
    {
        Ray { origin, direction }
    }

    /// The point at the distance `t`, counted in lengths of the direction.
    pub fn at(&self, t: Scalar) -> (p: Vec3)
        ensures
            p@ == ray_at(self@, t@),
    {
        self.origin.add(self.direction.scale(t))
    }
}

/// At the distance zero a ray is at its origin.
pub proof fn lemma_ray_at_zero(r: RayModel)
    requires
        v3_in_range(r.origin),
    ensures
        ray_at(r, 0) == r.origin,
{
    assert(r.direction.x * 0 == 0 && r.direction.y * 0 == 0 && r.direction.z * 0 == 0);
}

/// Whether `step`, the product of a distance and one component of a
/// direction in units of a billionth of a unit, is held without saturation
/// once it is rounded and once it is added to `start`.
pub open spec fn step_fits(start: int, step: int) -> bool {
    in_range(quot(step, ONE_RAW as int)) && in_range(start + quot(step, ONE_RAW as int))
}

/// Whether the point of the ray at the distance `t` is held without
/// saturation.
pub open spec fn ray_fits(r: RayModel, t: int) -> bool {
    &&& step_fits(r.origin.x, r.direction.x * t)
    &&& step_fits(r.origin.y, r.direction.y * t)
    &&& step_fits(r.origin.z, r.direction.z * t)
}

/// A ray is affine in its distance, up to rounding: the way from the origin
/// to the point at the distance `t` is `t` times the direction, rounded in
/// each component.
pub proof fn lemma_ray_at_affine(r: RayModel, t: int)
    requires
        ray_fits(r, t),
    ensures
        rounds_to(r.direction.x * t, ray_at(r, t).x - r.origin.x),
        rounds_to(r.direction.y * t, ray_at(r, t).y - r.origin.y),
        rounds_to(r.direction.z * t, ray_at(r, t).z - r.origin.z),
{
    lemma_quot_bounds(r.direction.x * t, ONE_RAW as int);
    lemma_quot_bounds(r.direction.y * t, ONE_RAW as int);
    lemma_quot_bounds(r.direction.z * t, ONE_RAW as int);
}

/// At a whole distance a ray is affine exactly: the point at the distance
/// `n` is the origin plus `n` times the direction.
pub proof fn lemma_ray_at_whole(r: RayModel, n: int)
    requires
        ray_fits(r, n * ONE_RAW),
    ensures
        ray_at(r, n * ONE_RAW) == (V3 {
            x: r.origin.x + n * r.direction.x,
            y: r.origin.y + n * r.direction.y,
            z: r.origin.z + n * r.direction.z,
        }),
{
    assert(r.direction.x * (n * ONE_RAW) == (n * r.direction.x) * ONE_RAW) by (nonlinear_arith);
    assert(r.direction.y * (n * ONE_RAW) == (n * r.direction.y) * ONE_RAW) by (nonlinear_arith);
    assert(r.direction.z * (n * ONE_RAW) == (n * r.direction.z) * ONE_RAW) by (nonlinear_arith);
    lemma_quot_exact(n * r.direction.x, ONE_RAW as int);
    lemma_quot_exact(n * r.direction.y, ONE_RAW as int);
    lemma_quot_exact(n * r.direction.z, ONE_RAW as int);
}

} // verus!
