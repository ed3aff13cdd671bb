//! The surfaces of a scene, and how a ray meets each of them.
use crate::hits::{hit_view, HitModel, HitRecord, Hittable};
use crate::interval::{interval_contains, Interval, IntervalModel};
use crate::material::{MaterialKind, MaterialModel};
use crate::ray::{ray_at, Ray, RayModel};
use crate::scalar::{
    abs_spec, add_spec, det2_spec, div_spec, in_range, lemma_div_spec_neg, lemma_div_spec_sign,
    lemma_quot_bounds, lemma_sqrt_spec_below, mul_spec, sqrt_spec, sub_spec, Scalar, ONE_RAW,
};
use crate::vec3::{
    lemma_v3_dot_neg, lemma_v3_normalize_neg, v3_cross, v3_div, v3_dot, v3_length, v3_neg,
    v3_normalize, v3_sub, Vec3, V3,
};
use vstd::prelude::*;

verus! {

/// The raw value of 0.001: a ray whose direction is nearer than this to a
/// triangle's plane counts as parallel to it.
pub const PARALLEL_RAW: i64 = 1_000_000;

/// The model of a sphere.
pub struct SphereModel {
    pub origin: V3,
    pub radius: int,
    pub material: MaterialModel,
}

/// The model of a triangle.
pub struct TriangleModel {
    pub v0: V3,
    pub v1: V3,
    pub v2: V3,
    pub material: MaterialModel,
}

/// The model of a primitive.
pub enum PrimitiveModel {
    Sphere(SphereModel),
    Triangle(TriangleModel),
}

/// The discriminant of the quadratic whose roots are the distances at which
/// the ray meets the sphere, in the form that halves the linear term.
pub open spec fn sphere_discriminant(s: SphereModel, ray: RayModel) -> int {
    let oc = v3_sub(ray.origin, s.origin);
    let a = v3_dot(ray.direction, ray.direction);
    let half_b = v3_dot(ray.direction, oc);
    let c = sub_spec(v3_dot(oc, oc), mul_spec(s.radius, s.radius));
    det2_spec(half_b, half_b, a, c)
}

/// The smaller root of that quadratic.
pub open spec fn sphere_near_root(s: SphereModel, ray: RayModel) -> int {
    let oc = v3_sub(ray.origin, s.origin);
    let a = v3_dot(ray.direction, ray.direction);
    let half_b = v3_dot(ray.direction, oc);
    div_spec(sub_spec(-half_b, sqrt_spec(sphere_discriminant(s, ray))), a)
}

/// The larger root of that quadratic.
pub open spec fn sphere_far_root(s: SphereModel, ray: RayModel) -> int {
    let oc = v3_sub(ray.origin, s.origin);
    let a = v3_dot(ray.direction, ray.direction);
    let half_b = v3_dot(ray.direction, oc);
    div_spec(add_spec(-half_b, sqrt_spec(sphere_discriminant(s, ray))), a)
}

/// The record of the sphere's surface at the distance `t` along the ray.
/// The normal points away from the centre for a positive radius, toward it
/// for a negative one, and is then turned against the ray.
pub open spec fn sphere_record(s: SphereModel, ray: RayModel, t: int) -> HitModel {
    let point = ray_at(ray, t);
    let outward = v3_div(v3_sub(point, s.origin), s.radius);
    HitModel {
        hit: point,
        distance: t,
        normal: if v3_dot(ray.direction, outward) < 0 {
            outward
        } else {
            v3_neg(outward)
        },
        material: s.material,
    }
}

/// Where the ray meets the sphere: at the smaller root if that lies within
/// the bounds, else at the larger root if that does, else nowhere.
pub open spec fn sphere_hit(s: SphereModel, ray: RayModel, bounds: IntervalModel) -> Option<
    HitModel,
> {
    if sphere_discriminant(s, ray) < 0 {
        None
    } else if interval_contains(bounds, sphere_near_root(s, ray)) {
        Some(sphere_record(s, ray, sphere_near_root(s, ray)))
    } else if interval_contains(bounds, sphere_far_root(s, ray)) {
        Some(sphere_record(s, ray, sphere_far_root(s, ray)))
    } else {
        None
    }
}

/// The unit normal of the triangle's plane, by the right-hand rule on the
/// order of its corners.
pub open spec fn triangle_normal(t: TriangleModel) -> V3 {
    v3_normalize(v3_cross(v3_sub(t.v1, t.v0), v3_sub(t.v2, t.v0)))
}

/// The distance along the ray at which it crosses the triangle's plane.
pub open spec fn triangle_plane_distance(t: TriangleModel, ray: RayModel) -> int {
    let normal = triangle_normal(t);
    let d = -v3_dot(normal, t.v0);
    div_spec(-add_spec(v3_dot(normal, ray.origin), d), v3_dot(normal, ray.direction))
}

/// Whether `point` lies on the inner side of the edge from `from` to `to`.
pub open spec fn inside_edge(from: V3, to: V3, point: V3, normal: V3) -> bool {
    v3_dot(normal, v3_cross(v3_sub(to, from), v3_sub(point, from))) >= 0
}

/// Whether a point of the triangle's plane lies on the inner side of all
/// three edges.
pub open spec fn triangle_is_inside(t: TriangleModel, point: V3, normal: V3) -> bool {
    &&& inside_edge(t.v0, t.v1, point, normal)
    &&& inside_edge(t.v1, t.v2, point, normal)
    &&& inside_edge(t.v2, t.v0, point, normal)
}

/// Where the ray meets the triangle. The normal of the record is that of
/// the plane, whichever side the ray comes from.
pub open spec fn triangle_hit(t: TriangleModel, ray: RayModel, bounds: IntervalModel) -> Option<
    HitModel,
> {
    let normal = triangle_normal(t);
    let distance = triangle_plane_distance(t, ray);
    let point = ray_at(ray, distance);
    if abs_spec(v3_dot(normal, ray.direction)) < PARALLEL_RAW {
        None
    } else if !interval_contains(bounds, distance) {
        None
    } else if !triangle_is_inside(t, point, normal) {
        None
    } else {
        Some(HitModel { hit: point, distance, normal, material: t.material })
    }
}

/// Where the ray meets the primitive.
pub open spec fn primitive_hit(p: PrimitiveModel, ray: RayModel, bounds: IntervalModel) -> Option<
    HitModel,
> {
    match p {
        PrimitiveModel::Sphere(s) => sphere_hit(s, ray, bounds),
        PrimitiveModel::Triangle(t) => triangle_hit(t, ray, bounds),
    }
}

/// The nearer of two answers. Of two hits at one distance the first stays.
pub open spec fn nearer(best: Option<HitModel>, next: Option<HitModel>) -> Option<HitModel> {
    match (best, next) {
        (None, _) => next,
        (Some(_), None) => best,
        (Some(b), Some(n)) => if n.distance < b.distance {
            next
        } else {
            best
        },
    }
}

/// The answers of the primitives of a scene, in their order.
pub open spec fn scene_answers(prims: Seq<PrimitiveModel>, ray: RayModel, bounds: IntervalModel)
    -> Seq<Option<HitModel>> {
    prims.map_values(|p: PrimitiveModel| primitive_hit(p, ray, bounds))
}

/// The nearest hit among the first `n` answers.
pub open spec fn nearest_prefix(answers: Seq<Option<HitModel>>, n: int) -> Option<HitModel>
    decreases n,
{
    if n <= 0 {
        None
    } else {
        nearer(nearest_prefix(answers, n - 1), answers[n - 1])
    }
}

/// The nearest hit among all primitives of a scene; of several at the
/// nearest distance, the one that stands first in the scene.
pub open spec fn scene_hit(prims: Seq<PrimitiveModel>, ray: RayModel, bounds: IntervalModel)
    -> Option<HitModel> {
    nearest_prefix(scene_answers(prims, ray, bounds), prims.len() as int)
}

/// The models of the primitives of a scene.
pub open spec fn scene_view(prims: Seq<Primitive>) -> Seq<PrimitiveModel> {
    prims.map_values(|p: Primitive| p@)
}

/// A sphere. A negative radius gives the same surface with its normals
/// turned inward, which makes a hollow of it.
#[derive(Clone, Copy, Debug)]
pub struct Sphere {
    pub origin: Vec3,
    pub radius: Scalar,
    pub material: MaterialKind,
}

impl View for Sphere {
    type V = SphereModel;

    open spec fn view(&self) -> SphereModel {
        SphereModel { origin: self.origin@, radius: self.radius@, material: self.material@ }
    }
}

impl Sphere {
    fn record_at(&self, ray: Ray, t: Scalar) -> (r: HitRecord)
        ensures
            r@ == sphere_record(self@, ray@, t@),
    {
        let point = ray.at(t);
        let outward_normal = point.sub(self.origin).div(self.radius);
        let front_face = ray.direction.dot(outward_normal).lt(Scalar::zero());
        HitRecord {
            hit: point,
            distance: t,
            normal: if front_face {
                outward_normal
            } else {
                outward_normal.neg()
            },
            material: self.material,
        }
    }
}

impl Hittable for Sphere {
    open spec fn hit_spec(&self, ray: RayModel, bounds: IntervalModel) -> Option<HitModel> {
        sphere_hit(self@, ray, bounds)
    }

    fn hit(&self, ray: Ray, render_bounds: &Interval) -> (r: Option<HitRecord>) {
        let oc = ray.origin.sub(self.origin);
        let a = ray.direction.dot(ray.direction);
        let half_b = ray.direction.dot(oc);
        let c = oc.dot(oc).sub(self.radius.mul(self.radius));
        let discriminant = Scalar::det2(half_b, half_b, a, c);
        if discriminant.lt(Scalar::zero()) {
            return None;
        }
        let sqrtd = discriminant.sqrt();
        let left_root = half_b.neg().sub(sqrtd).div(a);
        let right_root = half_b.neg().add(sqrtd).div(a);
        let mut closest_root = left_root;
        if render_bounds.is_outside(left_root) {
            closest_root = right_root;
            if render_bounds.is_outside(right_root) {
                return None;
            }
        }
        Some(self.record_at(ray, closest_root))
    }
}

/// A triangle. The order of its corners fixes the side to which its normal
/// points.
#[derive(Clone, Copy, Debug)]
pub struct Triangle {
    pub vertices: [Vec3; 3],
    pub material: MaterialKind,
}

impl View for Triangle {
    type V = TriangleModel;

    open spec fn view(&self) -> TriangleModel {
        TriangleModel {
            v0: self.vertices[0]@,
            v1: self.vertices[1]@,
            v2: self.vertices[2]@,
            material: self.material@,
        }
    }
}

impl Triangle {
    /// Whether `intersection`, a point of the triangle's plane, lies within
    /// the triangle.
    pub fn is_inside(&self, intersection: Vec3, normal: Vec3) -> (b: bool)
        ensures
            b == triangle_is_inside(self@, intersection@, normal@),
    {
        let edge0 = self.vertices[1].sub(self.vertices[0]);
        let c0 = edge0.cross(intersection.sub(self.vertices[0]));
        if normal.dot(c0).lt(Scalar::zero()) {
            return false;
        }
        let edge1 = self.vertices[2].sub(self.vertices[1]);
        let c1 = edge1.cross(intersection.sub(self.vertices[1]));
        if normal.dot(c1).lt(Scalar::zero()) {
            return false;
        }
        let edge2 = self.vertices[0].sub(self.vertices[2]);
        let c2 = edge2.cross(intersection.sub(self.vertices[2]));
        if normal.dot(c2).lt(Scalar::zero()) {
            return false;
        }
        true
    }
}

impl Hittable for Triangle {
    open spec fn hit_spec(&self, ray: RayModel, bounds: IntervalModel) -> Option<HitModel> {
        triangle_hit(self@, ray, bounds)
    }

    fn hit(&self, ray: Ray, render_bounds: &Interval) -> (r: Option<HitRecord>) {
        let edge1 = self.vertices[1].sub(self.vertices[0]);
        let edge2 = self.vertices[2].sub(self.vertices[0]);
        let normal = edge1.cross(edge2).normalize();
        if normal.dot(ray.direction).abs().lt(Scalar::from_raw(PARALLEL_RAW)) {
            return None;
        }
        let d = normal.dot(self.vertices[0]).neg();
        let distance = normal.dot(ray.origin).add(d).neg().div(normal.dot(ray.direction));
        if render_bounds.is_outside(distance) {
            return None;
        }
        let intersection = ray.at(distance);
        if !self.is_inside(intersection, normal) {
            return None;
        }
        Some(HitRecord { hit: intersection, distance, normal, material: self.material })
    }
}

/// Any of the surfaces.
#[derive(Clone, Copy, Debug)]
pub enum Primitive {
    Sphere(Sphere),
    Triangle(Triangle),
}

impl View for Primitive {
    type V = PrimitiveModel;

    open spec fn view(&self) -> PrimitiveModel {
        match self {
            Primitive::Sphere(s) => PrimitiveModel::Sphere(s@),
            Primitive::Triangle(t) => PrimitiveModel::Triangle(t@),
        }
    }
}

impl Hittable for Primitive {
    open spec fn hit_spec(&self, ray: RayModel, bounds: IntervalModel) -> Option<HitModel> {
        primitive_hit(self@, ray, bounds)
    }

    fn hit(&self, ray: Ray, render_bounds: &Interval) -> (r: Option<HitRecord>) {
        match self {
            Primitive::Sphere(s) => s.hit(ray, render_bounds),
            Primitive::Triangle(t) => t.hit(ray, render_bounds),
        }
    }
}

/// A scene is hit where its nearest primitive is hit.
impl Hittable for Vec<Primitive> {
    open spec fn hit_spec(&self, ray: RayModel, bounds: IntervalModel) -> Option<HitModel> {
        scene_hit(scene_view(self@), ray, bounds)
    }

    fn hit(&self, ray: Ray, render_bounds: &Interval) -> (r: Option<HitRecord>) {
        let mut closest_hit: Option<HitRecord> = None;
        let mut i: usize = 0;
        while i < self.len()
            invariant
                i <= self.len(),
                hit_view(closest_hit) == nearest_prefix(
                    scene_answers(scene_view(self@), ray@, render_bounds@),
                    i as int,
                ),
            decreases self.len() - i,
        {
            let next = self[i].hit(ray, render_bounds);
            assert(scene_answers(scene_view(self@), ray@, render_bounds@)[i as int]
                == primitive_hit(self@[i as int]@, ray@, render_bounds@));
            closest_hit = match (closest_hit, next) {
                (None, _) => next,
                (Some(best), None) => Some(best),
                (Some(best), Some(candidate)) => if candidate.distance.lt(best.distance) {
                    Some(candidate)
                } else {
                    Some(best)
                },
            };
            i = i + 1;
        }
        closest_hit
    }
}

/// Every hit lies at a distance within the bounds, at the point of the ray
/// at that distance, and carries the material of the primitive.
pub proof fn lemma_hit_within_bounds(p: PrimitiveModel, ray: RayModel, bounds: IntervalModel)
    ensures
        primitive_hit(p, ray, bounds) matches Some(h) ==> {
            &&& interval_contains(bounds, h.distance)
            &&& h.hit == ray_at(ray, h.distance)
            &&& h.material == match p {
                PrimitiveModel::Sphere(s) => s.material,
                PrimitiveModel::Triangle(t) => t.material,
            }
        },
{
}

/// The normal of a hit on a sphere lies along the way from the centre to
/// the point that is hit, and never points along the ray: it is turned
/// against the ray, whichever side of the surface the ray meets.
pub proof fn lemma_sphere_normal_against_ray(s: SphereModel, ray: RayModel, bounds: IntervalModel)
    ensures
        sphere_hit(s, ray, bounds) matches Some(h) ==> {
            &&& v3_dot(ray.direction, h.normal) <= 0
            &&& (h.normal == v3_div(v3_sub(h.hit, s.origin), s.radius) || h.normal == v3_neg(
                v3_div(v3_sub(h.hit, s.origin), s.radius),
            ))
        },
{
    if let Some(h) = sphere_hit(s, ray, bounds) {
        let outward = v3_div(v3_sub(h.hit, s.origin), s.radius);
        lemma_v3_dot_neg(ray.direction, outward);
    }
}

/// A ray that touches the sphere, so that the discriminant is zero, has one
/// root: the two roots agree.
pub proof fn lemma_tangent_single_root(s: SphereModel, ray: RayModel)
    requires
        sphere_discriminant(s, ray) == 0,
    ensures
        sphere_near_root(s, ray) == sphere_far_root(s, ray),
{
    assert(sqrt_spec(0) == 0) by {
        assert(crate::scalar::isqrt(0) == 0);
    }
}

/// A ray whose discriminant is negative misses the sphere, and so does one
/// whose two roots both lie outside the bounds. A hit lies at one of the
/// roots, and at the smaller one wherever the bounds hold it.
pub proof fn lemma_sphere_miss(s: SphereModel, ray: RayModel, bounds: IntervalModel)
    ensures
        sphere_discriminant(s, ray) < 0 ==> sphere_hit(s, ray, bounds).is_none(),
        !interval_contains(bounds, sphere_near_root(s, ray)) && !interval_contains(
            bounds,
            sphere_far_root(s, ray),
        ) ==> sphere_hit(s, ray, bounds).is_none(),
        sphere_hit(s, ray, bounds) matches Some(h) ==> h.distance == sphere_near_root(s, ray)
            || h.distance == sphere_far_root(s, ray),
        sphere_discriminant(s, ray) >= 0 && interval_contains(bounds, sphere_near_root(s, ray))
            ==> sphere_hit(s, ray, bounds) == Some(
            sphere_record(s, ray, sphere_near_root(s, ray)),
        ),
{
}

/// A ray that is aimed at the centre of a sphere, with the way to the
/// centre for its direction, meets the sphere where the lengths say: with
/// `a` for the squared length of the way and `r2` for the squared radius,
/// the discriminant is `a * r2`, and the roots are `(a - sqrt(a * r2)) / a`
/// and `(a + sqrt(a * r2)) / a`, which stand for one minus and one plus the
/// radius over the length of the way. From an origin on or outside the
/// sphere the smaller root lies before the centre and the larger behind
/// it.
pub proof fn lemma_sphere_aimed_at_centre(s: SphereModel, ray: RayModel)
    requires
        ray.direction == v3_sub(s.origin, ray.origin),
    ensures
        ({
            let a = v3_dot(ray.direction, ray.direction);
            let r2 = mul_spec(s.radius, s.radius);
            &&& sphere_discriminant(s, ray) == mul_spec(a, r2)
            &&& sphere_discriminant(s, ray) >= 0
            &&& sphere_near_root(s, ray) == div_spec(sub_spec(a, sqrt_spec(mul_spec(a, r2))), a)
            &&& sphere_far_root(s, ray) == div_spec(add_spec(a, sqrt_spec(mul_spec(a, r2))), a)
            &&& 0 < a && r2 <= a ==> 0 <= sphere_near_root(s, ray) <= ONE_RAW <= sphere_far_root(
                s,
                ray,
            )
        }),
{
    let d = ray.direction;
    let oc = v3_sub(ray.origin, s.origin);
    assert(oc == v3_neg(d));
    lemma_v3_dot_neg(d, d);
    let a = v3_dot(d, d);
    let r2 = mul_spec(s.radius, s.radius);
    assert(d.x * d.x + d.y * d.y + d.z * d.z >= 0) by (nonlinear_arith);
    lemma_quot_bounds(d.x * d.x + d.y * d.y + d.z * d.z, ONE_RAW as int);
    assert(s.radius * s.radius >= 0) by (nonlinear_arith);
    lemma_quot_bounds(s.radius * s.radius, ONE_RAW as int);
    assert(a >= 0 && r2 >= 0);
    let c = sub_spec(a, r2);
    assert(c == a - r2);
    assert((-a) * (-a) - a * c == a * r2) by (nonlinear_arith)
        requires
            c == a - r2,
    ;
    assert(a * r2 >= 0) by (nonlinear_arith)
        requires
            a >= 0,
            r2 >= 0,
    ;
    lemma_quot_bounds(a * r2, ONE_RAW as int);
    if 0 < a && r2 <= a {
        // from outside, the sphere is met before the centre and left after it
        let one = ONE_RAW as int;
        let product = mul_spec(a, r2);
        assert(product * one <= a * a) by (nonlinear_arith)
            requires
                product * one <= a * r2,
                0 <= r2 <= a,
        ;
        lemma_sqrt_spec_below(product, a);
        let root = sqrt_spec(product);
        assert(root >= 0) by {
            crate::scalar::lemma_isqrt_bounds(product * one);
        }
        let near = sub_spec(a, root);
        let far = add_spec(a, root);
        assert(0 <= near <= a && a <= far);
        assert(0 <= near * one <= a * one && a * one <= far * one) by (nonlinear_arith)
            requires
                0 <= near <= a,
                a <= far,
                one > 0,
        ;
        crate::scalar::lemma_quot_monotone(0, near * one, a);
        crate::scalar::lemma_quot_monotone(near * one, a * one, a);
        crate::scalar::lemma_quot_monotone(a * one, far * one, a);
        crate::scalar::lemma_quot_exact(one, a);
        crate::scalar::lemma_quot_exact(0, a);
        assert(one * a == a * one && 0 * a == 0) by (nonlinear_arith);
    }
}

/// A sphere is missed by a ray that starts on it or outside it and does
/// not come nearer to its centre, whatever positive distance the bounds
/// begin at.
pub proof fn lemma_sphere_behind_ray(s: SphereModel, ray: RayModel, bounds: IntervalModel)
    requires
        bounds.min > 0,
        v3_dot(ray.direction, v3_sub(ray.origin, s.origin)) >= 0,
        sub_spec(
            v3_dot(v3_sub(ray.origin, s.origin), v3_sub(ray.origin, s.origin)),
            mul_spec(s.radius, s.radius),
        ) >= 0,
    ensures
        sphere_hit(s, ray, bounds).is_none(),
{
    let oc = v3_sub(ray.origin, s.origin);
    let d = ray.direction;
    let a = v3_dot(d, d);
    let half_b = v3_dot(d, oc);
    let c = sub_spec(v3_dot(oc, oc), mul_spec(s.radius, s.radius));
    let discriminant = sphere_discriminant(s, ray);
    assert(d.x * d.x + d.y * d.y + d.z * d.z >= 0) by (nonlinear_arith);
    lemma_quot_bounds(d.x * d.x + d.y * d.y + d.z * d.z, ONE_RAW as int);
    assert(a >= 0);
    if discriminant >= 0 {
        let exact = half_b * half_b - a * c;
        lemma_quot_bounds(exact, ONE_RAW as int);
        assert(a * c >= 0) by (nonlinear_arith)
            requires
                a >= 0,
                c >= 0,
        ;
        assert(discriminant * ONE_RAW <= half_b * half_b) by {
            if exact >= 0 {
                assert(discriminant <= crate::scalar::quot(exact, ONE_RAW as int));
            }
        }
        lemma_sqrt_spec_below(discriminant, half_b);
        let root = sqrt_spec(discriminant);
        assert(root >= 0) by {
            crate::scalar::lemma_isqrt_bounds(discriminant * ONE_RAW);
        }
        lemma_div_spec_sign(sub_spec(-half_b, root), a);
        lemma_div_spec_sign(add_spec(-half_b, root), a);
    }
}

/// The nearest of the first `n` answers is one of them, and none of them
/// is nearer; there is none exactly when all of them are misses.
pub proof fn lemma_nearest_prefix(answers: Seq<Option<HitModel>>, n: int)
    requires
        0 <= n <= answers.len(),
    ensures
        match nearest_prefix(answers, n) {
            Some(h) => {
                &&& exists|i: int| 0 <= i < n && #[trigger] answers[i] == Some(h)
                &&& forall|j: int|
                    0 <= j < n ==> ((#[trigger] answers[j]) matches Some(g) ==> h.distance
                        <= g.distance)
            },
            None => forall|j: int| 0 <= j < n ==> (#[trigger] answers[j]).is_none(),
        },
    decreases n,
{
    if n > 0 {
        lemma_nearest_prefix(answers, n - 1);
        let before = nearest_prefix(answers, n - 1);
        match nearest_prefix(answers, n) {
            Some(h) => {
                if before == Some(h) {
                    let i = choose|i: int| 0 <= i < n - 1 && #[trigger] answers[i] == Some(h);
                    assert(0 <= i < n && answers[i] == Some(h));
                } else {
                    assert(answers[n - 1] == Some(h));
                }
            },
            None => {},
        }
    }
}

/// The hit of a scene is the hit of one of its primitives, and none of
/// them is hit nearer; the scene is missed exactly when each of them is.
pub proof fn lemma_scene_hit_nearest(
    prims: Seq<PrimitiveModel>,
    ray: RayModel,
    bounds: IntervalModel,
)
    ensures
        match scene_hit(prims, ray, bounds) {
            Some(h) => {
                &&& exists|i: int|
                    0 <= i < prims.len() && #[trigger] scene_answers(prims, ray, bounds)[i]
                        == Some(h) && primitive_hit(prims[i], ray, bounds) == Some(h)
                &&& forall|j: int|
                    0 <= j < prims.len() ==> (primitive_hit(
                        #[trigger] prims[j],
                        ray,
                        bounds,
                    ) matches Some(g) ==> h.distance <= g.distance)
            },
            None => forall|j: int|
                0 <= j < prims.len() ==> primitive_hit(#[trigger] prims[j], ray, bounds).is_none(),
        },
{
    let answers = scene_answers(prims, ray, bounds);
    lemma_nearest_prefix(answers, prims.len() as int);
    assert forall|j: int| 0 <= j < prims.len() implies #[trigger] answers[j] == primitive_hit(
        prims[j],
        ray,
        bounds,
    ) by {}
    match scene_hit(prims, ray, bounds) {
        Some(h) => {
            let i = choose|i: int| 0 <= i < prims.len() && #[trigger] answers[i] == Some(h);
            assert(answers[i] == primitive_hit(prims[i], ray, bounds));
            assert forall|j: int| 0 <= j < prims.len() implies (primitive_hit(
                #[trigger] prims[j],
                ray,
                bounds,
            ) matches Some(g) ==> h.distance <= g.distance) by {
                assert(answers[j] == primitive_hit(prims[j], ray, bounds));
            }
        },
        None => {
            assert forall|j: int| 0 <= j < prims.len() implies primitive_hit(
                #[trigger] prims[j],
                ray,
                bounds,
            ).is_none() by {
                assert(answers[j] == primitive_hit(prims[j], ray, bounds));
            }
        },
    }
}

/// The triangle with its corners renamed in a circle: the second becomes
/// the first, the third the second, the first the third.
pub open spec fn triangle_rotated(t: TriangleModel) -> TriangleModel {
    TriangleModel { v0: t.v1, v1: t.v2, v2: t.v0, material: t.material }
}

/// The triangle with its first two corners exchanged.
pub open spec fn triangle_swapped(t: TriangleModel) -> TriangleModel {
    TriangleModel { v0: t.v1, v1: t.v0, v2: t.v2, material: t.material }
}

/// Whether the difference of the two points is held without saturation.
pub open spec fn v3_near(a: V3, b: V3) -> bool {
    in_range(a.x - b.x) && in_range(a.y - b.y) && in_range(a.z - b.z)
}

/// Whether the corners of the triangle lie so near to each other that their
/// differences are held without saturation.
pub open spec fn triangle_fits(t: TriangleModel) -> bool {
    v3_near(t.v0, t.v1) && v3_near(t.v1, t.v2) && v3_near(t.v2, t.v0)
}

/// The record with its normal turned round.
pub open spec fn hit_flipped(h: Option<HitModel>) -> Option<HitModel> {
    match h {
        Some(h) => Some(
            HitModel {
                hit: h.hit,
                distance: h.distance,
                normal: v3_neg(h.normal),
                material: h.material,
            },
        ),
        None => None,
    }
}

/// The cross product of two edges of a triangle is the same from whichever
/// corner the edges are taken.
proof fn lemma_edge_cross_rotated(a: V3, b: V3, c: V3)
    requires
        v3_near(a, b),
        v3_near(b, c),
        v3_near(c, a),
    ensures
        v3_cross(v3_sub(c, b), v3_sub(a, b)) == v3_cross(v3_sub(b, a), v3_sub(c, a)),
{
    assert((c.y - b.y) * (a.z - b.z) - (c.z - b.z) * (a.y - b.y) == (b.y - a.y) * (c.z - a.z) - (
    b.z - a.z) * (c.y - a.y)) by (nonlinear_arith);
    assert((c.z - b.z) * (a.x - b.x) - (c.x - b.x) * (a.z - b.z) == (b.z - a.z) * (c.x - a.x) - (
    b.x - a.x) * (c.z - a.z)) by (nonlinear_arith);
    assert((c.x - b.x) * (a.y - b.y) - (c.y - b.y) * (a.x - b.x) == (b.x - a.x) * (c.y - a.y) - (
    b.y - a.y) * (c.x - a.x)) by (nonlinear_arith);
}

/// The cross product of an edge with the way from its start to a point is
/// the opposite of that of the reversed edge with the way from its start.
proof fn lemma_edge_cross_reversed(a: V3, b: V3, p: V3)
    requires
        v3_near(a, b),
        v3_near(p, a),
        v3_near(p, b),
    ensures
        v3_cross(v3_sub(a, b), v3_sub(p, b)) == v3_neg(v3_cross(v3_sub(b, a), v3_sub(p, a))),
{
    assert((a.y - b.y) * (p.z - b.z) - (a.z - b.z) * (p.y - b.y) == -((b.y - a.y) * (p.z - a.z) - (
    b.z - a.z) * (p.y - a.y))) by (nonlinear_arith);
    assert((a.z - b.z) * (p.x - b.x) - (a.x - b.x) * (p.z - b.z) == -((b.z - a.z) * (p.x - a.x) - (
    b.x - a.x) * (p.z - a.z))) by (nonlinear_arith);
    assert((a.x - b.x) * (p.y - b.y) - (a.y - b.y) * (p.x - b.x) == -((b.x - a.x) * (p.y - a.y) - (
    b.y - a.y) * (p.x - a.x))) by (nonlinear_arith);
    crate::scalar::lemma_quot_neg(
        (b.y - a.y) * (p.z - a.z) - (b.z - a.z) * (p.y - a.y),
        crate::scalar::ONE_RAW as int,
    );
    crate::scalar::lemma_quot_neg(
        (b.z - a.z) * (p.x - a.x) - (b.x - a.x) * (p.z - a.z),
        crate::scalar::ONE_RAW as int,
    );
    crate::scalar::lemma_quot_neg(
        (b.x - a.x) * (p.y - a.y) - (b.y - a.y) * (p.x - a.x),
        crate::scalar::ONE_RAW as int,
    );
}

/// Renaming the corners in a circle leaves the normal as it is; exchanging
/// two corners turns it round.
pub proof fn lemma_triangle_normal_relabelled(t: TriangleModel)
    requires
        triangle_fits(t),
    ensures
        triangle_normal(triangle_rotated(t)) == triangle_normal(t),
        triangle_normal(triangle_swapped(t)) == v3_neg(triangle_normal(t)),
{
    lemma_edge_cross_rotated(t.v0, t.v1, t.v2);
    lemma_edge_cross_reversed(t.v0, t.v1, t.v2);
    lemma_v3_normalize_neg(v3_cross(v3_sub(t.v1, t.v0), v3_sub(t.v2, t.v0)));
}

/// Renaming the corners in a circle leaves the inside of the triangle as it
/// is; exchanging two corners reverses the sense of its edges, so that the
/// inside is the same for the normal turned round.
pub proof fn lemma_triangle_inside_relabelled(t: TriangleModel, point: V3, normal: V3)
    requires
        triangle_fits(t),
        v3_near(point, t.v0),
        v3_near(point, t.v1),
        v3_near(point, t.v2),
    ensures
        triangle_is_inside(triangle_rotated(t), point, normal) == triangle_is_inside(
            t,
            point,
            normal,
        ),
        triangle_is_inside(triangle_swapped(t), point, v3_neg(normal)) == triangle_is_inside(
            t,
            point,
            normal,
        ),
{
    lemma_edge_cross_reversed(t.v1, t.v0, point);
    lemma_edge_cross_reversed(t.v2, t.v1, point);
    lemma_edge_cross_reversed(t.v0, t.v2, point);
    lemma_v3_dot_neg(normal, v3_cross(v3_sub(t.v1, t.v0), v3_sub(point, t.v0)));
    lemma_v3_dot_neg(normal, v3_cross(v3_sub(t.v2, t.v1), v3_sub(point, t.v1)));
    lemma_v3_dot_neg(normal, v3_cross(v3_sub(t.v0, t.v2), v3_sub(point, t.v2)));
}

/// Whether the distance to the plane of the triangle is held without
/// saturation: the offset of the ray's origin from the plane, and its
/// quotient by the share of the direction along the normal.
pub open spec fn plane_fits(t: TriangleModel, ray: RayModel) -> bool {
    let normal = triangle_normal(t);
    let offset = v3_dot(normal, t.v0) - v3_dot(normal, ray.origin);
    in_range(offset) && in_range(crate::scalar::quot(offset * ONE_RAW, v3_dot(normal, ray.direction)))
}

/// Under every name of its corners a triangle has the same normal, turned
/// round where the sense of the corners is reversed, and the ray meets its
/// plane at nearly the same distance. The distance is counted from the
/// corner that comes first, and the rounded normal does not see all corners
/// at quite the same offset: the distances differ by the gap between the
/// offsets of those corners, divided by the share of the direction along
/// the normal, and by less than two units of rounding more. Two names with
/// one first corner give one distance.
pub proof fn lemma_triangle_hit_relabelled(t: TriangleModel, ray: RayModel)
    requires
        triangle_fits(t),
        v3_dot(triangle_normal(t), ray.direction) != 0,
        plane_fits(t, ray),
        plane_fits(triangle_rotated(t), ray),
    ensures
        triangle_normal(triangle_rotated(t)) == triangle_normal(t),
        triangle_normal(triangle_swapped(t)) == v3_neg(triangle_normal(t)),
        triangle_plane_distance(triangle_swapped(t), ray) == triangle_plane_distance(
            triangle_rotated(t),
            ray,
        ),
        ({
            let normal = triangle_normal(t);
            let facing = v3_dot(normal, ray.direction);
            let gap = v3_dot(normal, t.v1) - v3_dot(normal, t.v0);
            let moved = triangle_plane_distance(triangle_rotated(t), ray) - triangle_plane_distance(
                t,
                ray,
            );
            -(abs_spec(gap) * ONE_RAW + 2 * abs_spec(facing)) < moved * facing < abs_spec(gap)
                * ONE_RAW + 2 * abs_spec(facing)
        }),
{
    let n = triangle_normal(t);
    lemma_triangle_normal_relabelled(t);
    lemma_v3_dot_neg(n, ray.direction);
    lemma_v3_dot_neg(n, ray.origin);
    lemma_v3_dot_neg(n, t.v1);
    let facing = v3_dot(n, ray.direction);
    let from_first = v3_dot(n, t.v0) - v3_dot(n, ray.origin);
    let from_second = v3_dot(n, t.v1) - v3_dot(n, ray.origin);
    let first = triangle_plane_distance(t, ray);
    let second = triangle_plane_distance(triangle_rotated(t), ray);
    assert(first == div_spec(from_first, facing));
    assert(second == div_spec(from_second, facing));
    assert(triangle_plane_distance(triangle_swapped(t), ray) == div_spec(-from_second, -facing));
    lemma_div_spec_neg(from_second, facing);
    lemma_div_spec_neg(-from_second, facing);
    crate::scalar::lemma_div_spec_rounds(from_first, facing);
    crate::scalar::lemma_div_spec_rounds(from_second, facing);
    assert((second - first) * facing == second * facing - first * facing) by (nonlinear_arith);
    assert((from_second - from_first) * ONE_RAW == from_second * ONE_RAW - from_first * ONE_RAW);
    let gap = v3_dot(n, t.v1) - v3_dot(n, t.v0);
    assert(gap == from_second - from_first);
    assert(-(abs_spec(gap) * ONE_RAW) <= gap * ONE_RAW <= abs_spec(gap) * ONE_RAW);
}

/// Whether the normal of the triangle and the offsets of its first two
/// corners are held without saturation, and the triangle has an area.
pub open spec fn normal_fits(t: TriangleModel) -> bool {
    let e1 = v3_sub(t.v1, t.v0);
    let e2 = v3_sub(t.v2, t.v0);
    let n = triangle_normal(t);
    &&& in_range(crate::scalar::quot(e1.y * e2.z - e1.z * e2.y, ONE_RAW as int))
    &&& in_range(crate::scalar::quot(e1.z * e2.x - e1.x * e2.z, ONE_RAW as int))
    &&& in_range(crate::scalar::quot(e1.x * e2.y - e1.y * e2.x, ONE_RAW as int))
    &&& v3_length(v3_cross(e1, e2)) != 0
    &&& in_range(crate::scalar::quot(n.x * t.v0.x + n.y * t.v0.y + n.z * t.v0.z, ONE_RAW as int))
    &&& in_range(crate::scalar::quot(n.x * t.v1.x + n.y * t.v1.y + n.z * t.v1.z, ONE_RAW as int))
}

/// The rounded normal sees the first two corners of a triangle at nearly
/// one offset. With `len` for the length of the cross product of the edges,
/// which is twice the area, and `weights` for the sum of the absolute
/// components of the first edge, the gap between the two offsets is less
/// than `2 * weights * (1 + 1 / len) + 2` units: a few units for a triangle
/// of ordinary size, more for one that is nearly a line.
pub proof fn lemma_triangle_offsets_gap(t: TriangleModel)
    requires
        triangle_fits(t),
        normal_fits(t),
    ensures
        ({
            let normal = triangle_normal(t);
            let edge = v3_sub(t.v1, t.v0);
            let len = v3_length(v3_cross(edge, v3_sub(t.v2, t.v0)));
            let weights = abs_spec(edge.x) + abs_spec(edge.y) + abs_spec(edge.z);
            let gap = v3_dot(normal, t.v1) - v3_dot(normal, t.v0);
            abs_spec(gap) * ONE_RAW * len < 2 * weights * (ONE_RAW + len) + 2 * ONE_RAW * len
        }),
{
    let one = ONE_RAW as int;
    let big = crate::scalar::FINE_RAW as int;
    let w = v3_sub(t.v1, t.v0);
    let e2 = v3_sub(t.v2, t.v0);
    let weights = abs_spec(w.x) + abs_spec(w.y) + abs_spec(w.z);
    let cx = w.y * e2.z - w.z * e2.y;
    let cy = w.z * e2.x - w.x * e2.z;
    let cz = w.x * e2.y - w.y * e2.x;
    // the exact cross product stands at right angles to the edge
    assert(cx * w.x + cy * w.y + cz * w.z == 0) by (nonlinear_arith)
        requires
            cx == w.y * e2.z - w.z * e2.y,
            cy == w.z * e2.x - w.x * e2.z,
            cz == w.x * e2.y - w.y * e2.x,
    ;
    let c = v3_cross(w, e2);
    assert(cx * 1 == cx && cy * 1 == cy && cz * 1 == cz);
    crate::scalar::lemma_weighted_quotients(cx, cy, cz, w.x, w.y, w.z, 1, one);
    let cw = c.x * w.x + c.y * w.y + c.z * w.z;
    assert(-weights <= cw <= weights) by (nonlinear_arith)
        requires
            -(one * weights) <= cw * one <= one * weights,
            one > 0,
    ;
    let len = v3_length(c);
    crate::scalar::lemma_stretched_length(c.x, c.y, c.z);
    let x = crate::scalar::stretch_spec(c.x, len);
    let y = crate::scalar::stretch_spec(c.y, len);
    let z = crate::scalar::stretch_spec(c.z, len);
    let fine = crate::scalar::isqrt(x * x + y * y + z * z);
    crate::scalar::lemma_weighted_quotients(c.x, c.y, c.z, w.x, w.y, w.z, big, len);
    let xw = x * w.x + y * w.y + z * w.z;
    crate::scalar::lemma_weighted_quotients(x, y, z, w.x, w.y, w.z, one, fine);
    let n = triangle_normal(t);
    assert(n.x == crate::scalar::quot(x * one, fine) && n.y == crate::scalar::quot(
        y * one,
        fine,
    ) && n.z == crate::scalar::quot(z * one, fine));
    let nw = n.x * w.x + n.y * w.y + n.z * w.z;
    let a_xw = abs_spec(xw);
    let a_nw = abs_spec(nw);
    assert(a_xw * len <= (big + len) * weights) by (nonlinear_arith)
        requires
            big * cw - len * weights <= xw * len <= big * cw + len * weights,
            -weights <= cw <= weights,
            a_xw == xw || a_xw == -xw,
            a_xw >= 0,
            big > 0,
            len > 0,
            weights >= 0,
    ;
    assert(a_nw * fine <= one * a_xw + fine * weights) by (nonlinear_arith)
        requires
            one * xw - fine * weights <= nw * fine <= one * xw + fine * weights,
            a_nw == nw || a_nw == -nw,
            a_xw == xw || a_xw == -xw,
            a_xw >= 0,
            one > 0,
    ;
    assert(a_nw * len * fine <= one * ((big + len) * weights) + fine * weights * len)
        by (nonlinear_arith)
        requires
            a_nw * fine <= one * a_xw + fine * weights,
            a_xw * len <= (big + len) * weights,
            len > 0,
            one > 0,
    ;
    assert(one * ((big + len) * weights) <= fine * ((2 * one + len) * weights)) by (nonlinear_arith)
        requires
            fine >= big - 4,
            big == 4_000_000_000_000_000_000,
            one == 1_000_000_000,
            len > 0,
            weights >= 0,
    ;
    assert(a_nw * len <= 2 * weights * (one + len)) by (nonlinear_arith)
        requires
            a_nw * len * fine <= one * ((big + len) * weights) + fine * weights * len,
            one * ((big + len) * weights) <= fine * ((2 * one + len) * weights),
            fine > 0,
    ;
    // the two offsets are the rounded sums over the two corners
    let s0 = n.x * t.v0.x + n.y * t.v0.y + n.z * t.v0.z;
    let s1 = n.x * t.v1.x + n.y * t.v1.y + n.z * t.v1.z;
    assert(s1 - s0 == nw) by (nonlinear_arith)
        requires
            s0 == n.x * t.v0.x + n.y * t.v0.y + n.z * t.v0.z,
            s1 == n.x * t.v1.x + n.y * t.v1.y + n.z * t.v1.z,
            nw == n.x * w.x + n.y * w.y + n.z * w.z,
            w.x == t.v1.x - t.v0.x,
            w.y == t.v1.y - t.v0.y,
            w.z == t.v1.z - t.v0.z,
    ;
    lemma_quot_bounds(s0, one);
    lemma_quot_bounds(s1, one);
    let gap = v3_dot(n, t.v1) - v3_dot(n, t.v0);
    let a_gap = abs_spec(gap);
    assert(a_gap * one < a_nw + 2 * one);
    assert(a_gap * one * len < 2 * weights * (one + len) + 2 * one * len) by (nonlinear_arith)
        requires
            a_gap * one < a_nw + 2 * one,
            a_nw * len <= 2 * weights * (one + len),
            len > 0,
    ;
}

/// Where the rounded normal sees the first two corners at one offset, as it
/// does for every triangle in a plane across one of the axes, the triangle is hit
/// alike under each name of its corners that keeps their sense, and alike
/// but for the normal turned round under one that reverses it.
pub proof fn lemma_triangle_hit_relabelled_exactly(
    t: TriangleModel,
    ray: RayModel,
    bounds: IntervalModel,
)
    requires
        triangle_fits(t),
        v3_dot(triangle_normal(t), t.v0) == v3_dot(triangle_normal(t), t.v1),
        v3_near(ray_at(ray, triangle_plane_distance(t, ray)), t.v0),
        v3_near(ray_at(ray, triangle_plane_distance(t, ray)), t.v1),
        v3_near(ray_at(ray, triangle_plane_distance(t, ray)), t.v2),
    ensures
        triangle_hit(triangle_rotated(t), ray, bounds) == triangle_hit(t, ray, bounds),
        triangle_hit(triangle_swapped(t), ray, bounds) == hit_flipped(triangle_hit(t, ray, bounds)),
{
    let n = triangle_normal(t);
    let point = ray_at(ray, triangle_plane_distance(t, ray));
    lemma_triangle_normal_relabelled(t);
    lemma_triangle_inside_relabelled(t, point, n);
    lemma_v3_dot_neg(n, ray.direction);
    lemma_v3_dot_neg(n, ray.origin);
    lemma_v3_dot_neg(n, t.v1);
    let offset = add_spec(v3_dot(n, ray.origin), -v3_dot(n, t.v0));
    let facing = v3_dot(n, ray.direction);
    assert(add_spec(-v3_dot(n, ray.origin), v3_dot(n, t.v0)) == -offset);
    if facing != 0 {
        lemma_div_spec_neg(offset, facing);
        lemma_div_spec_neg(-offset, facing);
    }
}

} // verus!
