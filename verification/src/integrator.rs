//! The radiance that arrives along a ray.
//!
//! A ray that leaves the scene brings the colour of the sky. A ray that
//! hits a surface is scattered by the surface's material, and brings what
//! the scattered ray brings, attenuated; a ray that is absorbed, or that has
//! used up its bounces, brings nothing.
use crate::hits::Hittable;
use crate::interval::{Interval, IntervalModel};
use crate::material::{material_scatter, scatter_view, valid_draw, Material};
use crate::ray::{Ray, RayModel};
use crate::scalar::{
    add_spec, lemma_quot_bounds, lemma_quot_exact, lemma_quot_monotone, mul_spec, sub_spec, Scalar,
    HALF_RAW, LIMIT_RAW, ONE_RAW,
};
use crate::shapes::{scene_hit, scene_view, Primitive, PrimitiveModel};
use crate::vec3::{
    v3, v3_add, v3_div, v3_hadamard, v3_normalize, v3_scale, v3_zero, Vec3, V3,
};
use crate::vector_utils::{channel_multiply, fallback_sample, lemma_fallback_in_ball};
use vstd::prelude::*;

verus! {

/// The raw value of 0.0001: hits nearer than this to a ray's origin are
/// taken for the surface that the ray has just left.
pub const NEAR_RAW: i64 = 100_000;

/// The model of the two draws that one bounce may use.
pub struct DrawModel {
    pub unit: V3,
    pub chance: int,
}

/// The distances at which a hit counts.
pub open spec fn render_bounds() -> IntervalModel {
    IntervalModel { min: NEAR_RAW as int, max: LIMIT_RAW as int }
}

/// The colour of the sky at the horizon.
pub open spec fn horizon_color() -> V3 {
    v3_div(v3(182 * ONE_RAW, 255 * ONE_RAW, 250 * ONE_RAW), 255 * ONE_RAW)
}

/// The colour of the sky overhead.
pub open spec fn zenith_color() -> V3 {
    v3_div(v3(104 * ONE_RAW, 126 * ONE_RAW, 255 * ONE_RAW), 255 * ONE_RAW)
}

/// The colour of the sky in the direction of `ray`: a blend of the horizon
/// and zenith colours by the height `y` of the unit direction, with the
/// weight `(y + 1) / 2` on the zenith.
pub open spec fn sky_spec(ray: RayModel) -> V3 {
    let alpha = mul_spec(HALF_RAW as int, add_spec(v3_normalize(ray.direction).y, ONE_RAW as int));
    v3_add(
        v3_scale(horizon_color(), sub_spec(ONE_RAW as int, alpha)),
        v3_scale(zenith_color(), alpha),
    )
}

/// The radiance along `ray` with at most `depth` bounces, where the bounces
/// use the draws in `draws`, in their order.
pub open spec fn radiance(
    scene: Seq<PrimitiveModel>,
    ray: RayModel,
    depth: nat,
    draws: Seq<DrawModel>,
) -> V3
    decreases depth,
{
    if depth == 0 || draws.len() == 0 {
        v3_zero()
    } else {
        match scene_hit(scene, ray, render_bounds()) {
            None => sky_spec(ray),
            Some(record) => match material_scatter(
                record.material,
                ray,
                record,
                draws[0].unit,
                draws[0].chance,
            ) {
                None => v3_zero(),
                Some(s) => v3_hadamard(
                    s.attenuation,
                    radiance(scene, s.scattered, (depth - 1) as nat, draws.drop_first()),
                ),
            },
        }
    }
}

/// Whether each draw of `draws` is one that the generator can give.
pub open spec fn valid_draws(draws: Seq<DrawModel>) -> bool {
    forall|k: int| 0 <= k < draws.len() ==> valid_draw(#[trigger] draws[k].unit, draws[k].chance)
}

/// Whether `color` is the radiance along `ray` for some draws, one for each
/// bounce that is allowed.
pub open spec fn may_radiate(scene: Seq<PrimitiveModel>, ray: RayModel, depth: nat, color: V3)
    -> bool {
    exists|draws: Seq<DrawModel>| #[trigger]
        valid_draws(draws) && draws.len() == depth && color == radiance(scene, ray, depth, draws)
}

/// The draws of one bounce.
#[derive(Clone, Copy, Debug)]
pub struct Draw {
    pub unit: Vec3,
    pub chance: Scalar,
}

impl View for Draw {
    type V = DrawModel;

    open spec fn view(&self) -> DrawModel {
        DrawModel { unit: self.unit@, chance: self.chance@ }
    }
}

/// The models of the draws from the place `first` on; none where `first`
/// is no place of the list.
pub open spec fn draws_from(draws: Seq<Draw>, first: int) -> Seq<DrawModel> {
    if 0 <= first <= draws.len() {
        draws.subrange(first, draws.len() as int).map_values(|d: Draw| d@)
    } else {
        Seq::empty()
    }
}

/// A blend of two numbers from zero to one by a weight from zero to one
/// lies between the two, less at most one unit of rounding.
proof fn lemma_blend_range(from: int, to: int, weight: int)
    requires
        0 <= from <= ONE_RAW,
        0 <= to <= ONE_RAW,
        0 <= weight <= ONE_RAW,
    ensures
        ({
            let blend = add_spec(
                mul_spec(from, sub_spec(ONE_RAW as int, weight)),
                mul_spec(to, weight),
            );
            &&& blend <= from || blend <= to
            &&& blend >= from - 1 || blend >= to - 1
        }),
{
    let one = ONE_RAW as int;
    let rest = sub_spec(one, weight);
    assert(rest == one - weight);
    let p = from * rest;
    let q = to * weight;
    assert(0 <= p <= one * one && 0 <= q <= one * one) by (nonlinear_arith)
        requires
            0 <= from <= one,
            0 <= to <= one,
            0 <= weight <= one,
            0 <= rest <= one,
            p == from * rest,
            q == to * weight,
    ;
    lemma_quot_bounds(p, one);
    lemma_quot_bounds(q, one);
    lemma_quot_monotone(p, one * one, one);
    lemma_quot_monotone(q, one * one, one);
    lemma_quot_exact(one, one);
    let low = if from <= to {
        from
    } else {
        to
    };
    let high = if from <= to {
        to
    } else {
        from
    };
    assert(low * one <= p + q <= high * one) by (nonlinear_arith)
        requires
            p == from * rest,
            q == to * weight,
            rest == one - weight,
            0 <= weight <= one,
            low <= from <= high,
            low <= to <= high,
    ;
    let sum = crate::scalar::quot(p, one) + crate::scalar::quot(q, one);
    assert(low - 1 <= sum <= high) by (nonlinear_arith)
        requires
            low * one <= p + q <= high * one,
            sum * one <= p + q < sum * one + 2 * one,
            one > 0,
    ;
}

/// The colour of the sky lies between the colour of the horizon and that of
/// the zenith in each channel, less at most one unit of rounding.
pub proof fn lemma_sky_range(ray: RayModel)
    requires
        crate::vec3::v3_in_range(ray.direction),
    ensures
        407_843_136 <= sky_spec(ray).x <= 713_725_490,
        494_117_646 <= sky_spec(ray).y <= 1_000_000_000,
        980_392_155 <= sky_spec(ray).z <= 1_000_000_000,
{
    let one = ONE_RAW as int;
    let d = ray.direction;
    let height = v3_normalize(d).y;
    assert(-one <= height <= one) by {
        if crate::vec3::v3_length(d) != 0 {
            crate::vec3::lemma_v3_normalize_length(d);
        } else {
            assert(d.x * d.x >= 0 && d.y * d.y >= 0 && d.z * d.z >= 0) by (nonlinear_arith);
            crate::scalar::lemma_isqrt_bounds(d.x * d.x + d.y * d.y + d.z * d.z);
            let r = crate::scalar::isqrt(d.x * d.x + d.y * d.y + d.z * d.z);
            assert(r == 0);
            assert((r + 1) * (r + 1) == 1) by (nonlinear_arith)
                requires
                    r == 0,
            ;
            assert(d.y == 0) by (nonlinear_arith)
                requires
                    d.x * d.x + d.y * d.y + d.z * d.z < 1,
                    d.x * d.x >= 0,
                    d.z * d.z >= 0,
            ;
        }
    }
    let raised = add_spec(height, one);
    let alpha = mul_spec(HALF_RAW as int, raised);
    assert(0 <= HALF_RAW * raised <= one * one) by (nonlinear_arith)
        requires
            0 <= raised <= 2 * one,
            HALF_RAW == 500_000_000,
            one == 1_000_000_000,
    ;
    lemma_quot_monotone(0, HALF_RAW * raised, one);
    lemma_quot_monotone(HALF_RAW * raised, one * one, one);
    lemma_quot_exact(one, one);
    lemma_quot_exact(0, one);
    assert(0 <= alpha <= one);
    assert(horizon_color() == v3(713_725_490, 1_000_000_000, 980_392_156));
    assert(zenith_color() == v3(407_843_137, 494_117_647, 1_000_000_000));
    lemma_blend_range(713_725_490, 407_843_137, alpha);
    lemma_blend_range(1_000_000_000, 494_117_647, alpha);
    lemma_blend_range(980_392_156, 1_000_000_000, alpha);
}

/// With no bounce allowed nothing arrives, whatever the scene holds.
pub proof fn lemma_radiance_without_bounces(
    scene: Seq<PrimitiveModel>,
    ray: RayModel,
    draws: Seq<DrawModel>,
)
    ensures
        radiance(scene, ray, 0, draws) == v3_zero(),
{
}

/// In a scene without primitives, every ray with a bounce to spend brings
/// the colour of the sky.
pub proof fn lemma_radiance_of_empty_scene(ray: RayModel, depth: nat, draws: Seq<DrawModel>)
    requires
        depth > 0,
        draws.len() > 0,
    ensures
        radiance(Seq::<PrimitiveModel>::empty(), ray, depth, draws) == sky_spec(ray),
{
    assert(scene_hit(Seq::<PrimitiveModel>::empty(), ray, render_bounds()).is_none());
}

/// The colour of the sky in the direction of `ray`.
pub fn sky_color(ray: Ray) -> (c: Vec3)
    ensures
        c@ == sky_spec(ray@),
{
    let scale = Scalar::from_u32(255);
    let bottom_color = Vec3::new(
        Scalar::from_u32(182),
        Scalar::from_u32(255),
        Scalar::from_u32(250),
    ).div(scale);
    let top_color = Vec3::new(
        Scalar::from_u32(104),
        Scalar::from_u32(126),
        Scalar::from_u32(255),
    ).div(scale);
    let normalized = ray.direction.normalize();
    let alpha = Scalar::from_raw(HALF_RAW).mul(normalized.y.add(Scalar::one()));
    bottom_color.scale(Scalar::one().sub(alpha)).add(top_color.scale(alpha))
}

/// The bounds within which a hit counts: from just off the ray's origin to
/// as far as a scalar reaches.
pub fn hit_bounds() -> (b: Interval)
    ensures
        b@ == render_bounds(),
{
    Interval::new(Scalar::from_raw(NEAR_RAW), Scalar::limit())
}

/// The radiance along `ray` with at most `max_depth` bounces, where bounce
/// number `k` uses `draws[first + k]`. A bounce for which no draw is left
/// brings nothing.
pub fn ray_color_with(
    ray: Ray,
    objects: &Vec<Primitive>,
    max_depth: u32,
    draws: &Vec<Draw>,
    first: usize,
) -> (c: Vec3)
    ensures
        c@ == radiance(
            scene_view(objects@),
            ray@,
            max_depth as nat,
            draws_from(draws@, first as int),
        ),
    decreases max_depth,
{
    if max_depth == 0 || first >= draws.len() {
        return Vec3::zero();
    }
    let ghost rest = draws_from(draws@, first as int);
    assert(rest.len() > 0 && rest[0] == draws@[first as int]@);
    assert(rest.drop_first() =~= draws_from(draws@, first + 1));
    match objects.hit(ray, &hit_bounds()) {
        Some(record) => {
            match record.material.scatter_with(
                ray,
                &record,
                draws[first].unit,
                draws[first].chance,
            ) {
                Some((attenuation, scattered)) => {
                    channel_multiply(
                        attenuation,
                        ray_color_with(scattered, objects, max_depth - 1, draws, first + 1),
                    )
                },
                None => Vec3::zero(),
            }
        },
        None => sky_color(ray),
    }
}

/// Draws that a generator can give exist in any number.
proof fn lemma_some_draws(n: nat) -> (draws: Seq<DrawModel>)
    ensures
        draws.len() == n,
        valid_draws(draws),
{
    lemma_fallback_in_ball();
    let d = DrawModel { unit: v3_normalize(fallback_sample()), chance: 0 };
    Seq::new(n, |k: int| d)
}

/// The radiance along `ray` with at most `max_depth` bounces, each with
/// random draws of its own.
pub fn ray_color(ray: Ray, objects: &Vec<Primitive>, max_depth: u32) -> (c: Vec3)
    ensures
        may_radiate(scene_view(objects@), ray@, max_depth as nat, c@),
        max_depth == 0 ==> c@ == v3_zero(),
        max_depth > 0 && scene_hit(scene_view(objects@), ray@, render_bounds()).is_none() ==> c@
            == sky_spec(ray@),
    decreases max_depth,
{
    let ghost scene = scene_view(objects@);
    if max_depth == 0 {
        proof {
            let draws = Seq::<DrawModel>::empty();
            assert(valid_draws(draws) && draws.len() == 0 && v3_zero() == radiance(
                scene,
                ray@,
                0,
                draws,
            ));
        }
        return Vec3::zero();
    }
    match objects.hit(ray, &hit_bounds()) {
        Some(record) => {
            let scattering = record.material.scatter(ray, &record);
            let ghost (unit, chance) = choose|unit: V3, chance: int| #[trigger]
                valid_draw(unit, chance) && scatter_view(scattering) == material_scatter(
                    record.material@,
                    ray@,
                    record@,
                    unit,
                    chance,
                );
            let ghost head = DrawModel { unit, chance };
            match scattering {
                Some((attenuation, scattered)) => {
                    let onward = ray_color(scattered, objects, max_depth - 1);
                    let c = channel_multiply(attenuation, onward);
                    proof {
                        let tail = choose|draws: Seq<DrawModel>| #[trigger]
                            valid_draws(draws) && draws.len() == (max_depth - 1) as nat
                                && onward@ == radiance(
                                scene,
                                scattered@,
                                (max_depth - 1) as nat,
                                draws,
                            );
                        let draws = seq![head] + tail;
                        assert(draws.drop_first() =~= tail);
                        assert(valid_draws(draws)) by {
                            assert forall|k: int| 0 <= k < draws.len() implies valid_draw(
                                #[trigger] draws[k].unit,
                                draws[k].chance,
                            ) by {
                                if k > 0 {
                                    assert(draws[k] == tail[k - 1]);
                                }
                            }
                        }
                        assert(c@ == radiance(scene, ray@, max_depth as nat, draws));
                    }
                    c
                },
                None => {
                    proof {
                        let tail = lemma_some_draws((max_depth - 1) as nat);
                        let draws = seq![head] + tail;
                        assert(valid_draws(draws)) by {
                            assert forall|k: int| 0 <= k < draws.len() implies valid_draw(
                                #[trigger] draws[k].unit,
                                draws[k].chance,
                            ) by {
                                if k > 0 {
                                    assert(draws[k] == tail[k - 1]);
                                }
                            }
                        }
                        assert(v3_zero() == radiance(scene, ray@, max_depth as nat, draws));
                    }
                    Vec3::zero()
                },
            }
        },
        None => {
            let c = sky_color(ray);
            proof {
                let draws = lemma_some_draws(max_depth as nat);
                assert(c@ == radiance(scene, ray@, max_depth as nat, draws));
            }
            c
        },
    }
}

} // verus!
