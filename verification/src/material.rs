//! Materials: what a surface does with the light that reaches it.
//!
//! A material either absorbs a ray or scatters it, giving the colour by
//! which the scattered light is attenuated and the scattered ray. Chance
//! enters through two draws, a random direction and a random fraction; the
//! spec functions of this module say what each material does for given
//! draws.
use crate::hits::{HitModel, HitRecord};
use crate::ray::{Ray, RayModel};
use crate::scalar::{
    abs_spec, add_spec, div_spec, lemma_quot_exact, lemma_quot_monotone, min_spec, mul_spec, quot,
    sqrt_spec, sub_spec, Scalar, LIMIT_RAW, ONE_RAW,
};
use crate::vec3::{v3, v3_add, v3_dot, v3_neg, v3_normalize, v3_scale, Vec3, V3};
use crate::vector_utils::{
    is_unit_draw, lemma_fallback_in_ball, rand_normal, random_fraction, reflect, v3_reflect,
};
use vstd::prelude::*;

verus! {

/// The model of a material.
pub enum MaterialModel {
    Lambertian { albedo: V3 },
    Metal { albedo: V3, fuzz: int },
    Dielectric { refractive_index: int },
}

/// The model of a scattering: the attenuation and the scattered ray.
pub struct ScatterModel {
    pub attenuation: V3,
    pub scattered: RayModel,
}

/// A diffuse surface scatters along the normal plus a random direction and
/// never absorbs.
pub open spec fn lambertian_scatter(albedo: V3, record: HitModel, unit: V3) -> Option<
    ScatterModel,
> {
    Some(
        ScatterModel {
            attenuation: albedo,
            scattered: RayModel { origin: record.hit, direction: v3_add(record.normal, unit) },
        },
    )
}

/// A metal mirrors the incoming direction, blurs it by `fuzz` times a random
/// direction, and absorbs the ray where the result does not leave the
/// surface.
pub open spec fn metal_scatter(
    albedo: V3,
    fuzz: int,
    ray: RayModel,
    record: HitModel,
    unit: V3,
) -> Option<ScatterModel> {
    let reflected = v3_reflect(v3_normalize(ray.direction), record.normal);
    let direction = v3_add(reflected, v3_scale(unit, fuzz));
    if v3_dot(direction, record.normal) <= 0 {
        None
    } else {
        Some(
            ScatterModel {
                attenuation: albedo,
                scattered: RayModel { origin: record.hit, direction },
            },
        )
    }
}

/// The share of light that a surface reflects when it is met straight on:
/// the square of `(1 - n) / (1 + n)`, where `n` is the ratio of the
/// refractive indices.
pub open spec fn reflectance_at_normal(refractive_index: int) -> int {
    let q = div_spec(
        sub_spec(ONE_RAW as int, refractive_index),
        add_spec(ONE_RAW as int, refractive_index),
    );
    mul_spec(q, q)
}

/// The share of light that a dielectric reflects at the angle whose cosine
/// is `cos_theta`, by Schlick's approximation: `r0 + (1 - r0) (1 - cos)^5`,
/// where `r0` is the share at a straight meeting.
pub open spec fn reflectance_spec(cos_theta: int, refractive_index: int) -> int {
    let r0 = reflectance_at_normal(refractive_index);
    let x = sub_spec(ONE_RAW as int, cos_theta);
    let x2 = mul_spec(x, x);
    let x5 = mul_spec(mul_spec(x2, x2), x);
    add_spec(r0, mul_spec(sub_spec(ONE_RAW as int, r0), x5))
}

/// The direction of the unit vector `uv` after it has passed a surface with
/// normal `normal`, where `refractive_index` is the ratio of the indices on
/// the two sides.
pub open spec fn v3_refract(uv: V3, normal: V3, refractive_index: int) -> V3 {
    let cos_theta = min_spec(v3_dot(normal, v3_neg(uv)), ONE_RAW as int);
    let perp = v3_scale(v3_add(uv, v3_scale(normal, cos_theta)), refractive_index);
    let parallel = v3_scale(
        normal,
        -sqrt_spec(abs_spec(sub_spec(ONE_RAW as int, v3_dot(perp, perp)))),
    );
    v3_add(perp, parallel)
}

/// The ratio of refractive indices that a ray meets: the inverse of the
/// material's index where the ray enters, the index where it leaves.
pub open spec fn refraction_ratio(refractive_index: int, ray: RayModel, record: HitModel) -> int {
    if v3_dot(ray.direction, record.normal) < 0 {
        div_spec(ONE_RAW as int, refractive_index)
    } else {
        refractive_index
    }
}

/// Whether a dielectric reflects the ray: always where no refracted ray
/// exists, else with the chance that the reflectance gives.
pub open spec fn dielectric_reflects(
    refractive_index: int,
    ray: RayModel,
    record: HitModel,
    chance: int,
) -> bool {
    let ratio = refraction_ratio(refractive_index, ray, record);
    let unit_direction = v3_normalize(ray.direction);
    let cos_theta = min_spec(v3_dot(record.normal, v3_neg(unit_direction)), ONE_RAW as int);
    let sin_theta = sqrt_spec(sub_spec(ONE_RAW as int, mul_spec(cos_theta, cos_theta)));
    mul_spec(ratio, sin_theta) > ONE_RAW || reflectance_spec(cos_theta, ratio) > chance
}

/// A dielectric reflects or refracts, and never absorbs or tints.
pub open spec fn dielectric_scatter(
    refractive_index: int,
    ray: RayModel,
    record: HitModel,
    chance: int,
) -> Option<ScatterModel> {
    let unit_direction = v3_normalize(ray.direction);
    let direction = if dielectric_reflects(refractive_index, ray, record, chance) {
        v3_reflect(unit_direction, record.normal)
    } else {
        v3_refract(
            unit_direction,
            record.normal,
            refraction_ratio(refractive_index, ray, record),
        )
    };
    Some(
        ScatterModel {
            attenuation: v3(ONE_RAW as int, ONE_RAW as int, ONE_RAW as int),
            scattered: RayModel { origin: record.hit, direction },
        },
    )
}

/// What the material `m` does with `ray` at `record`, where `unit` is the
/// random direction and `chance` the random fraction that were drawn.
pub open spec fn material_scatter(
    m: MaterialModel,
    ray: RayModel,
    record: HitModel,
    unit: V3,
    chance: int,
) -> Option<ScatterModel> {
    match m {
        MaterialModel::Lambertian { albedo } => lambertian_scatter(albedo, record, unit),
        MaterialModel::Metal { albedo, fuzz } => metal_scatter(albedo, fuzz, ray, record, unit),
        MaterialModel::Dielectric { refractive_index } => dielectric_scatter(
            refractive_index,
            ray,
            record,
            chance,
        ),
    }
}

/// Whether the two draws are ones that the generator can give.
pub open spec fn valid_draw(unit: V3, chance: int) -> bool {
    is_unit_draw(unit) && 0 <= chance < ONE_RAW
}

/// Whether `out` is what the material does for some pair of draws.
pub open spec fn may_scatter(
    m: MaterialModel,
    ray: RayModel,
    record: HitModel,
    out: Option<ScatterModel>,
) -> bool {
    exists|unit: V3, chance: int| #[trigger]
        valid_draw(unit, chance) && out == material_scatter(m, ray, record, unit, chance)
}

/// The model of what a scattering returns.
pub open spec fn scatter_view(r: Option<(Vec3, Ray)>) -> Option<ScatterModel> {
    match r {
        Some((attenuation, scattered)) => Some(
            ScatterModel { attenuation: attenuation@, scattered: scattered@ },
        ),
        None => None,
    }
}

/// For a cosine from zero to one and a ratio of indices that is not
/// negative, the reflectance is a share: it lies from zero to one. It is at
/// least the share at a straight meeting, which it is for the cosine one,
/// and it is one for the cosine zero, where the ray grazes the surface.
pub proof fn lemma_reflectance_range(cos_theta: int, refractive_index: int)
    requires
        0 <= cos_theta <= ONE_RAW,
        0 <= refractive_index <= LIMIT_RAW,
    ensures
        0 <= reflectance_at_normal(refractive_index) <= ONE_RAW,
        reflectance_at_normal(refractive_index) <= reflectance_spec(cos_theta, refractive_index)
            <= ONE_RAW,
        reflectance_spec(ONE_RAW as int, refractive_index) == reflectance_at_normal(
            refractive_index,
        ),
        reflectance_spec(0, refractive_index) == ONE_RAW,
{
    let one = ONE_RAW as int;
    let n = refractive_index;
    let top = sub_spec(one, n);
    let base = add_spec(one, n);
    let q = div_spec(top, base);
    assert(-base <= top <= base && base >= one);
    // the quotient of the two lies from minus one to one
    assert(-one <= quot(top * one, base) <= one) by {
        lemma_quot_monotone(top * one, base * one, base);
        lemma_quot_monotone(-(base * one), top * one, base);
        assert(top * one <= base * one && -(base * one) <= top * one) by (nonlinear_arith)
            requires
                -base <= top <= base,
                one > 0,
        ;
        lemma_quot_exact(one, base);
        lemma_quot_exact(-one, base);
        assert((-one) * base == -(base * one) && one * base == base * one) by (nonlinear_arith);
    }
    assert(-one <= q <= one);
    let r0 = mul_spec(q, q);
    assert(0 <= q * q <= one * one) by (nonlinear_arith)
        requires
            -one <= q <= one,
    ;
    lemma_quot_monotone(0, q * q, one);
    lemma_quot_monotone(q * q, one * one, one);
    lemma_quot_exact(one, one);
    lemma_quot_exact(0, one);
    assert(0 <= r0 <= one);
    lemma_unit_products(sub_spec(one, cos_theta), sub_spec(one, cos_theta));
    let x = sub_spec(one, cos_theta);
    let x2 = mul_spec(x, x);
    lemma_unit_products(x2, x2);
    let x4 = mul_spec(x2, x2);
    lemma_unit_products(x4, x);
    let x5 = mul_spec(x4, x);
    lemma_unit_products(sub_spec(one, r0), x5);
    // at the cosine one the last term is nothing, at the cosine zero it is
    // all of what is left of one
    assert(reflectance_spec(0, refractive_index) == one) by {
        lemma_quot_exact(one, one);
        assert(mul_spec(one, one) == one);
        let rest = sub_spec(one, r0);
        lemma_quot_exact(rest, one);
        assert(mul_spec(rest, one) == rest);
    }
    assert(reflectance_spec(one, refractive_index) == r0) by {
        lemma_quot_exact(0, one);
        assert(mul_spec(0, 0) == 0);
        assert(sub_spec(one, r0) * 0 == 0);
    }
}

/// The product of two numbers from zero to one lies from zero to the first
/// of them.
proof fn lemma_unit_products(a: int, b: int)
    requires
        0 <= a <= ONE_RAW,
        0 <= b <= ONE_RAW,
    ensures
        0 <= mul_spec(a, b) <= a,
{
    let one = ONE_RAW as int;
    assert(0 <= a * b <= a * one) by (nonlinear_arith)
        requires
            0 <= a,
            0 <= b <= one,
    ;
    lemma_quot_monotone(0, a * b, one);
    lemma_quot_monotone(a * b, a * one, one);
    lemma_quot_exact(a, one);
    lemma_quot_exact(0, one);
}

/// Whatever is drawn, a diffuse surface and a metal attenuate by their
/// albedo and a dielectric by nothing, a diffuse surface and a dielectric
/// never absorb, and the scattered ray starts where the ray hit.
pub proof fn lemma_scatter_attenuation(
    m: MaterialModel,
    ray: RayModel,
    record: HitModel,
    unit: V3,
    chance: int,
)
    ensures
        match material_scatter(m, ray, record, unit, chance) {
            Some(s) => s.scattered.origin == record.hit && s.attenuation == match m {
                MaterialModel::Lambertian { albedo } => albedo,
                MaterialModel::Metal { albedo, .. } => albedo,
                MaterialModel::Dielectric { .. } => v3(
                    ONE_RAW as int,
                    ONE_RAW as int,
                    ONE_RAW as int,
                ),
            },
            None => m is Metal,
        },
{
}

/// A surface finish.
pub trait Material {
    /// The model of this material.
    spec fn model(&self) -> MaterialModel;

    /// Scatters `ray` at `record` with draws of its own.
    fn scatter(&self, ray: Ray, record: &HitRecord) -> (r: Option<(Vec3, Ray)>)
        ensures
            may_scatter(self.model(), ray@, record@, scatter_view(r)),
    ;

    /// Scatters `ray` at `record` with the draws that are given: `unit`
    /// stands for the random direction, `chance` for the random fraction.
    fn scatter_with(&self, ray: Ray, record: &HitRecord, unit: Vec3, chance: Scalar) -> (r: Option<
        (Vec3, Ray),
    >)
        ensures
            scatter_view(r) == material_scatter(self.model(), ray@, record@, unit@, chance@),
    ;
}

/// A mirror-like surface of colour `albedo`, blurred by `fuzz`.
#[derive(Clone, Copy, Debug)]
pub struct Metal {
    pub albedo: Vec3,
    pub fuzz: Scalar,
}

impl Metal {
    /// A metal. A negative `fuzz` counts as none.
    pub fn new(albedo: Vec3, fuzz: Scalar) -> (r: Metal)
        ensures
            r.albedo == albedo,
            r.fuzz@ == if fuzz@ < 0 {
                0
            } else {
                fuzz@
            },
    {
        if fuzz.lt(Scalar::zero()) {
            Metal { albedo, fuzz: Scalar::zero() }
        } else {
            Metal { albedo, fuzz }
        }
    }
}

impl View for Metal {
    type V = MaterialModel;

    open spec fn view(&self) -> MaterialModel {
        MaterialModel::Metal { albedo: self.albedo@, fuzz: self.fuzz@ }
    }
}

impl Material for Metal {
    open spec fn model(&self) -> MaterialModel {
        self@
    }

    fn scatter(&self, ray: Ray, record: &HitRecord) -> (r: Option<(Vec3, Ray)>) {
        let unit = rand_normal();
        let r = self.scatter_with(ray, record, unit, Scalar::zero());
        assert(valid_draw(unit@, 0));
        r
    }

    fn scatter_with(&self, ray: Ray, record: &HitRecord, unit: Vec3, chance: Scalar) -> (r: Option<
        (Vec3, Ray),
    >) {
        let reflected = reflect(ray.direction.normalize(), record.normal);
        let scattered = Ray::new(record.hit, reflected.add(unit.scale(self.fuzz)));
        let attenuation = self.albedo;
        if scattered.direction.dot(record.normal).le(Scalar::zero()) {
            return None;
        }
        Some((attenuation, scattered))
    }
}

/// A diffuse surface of colour `albedo`.
#[derive(Clone, Copy, Debug)]
pub struct Lambertian {
    pub albedo: Vec3,
}

impl View for Lambertian {
    type V = MaterialModel;

    open spec fn view(&self) -> MaterialModel {
        MaterialModel::Lambertian { albedo: self.albedo@ }
    }
}

impl Material for Lambertian {
    open spec fn model(&self) -> MaterialModel {
        self@
    }

    fn scatter(&self, ray: Ray, record: &HitRecord) -> (r: Option<(Vec3, Ray)>) {
        let unit = rand_normal();
        let r = self.scatter_with(ray, record, unit, Scalar::zero());
        assert(valid_draw(unit@, 0));
        r
    }

    fn scatter_with(&self, ray: Ray, record: &HitRecord, unit: Vec3, chance: Scalar) -> (r: Option<
        (Vec3, Ray),
    >) {
        let scattered_direction = record.normal.add(unit);
        let scattered = Ray::new(record.hit, scattered_direction);
        let attenuation = self.albedo;
        Some((attenuation, scattered))
    }
}

/// A clear solid such as glass, with the given index of refraction.
#[derive(Clone, Copy, Debug)]
pub struct Dielectric {
    pub refractive_index: Scalar,
}

impl Dielectric {
    /// A dielectric with the given index of refraction.
    pub fn new(refractive_index: Scalar) -> (r: Dielectric)
        ensures
            r.refractive_index == refractive_index,
    {
        Dielectric { refractive_index }
    }
}

/// Schlick's approximation of the reflectance.
pub fn reflectance(cos_theta: Scalar, refractive_index: Scalar) -> (r: Scalar)
    ensures
        r@ == reflectance_spec(cos_theta@, refractive_index@),
{
    let one = Scalar::one();
    let q = one.sub(refractive_index).div(one.add(refractive_index));
    let r0 = q.mul(q);
    let x = one.sub(cos_theta);
    let x2 = x.mul(x);
    let x5 = x2.mul(x2).mul(x);
    r0.add(one.sub(r0).mul(x5))
}

/// Snell's law, split into the parts of the refracted ray across and along
/// the normal.
pub fn refract(uv: Vec3, normal: Vec3, refractive_index: Scalar) -> (r: Vec3)
    ensures
        r@ == v3_refract(uv@, normal@, refractive_index@),
{
    let one = Scalar::one();
    let cos_theta = normal.dot(uv.neg()).min(one);
    let r_out_perp = uv.add(normal.scale(cos_theta)).scale(refractive_index);
    let r_out_parallel = normal.scale(one.sub(r_out_perp.dot(r_out_perp)).abs().sqrt().neg());
    r_out_perp.add(r_out_parallel)
}

impl View for Dielectric {
    type V = MaterialModel;

    open spec fn view(&self) -> MaterialModel {
        MaterialModel::Dielectric { refractive_index: self.refractive_index@ }
    }
}

impl Material for Dielectric {
    open spec fn model(&self) -> MaterialModel {
        self@
    }

    fn scatter(&self, ray: Ray, record: &HitRecord) -> (r: Option<(Vec3, Ray)>) {
        let chance = random_fraction();
        let r = self.scatter_with(ray, record, Vec3::zero(), chance);
        proof {
            lemma_fallback_in_ball();
            let unit = v3_normalize(crate::vector_utils::fallback_sample());
            assert(valid_draw(unit, chance@));
            assert(scatter_view(r) == material_scatter(
                self.model(),
                ray@,
                record@,
                unit,
                chance@,
            ));
        }
        r
    }

    fn scatter_with(&self, ray: Ray, record: &HitRecord, unit: Vec3, chance: Scalar) -> (r: Option<
        (Vec3, Ray),
    >) {
        let one = Scalar::one();
        let attenuation = Vec3::new(one, one, one);
        let refraction_ratio = if ray.direction.dot(record.normal).lt(Scalar::zero()) {
            one.div(self.refractive_index)
        } else {
            self.refractive_index
        };
        let unit_direction = ray.direction.normalize();
        let cos_theta = record.normal.dot(unit_direction.neg()).min(one);
        let sin_theta = one.sub(cos_theta.mul(cos_theta)).sqrt();
        let no_refraction = refraction_ratio.mul(sin_theta).gt(one);
        let direction = if no_refraction || reflectance(cos_theta, refraction_ratio).gt(chance) {
            reflect(unit_direction, record.normal)
        } else {
            refract(unit_direction, record.normal, refraction_ratio)
        };
        let scattered = Ray::new(record.hit, direction);
        Some((attenuation, scattered))
    }
}

/// Any of the materials.
#[derive(Clone, Copy, Debug)]
pub enum MaterialKind {
    Lambertian(Lambertian),
    Metal(Metal),
    Dielectric(Dielectric),
}

impl View for MaterialKind {
    type V = MaterialModel;

    open spec fn view(&self) -> MaterialModel {
        match self {
            MaterialKind::Lambertian(m) => m@,
            MaterialKind::Metal(m) => m@,
            MaterialKind::Dielectric(m) => m@,
        }
    }
}

impl Material for MaterialKind {
    open spec fn model(&self) -> MaterialModel {
        self@
    }

    fn scatter(&self, ray: Ray, record: &HitRecord) -> (r: Option<(Vec3, Ray)>) {
        match self {
            MaterialKind::Lambertian(m) => m.scatter(ray, record),
            MaterialKind::Metal(m) => m.scatter(ray, record),
            MaterialKind::Dielectric(m) => m.scatter(ray, record),
        }
    }

    fn scatter_with(&self, ray: Ray, record: &HitRecord, unit: Vec3, chance: Scalar) -> (r: Option<
        (Vec3, Ray),
    >) {
        match self {
            MaterialKind::Lambertian(m) => m.scatter_with(ray, record, unit, chance),
            MaterialKind::Metal(m) => m.scatter_with(ray, record, unit, chance),
            MaterialKind::Dielectric(m) => m.scatter_with(ray, record, unit, chance),
        }
    }
}

} // verus!
