use pathtracer::hits::HitRecord;
use pathtracer::material::{reflectance, refract, Dielectric, Lambertian, Material, MaterialKind, Metal};
use pathtracer::ray::Ray;
use pathtracer::scalar::{Scalar, ONE_RAW};
use pathtracer::vec3::Vec3;
use pathtracer::vector_utils::reflect;

fn s(raw: i64) -> Scalar {
    Scalar::from_raw(raw)
}

fn v(x: i64, y: i64, z: i64) -> Vec3 {
    Vec3::from_raw(x, y, z)
}

fn whole(x: i64, y: i64, z: i64) -> Vec3 {
    Vec3::from_raw(x * ONE_RAW, y * ONE_RAW, z * ONE_RAW)
}

fn raw3(a: Vec3) -> (i64, i64, i64) {
    (a.x.raw(), a.y.raw(), a.z.raw())
}

fn grey() -> Lambertian {
    Lambertian { albedo: v(500_000_000, 500_000_000, 500_000_000) }
}

fn gold(fuzz: i64) -> Metal {
    Metal::new(v(800_000_000, 600_000_000, 200_000_000), s(fuzz))
}

fn glass() -> Dielectric {
    Dielectric::new(s(1_500_000_000))
}

fn record() -> HitRecord {
    HitRecord {
        hit: v(0, 0, -500_000_000),
        distance: s(500_000_000),
        normal: whole(0, 0, 1),
        material: MaterialKind::Lambertian(grey()),
    }
}

fn summary(r: Option<(Vec3, Ray)>) -> Option<((i64, i64, i64), (i64, i64, i64), (i64, i64, i64))> {
    r.map(|(a, ray)| (raw3(a), raw3(ray.origin), raw3(ray.direction)))
}

#[test]
fn reflection_mirrors_at_the_normal() {
    assert_eq!(raw3(reflect(whole(1, -1, 0), whole(0, 1, 0))), (ONE_RAW, ONE_RAW, 0));
    assert_eq!(
        raw3(reflect(whole(1, -1, 0).normalize(), whole(0, 1, 0))),
        (707_106_781, 707_106_781, 0)
    );
    assert_eq!(raw3(reflect(whole(1, 0, 0), whole(0, 1, 0))), (ONE_RAW, 0, 0));
}

#[test]
fn reflectance_by_the_approximation() {
    let ratio = s(ONE_RAW).div(s(1_500_000_000));
    assert_eq!(ratio.raw(), 666_666_666);
    // r0 is the square of (1 - n) / (1 + n): 0.04 for glass, from either side
    assert_eq!(reflectance(s(ONE_RAW), s(1_500_000_000)).raw(), 40_000_000);
    assert_eq!(reflectance(s(ONE_RAW), ratio).raw(), 40_000_000);
    // 0.04 + 0.96 / 32
    assert_eq!(reflectance(s(500_000_000), ratio).raw(), 70_000_000);
    assert_eq!(reflectance(s(500_000_000), s(1_500_000_000)).raw(), 70_000_000);
    assert_eq!(reflectance(s(0), s(1_500_000_000)).raw(), ONE_RAW);
    assert_eq!(reflectance(s(707_106_781), ratio).raw(), 42_069_272);
}

#[test]
fn refraction_bends_toward_the_normal_on_entry() {
    let ratio = s(ONE_RAW).div(s(1_500_000_000));
    assert_eq!(
        raw3(refract(whole(1, -1, 0).normalize(), whole(0, 1, 0), ratio)),
        (471_404_520, -881_917_104, 0)
    );
    assert_eq!(raw3(refract(whole(0, -1, 0), whole(0, 1, 0), s(1_500_000_000))), (0, -ONE_RAW, 0));
}

#[test]
fn lambertian_scatters_along_normal_plus_draw() {
    let out = grey().scatter_with(Ray::new(whole(0, 0, 0), whole(0, 0, -1)), &record(), whole(0, 1, 0), s(0));
    assert_eq!(
        summary(out),
        Some(((500_000_000, 500_000_000, 500_000_000), (0, 0, -500_000_000), (0, ONE_RAW, ONE_RAW)))
    );
}

#[test]
fn lambertian_never_absorbs() {
    let ray = Ray::new(whole(0, 0, 0), whole(0, 0, -1));
    let opposite = grey().scatter_with(ray, &record(), whole(0, 0, -1), s(0));
    assert_eq!(
        summary(opposite),
        Some(((500_000_000, 500_000_000, 500_000_000), (0, 0, -500_000_000), (0, 0, 0)))
    );
    for _ in 0..50 {
        let (attenuation, scattered) = grey().scatter(ray, &record()).unwrap();
        assert_eq!(raw3(attenuation), (500_000_000, 500_000_000, 500_000_000));
        assert_eq!(raw3(scattered.origin), (0, 0, -500_000_000));
    }
}

#[test]
fn metal_without_fuzz_is_a_mirror() {
    let out = gold(0).scatter_with(Ray::new(whole(0, 0, 0), whole(1, 0, -1)), &record(), whole(0, 1, 0), s(0));
    assert_eq!(
        summary(out),
        Some(((800_000_000, 600_000_000, 200_000_000), (0, 0, -500_000_000), (707_106_781, 0, 707_106_781)))
    );
}

#[test]
fn metal_with_fuzz_adds_a_share_of_the_draw() {
    let out = gold(500_000_000).scatter_with(
        Ray::new(whole(0, 0, 0), whole(1, 0, -1)),
        &record(),
        whole(0, 1, 0),
        s(0),
    );
    assert_eq!(
        summary(out),
        Some((
            (800_000_000, 600_000_000, 200_000_000),
            (0, 0, -500_000_000),
            (707_106_781, 500_000_000, 707_106_781)
        ))
    );
}

#[test]
fn metal_absorbs_what_does_not_leave_the_surface() {
    let ray = Ray::new(whole(0, 0, 0), whole(1, 0, -1));
    assert!(gold(2 * ONE_RAW).scatter_with(ray, &record(), whole(0, 0, -1), s(0)).is_none());
    let grazing = Ray::new(whole(0, 0, 0), whole(1, 0, 0));
    assert!(gold(0).scatter_with(grazing, &record(), whole(0, 1, 0), s(0)).is_none());
}

#[test]
fn metal_with_random_draws_keeps_its_albedo() {
    let ray = Ray::new(whole(0, 0, 0), whole(1, 0, -1));
    for _ in 0..50 {
        match gold(300_000_000).scatter(ray, &record()) {
            Some((attenuation, scattered)) => {
                assert_eq!(raw3(attenuation), (800_000_000, 600_000_000, 200_000_000));
                assert_eq!(raw3(scattered.origin), (0, 0, -500_000_000));
                assert!(scattered.direction.dot(record().normal).raw() > 0);
            }
            None => {}
        }
    }
}

#[test]
fn metal_takes_negative_fuzz_for_none() {
    assert_eq!(gold(-5).fuzz.raw(), 0);
    assert_eq!(gold(0).fuzz.raw(), 0);
    assert_eq!(gold(250_000_000).fuzz.raw(), 250_000_000);
    assert_eq!(raw3(gold(7).albedo), (800_000_000, 600_000_000, 200_000_000));
}

#[test]
fn dielectric_refracts_a_ray_that_meets_it_straight() {
    let out = glass().scatter_with(
        Ray::new(whole(0, 0, 0), whole(0, 0, -1)),
        &record(),
        whole(0, 1, 0),
        s(500_000_000),
    );
    assert_eq!(summary(out), Some(((ONE_RAW, ONE_RAW, ONE_RAW), (0, 0, -500_000_000), (0, 0, -ONE_RAW))));
}

#[test]
fn dielectric_reflects_where_the_chance_is_below_the_reflectance() {
    let ray = Ray::new(whole(0, 0, 0), whole(0, 0, -1));
    let reflected = Some(((ONE_RAW, ONE_RAW, ONE_RAW), (0, 0, -500_000_000), (0, 0, ONE_RAW)));
    let refracted = Some(((ONE_RAW, ONE_RAW, ONE_RAW), (0, 0, -500_000_000), (0, 0, -ONE_RAW)));
    // met straight on, glass reflects four parts in a hundred
    assert_eq!(summary(glass().scatter_with(ray, &record(), whole(0, 1, 0), s(0))), reflected);
    assert_eq!(summary(glass().scatter_with(ray, &record(), whole(0, 1, 0), s(30_000_000))), reflected);
    assert_eq!(summary(glass().scatter_with(ray, &record(), whole(0, 1, 0), s(39_999_999))), reflected);
    assert_eq!(summary(glass().scatter_with(ray, &record(), whole(0, 1, 0), s(40_000_000))), refracted);
    assert_eq!(summary(glass().scatter_with(ray, &record(), whole(0, 1, 0), s(80_000_000))), refracted);
}

#[test]
fn dielectric_bends_an_oblique_ray() {
    let out = glass().scatter_with(
        Ray::new(whole(0, 0, 0), whole(1, 0, -1)),
        &record(),
        whole(0, 1, 0),
        s(500_000_000),
    );
    assert_eq!(
        summary(out),
        Some(((ONE_RAW, ONE_RAW, ONE_RAW), (0, 0, -500_000_000), (471_404_520, 0, -881_917_104)))
    );
}

#[test]
fn dielectric_reflects_all_light_beyond_the_critical_angle() {
    let leaving = Ray::new(whole(0, 0, 0), v(ONE_RAW, 0, 200_000_000));
    let out = glass().scatter_with(leaving, &record(), whole(0, 1, 0), s(999_999_999));
    assert_eq!(
        summary(out),
        Some(((ONE_RAW, ONE_RAW, ONE_RAW), (0, 0, -500_000_000), (980_580_675, 0, -196_116_135)))
    );
}

#[test]
fn dielectric_with_random_draws_never_absorbs_or_tints() {
    let ray = Ray::new(whole(0, 0, 0), whole(1, 0, -1));
    for _ in 0..50 {
        let (attenuation, scattered) = glass().scatter(ray, &record()).unwrap();
        assert_eq!(raw3(attenuation), (ONE_RAW, ONE_RAW, ONE_RAW));
        assert_eq!(raw3(scattered.origin), (0, 0, -500_000_000));
        let d = raw3(scattered.direction);
        assert!(d == (471_404_520, 0, -881_917_104) || d == (707_106_781, 0, 707_106_781));
    }
}

#[test]
fn material_kind_scatters_as_its_variant() {
    let ray = Ray::new(whole(0, 0, 0), whole(1, 0, -1));
    let unit = whole(0, 1, 0);
    let chance = s(500_000_000);
    assert_eq!(
        summary(MaterialKind::Lambertian(grey()).scatter_with(ray, &record(), unit, chance)),
        summary(grey().scatter_with(ray, &record(), unit, chance))
    );
    assert_eq!(
        summary(MaterialKind::Metal(gold(0)).scatter_with(ray, &record(), unit, chance)),
        summary(gold(0).scatter_with(ray, &record(), unit, chance))
    );
    assert_eq!(
        summary(MaterialKind::Dielectric(glass()).scatter_with(ray, &record(), unit, chance)),
        summary(glass().scatter_with(ray, &record(), unit, chance))
    );
    let drawn = MaterialKind::Lambertian(grey()).scatter(ray, &record()).unwrap();
    assert_eq!(raw3(drawn.0), (500_000_000, 500_000_000, 500_000_000));
}
