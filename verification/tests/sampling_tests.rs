use pathtracer::color::Color;
use pathtracer::scalar::{Scalar, ONE_RAW};
use pathtracer::vec3::Vec3;
use pathtracer::vector_utils::{
    channel_multiply, color_from_vector, rand_normal, rand_on_hemisphere, random_fraction,
    random_signed_fraction, toward_hemisphere, unit_from_sample, unit_from_samples,
};

fn v(x: i64, y: i64, z: i64) -> Vec3 {
    Vec3::from_raw(x, y, z)
}

fn raw3(a: Vec3) -> (i64, i64, i64) {
    (a.x.raw(), a.y.raw(), a.z.raw())
}

fn squared_length(a: Vec3) -> i128 {
    let (x, y, z) = raw3(a);
    (x as i128) * (x as i128) + (y as i128) * (y as i128) + (z as i128) * (z as i128)
}

#[test]
fn random_fractions_lie_in_their_range() {
    for _ in 0..1000 {
        let r = random_fraction().raw();
        assert!(0 <= r && r < ONE_RAW);
        let t = random_signed_fraction().raw();
        assert!(-ONE_RAW <= t && t < ONE_RAW);
    }
}

#[test]
fn random_fractions_vary() {
    let first = random_fraction().raw();
    let mut differs = false;
    let mut negative = false;
    for _ in 0..200 {
        differs = differs || random_fraction().raw() != first;
        negative = negative || random_signed_fraction().raw() < 0;
    }
    assert!(differs);
    assert!(negative);
}

#[test]
fn samples_inside_the_ball_are_accepted() {
    assert_eq!(unit_from_sample(v(500_000_000, 0, 0)).map(raw3), Some((ONE_RAW, 0, 0)));
    assert_eq!(unit_from_sample(v(999_999_999, 0, 0)).map(raw3), Some((ONE_RAW, 0, 0)));
    assert_eq!(
        unit_from_sample(v(500_000_000, 500_000_000, 500_000_000)).map(raw3),
        Some((577_350_269, 577_350_269, 577_350_269))
    );
    assert_eq!(
        unit_from_sample(v(-300_000_000, 400_000_000, -500_000_000)).map(raw3),
        Some((-424_264_068, 565_685_424, -707_106_781))
    );
    assert_eq!(unit_from_sample(v(31_623, 0, 0)).map(raw3), Some((ONE_RAW, 0, 0)));
}

#[test]
fn short_samples_keep_all_their_digits() {
    let short = unit_from_sample(v(31_623, 31_623, 0)).unwrap();
    assert_eq!(raw3(short), (707_106_781, 707_106_781, 0));
    assert_eq!(short.dot(short).raw(), 999_999_999);
    let long = unit_from_sample(v(700_000_000, 700_000_000, 0)).unwrap();
    assert_eq!(raw3(long), raw3(short));
}

#[test]
fn samples_outside_the_ball_are_rejected() {
    assert!(unit_from_sample(v(600_000_000, 600_000_000, 600_000_000)).is_none());
    assert!(unit_from_sample(v(-ONE_RAW, 0, 0)).is_none());
    assert!(unit_from_sample(v(ONE_RAW, ONE_RAW, ONE_RAW)).is_none());
}

#[test]
fn first_accepted_sample_gives_the_direction() {
    let outside = v(600_000_000, 600_000_000, 600_000_000);
    let corner = v(-ONE_RAW, 999_999_999, 0);
    let centre = v(0, 0, 0);
    let first = v(0, -500_000_000, 0);
    let second = v(500_000_000, 0, 0);
    assert_eq!(unit_from_samples(&vec![outside, corner, centre, first, second]).map(raw3), Some((0, -ONE_RAW, 0)));
    assert_eq!(unit_from_samples(&vec![second, first]).map(raw3), Some((ONE_RAW, 0, 0)));
    assert_eq!(unit_from_samples(&vec![first]).map(raw3), Some((0, -ONE_RAW, 0)));
    assert!(unit_from_samples(&vec![outside, corner, centre]).is_none());
    assert!(unit_from_samples(&vec![]).is_none());
}

#[test]
fn samples_at_the_centre_are_rejected() {
    assert!(unit_from_sample(v(0, 0, 0)).is_none());
    assert!(unit_from_sample(v(31_622, 0, 0)).is_none());
}

#[test]
fn random_directions_have_length_one() {
    let unit = (ONE_RAW as i128) * (ONE_RAW as i128);
    for _ in 0..2000 {
        let u = rand_normal();
        let (x, y, z) = raw3(u);
        assert!(x.abs() <= ONE_RAW && y.abs() <= ONE_RAW && z.abs() <= ONE_RAW);
        let squared = squared_length(u);
        assert!(squared <= unit);
        assert!(squared > unit - 4 * ONE_RAW as i128);
        let dot = u.dot(u).raw();
        assert!(ONE_RAW - 4 <= dot && dot <= ONE_RAW);
    }
}

#[test]
fn random_directions_vary() {
    let first = raw3(rand_normal());
    let mut differs = false;
    for _ in 0..100 {
        differs = differs || raw3(rand_normal()) != first;
    }
    assert!(differs);
}

#[test]
fn hemisphere_keeps_or_turns_the_direction() {
    let normal = v(0, -ONE_RAW, 0);
    let toward = v(600_000_000, -800_000_000, 0);
    let away = v(600_000_000, 800_000_000, 0);
    let across = v(ONE_RAW, 0, 0);
    assert_eq!(raw3(toward_hemisphere(toward, normal)), (600_000_000, -800_000_000, 0));
    assert_eq!(raw3(toward_hemisphere(away, normal)), (-600_000_000, -800_000_000, 0));
    assert_eq!(raw3(toward_hemisphere(across, normal)), (-ONE_RAW, 0, 0));
}

#[test]
fn random_directions_on_a_hemisphere_do_not_point_away() {
    let normal = v(577_350_269, 577_350_269, 577_350_269);
    for _ in 0..500 {
        let u = rand_on_hemisphere(normal);
        assert!(u.dot(normal).raw() >= 0);
        let dot = u.dot(u).raw();
        assert!(ONE_RAW - 4 <= dot && dot <= ONE_RAW);
    }
}

#[test]
fn colour_vector_becomes_bytes() {
    assert_eq!(color_from_vector(v(0, 500_000_000, ONE_RAW)), Color { red: 0, green: 127, blue: 255 });
    assert_eq!(color_from_vector(v(-ONE_RAW, 2 * ONE_RAW, 999_000_000)), Color { red: 0, green: 255, blue: 255 });
    assert_eq!(color_from_vector(v(3_906_000, 3_907_000, 7_812_600)), Color { red: 0, green: 1, blue: 2 });
}

#[test]
fn channels_multiply_one_by_one() {
    let a = v(500_000_000, 250_000_000, -2 * ONE_RAW);
    let b = v(500_000_000, 4 * ONE_RAW, 333_333_333);
    assert_eq!(raw3(channel_multiply(a, b)), (250_000_000, ONE_RAW, -666_666_666));
    assert_eq!(raw3(channel_multiply(a, Vec3::zero())), (0, 0, 0));
    let one = Scalar::one();
    assert_eq!(raw3(channel_multiply(a, Vec3::new(one, one, one))), raw3(a));
}
