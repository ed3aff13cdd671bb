use pathtracer::camera::{finish_pixel, linear_to_gamma, Camera};
use pathtracer::color::Color;
use pathtracer::integrator::sky_color;
use pathtracer::material::{Lambertian, MaterialKind};
use pathtracer::scalar::{Scalar, LIMIT_RAW, ONE_RAW};
use pathtracer::shapes::{Primitive, Sphere};
use pathtracer::vec3::Vec3;

fn s(raw: i64) -> Scalar {
    Scalar::from_raw(raw)
}

fn v(x: i64, y: i64, z: i64) -> Vec3 {
    Vec3::from_raw(x, y, z)
}

fn raw3(a: Vec3) -> (i64, i64, i64) {
    (a.x.raw(), a.y.raw(), a.z.raw())
}

fn wide_screen() -> Scalar {
    s(16 * ONE_RAW).div(s(9 * ONE_RAW))
}

fn bytes(c: Color) -> (i32, i32, i32) {
    (c.red as i32, c.green as i32, c.blue as i32)
}

#[test]
fn camera_derives_its_grid() {
    let camera = Camera::new(wide_screen(), 800, Vec3::zero(), s(ONE_RAW), 80, 50);
    assert_eq!(camera.width, 800);
    assert_eq!(camera.height, 450);
    assert_eq!(camera.pixel_samples, 80);
    assert_eq!(camera.max_bounces, 50);
    assert_eq!(raw3(camera.position), (0, 0, 0));
    assert_eq!(raw3(camera.pixel_delta_u), (4_444_444, 0, 0));
    assert_eq!(raw3(camera.pixel_delta_v), (0, -4_444_444, 0));
    assert_eq!(raw3(camera.pixel_upper_left), (-1_775_555_555, 997_777_778, -ONE_RAW));
}

#[test]
fn camera_away_from_the_origin() {
    let camera = Camera::new(s(1_500_000_000), 6, v(ONE_RAW, 2 * ONE_RAW, 3 * ONE_RAW), s(2 * ONE_RAW), 1, 1);
    assert_eq!(camera.height, 4);
    assert_eq!(raw3(camera.pixel_delta_u), (500_000_000, 0, 0));
    assert_eq!(raw3(camera.pixel_delta_v), (0, -500_000_000, 0));
    assert_eq!(raw3(camera.pixel_upper_left), (-250_000_000, 2_750_000_000, ONE_RAW));
}

#[test]
fn camera_height_is_the_whole_part_of_the_quotient() {
    assert_eq!(Camera::new(s(2 * ONE_RAW), 4, Vec3::zero(), s(ONE_RAW), 1, 1).height, 2);
    assert_eq!(Camera::new(s(2 * ONE_RAW), 5, Vec3::zero(), s(ONE_RAW), 1, 1).height, 2);
    assert_eq!(Camera::new(s(3 * ONE_RAW), 2, Vec3::zero(), s(ONE_RAW), 1, 1).height, 0);
    assert_eq!(Camera::new(wide_screen(), 32, Vec3::zero(), s(ONE_RAW), 1, 1).height, 18);
}

#[test]
fn camera_of_no_width_or_ratio_is_still_made() {
    let flat = Camera::new(s(0), 4, Vec3::zero(), s(ONE_RAW), 1, 1);
    assert_eq!(flat.height, u32::MAX);
    assert_eq!(raw3(flat.pixel_delta_u), (0, 0, 0));
    let narrow = Camera::new(s(ONE_RAW), 0, v(ONE_RAW, 2 * ONE_RAW, 3 * ONE_RAW), s(ONE_RAW), 1, 1);
    assert_eq!(narrow.width, 0);
    assert_eq!(narrow.height, 0);
    assert_eq!(raw3(narrow.pixel_delta_v), (0, -LIMIT_RAW, 0));
}

#[test]
fn rays_pass_through_the_centres_of_their_pixels() {
    let camera = Camera::new(s(2 * ONE_RAW), 4, Vec3::zero(), s(ONE_RAW), 1, 1);
    let half = s(500_000_000);
    let first = camera.get_ray_with(0, 0, half, half);
    assert_eq!(raw3(first.origin), (0, 0, 0));
    assert_eq!(raw3(first.direction), (-1_500_000_000, 500_000_000, -ONE_RAW));
    let last = camera.get_ray_with(3, 1, half, half);
    assert_eq!(raw3(last.direction), (1_500_000_000, -500_000_000, -ONE_RAW));
}

#[test]
fn rays_are_moved_within_their_pixels() {
    let camera = Camera::new(s(2 * ONE_RAW), 4, Vec3::zero(), s(ONE_RAW), 1, 1);
    assert_eq!(raw3(camera.get_ray_with(2, 1, s(0), s(0)).direction), (0, 0, -ONE_RAW));
    assert_eq!(
        raw3(camera.get_ray_with(1, 0, s(250_000_000), s(750_000_000)).direction),
        (-750_000_000, 250_000_000, -ONE_RAW)
    );
    let other = Camera::new(s(1_500_000_000), 6, v(ONE_RAW, 2 * ONE_RAW, 3 * ONE_RAW), s(2 * ONE_RAW), 1, 1);
    assert_eq!(raw3(other.pixel_sample_square_with(s(100_000_000), s(900_000_000))), (-200_000_000, -200_000_000, 0));
    let ray = other.get_ray_with(5, 3, s(100_000_000), s(900_000_000));
    assert_eq!(raw3(ray.origin), (ONE_RAW, 2 * ONE_RAW, 3 * ONE_RAW));
    assert_eq!(raw3(ray.direction), (1_050_000_000, -950_000_000, -2 * ONE_RAW));
}

#[test]
fn random_rays_stay_within_their_pixels() {
    let camera = Camera::new(s(2 * ONE_RAW), 4, Vec3::zero(), s(ONE_RAW), 1, 1);
    let mut differs = false;
    let first = raw3(camera.get_ray(1, 0).direction);
    for _ in 0..200 {
        let ray = camera.get_ray(1, 0);
        let (x, y, z) = raw3(ray.direction);
        assert_eq!(raw3(ray.origin), (0, 0, 0));
        assert!(-ONE_RAW <= x && x < 0);
        assert!(0 < y && y <= ONE_RAW);
        assert_eq!(z, -ONE_RAW);
        differs = differs || (x, y, z) != first;
    }
    assert!(differs);
}

#[test]
fn gamma_is_the_square_root() {
    assert_eq!(linear_to_gamma(s(250_000_000)).raw(), 500_000_000);
    assert_eq!(linear_to_gamma(s(999_000_000)).raw(), 999_499_874);
    assert_eq!(linear_to_gamma(s(0)).raw(), 0);
}

#[test]
fn black_stays_black_and_white_stays_below_256() {
    assert_eq!(finish_pixel(v(0, 0, 0), 1), Color { red: 0, green: 0, blue: 0 });
    assert_eq!(finish_pixel(v(ONE_RAW, ONE_RAW, ONE_RAW), 1), Color { red: 255, green: 255, blue: 255 });
    assert_eq!(finish_pixel(v(999_000_000, 5 * ONE_RAW, -ONE_RAW), 1), Color { red: 255, green: 255, blue: 0 });
}

#[test]
fn pixel_is_finished_from_the_mean_of_its_samples() {
    assert_eq!(finish_pixel(v(3 * ONE_RAW, 1_500_000_000, 0), 3), Color { red: 255, green: 181, blue: 0 });
    assert_eq!(
        finish_pixel(v(10 * ONE_RAW, 20 * ONE_RAW, 30 * ONE_RAW), 100),
        Color { red: 80, green: 114, blue: 140 }
    );
    assert_eq!(finish_pixel(v(250_000_000, 500_000_000, ONE_RAW), 1), Color { red: 127, green: 181, blue: 255 });
}

#[test]
fn pixel_without_samples() {
    assert_eq!(finish_pixel(v(0, 0, 0), 0), Color { red: 0, green: 0, blue: 0 });
    assert_eq!(finish_pixel(v(ONE_RAW, ONE_RAW, ONE_RAW), 0), Color { red: 255, green: 255, blue: 255 });
}

#[test]
fn picture_has_the_size_of_the_camera() {
    let camera = Camera::new(s(2 * ONE_RAW), 4, Vec3::zero(), s(ONE_RAW), 1, 1);
    let scene: Vec<Primitive> = Vec::new();
    let picture = camera.render(&scene);
    assert_eq!(picture.size(), (4, 2));
    assert!(picture.pixel(3, 1).is_some());
    assert!(picture.pixel(0, 0).is_some());
    assert!(picture.pixel(4, 0).is_none());
    assert!(picture.pixel(0, 2).is_none());
    assert!(picture.pixel(u32::MAX, u32::MAX).is_none());
}

#[test]
fn picture_of_no_height_is_empty() {
    let camera = Camera::new(s(3 * ONE_RAW), 2, Vec3::zero(), s(ONE_RAW), 1, 1);
    let scene: Vec<Primitive> = Vec::new();
    let picture = camera.render(&scene);
    assert_eq!(picture.size(), (2, 0));
    assert!(picture.pixel(0, 0).is_none());
}

#[test]
fn sphere_in_the_middle_is_darker_than_the_sky_in_the_corners() {
    let grey = MaterialKind::Lambertian(Lambertian { albedo: v(500_000_000, 500_000_000, 500_000_000) });
    let scene = vec![Primitive::Sphere(Sphere { origin: v(0, 0, -ONE_RAW), radius: s(500_000_000), material: grey })];
    let camera = Camera::new(wide_screen(), 32, Vec3::zero(), s(ONE_RAW), 1, 1);
    let picture = camera.render(&scene);
    assert_eq!(picture.size(), (32, 18));
    let centre = picture.pixel(16, 9).unwrap();
    assert_eq!(centre, Color { red: 0, green: 0, blue: 0 });
    for (x, y) in [(0, 0), (31, 0), (0, 17), (31, 17)] {
        let corner = picture.pixel(x, y).unwrap();
        assert!(corner.red > centre.red);
        assert!(corner.green > centre.green);
        assert!(corner.blue > centre.blue);
        let middle = camera.get_ray_with(x, y, s(500_000_000), s(500_000_000));
        let expected = bytes(finish_pixel(sky_color(middle), 1));
        let found = bytes(corner);
        assert!((found.0 - expected.0).abs() <= 2);
        assert!((found.1 - expected.1).abs() <= 2);
        assert!((found.2 - expected.2).abs() <= 2);
    }
    let top_left = bytes(picture.pixel(0, 0).unwrap());
    assert!(179 <= top_left.0 && top_left.0 <= 180);
    assert!(203 <= top_left.1 && top_left.1 <= 205);
    assert_eq!(top_left.2, 255);
}

#[test]
fn empty_scene_renders_the_sky() {
    let scene: Vec<Primitive> = Vec::new();
    for samples in [1, 4] {
        let camera = Camera::new(wide_screen(), 64, Vec3::zero(), s(ONE_RAW), samples, 3);
        let picture = camera.render(&scene);
        assert_eq!(picture.size(), (64, 36));
        for y in 0..36 {
            for x in 0..64 {
                let middle = camera.get_ray_with(x, y, s(500_000_000), s(500_000_000));
                let expected = bytes(finish_pixel(sky_color(middle), 1));
                let found = bytes(picture.pixel(x, y).unwrap());
                assert!((found.0 - expected.0).abs() <= 2);
                assert!((found.1 - expected.1).abs() <= 2);
                assert!((found.2 - expected.2).abs() <= 2);
            }
        }
    }
}

#[test]
fn camera_without_bounces_renders_black() {
    let scene: Vec<Primitive> = Vec::new();
    let camera = Camera::new(s(2 * ONE_RAW), 8, Vec3::zero(), s(ONE_RAW), 3, 0);
    let picture = camera.render(&scene);
    for y in 0..4 {
        for x in 0..8 {
            assert_eq!(picture.pixel(x, y), Some(Color { red: 0, green: 0, blue: 0 }));
        }
    }
}

#[test]
fn single_pixels_are_rendered_like_the_picture() {
    let scene: Vec<Primitive> = Vec::new();
    let camera = Camera::new(s(2 * ONE_RAW), 4, Vec3::zero(), s(ONE_RAW), 2, 0);
    assert_eq!(camera.render_pixel(&scene, 1, 1), Color { red: 0, green: 0, blue: 0 });
    let lit = Camera::new(wide_screen(), 64, Vec3::zero(), s(ONE_RAW), 2, 1);
    let found = bytes(lit.render_pixel(&scene, 10, 20));
    let expected = bytes(finish_pixel(sky_color(lit.get_ray_with(10, 20, s(500_000_000), s(500_000_000))), 1));
    assert!((found.0 - expected.0).abs() <= 2);
    assert!((found.1 - expected.1).abs() <= 2);
    assert!((found.2 - expected.2).abs() <= 2);
}

#[test]
fn picture_lists_its_bytes_row_by_row() {
    let scene: Vec<Primitive> = Vec::new();
    let camera = Camera::new(wide_screen(), 16, Vec3::zero(), s(ONE_RAW), 1, 2);
    let picture = camera.render(&scene);
    let (width, height) = picture.size();
    assert_eq!((width, height), (16, 9));
    let listed = picture.to_bytes();
    assert_eq!(listed.len(), 3 * 16 * 9);
    for y in 0..height {
        for x in 0..width {
            let first = 3 * (y * width + x) as usize;
            let pixel = picture.pixel(x, y).unwrap();
            assert_eq!(listed[first], pixel.red);
            assert_eq!(listed[first + 1], pixel.green);
            assert_eq!(listed[first + 2], pixel.blue);
        }
    }
    // the sky is bluer than it is red, and brighter toward the horizon
    assert!(listed[2] > listed[0]);
    assert!(listed[3 * 16 * 8] > listed[0]);
}

#[test]
fn picture_without_pixels_lists_no_bytes() {
    let scene: Vec<Primitive> = Vec::new();
    let camera = Camera::new(s(3 * ONE_RAW), 2, Vec3::zero(), s(ONE_RAW), 1, 1);
    assert!(camera.render(&scene).to_bytes().is_empty());
}

#[test]
fn picture_must_fit_a_buffer() {
    assert!(Camera::new(wide_screen(), 800, Vec3::zero(), s(ONE_RAW), 1, 1).picture_fits());
    assert!(Camera::new(s(3 * ONE_RAW), 2, Vec3::zero(), s(ONE_RAW), 1, 1).picture_fits());
    let huge = Camera::new(s(ONE_RAW), u32::MAX, Vec3::zero(), s(ONE_RAW), 1, 1);
    assert_eq!(huge.height, u32::MAX);
    assert!(!huge.picture_fits());
}
