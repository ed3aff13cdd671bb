//! The camera: where the eye stands, how the picture's pixels lie before
//! it, and the loop that turns a scene into a picture.
use crate::canvas::{canvas_height, canvas_pixels, canvas_width, pixel_places, Canvas};
use crate::color::Color;
use crate::integrator::{
    lemma_radiance_of_empty_scene, may_radiate, radiance, ray_color, sky_spec, valid_draws,
    DrawModel,
};
use crate::interval::{interval_clamp, Interval, IntervalModel};
use crate::ray::{Ray, RayModel};
use crate::scalar::{
    add_spec, div_spec, isqrt, lemma_isqrt_monotone, lemma_isqrt_unique, lemma_quot_monotone,
    mul_spec, sqrt_spec, whole_spec, Scalar, HALF_RAW, ONE_RAW,
};
use crate::shapes::{scene_view, Primitive, PrimitiveModel};
use crate::vec3::{v3, v3_add, v3_div, v3_scale, v3_sub, v3_zero, Vec3, V3};
use crate::vector_utils::{channel_byte, color_from_vector, random_fraction, BYTE_FACTOR_RAW};
use vstd::prelude::*;

verus! {

/// The raw value of 0.999, the brightest that a channel is let to be, so
/// that its byte stays below 256.
pub const BRIGHTEST_RAW: i64 = 999_000_000;

/// The model of a camera.
pub struct CameraModel {
    pub width: int,
    pub height: int,
    pub position: V3,
    pub pixel_samples: int,
    pub max_bounces: int,
    pub pixel_upper_left: V3,
    pub pixel_delta_u: V3,
    pub pixel_delta_v: V3,
}

/// The number of rows of a picture of `width` columns and the given ratio
/// of width to height: the whole part of their quotient.
pub open spec fn image_height_spec(aspect_ratio: int, width: int) -> int {
    whole_spec(div_spec(width * ONE_RAW, aspect_ratio), u32::MAX as int)
}

/// The camera that stands at `position` and looks along the negative third
/// axis at a viewport two units high, `focal_length` away.
pub open spec fn camera_new(
    aspect_ratio: int,
    width: int,
    position: V3,
    focal_length: int,
    pixel_samples: int,
    max_bounces: int,
) -> CameraModel {
    let height = image_height_spec(aspect_ratio, width);
    let viewport_height = 2 * ONE_RAW;
    let viewport_width = mul_spec(viewport_height, div_spec(width * ONE_RAW, height * ONE_RAW));
    let viewport_u = v3(viewport_width, 0, 0);
    let viewport_v = v3(0, -viewport_height, 0);
    let delta_u = v3_div(viewport_u, width * ONE_RAW);
    let delta_v = v3_div(viewport_v, height * ONE_RAW);
    let viewport_upper_left = v3_sub(
        v3_sub(v3_sub(position, v3(0, 0, focal_length)), v3_div(viewport_u, 2 * ONE_RAW)),
        v3_div(viewport_v, 2 * ONE_RAW),
    );
    CameraModel {
        width,
        height,
        position,
        pixel_samples,
        max_bounces,
        pixel_upper_left: v3_add(
            viewport_upper_left,
            v3_scale(v3_add(delta_u, delta_v), HALF_RAW as int),
        ),
        pixel_delta_u: delta_u,
        pixel_delta_v: delta_v,
    }
}

/// The offset within a pixel for the two fractions `jx` and `jy`: from half
/// a pixel before its centre to half a pixel after it, along both axes.
pub open spec fn sample_offset(cam: CameraModel, jx: int, jy: int) -> V3 {
    v3_add(
        v3_scale(cam.pixel_delta_u, add_spec(-HALF_RAW, jx)),
        v3_scale(cam.pixel_delta_v, add_spec(-HALF_RAW, jy)),
    )
}

/// The ray from the eye through the pixel in column `i` of row `j`, moved
/// from the pixel's centre by `offset`.
pub open spec fn camera_ray_through(cam: CameraModel, i: int, j: int, offset: V3) -> RayModel {
    let pixel = v3_add(
        v3_add(
            v3_add(cam.pixel_upper_left, v3_scale(cam.pixel_delta_u, i * ONE_RAW)),
            v3_scale(cam.pixel_delta_v, j * ONE_RAW),
        ),
        offset,
    );
    RayModel { origin: cam.position, direction: v3_sub(pixel, cam.position) }
}

/// The ray from the eye through the pixel in column `i` of row `j`, moved
/// within the pixel by the fractions `jx` and `jy`.
pub open spec fn camera_ray(cam: CameraModel, i: int, j: int, jx: int, jy: int) -> RayModel {
    camera_ray_through(cam, i, j, sample_offset(cam, jx, jy))
}

/// Whether the two fractions are ones that the generator can give.
pub open spec fn valid_jitter(jx: int, jy: int) -> bool {
    0 <= jx < ONE_RAW && 0 <= jy < ONE_RAW
}

/// Whether `ray` is a ray that the camera may send through a pixel.
pub open spec fn may_aim(cam: CameraModel, i: int, j: int, ray: RayModel) -> bool {
    exists|jx: int, jy: int| #[trigger] valid_jitter(jx, jy) && ray == camera_ray(cam, i, j, jx, jy)
}

/// Whether `color` is the radiance of one sample of a pixel.
pub open spec fn may_sample(
    cam: CameraModel,
    scene: Seq<PrimitiveModel>,
    i: int,
    j: int,
    color: V3,
) -> bool {
    exists|ray: RayModel| #[trigger]
        may_aim(cam, i, j, ray) && may_radiate(scene, ray, cam.max_bounces as nat, color)
}

/// The sum of the first `n` of the colours, added in their order.
pub open spec fn sum_prefix(colors: Seq<V3>, n: int) -> V3
    decreases n,
{
    if n <= 0 {
        v3_zero()
    } else {
        v3_add(sum_prefix(colors, n - 1), colors[n - 1])
    }
}

/// The range of a channel that is shown: from black to just below white.
pub open spec fn intensity() -> IntervalModel {
    IntervalModel { min: 0, max: BRIGHTEST_RAW as int }
}

/// The square root of a channel, which corrects it for a display of gamma
/// two.
pub open spec fn gamma_spec(channel: int) -> int {
    sqrt_spec(channel)
}

/// The byte that shows a channel: the channel is kept within the shown
/// range, corrected for gamma and scaled to a byte.
pub open spec fn shown_byte(channel: int) -> int {
    channel_byte(gamma_spec(interval_clamp(intensity(), channel)))
}

/// The byte of a channel whose samples add up to `sum`: the byte that shows
/// their mean.
pub open spec fn finish_channel(sum: int, samples: int) -> int {
    shown_byte(div_spec(sum, samples * ONE_RAW))
}

/// The finished pixel whose samples add up to `sum`.
pub open spec fn finish_spec(sum: V3, samples: int) -> (u8, u8, u8) {
    (
        finish_channel(sum.x, samples) as u8,
        finish_channel(sum.y, samples) as u8,
        finish_channel(sum.z, samples) as u8,
    )
}

/// Whether `pixel` is what the camera may give the pixel in column `i` of
/// row `j`: the finished sum of as many samples as the camera takes.
pub open spec fn may_render_pixel(
    cam: CameraModel,
    scene: Seq<PrimitiveModel>,
    i: int,
    j: int,
    pixel: (u8, u8, u8),
) -> bool {
    exists|samples: Seq<V3>| #[trigger]
        all_samples(cam, scene, i, j, samples) && samples.len() == cam.pixel_samples && pixel
            == finish_spec(sum_prefix(samples, cam.pixel_samples), cam.pixel_samples)
}

/// Whether each of `samples` is the radiance of one sample of the pixel.
pub open spec fn all_samples(
    cam: CameraModel,
    scene: Seq<PrimitiveModel>,
    i: int,
    j: int,
    samples: Seq<V3>,
) -> bool {
    forall|k: int| 0 <= k < samples.len() ==> may_sample(cam, scene, i, j, #[trigger] samples[k])
}

/// A channel corrected for a display of gamma two.
pub fn linear_to_gamma(channel: Scalar) -> (r: Scalar)
    ensures
        r@ == gamma_spec(channel@),
{
    channel.sqrt()
}

/// The finished pixel of a sum of `samples` radiances.
pub fn finish_pixel(sum: Vec3, samples: u32) -> (c: Color)
    ensures
        (c.red, c.green, c.blue) == finish_spec(sum@, samples as int),
{
    let mean = sum.div(Scalar::from_u32(samples));
    let intensity = Interval::new(Scalar::zero(), Scalar::from_raw(BRIGHTEST_RAW));
    let shown = Vec3::new(
        linear_to_gamma(intensity.clamp(mean.x)),
        linear_to_gamma(intensity.clamp(mean.y)),
        linear_to_gamma(intensity.clamp(mean.z)),
    );
    color_from_vector(shown)
}

/// A pinhole camera and the settings of its renders.
#[derive(Clone, Copy, Debug)]
pub struct Camera {
    pub width: u32,
    pub height: u32,
    pub position: Vec3,
    pub pixel_samples: u32,
    pub max_bounces: u32,
    pub pixel_upper_left: Vec3,
    pub pixel_delta_u: Vec3,
    pub pixel_delta_v: Vec3,
}

impl View for Camera {
    type V = CameraModel;

    open spec fn view(&self) -> CameraModel {
        CameraModel {
            width: self.width as int,
            height: self.height as int,
            position: self.position@,
            pixel_samples: self.pixel_samples as int,
            max_bounces: self.max_bounces as int,
            pixel_upper_left: self.pixel_upper_left@,
            pixel_delta_u: self.pixel_delta_u@,
            pixel_delta_v: self.pixel_delta_v@,
        }
    }
}

impl Camera {
    /// The camera at `position` for a picture `image_width` pixels wide,
    /// whose width is `aspect_ratio` times its height. It looks along the
    /// negative third axis at a viewport `focal_length` away, takes
    /// `pixel_samples` samples of each pixel and follows each ray over at
    /// most `max_bounces` bounces.
    pub fn new(
        aspect_ratio: Scalar,
        image_width: u32,
        position: Vec3,
        focal_length: Scalar,
        pixel_samples: u32,
        max_bounces: u32,
    ) -> (camera: Camera)
        ensures
            camera@ == camera_new(
                aspect_ratio@,
                image_width as int,
                position@,
                focal_length@,
                pixel_samples as int,
                max_bounces as int,
            ),
    {
        let width = Scalar::from_u32(image_width);
        let image_height: u32 = width.div(aspect_ratio).to_u32();
        let height = Scalar::from_u32(image_height);
        let two = Scalar::from_u32(2);
        let viewport_height = two;
        let viewport_width = viewport_height.mul(width.div(height));
        let viewport_u = Vec3::new(viewport_width, Scalar::zero(), Scalar::zero());
        let viewport_v = Vec3::new(Scalar::zero(), viewport_height.neg(), Scalar::zero());
        let delta_u = viewport_u.div(width);
        let delta_v = viewport_v.div(height);
        let viewport_upper_left = position.sub(
            Vec3::new(Scalar::zero(), Scalar::zero(), focal_length),
        ).sub(viewport_u.div(two)).sub(viewport_v.div(two));
        let pixel_upper_left = viewport_upper_left.add(
            delta_u.add(delta_v).scale(Scalar::from_raw(HALF_RAW)),
        );
        Camera {
            width: image_width,
            height: image_height,
            position,
            pixel_samples,
            max_bounces,
            pixel_upper_left,
            pixel_delta_u: delta_u,
            pixel_delta_v: delta_v,
        }
    }

    /// The offset within a pixel for the fractions `jx` and `jy`.
    pub fn pixel_sample_square_with(&self, jx: Scalar, jy: Scalar) -> (r: Vec3)
        ensures
            r@ == sample_offset(self@, jx@, jy@),
    {
        let half = Scalar::from_raw(HALF_RAW);
        let px = half.neg().add(jx);
        let py = half.neg().add(jy);
        self.pixel_delta_u.scale(px).add(self.pixel_delta_v.scale(py))
    }

    /// A random offset within a pixel.
    pub fn pixel_sample_square(&self) -> (r: Vec3)
        ensures
            exists|jx: int, jy: int| #[trigger]
                valid_jitter(jx, jy) && r@ == sample_offset(self@, jx, jy),
    {
        let jx = random_fraction();
        let jy = random_fraction();
        let r = self.pixel_sample_square_with(jx, jy);
        assert(valid_jitter(jx@, jy@));
        r
    }

    fn ray_through(&self, i: u32, j: u32, offset: Vec3) -> (ray: Ray)
        ensures
            ray@ == camera_ray_through(self@, i as int, j as int, offset@),
    {
        let pixel = self.pixel_upper_left.add(self.pixel_delta_u.scale(Scalar::from_u32(i))).add(
            self.pixel_delta_v.scale(Scalar::from_u32(j)),
        ).add(offset);
        let ray_direction = pixel.sub(self.position);
        Ray::new(self.position, ray_direction)
    }

    /// The ray through the pixel in column `i` of row `j`, moved within the
    /// pixel by the fractions `jx` and `jy`.
    pub fn get_ray_with(&self, i: u32, j: u32, jx: Scalar, jy: Scalar) -> (ray: Ray)
        ensures
            ray@ == camera_ray(self@, i as int, j as int, jx@, jy@),
    {
        self.ray_through(i, j, self.pixel_sample_square_with(jx, jy))
    }

    /// A ray through a random place of the pixel in column `i` of row `j`.
    pub fn get_ray(&self, i: u32, j: u32) -> (ray: Ray)
        ensures
            may_aim(self@, i as int, j as int, ray@),
    {
        let offset = self.pixel_sample_square();
        let ray = self.ray_through(i, j, offset);
        proof {
            let (jx, jy) = choose|jx: int, jy: int| #[trigger]
                valid_jitter(jx, jy) && offset@ == sample_offset(self@, jx, jy);
            assert(valid_jitter(jx, jy) && ray@ == camera_ray(self@, i as int, j as int, jx, jy));
        }
        ray
    }

    /// The finished pixel in column `i` of row `j`.
    pub fn render_pixel(&self, objects: &Vec<Primitive>, i: u32, j: u32) -> (c: Color)
        ensures
            may_render_pixel(
                self@,
                scene_view(objects@),
                i as int,
                j as int,
                (c.red, c.green, c.blue),
            ),
    {
        let mut color = Vec3::zero();
        let ghost mut samples: Seq<V3> = Seq::empty();
        let mut k: u32 = 0;
        while k < self.pixel_samples
            invariant
                k <= self.pixel_samples,
                samples.len() == k,
                all_samples(self@, scene_view(objects@), i as int, j as int, samples),
                color@ == sum_prefix(samples, k as int),
            decreases self.pixel_samples - k,
        {
            let ray = self.get_ray(i, j);
            let sample = ray_color(ray, objects, self.max_bounces);
            proof {
                let before = samples;
                samples = samples.push(sample@);
                assert(may_aim(self@, i as int, j as int, ray@) && may_radiate(
                    scene_view(objects@),
                    ray@,
                    self.max_bounces as nat,
                    sample@,
                ));
                assert forall|n: int| 0 <= n < samples.len() implies may_sample(
                    self@,
                    scene_view(objects@),
                    i as int,
                    j as int,
                    #[trigger] samples[n],
                ) by {
                    if n < k {
                        assert(samples[n] == before[n]);
                    }
                }
                lemma_sum_prefix_push(before, sample@);
            }
            color = color.add(sample);
            k = k + 1;
        }
        let c = finish_pixel(color, self.pixel_samples);
        assert(all_samples(self@, scene_view(objects@), i as int, j as int, samples));
        c
    }

    /// Whether a buffer can hold the picture: three bytes for each pixel.
    pub fn picture_fits(&self) -> (b: bool)
        ensures
            b == (3 * self.width * self.height <= isize::MAX),
    {
        let width: u128 = self.width as u128;
        let height: u128 = self.height as u128;
        assert(width * height <= 0xffff_ffff * 0xffff_ffff) by (nonlinear_arith)
            requires
                0 <= width <= 0xffff_ffff,
                0 <= height <= 0xffff_ffff,
        ;
        assert(3 * self.width * self.height == 3 * (width * height)) by (nonlinear_arith)
            requires
                width == self.width,
                height == self.height,
        ;
        3 * (width * height) <= isize::MAX as u128
    }

    /// The picture of the scene: for each pixel, the finished sum of its
    /// samples. The picture must fit a buffer, which `picture_fits` tests.
    pub fn render(&self, objects: &Vec<Primitive>) -> (image: Canvas)
        requires
            3 * self.width * self.height <= isize::MAX,
        ensures
            canvas_width(image) == self.width,
            canvas_height(image) == self.height,
            canvas_pixels(image).dom() == pixel_places(self.width as int, self.height as int),
            forall|x: int, y: int|
                0 <= x < self.width && 0 <= y < self.height ==> may_render_pixel(
                    self@,
                    scene_view(objects@),
                    x,
                    y,
                    #[trigger] canvas_pixels(image)[(x, y)],
                ),
    {
        let mut image = Canvas::blank(self.width, self.height);
        let mut i: u32 = 0;
        while i < self.width
            invariant
                i <= self.width,
                canvas_width(image) == self.width,
                canvas_height(image) == self.height,
                canvas_pixels(image).dom() =~= pixel_places(self.width as int, self.height as int),
                forall|x: int, y: int|
                    0 <= x < i && 0 <= y < self.height ==> may_render_pixel(
                        self@,
                        scene_view(objects@),
                        x,
                        y,
                        #[trigger] canvas_pixels(image)[(x, y)],
                    ),
            decreases self.width - i,
        {
            let mut j: u32 = 0;
            while j < self.height
                invariant
                    i < self.width,
                    j <= self.height,
                    canvas_width(image) == self.width,
                    canvas_height(image) == self.height,
                    canvas_pixels(image).dom() =~= pixel_places(
                        self.width as int,
                        self.height as int,
                    ),
                    forall|x: int, y: int|
                        0 <= x < i && 0 <= y < self.height ==> may_render_pixel(
                            self@,
                            scene_view(objects@),
                            x,
                            y,
                            #[trigger] canvas_pixels(image)[(x, y)],
                        ),
                    forall|y: int|
                        0 <= y < j ==> may_render_pixel(
                            self@,
                            scene_view(objects@),
                            i as int,
                            y,
                            #[trigger] canvas_pixels(image)[(i as int, y)],
                        ),
                decreases self.height - j,
            {
                let color = self.render_pixel(objects, i, j);
                image.put_pixel(i, j, color);
                j = j + 1;
            }
            i = i + 1;
        }
        image
    }
}

/// The sum of a sequence with one more colour is the sum of the sequence
/// plus that colour.
proof fn lemma_sum_prefix_push(colors: Seq<V3>, next: V3)
    ensures
        sum_prefix(colors.push(next), colors.len() as int + 1) == v3_add(
            sum_prefix(colors, colors.len() as int),
            next,
        ),
{
    lemma_sum_prefix_agrees(colors, colors.push(next), colors.len() as int);
}

/// Two sequences that agree on their first `n` colours have the same sum
/// of those.
proof fn lemma_sum_prefix_agrees(a: Seq<V3>, b: Seq<V3>, n: int)
    requires
        n <= a.len(),
        n <= b.len(),
        forall|k: int| 0 <= k < n ==> a[k] == b[k],
    ensures
        sum_prefix(a, n) == sum_prefix(b, n),
    decreases n,
{
    if n > 0 {
        lemma_sum_prefix_agrees(a, b, n - 1);
    }
}

/// A channel of zero or less is shown as the byte 0, and a channel of
/// 0.999 or more, so also one of exactly one, as the byte 255.
pub proof fn lemma_shown_byte_ends(channel: int)
    ensures
        channel <= 0 ==> shown_byte(channel) == 0,
        channel >= BRIGHTEST_RAW ==> shown_byte(channel) == 255,
        0 <= shown_byte(channel) <= 255,
{
    if channel <= 0 {
        assert(isqrt(0) == 0);
        assert(gamma_spec(0) == 0);
    }
    if channel >= BRIGHTEST_RAW {
        lemma_isqrt_unique(999_000_000_000_000_000, 999_499_874);
        assert(gamma_spec(BRIGHTEST_RAW as int) == 999_499_874);
    }
}

/// A brighter channel is never shown by a lesser byte.
pub proof fn lemma_shown_byte_monotone(darker: int, brighter: int)
    requires
        darker <= brighter,
    ensures
        shown_byte(darker) <= shown_byte(brighter),
{
    let low = gamma_spec(interval_clamp(intensity(), darker));
    let high = gamma_spec(interval_clamp(intensity(), brighter));
    lemma_isqrt_monotone(
        interval_clamp(intensity(), darker) * ONE_RAW,
        interval_clamp(intensity(), brighter) * ONE_RAW,
    );
    assert(BYTE_FACTOR_RAW * low <= BYTE_FACTOR_RAW * high) by (nonlinear_arith)
        requires
            low <= high,
            BYTE_FACTOR_RAW > 0,
    ;
    lemma_quot_monotone(BYTE_FACTOR_RAW * low, BYTE_FACTOR_RAW * high, ONE_RAW as int);
    lemma_quot_monotone(
        mul_spec(BYTE_FACTOR_RAW as int, low),
        mul_spec(BYTE_FACTOR_RAW as int, high),
        ONE_RAW as int,
    );
}

/// In a scene without primitives, each sample of a pixel is the colour of
/// the sky along a ray through that pixel, if the camera allows a bounce at
/// all, and black if it allows none.
pub proof fn lemma_empty_scene_sample(cam: CameraModel, i: int, j: int, color: V3)
    requires
        cam.max_bounces >= 0,
        may_sample(cam, Seq::<PrimitiveModel>::empty(), i, j, color),
    ensures
        cam.max_bounces == 0 ==> color == v3_zero(),
        cam.max_bounces > 0 ==> exists|ray: RayModel| #[trigger]
            may_aim(cam, i, j, ray) && color == sky_spec(ray),
{
    let scene = Seq::<PrimitiveModel>::empty();
    let ray = choose|ray: RayModel| #[trigger]
        may_aim(cam, i, j, ray) && may_radiate(scene, ray, cam.max_bounces as nat, color);
    let draws = choose|draws: Seq<DrawModel>| #[trigger]
        valid_draws(draws) && draws.len() == cam.max_bounces as nat && color == radiance(
            scene,
            ray,
            cam.max_bounces as nat,
            draws,
        );
    if cam.max_bounces > 0 {
        lemma_radiance_of_empty_scene(ray, cam.max_bounces as nat, draws);
        assert(may_aim(cam, i, j, ray) && color == sky_spec(ray));
    }
}

/// The sum of colours that are all black is black.
proof fn lemma_sum_of_black(colors: Seq<V3>, n: int)
    requires
        0 <= n <= colors.len(),
        forall|k: int| 0 <= k < n ==> colors[k] == v3_zero(),
    ensures
        sum_prefix(colors, n) == v3_zero(),
    decreases n,
{
    if n > 0 {
        lemma_sum_of_black(colors, n - 1);
    }
}

/// A camera that allows no bounce renders every pixel black, whatever the
/// scene holds.
pub proof fn lemma_render_without_bounces(
    cam: CameraModel,
    scene: Seq<PrimitiveModel>,
    i: int,
    j: int,
    pixel: (u8, u8, u8),
)
    requires
        cam.max_bounces == 0,
        cam.pixel_samples >= 0,
        may_render_pixel(cam, scene, i, j, pixel),
    ensures
        pixel == (0u8, 0u8, 0u8),
{
    let samples = choose|samples: Seq<V3>| #[trigger]
        all_samples(cam, scene, i, j, samples) && samples.len() == cam.pixel_samples && pixel
            == finish_spec(sum_prefix(samples, cam.pixel_samples), cam.pixel_samples);
    assert forall|k: int| 0 <= k < samples.len() implies samples[k] == v3_zero() by {
        assert(may_sample(cam, scene, i, j, samples[k]));
        let ray = choose|ray: RayModel| #[trigger]
            may_aim(cam, i, j, ray) && may_radiate(scene, ray, 0, samples[k]);
        let draws = choose|draws: Seq<DrawModel>| #[trigger]
            valid_draws(draws) && draws.len() == 0 && samples[k] == radiance(scene, ray, 0, draws);
    }
    lemma_sum_of_black(samples, cam.pixel_samples);
    lemma_shown_byte_ends(0);
    assert(div_spec(0, cam.pixel_samples * ONE_RAW) == 0) by {
        if cam.pixel_samples > 0 {
            assert(0int / (cam.pixel_samples * ONE_RAW) == 0) by (nonlinear_arith)
                requires
                    cam.pixel_samples * ONE_RAW > 0,
            ;
        }
    }
}

/// In a scene without primitives, a camera that allows a bounce renders
/// each pixel as the finished sum of the colours of the sky along rays
/// through that pixel, one ray for each sample.
pub proof fn lemma_render_of_empty_scene(cam: CameraModel, i: int, j: int, pixel: (u8, u8, u8))
    requires
        cam.max_bounces > 0,
        cam.pixel_samples >= 0,
        may_render_pixel(cam, Seq::<PrimitiveModel>::empty(), i, j, pixel),
    ensures
        exists|rays: Seq<RayModel>|
            {
                &&& rays.len() == cam.pixel_samples
                &&& forall|k: int| 0 <= k < rays.len() ==> may_aim(cam, i, j, #[trigger] rays[k])
                &&& pixel == finish_spec(
                    sum_prefix(rays.map_values(|ray: RayModel| sky_spec(ray)), cam.pixel_samples),
                    cam.pixel_samples,
                )
            },
{
    let scene = Seq::<PrimitiveModel>::empty();
    let samples = choose|samples: Seq<V3>| #[trigger]
        all_samples(cam, scene, i, j, samples) && samples.len() == cam.pixel_samples && pixel
            == finish_spec(sum_prefix(samples, cam.pixel_samples), cam.pixel_samples);
    let rays = Seq::new(
        samples.len(),
        |k: int|
            choose|ray: RayModel| #[trigger]
                may_aim(cam, i, j, ray) && samples[k] == sky_spec(ray),
    );
    assert forall|k: int| 0 <= k < rays.len() implies may_aim(cam, i, j, #[trigger] rays[k])
        && samples[k] == sky_spec(rays[k]) by {
        assert(may_sample(cam, scene, i, j, samples[k]));
        lemma_empty_scene_sample(cam, i, j, samples[k]);
    }
    let skies = rays.map_values(|ray: RayModel| sky_spec(ray));
    assert(skies =~= samples);
}

} // verus!
