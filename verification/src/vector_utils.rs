//! Random directions, reflection, and the step from a colour vector to a
//! finished pixel.
use crate::color::Color;
use crate::scalar::{
    add_spec, isqrt, lemma_isqrt_bounds, lemma_quot_bounds, mul_spec, whole_spec, Scalar, ONE_RAW,
};
use crate::vec3::{
    lemma_v3_dot_neg, lemma_v3_normalize_length, v3, v3_dot, v3_hadamard, v3_neg, v3_normalize,
    v3_scale, v3_sub, Vec3, V3,
};
use rand::Rng;
use vstd::prelude::*;

verus! {

/// The raw value of 255.999, the factor from a channel in `0 ..= 1` to its
/// byte.
pub const BYTE_FACTOR_RAW: i64 = 255_999_000_000;

/// How often a random point is drawn before a fixed one is taken.
pub const MAX_ATTEMPTS: u32 = 64;

/// Whether `s` is a point of the cube from -1 to 1 that lies strictly inside
/// the unit ball, and not so close to its centre that its squared length
/// rounds to zero.
pub open spec fn in_unit_ball(s: V3) -> bool {
    &&& -ONE_RAW <= s.x < ONE_RAW
    &&& -ONE_RAW <= s.y < ONE_RAW
    &&& -ONE_RAW <= s.z < ONE_RAW
    &&& 0 < v3_dot(s, s) < ONE_RAW
}

/// Whether `u` is the direction of some point in the unit ball.
pub open spec fn is_unit_draw(u: V3) -> bool {
    exists|s: V3| in_unit_ball(s) && u == v3_normalize(s)
}

/// The point that is taken when every draw was rejected: a half along the
/// first axis.
pub open spec fn fallback_sample() -> V3 {
    v3(500_000_000, 0, 0)
}

/// The direction of a sample, or `None` where the sample is rejected.
pub open spec fn unit_from_sample_spec(s: V3) -> Option<V3> {
    if 0 < v3_dot(s, s) < ONE_RAW {
        Some(v3_normalize(s))
    } else {
        None
    }
}

/// Whether `s` is a point of the cube from -1 to 1, where samples are
/// drawn.
pub open spec fn in_cube(s: V3) -> bool {
    &&& -ONE_RAW <= s.x < ONE_RAW
    &&& -ONE_RAW <= s.y < ONE_RAW
    &&& -ONE_RAW <= s.z < ONE_RAW
}

/// The direction of the first sample from the place `from` on that is
/// accepted, or `None` where every sample is rejected.
pub open spec fn first_accepted(samples: Seq<V3>, from: int) -> Option<V3>
    decreases samples.len() - from,
{
    if from < 0 || from >= samples.len() {
        None
    } else if unit_from_sample_spec(samples[from]).is_some() {
        unit_from_sample_spec(samples[from])
    } else {
        first_accepted(samples, from + 1)
    }
}

/// Whether each of the samples is a point of the cube and each is rejected.
pub open spec fn all_rejected(samples: Seq<V3>) -> bool {
    forall|k: int|
        0 <= k < samples.len() ==> in_cube(#[trigger] samples[k]) && unit_from_sample_spec(
            samples[k],
        ).is_none()
}

/// Whether `u` is what a run of samples gives: the samples are points of
/// the cube, at most `MAX_ATTEMPTS` of them; all but the last are
/// rejected, and `u` is the direction of the last; or all of
/// `MAX_ATTEMPTS` samples are rejected, and `u` is the direction of the
/// fixed point.
pub open spec fn may_draw_unit(u: V3) -> bool {
    exists|samples: Seq<V3>| #[trigger]
        all_rejected(samples) && samples.len() <= MAX_ATTEMPTS && {
            ||| exists|last: V3|
                in_cube(last) && samples.len() < MAX_ATTEMPTS && #[trigger] unit_from_sample_spec(
                    last,
                ) == Some(u)
            ||| samples.len() == MAX_ATTEMPTS && u == v3_normalize(fallback_sample())
        }
}

/// The mirror image of the direction `d` at a surface with normal `n`:
/// `d - 2 (d . n) n`.
pub open spec fn v3_reflect(d: V3, n: V3) -> V3 {
    v3_sub(d, v3_scale(n, add_spec(v3_dot(d, n), v3_dot(d, n))))
}

/// The byte of a colour channel: the whole part of 255.999 times the
/// channel, kept within `0 ..= 255`.
pub open spec fn channel_byte(c: int) -> int {
    whole_spec(mul_spec(BYTE_FACTOR_RAW as int, c), 255)
}

/// `random` where it points to the side of `normal`, else its opposite.
pub open spec fn toward_hemisphere_spec(random: V3, normal: V3) -> V3 {
    if v3_dot(random, normal) > 0 {
        random
    } else {
        v3_neg(random)
    }
}

/// Some point in the unit ball exists, so some direction can be drawn.
pub proof fn lemma_fallback_in_ball()
    ensures
        in_unit_ball(fallback_sample()),
        is_unit_draw(v3_normalize(fallback_sample())),
{
    assert(500_000_000int * 500_000_000int == 250_000_000_000_000_000int);
    assert(in_unit_ball(fallback_sample()));
}

/// Draws a whole number from `low` up to, but not including, `high`, with
/// `gen_range` of the generator that `thread_rng` of the rand crate hands
/// out. Nothing is claimed of the number but that it lies in the range.
/// `gen_range` panics on an empty range, which `requires` leaves out;
/// `thread_rng` panics where the operating system gives it no seed, which
/// no contract can leave out.
#[verifier::external_body]
fn random_raw(low: i64, high: i64) -> (r: i64)
    requires
        low < high,
    ensures
        low <= r < high,
{
    rand::thread_rng().gen_range(low..high)
}

/// A random number from zero up to, but not including, one.
pub fn random_fraction() -> (r: Scalar)
    ensures
        0 <= r@ < ONE_RAW,
{
    Scalar::from_raw(random_raw(0, ONE_RAW))
}

/// A random number from minus one up to, but not including, one.
pub fn random_signed_fraction() -> (r: Scalar)
    ensures
        -ONE_RAW <= r@ < ONE_RAW,
{
    Scalar::from_raw(random_raw(-ONE_RAW, ONE_RAW))
}

/// The direction of the sample `s`, if `s` is accepted: its squared length
/// must be less than one and must not round to zero.
pub fn unit_from_sample(s: Vec3) -> (r: Option<Vec3>)
    ensures
        match r {
            Some(u) => unit_from_sample_spec(s@) == Some(u@),
            None => unit_from_sample_spec(s@).is_none(),
        },
{
    let squared = s.dot(s);
    if squared.gt(Scalar::zero()) && squared.lt(Scalar::one()) {
        Some(s.normalize())
    } else {
        None
    }
}

/// The direction of the first of the samples that is accepted, or `None`
/// where all are rejected: what `rand_normal` returns for the samples it
/// draws.
pub fn unit_from_samples(samples: &Vec<Vec3>) -> (r: Option<Vec3>)
    ensures
        match r {
            Some(u) => first_accepted(samples@.map_values(|s: Vec3| s@), 0) == Some(u@),
            None => first_accepted(samples@.map_values(|s: Vec3| s@), 0).is_none(),
        },
{
    let ghost models = samples@.map_values(|s: Vec3| s@);
    let mut i: usize = samples.len();
    let mut found: Option<Vec3> = None;
    while i > 0
        invariant
            i <= samples.len(),
            models == samples@.map_values(|s: Vec3| s@),
            match found {
                Some(u) => first_accepted(models, i as int) == Some(u@),
                None => first_accepted(models, i as int).is_none(),
            },
        decreases i,
    {
        i = i - 1;
        assert(models[i as int] == samples@[i as int]@);
        match unit_from_sample(samples[i]) {
            Some(unit) => {
                found = Some(unit);
            },
            None => {},
        }
    }
    found
}

/// A random direction: points of the cube from -1 to 1 are drawn until one
/// lies in the unit ball, and that one is scaled to length one. After
/// `MAX_ATTEMPTS` rejections in a row, which a sound generator all but never
/// gives, the direction of the first axis is returned.
pub fn rand_normal() -> (r: Vec3)
    ensures
        is_unit_draw(r@),
        may_draw_unit(r@),
{
    let mut attempt: u32 = 0;
    let ghost mut rejected: Seq<V3> = Seq::empty();
    while attempt < MAX_ATTEMPTS
        invariant
            attempt <= MAX_ATTEMPTS,
            rejected.len() == attempt,
            all_rejected(rejected),
        decreases MAX_ATTEMPTS - attempt,
    {
        let random = Vec3::new(
            random_signed_fraction(),
            random_signed_fraction(),
            random_signed_fraction(),
        );
        match unit_from_sample(random) {
            Some(unit) => {
                assert(in_unit_ball(random@));
                assert(in_cube(random@) && unit_from_sample_spec(random@) == Some(unit@));
                assert(all_rejected(rejected) && rejected.len() <= MAX_ATTEMPTS);
                return unit;
            },
            None => {},
        }
        proof {
            let before = rejected;
            rejected = rejected.push(random@);
            assert forall|k: int| 0 <= k < rejected.len() implies in_cube(#[trigger] rejected[k])
                && unit_from_sample_spec(rejected[k]).is_none() by {
                if k < before.len() {
                    assert(rejected[k] == before[k]);
                }
            }
        }
        attempt = attempt + 1;
    }
    proof {
        lemma_fallback_in_ball();
        assert(all_rejected(rejected) && rejected.len() <= MAX_ATTEMPTS);
    }
    Vec3::from_raw(500_000_000, 0, 0).normalize()
}

/// `random` or its opposite, whichever does not point away from `normal`.
pub fn toward_hemisphere(random: Vec3, normal: Vec3) -> (r: Vec3)
    ensures
        r@ == toward_hemisphere_spec(random@, normal@),
        v3_dot(r@, normal@) >= 0,
{
    proof {
        lemma_v3_dot_neg(random@, normal@);
    }
    if random.dot(normal).gt(Scalar::zero()) {
        random
    } else {
        random.neg()
    }
}

/// A random direction on the side of `normal`.
pub fn rand_on_hemisphere(normal: Vec3) -> (r: Vec3)
    ensures
        exists|u: V3| is_unit_draw(u) && r@ == toward_hemisphere_spec(u, normal@),
        v3_dot(r@, normal@) >= 0,
{
    let random = rand_normal();
    let r = toward_hemisphere(random, normal);
    assert(is_unit_draw(random@) && r@ == toward_hemisphere_spec(random@, normal@));
    r
}

/// The mirror image of the direction `d` at a surface with normal `n`.
pub fn reflect(d: Vec3, n: Vec3) -> (r: Vec3)
    ensures
        r@ == v3_reflect(d@, n@),
{
    let k = d.dot(n);
    d.sub(n.scale(k.add(k)))
}

/// The pixel of a colour whose channels lie in `0 ..= 1`.
pub fn color_from_vector(color: Vec3) -> (c: Color)
    ensures
        c.red == channel_byte(color@.x),
        c.green == channel_byte(color@.y),
        c.blue == channel_byte(color@.z),
{
    let factor = Scalar::from_raw(BYTE_FACTOR_RAW);
    Color {
        red: factor.mul(color.x).to_u8(),
        green: factor.mul(color.y).to_u8(),
        blue: factor.mul(color.z).to_u8(),
    }
}

/// The product of two colours, channel by channel.
pub fn channel_multiply(u: Vec3, v: Vec3) -> (r: Vec3)
    ensures
        r@ == v3_hadamard(u@, v@),
{
    Vec3::new(u.x.mul(v.x), u.y.mul(v.y), u.z.mul(v.z))
}

/// A direction that is drawn has length one, up to the last digits of a
/// scalar: none of its components exceeds one, and its squared length is at
/// most one and less than one by at most four billionths.
pub proof fn lemma_unit_draw_length(u: V3)
    requires
        is_unit_draw(u),
    ensures
        -ONE_RAW <= u.x <= ONE_RAW,
        -ONE_RAW <= u.y <= ONE_RAW,
        -ONE_RAW <= u.z <= ONE_RAW,
        ONE_RAW - 4 <= v3_dot(u, u) <= ONE_RAW,
{
    let s = choose|s: V3| in_unit_ball(s) && u == v3_normalize(s);
    let n = s.x * s.x + s.y * s.y + s.z * s.z;
    assert(s.x * s.x >= 0 && s.y * s.y >= 0 && s.z * s.z >= 0) by (nonlinear_arith);
    lemma_quot_bounds(n, ONE_RAW as int);
    assert(n >= 1);
    lemma_isqrt_bounds(n);
    assert(isqrt(n) >= 1) by (nonlinear_arith)
        requires
            0 <= isqrt(n),
            1 <= n < (isqrt(n) + 1) * (isqrt(n) + 1),
    ;
    lemma_v3_normalize_length(s);
}

} // verus!
