use pathtracer::scalar::{Scalar, LIMIT_RAW, ONE_RAW};

fn s(raw: i64) -> Scalar {
    Scalar::from_raw(raw)
}

#[test]
fn from_raw_keeps_values_in_range() {
    assert_eq!(s(0).raw(), 0);
    assert_eq!(s(-1_500_000_000).raw(), -1_500_000_000);
    assert_eq!(s(LIMIT_RAW).raw(), LIMIT_RAW);
    assert_eq!(s(-LIMIT_RAW).raw(), -LIMIT_RAW);
}

#[test]
fn from_raw_saturates_beyond_the_limit() {
    assert_eq!(s(LIMIT_RAW + 1).raw(), LIMIT_RAW);
    assert_eq!(s(i64::MAX).raw(), LIMIT_RAW);
    assert_eq!(s(-LIMIT_RAW - 1).raw(), -LIMIT_RAW);
    assert_eq!(s(i64::MIN).raw(), -LIMIT_RAW);
}

#[test]
fn constants_have_their_raw_values() {
    assert_eq!(Scalar::zero().raw(), 0);
    assert_eq!(Scalar::one().raw(), ONE_RAW);
    assert_eq!(Scalar::limit().raw(), LIMIT_RAW);
    assert_eq!(Scalar::from_u32(0).raw(), 0);
    assert_eq!(Scalar::from_u32(255).raw(), 255_000_000_000);
    assert_eq!(Scalar::from_u32(u32::MAX).raw(), 4_294_967_295_000_000_000);
}

#[test]
fn addition_and_subtraction_saturate() {
    assert_eq!(s(1_500_000_000).add(s(2_250_000_000)).raw(), 3_750_000_000);
    assert_eq!(s(1_500_000_000).sub(s(2_250_000_000)).raw(), -750_000_000);
    assert_eq!(s(LIMIT_RAW).add(s(1)).raw(), LIMIT_RAW);
    assert_eq!(s(LIMIT_RAW).add(s(LIMIT_RAW)).raw(), LIMIT_RAW);
    assert_eq!(s(-LIMIT_RAW).sub(s(LIMIT_RAW)).raw(), -LIMIT_RAW);
    assert_eq!(s(LIMIT_RAW).sub(s(LIMIT_RAW)).raw(), 0);
}

#[test]
fn negation_and_absolute_value() {
    assert_eq!(s(5).neg().raw(), -5);
    assert_eq!(s(-LIMIT_RAW).neg().raw(), LIMIT_RAW);
    assert_eq!(s(-7).abs().raw(), 7);
    assert_eq!(s(7).abs().raw(), 7);
    assert_eq!(s(3).min(s(-4)).raw(), -4);
    assert_eq!(s(-4).min(s(3)).raw(), -4);
}

#[test]
fn comparisons_follow_the_raw_values() {
    assert!(s(1).lt(s(2)));
    assert!(!s(2).lt(s(2)));
    assert!(s(2).le(s(2)));
    assert!(s(3).gt(s(2)));
    assert!(!s(2).gt(s(2)));
    assert!(s(2).ge(s(2)));
    assert!(!s(1).ge(s(2)));
    assert!(s(0).is_zero());
    assert!(!s(1).is_zero());
}

#[test]
fn multiplication_rounds_toward_zero() {
    assert_eq!(s(2_500_000_000).mul(s(-3_000_000_000)).raw(), -7_500_000_000);
    assert_eq!(s(1_500_000_000).mul(s(1)).raw(), 1);
    assert_eq!(s(-1_500_000_000).mul(s(1)).raw(), -1);
    assert_eq!(s(999_999_999).mul(s(1)).raw(), 0);
    assert_eq!(s(-999_999_999).mul(s(1)).raw(), 0);
    assert_eq!(s(ONE_RAW).mul(s(123_456_789)).raw(), 123_456_789);
}

#[test]
fn multiplication_saturates() {
    assert_eq!(s(LIMIT_RAW).mul(s(LIMIT_RAW)).raw(), LIMIT_RAW);
    assert_eq!(s(LIMIT_RAW).mul(s(-LIMIT_RAW)).raw(), -LIMIT_RAW);
    assert_eq!(s(100_000 * ONE_RAW).mul(s(100_000 * ONE_RAW)).raw(), LIMIT_RAW);
}

#[test]
fn division_rounds_toward_zero() {
    assert_eq!(s(ONE_RAW).div(s(3 * ONE_RAW)).raw(), 333_333_333);
    assert_eq!(s(-ONE_RAW).div(s(3 * ONE_RAW)).raw(), -333_333_333);
    assert_eq!(s(ONE_RAW).div(s(-3 * ONE_RAW)).raw(), -333_333_333);
    assert_eq!(s(-ONE_RAW).div(s(-3 * ONE_RAW)).raw(), 333_333_333);
    assert_eq!(s(16 * ONE_RAW).div(s(9 * ONE_RAW)).raw(), 1_777_777_777);
    assert_eq!(s(7 * ONE_RAW).div(s(ONE_RAW)).raw(), 7 * ONE_RAW);
}

#[test]
fn division_by_zero_gives_the_limit() {
    assert_eq!(s(1).div(s(0)).raw(), LIMIT_RAW);
    assert_eq!(s(-1).div(s(0)).raw(), -LIMIT_RAW);
    assert_eq!(s(0).div(s(0)).raw(), 0);
    assert_eq!(s(LIMIT_RAW).div(s(1)).raw(), LIMIT_RAW);
}

#[test]
fn square_root_rounds_down() {
    assert_eq!(s(2 * ONE_RAW).sqrt().raw(), 1_414_213_562);
    assert_eq!(s(250_000_000).sqrt().raw(), 500_000_000);
    assert_eq!(s(999_000_000).sqrt().raw(), 999_499_874);
    assert_eq!(s(ONE_RAW).sqrt().raw(), ONE_RAW);
    assert_eq!(s(1).sqrt().raw(), 31_622);
}

#[test]
fn square_root_of_nothing_or_less_is_zero() {
    assert_eq!(s(0).sqrt().raw(), 0);
    assert_eq!(s(-4 * ONE_RAW).sqrt().raw(), 0);
}

#[test]
fn square_root_of_the_limit() {
    assert_eq!(s(LIMIT_RAW).sqrt().raw(), 67_082_039_324_993);
}

#[test]
fn dot_product_rounds_once() {
    let third = s(333_333_333);
    // three products of 0.333333333 by itself: each rounds to 0.111111110,
    // their exact sum to 0.333333332
    assert_eq!(third.mul(third).raw(), 111_111_110);
    assert_eq!(Scalar::dot3(third, third, third, third, third, third).raw(), 333_333_332);
    assert_eq!(
        Scalar::dot3(s(ONE_RAW), s(4 * ONE_RAW), s(2 * ONE_RAW), s(5 * ONE_RAW), s(3 * ONE_RAW), s(6 * ONE_RAW)).raw(),
        32 * ONE_RAW
    );
}

#[test]
fn determinant_is_a_difference_of_products() {
    assert_eq!(Scalar::det2(s(2 * ONE_RAW), s(6 * ONE_RAW), s(3 * ONE_RAW), s(5 * ONE_RAW)).raw(), -3 * ONE_RAW);
    assert_eq!(Scalar::det2(s(3 * ONE_RAW), s(5 * ONE_RAW), s(2 * ONE_RAW), s(6 * ONE_RAW)).raw(), 3 * ONE_RAW);
    assert_eq!(Scalar::det2(s(1), s(1), s(0), s(0)).raw(), 0);
}

#[test]
fn length_of_three_components() {
    assert_eq!(Scalar::hypot3(s(3 * ONE_RAW), s(4 * ONE_RAW), s(0)).raw(), 5 * ONE_RAW);
    assert_eq!(Scalar::hypot3(s(ONE_RAW), s(ONE_RAW), s(ONE_RAW)).raw(), 1_732_050_807);
    assert_eq!(Scalar::hypot3(s(0), s(0), s(0)).raw(), 0);
    assert_eq!(Scalar::hypot3(s(-1), s(0), s(0)).raw(), 1);
    assert_eq!(Scalar::hypot3(s(LIMIT_RAW), s(LIMIT_RAW), s(LIMIT_RAW)).raw(), LIMIT_RAW);
}

#[test]
fn whole_part_as_a_byte() {
    assert_eq!(s(0).to_u8(), 0);
    assert_eq!(s(999_999_999).to_u8(), 0);
    assert_eq!(s(ONE_RAW).to_u8(), 1);
    assert_eq!(s(255_999_000_000).to_u8(), 255);
    assert_eq!(s(256 * ONE_RAW).to_u8(), 255);
    assert_eq!(s(-5 * ONE_RAW).to_u8(), 0);
    assert_eq!(s(LIMIT_RAW).to_u8(), 255);
}

#[test]
fn whole_part_as_a_count() {
    assert_eq!(s(450_000_000_200).to_u32(), 450);
    assert_eq!(s(-1).to_u32(), 0);
    assert_eq!(s(4_294_967_295_000_000_000).to_u32(), u32::MAX);
    assert_eq!(s(LIMIT_RAW).to_u32(), u32::MAX);
}
