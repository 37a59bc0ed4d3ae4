use raytracer::fixed::{Fixed, MAX_RAW, SCALE};

fn fx(millionths: i64) -> Fixed {
    Fixed::from_raw(millionths)
}

#[test]
fn raw_count_round_trips() {
    assert_eq!(fx(123_456).raw(), 123_456);
    assert_eq!(Fixed::zero().raw(), 0);
    assert_eq!(Fixed::one().raw(), SCALE);
    assert_eq!(Fixed::max_value().raw(), MAX_RAW);
    assert_eq!(Fixed::min_value().raw(), -MAX_RAW);
}

#[test]
fn whole_numbers_scale_by_a_million() {
    assert_eq!(Fixed::from_int(3).raw(), 3_000_000);
    assert_eq!(Fixed::from_int(-7).raw(), -7_000_000);
    assert_eq!(Fixed::from_u64(256).raw(), 256_000_000);
}

#[test]
fn whole_numbers_too_large_are_clamped() {
    assert_eq!(Fixed::from_int(i64::MAX).raw(), MAX_RAW);
    assert_eq!(Fixed::from_int(i64::MIN).raw(), -MAX_RAW);
    assert_eq!(Fixed::from_u64(u64::MAX).raw(), MAX_RAW);
}

#[test]
fn sum_and_difference_are_exact_in_range() {
    assert_eq!(fx(1_500_000).add(fx(2_250_000)).raw(), 3_750_000);
    assert_eq!(fx(1_500_000).sub(fx(2_250_000)).raw(), -750_000);
}

#[test]
fn sum_and_difference_saturate_symmetrically() {
    assert_eq!(fx(MAX_RAW).add(fx(1)).raw(), MAX_RAW);
    assert_eq!(fx(-MAX_RAW).sub(fx(1)).raw(), -MAX_RAW);
    assert_eq!(fx(i64::MIN).add(fx(0)).raw(), -MAX_RAW);
    assert_eq!(fx(MAX_RAW).sub(fx(i64::MIN)).raw(), MAX_RAW);
}

#[test]
fn negation_of_the_least_integer_is_the_largest_value() {
    assert_eq!(fx(i64::MIN).neg().raw(), MAX_RAW);
    assert_eq!(fx(5).neg().raw(), -5);
    assert_eq!(fx(-MAX_RAW).neg().raw(), MAX_RAW);
}

#[test]
fn absolute_value() {
    assert_eq!(fx(-2_500_000).abs().raw(), 2_500_000);
    assert_eq!(fx(2_500_000).abs().raw(), 2_500_000);
    assert_eq!(fx(i64::MIN).abs().raw(), MAX_RAW);
}

#[test]
fn product_rounds_toward_zero() {
    assert_eq!(fx(1_500_000).mul(fx(-2_000_000)).raw(), -3_000_000);
    assert_eq!(fx(3).mul(fx(600_000)).raw(), 1);
    assert_eq!(fx(-3).mul(fx(600_000)).raw(), -1);
    assert_eq!(fx(1).mul(fx(999_999)).raw(), 0);
    assert_eq!(fx(-1).mul(fx(999_999)).raw(), 0);
}

#[test]
fn product_saturates() {
    assert_eq!(fx(MAX_RAW).mul(fx(2_000_000)).raw(), MAX_RAW);
    assert_eq!(fx(MAX_RAW).mul(fx(-2_000_000)).raw(), -MAX_RAW);
    assert_eq!(fx(i64::MIN).mul(fx(i64::MIN)).raw(), MAX_RAW);
}

#[test]
fn quotient_rounds_toward_zero() {
    assert_eq!(fx(1_000_000).div(fx(3_000_000)).raw(), 333_333);
    assert_eq!(fx(-1_000_000).div(fx(3_000_000)).raw(), -333_333);
    assert_eq!(fx(1_500_000).div(fx(-2_000_000)).raw(), -750_000);
    assert_eq!(fx(16_000_000).div(fx(9_000_000)).raw(), 1_777_777);
}

#[test]
fn quotient_by_zero_is_an_extreme_or_zero() {
    assert_eq!(fx(1).div(fx(0)).raw(), MAX_RAW);
    assert_eq!(fx(-1).div(fx(0)).raw(), -MAX_RAW);
    assert_eq!(fx(0).div(fx(0)).raw(), 0);
}

#[test]
fn quotient_saturates() {
    assert_eq!(fx(MAX_RAW).div(fx(1)).raw(), MAX_RAW);
    assert_eq!(fx(MAX_RAW).div(fx(-1)).raw(), -MAX_RAW);
}

#[test]
fn square_root_rounds_down() {
    assert_eq!(fx(4_000_000).sqrt().raw(), 2_000_000);
    assert_eq!(fx(2_000_000).sqrt().raw(), 1_414_213);
    assert_eq!(fx(250_000).sqrt().raw(), 500_000);
    assert_eq!(fx(1).sqrt().raw(), 1_000);
}

#[test]
fn square_root_of_nothing_positive_is_zero() {
    assert_eq!(fx(0).sqrt().raw(), 0);
    assert_eq!(fx(-1).sqrt().raw(), 0);
    assert_eq!(fx(i64::MIN).sqrt().raw(), 0);
}

#[test]
fn square_root_of_the_largest_value() {
    // floor(sqrt((2^63 - 1) * 10^6))
    assert_eq!(fx(MAX_RAW).sqrt().raw(), 3_037_000_499_976);
}

#[test]
fn smaller_and_larger() {
    assert_eq!(fx(3).min(fx(-4)).raw(), -4);
    assert_eq!(fx(3).max(fx(-4)).raw(), 3);
    assert_eq!(fx(3).min(fx(3)).raw(), 3);
}

#[test]
fn comparisons() {
    assert!(fx(1).lt(fx(2)));
    assert!(!fx(2).lt(fx(2)));
    assert!(fx(2).le(fx(2)));
    assert!(fx(3).gt(fx(2)));
    assert!(!fx(2).gt(fx(2)));
    assert!(fx(2).ge(fx(2)));
    assert!(!fx(1).ge(fx(2)));
}

#[test]
fn equal_counts_are_equal_numbers() {
    assert_eq!(fx(5), Fixed::from_raw(5));
    assert_ne!(fx(5), fx(6));
}
