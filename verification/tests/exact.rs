use staged_sg_filter::arith::{
    divide_exactly, gcd_of, magnitude_of, narrowed, shrink, wide_mul, LIMIT,
};
use staged_sg_filter::coeffs::{check_moments, content_of, reduce};
use staged_sg_filter::moments::{
    checked_pow, moment_of, power_sum_of, power_sums_of, sample, value_at,
};
use staged_sg_filter::solver::{
    cancel_row, common_denominator_of, eliminate, gram_rows_of, join, numerators_of, unknown_of,
};

#[test]
fn narrowing_keeps_what_fits() {
    assert_eq!(narrowed(0), Some(0));
    assert_eq!(narrowed(LIMIT as i128), Some(LIMIT));
    assert_eq!(narrowed(-(LIMIT as i128)), Some(-LIMIT));
    assert_eq!(narrowed(LIMIT as i128 + 1), None);
    assert_eq!(narrowed(i64::MIN as i128), None);
}

#[test]
fn wide_product_is_exact() {
    assert_eq!(wide_mul(i64::MAX, i64::MAX), (i64::MAX as i128) * (i64::MAX as i128));
    assert_eq!(wide_mul(i64::MIN, i64::MIN), (i64::MIN as i128) * (i64::MIN as i128));
    assert_eq!(wide_mul(-3, 7), -21);
}

#[test]
fn greatest_common_divisor() {
    assert_eq!(gcd_of(12, 18), 6);
    assert_eq!(gcd_of(18, 12), 6);
    assert_eq!(gcd_of(0, 5), 5);
    assert_eq!(gcd_of(5, 0), 5);
    assert_eq!(gcd_of(0, 0), 0);
    assert_eq!(gcd_of(17, 4), 1);
}

#[test]
fn magnitude_and_division_towards_zero() {
    assert_eq!(magnitude_of(-9), 9);
    assert_eq!(magnitude_of(9), 9);
    assert_eq!(shrink(-7, 2), -3);
    assert_eq!(shrink(7, 2), 3);
    assert_eq!(shrink(-7, 1), -7);
    assert_eq!(shrink(-7, 0), -7);
}

#[test]
fn powers_within_and_beyond_range() {
    assert_eq!(checked_pow(3, 4), Some(81));
    assert_eq!(checked_pow(-2, 3), Some(-8));
    assert_eq!(checked_pow(0, 0), Some(1));
    assert_eq!(checked_pow(2, 62), Some(1i64 << 62));
    assert_eq!(checked_pow(2, 63), None);
    assert_eq!(checked_pow(-1, 1001), Some(-1));
}

#[test]
fn power_sums_of_a_window() {
    assert_eq!(power_sum_of(2, 0), Some(5));
    assert_eq!(power_sum_of(2, 1), Some(0));
    assert_eq!(power_sum_of(2, 2), Some(10));
    assert_eq!(power_sum_of(2, 4), Some(34));
    assert_eq!(power_sums_of(2, 5), Some(vec![5, 0, 10, 0, 34]));
    assert_eq!(power_sums_of(2, 0), Some(vec![]));
    assert_eq!(power_sums_of(3, 200), None);
}

#[test]
fn polynomial_values() {
    let poly = vec![1, 2, 3];
    assert_eq!(value_at(&poly, 2), Some(17));
    assert_eq!(value_at(&poly, -1), Some(2));
    assert_eq!(value_at(&vec![], 5), Some(0));
    assert_eq!(value_at(&vec![0, 0, 0, 0, 1], 1 << 16), None);
    assert_eq!(sample(&poly, 1), Some(vec![2, 1, 6]));
    assert_eq!(sample(&vec![17, 0, -5], 2), Some(vec![-3, 12, 17, 12, -3]));
}

#[test]
fn moments_of_weights() {
    let weights = vec![-3, 12, 17, 12, -3];
    assert_eq!(moment_of(&weights, 2, 0), Some(35));
    assert_eq!(moment_of(&weights, 2, 1), Some(0));
    assert_eq!(moment_of(&weights, 2, 2), Some(0));
    assert_eq!(moment_of(&weights, 2, 3), Some(0));
    assert_eq!(moment_of(&weights, 2, 4), Some(-72));
    assert!(check_moments(&weights, 35, 2, 3));
    assert!(!check_moments(&weights, 35, 2, 4));
    assert!(!check_moments(&weights, 34, 2, 2));
}

#[test]
fn normal_equations_and_their_diagonal_form() {
    let sums = power_sums_of(2, 5).unwrap();
    let rows = gram_rows_of(&sums, 3);
    assert_eq!(rows, vec![vec![5, 0, 10, 1], vec![0, 10, 0, 0], vec![10, 0, 34, 0]]);
    let diagonal = eliminate(rows, 3).unwrap();
    assert_eq!(diagonal, vec![vec![35, 0, 0, 17], vec![0, 10, 0, 0], vec![0, 0, 7, -1]]);
    assert_eq!(unknown_of(&diagonal, 3, 0), Some((17, 35)));
    assert_eq!(unknown_of(&diagonal, 3, 1), Some((0, 1)));
    assert_eq!(unknown_of(&diagonal, 3, 2), Some((-1, 7)));
    assert_eq!(common_denominator_of(&diagonal, 3), Some(35));
    assert_eq!(numerators_of(&diagonal, 3, 35), Some(vec![17, 0, -5]));
    assert_eq!(numerators_of(&diagonal, 3, 70), Some(vec![34, 0, -10]));
    assert_eq!(numerators_of(&diagonal, 3, 36), None);
}

#[test]
fn least_common_multiple() {
    assert_eq!(join(1, 35), Some(35));
    assert_eq!(join(35, 7), Some(35));
    assert_eq!(join(35, -10), Some(70));
    assert_eq!(join(6, 4), Some(12));
    assert_eq!(join(0, 0), None);
    assert_eq!(join(5, 0), Some(0));
    assert_eq!(join(LIMIT, 2), None);
}

#[test]
fn unknowns_of_a_diagonal_system() {
    let rows = vec![vec![-6, 0, 4], vec![0, 0, 0]];
    assert_eq!(unknown_of(&rows, 2, 0), Some((2, -3)));
    assert_eq!(unknown_of(&rows, 2, 1), None);
    assert_eq!(common_denominator_of(&rows, 2), None);
    let flipped = vec![vec![-6, 4]];
    assert_eq!(common_denominator_of(&flipped, 1), Some(3));
    assert_eq!(numerators_of(&flipped, 1, 3), Some(vec![-2]));
}

#[test]
fn elimination_stops_at_a_vanishing_pivot() {
    let rows = vec![vec![0, 1, 1], vec![1, 0, 0]];
    assert_eq!(eliminate(rows, 2), None);
    let dependent = vec![vec![1, 2, 1], vec![2, 4, 0]];
    assert_eq!(eliminate(dependent, 2), None);
}

#[test]
fn row_cancellation_takes_the_common_divisor_out() {
    let target = vec![10, 0, 34, 0];
    let source = vec![5, 0, 10, 1];
    assert_eq!(cancel_row(&target, &source, 5, 10), Some(vec![0, 0, 7, -1]));
    assert_eq!(cancel_row(&vec![1, 1], &vec![1, 1], 3, 3), Some(vec![0, 0]));
    assert_eq!(cancel_row(&vec![LIMIT, 1], &vec![0, 0], 2, 1), Some(vec![LIMIT, 1]));
    assert_eq!(cancel_row(&vec![LIMIT, 1], &vec![1, 0], 3, 1), None);
}

#[test]
fn exact_division() {
    assert_eq!(content_of(&vec![-210, 840, 1190], 2450), 70);
    assert_eq!(content_of(&vec![], 9), 9);
    assert_eq!(divide_exactly(-210, 70, false), Some(-3));
    assert_eq!(divide_exactly(-210, 70, true), Some(3));
    assert_eq!(divide_exactly(-210, 4, false), None);
    assert_eq!(divide_exactly(5, 0, false), None);
    assert_eq!(divide_exactly(i64::MIN, 1, false), None);
    assert_eq!(reduce(&vec![-210, 840, 1190], 70, false), Some(vec![-3, 12, 17]));
    assert_eq!(reduce(&vec![-210, 840, 1190], 70, true), Some(vec![3, -12, -17]));
    assert_eq!(reduce(&vec![-210, 841], 70, false), None);
}
