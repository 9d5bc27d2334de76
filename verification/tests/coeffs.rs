use staged_sg_filter::coeffs::compute_coefficients;
use staged_sg_filter::error::FilterError;

fn exact(half: usize, order: usize) -> (Vec<i64>, i64) {
    let c = compute_coefficients(half, order).unwrap();
    (c.numerators, c.denominator)
}

#[test]
fn linear_fit_on_three_samples_is_the_mean() {
    assert_eq!(exact(1, 1), (vec![1, 1, 1], 3));
    assert_eq!(exact(1, 0), (vec![1, 1, 1], 3));
}

#[test]
fn quadratic_fit_on_five_samples() {
    assert_eq!(exact(2, 2), (vec![-3, 12, 17, 12, -3], 35));
    assert_eq!(exact(2, 3), (vec![-3, 12, 17, 12, -3], 35));
}

#[test]
fn quadratic_fit_on_seven_samples() {
    assert_eq!(exact(3, 2), (vec![-2, 3, 6, 7, 6, 3, -2], 21));
}

#[test]
fn quartic_fit_on_seven_samples() {
    assert_eq!(exact(3, 4), (vec![5, -30, 75, 131, 75, -30, 5], 231));
}

#[test]
fn full_order_reproduces_the_centre_sample() {
    assert_eq!(exact(0, 0), (vec![1], 1));
    assert_eq!(exact(1, 2), (vec![0, 1, 0], 1));
    assert_eq!(exact(3, 6), (vec![0, 0, 0, 1, 0, 0, 0], 1));
}

#[test]
fn weights_sum_to_the_denominator() {
    for half in 0..12usize {
        for order in 0..5usize {
            if order <= 2 * half {
                let (nums, den) = exact(half, order);
                assert_eq!(nums.len(), 2 * half + 1);
                assert!(den > 0);
                assert_eq!(nums.iter().sum::<i64>(), den);
            }
        }
    }
}

#[test]
fn pure_smoothing_weights_sum_to_one() {
    for half in 0..40usize {
        let (nums, den) = exact(half, 0);
        let sum: f64 = nums.iter().map(|n| *n as f64 / den as f64).sum();
        assert!((sum - 1.0).abs() < 1e-9);
        assert_eq!(nums, vec![1; 2 * half + 1]);
        assert_eq!(den, 2 * half as i64 + 1);
    }
}

#[test]
fn wide_windows_stay_within_range() {
    assert_eq!(exact(25, 4).1, 3260719);
    assert_eq!(exact(25, 2).0.len(), 51);
    let (nums, den) = exact(100, 4);
    assert_eq!(nums.len(), 201);
    assert_eq!(nums.iter().sum::<i64>(), den);
    for offset in 1..=100usize {
        assert_eq!(nums[100 - offset], nums[100 + offset]);
    }
    let second: i64 = nums.iter().enumerate().map(|(i, n)| n * (i as i64 - 100).pow(2)).sum();
    assert_eq!(second, 0);
}

#[test]
fn same_arguments_give_the_same_weights() {
    assert_eq!(exact(5, 4), exact(5, 4));
    assert_eq!(exact(12, 4).1, 30015);
}

#[test]
fn order_above_twice_the_half_window_is_invalid() {
    for (half, order) in [(0usize, 1usize), (1, 3), (2, 5), (3, 7), (3, 100), (0, usize::MAX)] {
        assert_eq!(
            compute_coefficients(half, order).err(),
            Some(FilterError::InvalidWindowParameters)
        );
    }
}

#[test]
fn solve_beyond_sixty_four_bits_is_singular() {
    assert_eq!(compute_coefficients(40, 31).err(), Some(FilterError::SingularSystem));
    assert_eq!(compute_coefficients(1000, 20).err(), Some(FilterError::SingularSystem));
    assert_eq!(compute_coefficients(100_000, 4).err(), Some(FilterError::SingularSystem));
    assert_eq!(compute_coefficients(usize::MAX, 2).err(), Some(FilterError::SingularSystem));
}
