use staged_sg_filter::cache::CoefficientCache;
use staged_sg_filter::engine::{apply_edges, body_len, convolve, par_convolve, EdgePolicy};
use staged_sg_filter::error::FilterError;
use staged_sg_filter::filter::render;
use staged_sg_filter::coeffs::compute_coefficients;
use staged_sg_filter::sav_gol;

fn as_f64(n: i64, d: i64) -> f64 {
    n as f64 / d as f64
}

fn as_f32(n: i64, d: i64) -> f32 {
    n as f32 / d as f32
}

fn add_product(acc: f64, a: f64, b: f64) -> f64 {
    a * b + acc
}

fn add_product32(acc: f32, a: f32, b: f32) -> f32 {
    a * b + acc
}

fn ramp(n: usize) -> Vec<f64> {
    (0..n).map(|i| 0.5 * i as f64 - 3.0).collect()
}

#[test]
fn cache_computes_each_key_once() {
    let mut cache = CoefficientCache::new(as_f64);
    assert_eq!(cache.len(), 0);
    assert_eq!(cache.lookup(2, 2), Ok(0));
    assert_eq!(cache.lookup(3, 2), Ok(1));
    assert_eq!(cache.lookup(2, 2), Ok(0));
    assert_eq!(cache.lookup(2, 3), Ok(2));
    assert_eq!(cache.len(), 3);
    assert_eq!(cache.weights(1), &[-2.0 / 21.0, 3.0 / 21.0, 6.0 / 21.0, 7.0 / 21.0, 6.0 / 21.0, 3.0 / 21.0, -2.0 / 21.0]);
    assert_eq!(cache.weights(0), cache.weights(2));
}

#[test]
fn cache_keeps_no_entry_for_a_refusal() {
    let mut cache = CoefficientCache::new(as_f64);
    assert_eq!(cache.lookup(1, 3), Err(FilterError::InvalidWindowParameters));
    assert_eq!(cache.lookup(40, 31), Err(FilterError::SingularSystem));
    assert_eq!(cache.len(), 0);
}

#[test]
fn cached_filter_matches_the_plain_one() {
    let data = ramp(64);
    let mut plain = vec![9.0; 64];
    let mut cached = vec![9.0; 64];
    let mut shared = vec![9.0; 64];
    let mut cache = CoefficientCache::new(as_f64);
    assert_eq!(sav_gol::<3, 2, _, _, _>(&mut plain, &data, &as_f64, &add_product), Ok(()));
    assert_eq!(cache.apply_filter(&mut cached, &data, 3, 2, &add_product), Ok(()));
    assert_eq!(cache.apply_filter_parallel(&mut shared, &data, 3, 2, &add_product), Ok(()));
    assert_eq!(cache.len(), 1);
    assert_eq!(plain, cached);
    assert_eq!(plain, shared);
}

#[test]
fn cached_filter_refuses_as_the_plain_one_does() {
    let data = ramp(10);
    let mut short = vec![0.0; 9];
    let mut buf = vec![0.0; 10];
    let mut cache = CoefficientCache::new(as_f64);
    assert_eq!(
        cache.apply_filter(&mut short, &data, 1, 9, &add_product),
        Err(FilterError::LengthMismatch)
    );
    assert_eq!(
        cache.apply_filter(&mut buf, &data, 1, 9, &add_product),
        Err(FilterError::InvalidWindowParameters)
    );
    assert_eq!(
        cache.apply_filter_parallel(&mut short, &data, 1, 1, &add_product),
        Err(FilterError::LengthMismatch)
    );
    assert_eq!(buf, vec![0.0; 10]);
    assert_eq!(short, vec![0.0; 9]);
}

#[test]
fn straight_line_passes_through_a_linear_fit() {
    let data = ramp(32);
    let mut buf = vec![0.0; 32];
    assert_eq!(sav_gol::<4, 1, _, _, _>(&mut buf, &data, &as_f64, &add_product), Ok(()));
    for i in 4..28 {
        assert!((buf[i] - data[i]).abs() < 1e-12);
    }
}

#[test]
fn single_and_double_precision_agree() {
    let data: Vec<f64> = (0..200).map(|i| ((i * 53) % 97) as f64 / 8.0).collect();
    let data32: Vec<f32> = data.iter().map(|v| *v as f32).collect();
    let mut out = vec![0.0f64; 200];
    let mut out32 = vec![0.0f32; 200];
    assert_eq!(sav_gol::<5, 3, _, _, _>(&mut out, &data, &as_f64, &add_product), Ok(()));
    assert_eq!(sav_gol::<5, 3, _, _, _>(&mut out32, &data32, &as_f32, &add_product32), Ok(()));
    let exact = compute_coefficients(5, 3).unwrap();
    for i in 5..195 {
        let mut num: i128 = 0;
        for j in 0..11 {
            num += exact.numerators[j] as i128 * ((data[i + j - 5] * 8.0) as i128);
        }
        let truth = num as f64 / (8.0 * exact.denominator as f64);
        let scale = 12.125f64;
        assert!((out[i] - truth).abs() <= 1e-12 * scale);
        assert!((out32[i] as f64 - truth).abs() <= 1e-6 * scale);
    }
}

#[test]
fn engine_applies_given_weights() {
    let data = vec![1.0, 2.0, 4.0, 8.0, 16.0];
    let mut buf = vec![-1.0; 5];
    let mut par = vec![-1.0; 5];
    let weights = vec![0.25, 0.5, 0.25];
    assert_eq!(convolve(&mut buf, &data, &weights, 1, 0.0, &add_product), Ok(()));
    assert_eq!(par_convolve(&mut par, &data, &weights, 1, 0.0, &add_product), Ok(()));
    assert_eq!(buf, vec![-1.0, 2.25, 4.5, 9.0, -1.0]);
    assert_eq!(par, buf);
    let mut short = vec![-1.0; 4];
    assert_eq!(
        par_convolve(&mut short, &data, &weights, 1, 0.0, &add_product),
        Err(FilterError::LengthMismatch)
    );
    assert_eq!(short, vec![-1.0; 4]);
}

#[test]
fn engine_sums_in_index_order() {
    let data = vec![1e16, 1.0, -1e16];
    let mut buf = vec![0.0; 3];
    let ones = vec![1.0; 3];
    assert_eq!(convolve(&mut buf, &data, &ones, 1, 0.0, &add_product), Ok(()));
    assert_eq!(buf[1], (1e16 + 1.0) - 1e16);
    let mut par = vec![0.0; 3];
    assert_eq!(par_convolve(&mut par, &data, &ones, 1, 0.0, &add_product), Ok(()));
    assert_eq!(par[1], buf[1]);
}

#[test]
fn body_is_what_a_whole_window_fits() {
    assert_eq!(body_len(7, 1), 5);
    assert_eq!(body_len(5, 2), 1);
    assert_eq!(body_len(4, 2), 0);
    assert_eq!(body_len(3, 2), 0);
    assert_eq!(body_len(0, 0), 0);
    assert_eq!(body_len(9, 0), 9);
    assert_eq!(body_len(10, usize::MAX), 0);
}

#[test]
fn rendering_calls_the_ratio_for_each_weight() {
    let exact = compute_coefficients(2, 2).unwrap();
    let weights: Vec<f64> = render(&exact, &as_f64);
    assert_eq!(weights, vec![-3.0 / 35.0, 12.0 / 35.0, 17.0 / 35.0, 12.0 / 35.0, -3.0 / 35.0]);
}

#[test]
fn edges_follow_the_policy() {
    let data = vec![10.0, 11.0, 12.0, 13.0, 14.0, 15.0];
    let mut keep = vec![1.0; 6];
    let mut zero = vec![1.0; 6];
    let mut pass = vec![1.0; 6];
    assert_eq!(apply_edges(&mut keep, &data, 2, EdgePolicy::Keep, 0.0), Ok(()));
    assert_eq!(apply_edges(&mut zero, &data, 2, EdgePolicy::ZeroFill, 0.0), Ok(()));
    assert_eq!(apply_edges(&mut pass, &data, 2, EdgePolicy::PassThrough, 0.0), Ok(()));
    assert_eq!(keep, vec![1.0; 6]);
    assert_eq!(zero, vec![0.0, 0.0, 1.0, 1.0, 0.0, 0.0]);
    assert_eq!(pass, vec![10.0, 11.0, 1.0, 1.0, 14.0, 15.0]);
    let mut all = vec![1.0; 6];
    assert_eq!(apply_edges(&mut all, &data, 4, EdgePolicy::PassThrough, 0.0), Ok(()));
    assert_eq!(all, data);
    let mut short = vec![1.0; 5];
    assert_eq!(
        apply_edges(&mut short, &data, 2, EdgePolicy::ZeroFill, 0.0),
        Err(FilterError::LengthMismatch)
    );
    assert_eq!(short, vec![1.0; 5]);
}
