use staged_sg_filter::error::FilterError;
use staged_sg_filter::utils;
use staged_sg_filter::{dot_prod_update, par_sav_gol, sav_gol};

fn ratio64(n: i64, d: i64) -> f64 {
    n as f64 / d as f64
}

fn step64(acc: f64, a: f64, b: f64) -> f64 {
    a * b + acc
}

fn ratio32(n: i64, d: i64) -> f32 {
    n as f32 / d as f32
}

fn step32(acc: f32, a: f32, b: f32) -> f32 {
    a * b + acc
}

#[test]
fn lib_test_dot_prod_update() {
    let mut buf = 0.0;
    let data = vec![1.0; 4];
    let coeffs = vec![0.25; 4];
    dot_prod_update(&mut buf, &data, &coeffs, 0.0, &step64);
    assert_eq!(buf, 1.0);
}

#[test]
fn test_dot_prod_update_f32() {
    let mut buf = 0.0f32;
    let data = vec![1.0f32; 4];
    let coeffs = vec![0.25f32; 4];
    dot_prod_update(&mut buf, &data, &coeffs, 0.0f32, &step32);
    assert_eq!(buf, 1.0f32);
}

#[test]
fn utils_test_dot_prod_update() {
    let mut buf = 0.0;
    let data = vec![1.0; 4];
    let coeffs = vec![0.25; 4];
    utils::dot_prod_update(&mut buf, &data, &coeffs, 0.0, &step64);
    assert_eq!(buf, 1.0);
}

#[test]
fn lib_test_sav_gol() {
    let v = vec![0.0, 10.0, 0.0, 10.0, 0.0, 10.0, 0.0];
    let mut buf = vec![1.0, 2.0, 3.0, 4.0, 5.0, 6.0, 7.0];
    assert_eq!(sav_gol::<1, 1, _, _, _>(&mut buf, &v, &ratio64, &step64), Ok(()));
    let res = vec![
        1.0,
        3.333333333333333,
        6.666666666666666,
        3.333333333333333,
        6.666666666666666,
        3.333333333333333,
        7.0,
    ];
    assert_eq!(res, buf);
}

#[test]
fn test_sav_golf32() {
    let v = vec![0.0f32, 10.0f32, 0.0f32, 10.0f32, 0.0f32, 10.0f32, 0.0f32];
    let mut buf = vec![1.0f32, 2.0f32, 3.0f32, 4.0f32, 5.0f32, 6.0f32, 7.0f32];
    assert_eq!(sav_gol::<1, 1, _, _, _>(&mut buf, &v, &ratio32, &step32), Ok(()));
    let res = vec![
        1.0f32,
        3.3333335f32,
        6.666667f32,
        3.3333335f32,
        6.666667f32,
        3.3333335f32,
        7.0f32,
    ];
    assert_eq!(res, buf);
}

#[test]
fn utils_test_sav_gol() {
    let v = vec![0.0, 10.0, 0.0, 10.0, 0.0, 10.0, 0.0];
    let mut buf = vec![1.0, 2.0, 3.0, 4.0, 5.0, 6.0, 7.0];
    assert_eq!(utils::sav_gol::<1, 1, _, _, _>(&mut buf, &v, &ratio64, &step64), Ok(()));
    let res = vec![
        1.0,
        3.333333333333333,
        6.666666666666666,
        3.333333333333333,
        6.666666666666666,
        3.333333333333333,
        7.0,
    ];
    assert_eq!(res, buf);
}

#[test]
fn parallel_filter_gives_the_same_samples() {
    let data: Vec<f64> = (0..1000).map(|i| ((i * 37) % 101) as f64 * 0.25 - 7.0).collect();
    let mut seq = vec![-1.0; 1000];
    let mut par = vec![-1.0; 1000];
    assert_eq!(sav_gol::<4, 3, _, _, _>(&mut seq, &data, &ratio64, &step64), Ok(()));
    assert_eq!(par_sav_gol::<4, 3, _, _, _>(&mut par, &data, &ratio64, &step64), Ok(()));
    assert_eq!(seq, par);
    assert_eq!(&seq[..4], &[-1.0; 4]);
    assert_eq!(&seq[996..], &[-1.0; 4]);
    assert!(seq[4..996].iter().all(|v| *v != -1.0));
}

#[test]
fn unequal_buffers_are_refused_before_anything_else() {
    let data = vec![1.0; 9];
    let mut buf = vec![5.0; 8];
    assert_eq!(
        sav_gol::<1, 1, _, _, _>(&mut buf, &data, &ratio64, &step64),
        Err(FilterError::LengthMismatch)
    );
    assert_eq!(
        sav_gol::<1, 7, _, _, _>(&mut buf, &data, &ratio64, &step64),
        Err(FilterError::LengthMismatch)
    );
    assert_eq!(
        par_sav_gol::<1, 1, _, _, _>(&mut buf, &data, &ratio64, &step64),
        Err(FilterError::LengthMismatch)
    );
    assert_eq!(buf, vec![5.0; 8]);
}

#[test]
fn order_beyond_the_window_is_refused() {
    let data = vec![1.0; 9];
    let mut buf = vec![5.0; 9];
    assert_eq!(
        sav_gol::<1, 3, _, _, _>(&mut buf, &data, &ratio64, &step64),
        Err(FilterError::InvalidWindowParameters)
    );
    assert_eq!(buf, vec![5.0; 9]);
}

#[test]
fn short_input_is_left_alone() {
    let data = vec![1.0, 2.0];
    let mut buf = vec![8.0, 9.0];
    assert_eq!(sav_gol::<1, 1, _, _, _>(&mut buf, &data, &ratio64, &step64), Ok(()));
    assert_eq!(buf, vec![8.0, 9.0]);
    let mut none: Vec<f64> = Vec::new();
    assert_eq!(sav_gol::<2, 2, _, _, _>(&mut none, &[], &ratio64, &step64), Ok(()));
}
