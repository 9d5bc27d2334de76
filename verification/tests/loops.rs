use staged_sg_filter::utils::{const_generic_trip_count_loop, const_trip_count_loop, runtime_loop};

#[test]
fn runtime_loop_test() {
    assert_eq!(runtime_loop(1, 10), 21);
}

#[test]
fn constant_loop_test() {
    assert_eq!(const_trip_count_loop(1), 20_000_001);
}

#[test]
fn constant_generic_loop_test() {
    assert_eq!(const_generic_trip_count_loop::<10_000_000>(1), 20_000_001);
}

#[test]
fn rolling_avg_const_size_window_simdf64x8() {
    assert!(true);
}
