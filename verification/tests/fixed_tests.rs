use sim_core::fixed::{cos_milli, div_trunc_i64, isqrt_u64, max_i64, min_i64, sin_milli};

#[test]
fn integer_square_root_rounds_down() {
    assert_eq!(isqrt_u64(0), 0);
    assert_eq!(isqrt_u64(1), 1);
    assert_eq!(isqrt_u64(2), 1);
    assert_eq!(isqrt_u64(3), 1);
    assert_eq!(isqrt_u64(4), 2);
    assert_eq!(isqrt_u64(2500), 50);
    assert_eq!(isqrt_u64(2501), 50);
    assert_eq!(isqrt_u64(2601), 51);
    assert_eq!(isqrt_u64(225_000_000), 15000);
    assert_eq!(isqrt_u64(u64::MAX), 4_294_967_295);
}

#[test]
fn division_truncates_toward_zero() {
    assert_eq!(div_trunc_i64(7, 2), 3);
    assert_eq!(div_trunc_i64(-7, 2), -3);
    assert_eq!(div_trunc_i64(0, 5), 0);
    assert_eq!(div_trunc_i64(-1, 1000), 0);
}

#[test]
fn sine_hits_its_landmarks() {
    assert_eq!(sin_milli(0), 0);
    assert_eq!(sin_milli(1570), 999); // quarter period, amplitude ~ 1
    assert_eq!(sin_milli(3141), 0); // half period
    assert_eq!(sin_milli(4712), -999); // three quarters
    assert_eq!(sin_milli(100), sin_milli(100 + 6283)); // periodic
    assert_eq!(cos_milli(0), 999);
    for phase in 0..7000u64 {
        let s = sin_milli(phase);
        assert!((-1000..=1000).contains(&s));
    }
}

#[test]
fn min_and_max_pick_the_right_ends() {
    assert_eq!(min_i64(3, -5), -5);
    assert_eq!(max_i64(3, -5), 3);
    assert_eq!(min_i64(7, 7), 7);
    assert_eq!(max_i64(i64::MIN, i64::MAX), i64::MAX);
}
