use firework::num::{
    cos_milli, exp_neg_milli, fp_add, fp_mul_milli, fp_sub, isqrt_u128, sin_milli, speed_milli,
    FP_LIMIT,
};

#[test]
fn fp_products_truncate_toward_zero() {
    assert_eq!(fp_mul_milli(1500, 2000), 3000);
    assert_eq!(fp_mul_milli(1500, -2000), -3000);
    assert_eq!(fp_mul_milli(-1, 1), 0);
    assert_eq!(fp_mul_milli(1, -1), 0);
    assert_eq!(fp_mul_milli(9800, 100), 980);
    assert_eq!(fp_mul_milli(-9800, 100), -980);
    assert_eq!(fp_mul_milli(1999, 1), 1);
}

#[test]
fn fp_sums_saturate_at_the_limit() {
    assert_eq!(fp_add(FP_LIMIT, FP_LIMIT), FP_LIMIT);
    assert_eq!(fp_sub(-FP_LIMIT, FP_LIMIT), -FP_LIMIT);
    assert_eq!(fp_add(1, 2), 3);
    assert_eq!(fp_mul_milli(FP_LIMIT, FP_LIMIT), FP_LIMIT);
    assert_eq!(fp_mul_milli(-FP_LIMIT, FP_LIMIT), -FP_LIMIT);
}

#[test]
fn isqrt_exact_cases() {
    assert_eq!(isqrt_u128(0), 0);
    assert_eq!(isqrt_u128(1), 1);
    assert_eq!(isqrt_u128(2), 1);
    assert_eq!(isqrt_u128(3), 1);
    assert_eq!(isqrt_u128(4), 2);
    assert_eq!(isqrt_u128(10), 3);
    assert_eq!(isqrt_u128(1_500_000), 1224);
    assert_eq!(isqrt_u128(u64::MAX as u128), 4294967295);
}

#[test]
fn isqrt_brackets_its_argument() {
    let mut n: u128 = 1;
    while n < 1u128 << 100 {
        let r = isqrt_u128(n);
        assert!(r * r <= n);
        assert!((r + 1) * (r + 1) > n);
        n = n * 3 + 7;
    }
}

#[test]
fn speed_is_the_euclidean_norm() {
    assert_eq!(speed_milli(3000, 4000), 5000);
    assert_eq!(speed_milli(-3000, 4000), 5000);
    assert_eq!(speed_milli(0, 0), 0);
    assert_eq!(speed_milli(0, -7000), 7000);
    assert_eq!(speed_milli(1000, 1000), 1414);
}

#[test]
fn sine_and_cosine_exact_points() {
    assert_eq!(sin_milli(0), 0);
    assert_eq!(sin_milli(1571), 1000);
    assert_eq!(sin_milli(3142), 0);
    assert_eq!(sin_milli(-1571), -1000);
    assert_eq!(cos_milli(0), 1000);
    assert_eq!(cos_milli(3142), -1000);
}

#[test]
fn sine_and_cosine_track_the_real_functions() {
    let mut theta: i64 = -6284;
    while theta <= 4713 {
        let s = sin_milli(theta) as f64 / 1000.0;
        let c = cos_milli(theta) as f64 / 1000.0;
        let t = theta as f64 / 1000.0;
        assert!((s - t.sin()).abs() < 0.005, "sin at {theta}: {s}");
        assert!((c - t.cos()).abs() < 0.005, "cos at {theta}: {c}");
        theta += 13;
    }
}

#[test]
fn exponential_decay_exact_points() {
    assert_eq!(exp_neg_milli(0), 1000);
    assert_eq!(exp_neg_milli(900), 407);
    assert_eq!(exp_neg_milli(1000), 368);
    assert_eq!(exp_neg_milli(21000), 0);
    assert_eq!(exp_neg_milli(i64::MAX), 0);
}

#[test]
fn exponential_decay_tracks_the_real_function() {
    let mut x: i64 = 0;
    while x <= 22000 {
        let e = exp_neg_milli(x) as f64 / 1000.0;
        let t = (-(x as f64) / 1000.0).exp();
        assert!((e - t).abs() < 0.01, "exp at {x}: {e} vs {t}");
        x += 37;
    }
}
