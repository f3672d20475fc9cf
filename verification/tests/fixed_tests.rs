use useful_noise::fixed::{add_amp, clamp_amp, mul_fp, AMP_LIMIT, FP_ONE};

#[test]
fn fixed_point_products_are_exact() {
    assert_eq!(mul_fp(500_000, FP_ONE), 500_000);
    assert_eq!(mul_fp(300_000, FP_ONE), 300_000);
    assert_eq!(mul_fp(-300_000, 2_000_000), -600_000);
    assert_eq!(mul_fp(500_000, -500_000), -250_000);
    assert_eq!(mul_fp(0, AMP_LIMIT), 0);
}

#[test]
fn fixed_point_products_truncate_toward_zero() {
    assert_eq!(mul_fp(1, 1), 0);
    assert_eq!(mul_fp(-1, 1), 0);
}

#[test]
fn headroom_is_clamped() {
    assert_eq!(mul_fp(AMP_LIMIT, AMP_LIMIT), AMP_LIMIT);
    assert_eq!(mul_fp(-AMP_LIMIT, AMP_LIMIT), -AMP_LIMIT);
    assert_eq!(add_amp(AMP_LIMIT, AMP_LIMIT), AMP_LIMIT);
    assert_eq!(add_amp(-AMP_LIMIT, -3), -AMP_LIMIT);
    assert_eq!(clamp_amp(i64::MAX), AMP_LIMIT);
    assert_eq!(clamp_amp(i64::MIN), -AMP_LIMIT);
    assert_eq!(clamp_amp(17), 17);
}

#[test]
fn sums_within_headroom_are_exact() {
    assert_eq!(add_amp(400_000_000, -150_000_000), 250_000_000);
    assert_eq!(add_amp(-1, 1), 0);
}
