use useful_noise::brownish_noise::{bounded_step, clamp_unit, reflect_unit, BoundaryPolicy, BrownishNoise};
use useful_noise::fixed::{AMP_LIMIT, FP_ONE};

#[test]
fn reflect_bounces_excursions_exactly() {
    // A forced candidate of 1.3 reflects to exactly 0.7, and -1.3 to -0.7.
    assert_eq!(reflect_unit(1_300_000), 700_000);
    assert_eq!(reflect_unit(-1_300_000), -700_000);
    assert_eq!(reflect_unit(250_000), 250_000);
    assert_eq!(reflect_unit(1_000_000), 1_000_000);
    assert_eq!(reflect_unit(-1_000_000), -1_000_000);
}

#[test]
fn clamp_truncates_excursions_exactly() {
    // A forced candidate of 1.3 clamps to exactly 1.0, and -1.3 to -1.0.
    assert_eq!(clamp_unit(1_300_000), 1_000_000);
    assert_eq!(clamp_unit(-1_300_000), -1_000_000);
    assert_eq!(clamp_unit(-999_999), -999_999);
}

#[test]
fn walk_stays_in_unit_range_clamp_policy() {
    // Ten thousand draws from a deterministic saw pattern never push the
    // clamped walk outside the unit range, even at a large scale.
    let mut value: i64 = 0;
    let mut draw: i64 = -FP_ONE;
    for _ in 0..10_000 {
        value = bounded_step(BoundaryPolicy::Clamp, value, AMP_LIMIT, draw);
        assert!(-FP_ONE <= value && value <= FP_ONE);
        draw += 77_777;
        if draw >= FP_ONE {
            draw -= 2 * FP_ONE;
        }
    }
}

#[test]
fn walk_stays_in_unit_range_reflect_policy() {
    // The reflecting walk, at its full admissible scale of one, stays in
    // the unit range across ten thousand deterministic draws.
    let mut value: i64 = 0;
    let mut draw: i64 = FP_ONE - 1;
    for _ in 0..10_000 {
        value = bounded_step(BoundaryPolicy::Reflect, value, FP_ONE, draw);
        assert!(-FP_ONE <= value && value <= FP_ONE);
        draw -= 99_991;
        if draw < -FP_ONE {
            draw += 2 * FP_ONE;
        }
    }
}

#[test]
fn random_walk_blocks_stay_bounded() {
    // Rendered with the real draws, ten thousand consecutive samples stay
    // within the unit range under both policies.
    let mut clamped = BrownishNoise::new_with_scale(300_000);
    let mut reflecting = BrownishNoise::new_with_policy(900_000, BoundaryPolicy::Reflect);
    for _ in 0..157 {
        let b1 = clamped.process_block();
        let b2 = reflecting.process_block();
        assert_eq!(b1.samples.len(), 64);
        assert_eq!(b2.samples.len(), 64);
        for i in 0..64 {
            assert!(-FP_ONE <= b1.samples[i] && b1.samples[i] <= FP_ONE);
            assert!(-FP_ONE <= b2.samples[i] && b2.samples[i] <= FP_ONE);
        }
    }
}

#[test]
fn walk_step_scales_the_draw() {
    // One step from zero at scale 0.5 with a forced full-range draw moves
    // by exactly half the draw: the walk really uses what it drew.
    let v = bounded_step(BoundaryPolicy::Clamp, 0, 500_000, 1_000_000);
    assert_eq!(v, 500_000);
    let v2 = bounded_step(BoundaryPolicy::Clamp, 0, 500_000, -600_000);
    assert_eq!(v2, -300_000);
}

#[test]
fn new_with_scale_starts_at_zero() {
    let n = BrownishNoise::new_with_scale(123_456);
    assert_eq!(n.brown_walk_scale, 123_456);
    assert_eq!(n.previous_brown_value, 0);
    assert!(matches!(n.policy, BoundaryPolicy::Clamp));
}
