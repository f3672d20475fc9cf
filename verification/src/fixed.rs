//! Fixed-point sample arithmetic.
//!
//! A sample is an `i64` holding a signal value scaled by `FP_ONE`:
//! `FP_ONE` is an amplitude of one, `-FP_ONE` an amplitude of minus one.
//! Every signal travelling through the graph is kept within
//! `[-AMP_LIMIT, AMP_LIMIT]`, which leaves headroom for control signals
//! (frequencies in hertz, scaled by `FP_ONE`) well above the audio range.
use vstd::prelude::*;

verus! {

/// The fixed-point representation of one.
pub const FP_ONE: i64 = 1_000_000;

/// Largest magnitude any signal sample or node parameter may take.
pub const AMP_LIMIT: i64 = 1_000_000_000_000;

/// A value within the signal headroom.
pub open spec fn in_amp_range(x: int) -> bool {
    -AMP_LIMIT <= x <= AMP_LIMIT
}

/// A value within the unit amplitude range.
pub open spec fn in_unit_range(x: int) -> bool {
    -FP_ONE <= x <= FP_ONE
}

/// Clamping an arbitrary value into the signal headroom.
pub open spec fn clamp_amp_spec(x: int) -> int {
    if x > AMP_LIMIT {
        AMP_LIMIT as int
    } else if x < -AMP_LIMIT {
        -AMP_LIMIT as int
    } else {
        x
    }
}

/// Truncating (round-toward-zero) division by `FP_ONE`, written so that it
/// is well defined on mathematical integers.
pub open spec fn div_fp(x: int) -> int {
    if x >= 0 {
        x / (FP_ONE as int)
    } else {
        -((-x) / (FP_ONE as int))
    }
}

/// The fixed-point product of two samples: the mathematical product,
/// rescaled by `FP_ONE` and clamped into the signal headroom.
pub open spec fn mul_fp_spec(a: int, b: int) -> int {
    clamp_amp_spec(div_fp(a * b))
}

/// The clamped sum of two samples.
pub open spec fn add_amp_spec(a: int, b: int) -> int {
    clamp_amp_spec(a + b)
}

/// Clamp a value into the signal headroom.
pub fn clamp_amp(x: i64) -> (r: i64)
    ensures
        r == clamp_amp_spec(x as int),
{
    if x > AMP_LIMIT {
        AMP_LIMIT
    } else if x < -AMP_LIMIT {
        -AMP_LIMIT
    } else {
        x
    }
}

/// Fixed-point multiply of two in-range samples.
pub fn mul_fp(a: i64, b: i64) -> (r: i64)
    requires
        in_amp_range(a as int),
        in_amp_range(b as int),
    ensures
        r == mul_fp_spec(a as int, b as int),
        in_amp_range(r as int),
{
    let negative: bool = (a < 0) != (b < 0);
    let ma: u64 = if a < 0 {
        (-a) as u64
    } else {
        a as u64
    };
    let mb: u64 = if b < 0 {
        (-b) as u64
    } else {
        b as u64
    };
    proof {
        assert((ma as int) * (mb as int) == (if (a as int) * (b as int) >= 0 {
            (a as int) * (b as int)
        } else {
            -((a as int) * (b as int))
        }) && (((a < 0) != (b < 0)) ==> (a as int) * (b as int) <= 0) && (!((a < 0) != (b
            < 0)) ==> (a as int) * (b as int) >= 0)) by (nonlinear_arith)
            requires
                ma == (if a < 0 { -(a as int) } else { a as int }),
                mb == (if b < 0 { -(b as int) } else { b as int }),
        ;
        assert((ma as int) * (mb as int) <= (AMP_LIMIT as int) * (AMP_LIMIT as int))
            by (nonlinear_arith)
            requires
                0 <= ma <= AMP_LIMIT as int,
                0 <= mb <= AMP_LIMIT as int,
        ;
    }
    let prod: u128 = (ma as u128) * (mb as u128);
    let mag: u128 = prod / (FP_ONE as u128);
    let clamped: u64 = if mag > AMP_LIMIT as u128 {
        AMP_LIMIT as u64
    } else {
        mag as u64
    };
    if negative {
        -(clamped as i64)
    } else {
        clamped as i64
    }
}

/// Clamped addition of two in-range samples.
pub fn add_amp(a: i64, b: i64) -> (r: i64)
    requires
        in_amp_range(a as int),
        in_amp_range(b as int),
    ensures
        r == add_amp_spec(a as int, b as int),
        in_amp_range(r as int),
{
    clamp_amp(a + b)
}

} // verus!
