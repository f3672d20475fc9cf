//! The brownish-noise generator: a bounded random walk.
//!
//! Each sample moves the previous value by a uniformly drawn step scaled by
//! `brown_walk_scale`, then forces the result back into the unit amplitude
//! range. Two boundary policies exist: reflecting (an excursion bounces off
//! the boundary, keeping its magnitude) and the hard clamp (the excursion is
//! truncated at the boundary). `new_with_scale` picks the hard clamp; the
//! reflecting policy keeps the walk in range only while the scale stays at
//! or below one, and its constructor demands that.
use crate::block::{block_wf, AudioBlock, BLOCK_LEN};
use crate::fixed::{div_fp, in_unit_range, AMP_LIMIT, FP_ONE};
use vstd::arithmetic::div_mod::{lemma_div_is_ordered, lemma_div_multiples_vanish};
use vstd::prelude::*;

verus! {

/// How an out-of-range candidate value is forced back into the unit range.
#[derive(Clone, Copy, PartialEq, Eq, Structural)]
pub enum BoundaryPolicy {
    Reflect,
    Clamp,
}

/// State of the bounded random walk: the step scale and the walk's memory,
/// the value produced for the previous sample.
#[derive(Clone, Copy)]
pub struct BrownishNoise {
    pub brown_walk_scale: i64,
    pub previous_brown_value: i64,
    pub policy: BoundaryPolicy,
}

/// Valid generator state: the previous value sits in the unit range, the
/// scale is a non-negative in-range value, and a reflecting walk keeps its
/// scale at or below one so that a single reflection always lands inside.
pub open spec fn noise_wf(n: &BrownishNoise) -> bool {
    &&& in_unit_range(n.previous_brown_value as int)
    &&& 0 <= n.brown_walk_scale <= AMP_LIMIT
    &&& n.policy == BoundaryPolicy::Reflect ==> n.brown_walk_scale <= FP_ONE
}

/// Mirror an out-of-range candidate back across the unit boundary.
pub open spec fn reflect_unit_spec(c: int) -> int {
    if c > FP_ONE {
        2 * FP_ONE - c
    } else if c < -FP_ONE {
        -2 * FP_ONE - c
    } else {
        c
    }
}

/// Truncate an out-of-range candidate at the unit boundary.
pub open spec fn clamp_unit_spec(c: int) -> int {
    if c > FP_ONE {
        FP_ONE as int
    } else if c < -FP_ONE {
        -FP_ONE as int
    } else {
        c
    }
}

/// One step of the walk before the boundary policy: the scale times the
/// draw, both fixed point.
pub open spec fn walk_step_spec(scale: int, draw: int) -> int {
    div_fp(scale * draw)
}

/// The value the walk takes after one draw.
pub open spec fn noise_next_spec(policy: BoundaryPolicy, prev: int, scale: int, draw: int) -> int {
    let candidate = prev + walk_step_spec(scale, draw);
    if policy == BoundaryPolicy::Reflect {
        reflect_unit_spec(candidate)
    } else {
        clamp_unit_spec(candidate)
    }
}

/// A draw as the generator asks for it: uniform over the unit range,
/// including the lower bound and excluding the upper.
pub open spec fn draw_in_range(d: i64) -> bool {
    -FP_ONE <= d < FP_ONE
}

/// The outputs a walk produces from a sequence of draws: each output is one
/// step taken from the value before it, and each becomes the memory for the
/// next.
pub open spec fn noise_block_rel(
    policy: BoundaryPolicy,
    prev0: i64,
    scale: i64,
    draws: Seq<i64>,
    outs: Seq<i64>,
) -> bool {
    &&& outs.len() == draws.len()
    &&& forall|i: int|
        0 <= i < outs.len() ==> outs[i] as int == noise_next_spec(
            policy,
            (if i == 0 {
                prev0 as int
            } else {
                outs[i - 1] as int
            }),
            scale as int,
            draws[i] as int,
        )
}

/// A full block of outputs together with in-range draws that produce it.
pub open spec fn noise_block_witnessed(
    policy: BoundaryPolicy,
    prev0: i64,
    scale: i64,
    draws: Seq<i64>,
    outs: Seq<i64>,
) -> bool {
    &&& draws.len() == outs.len()
    &&& forall|i: int| 0 <= i < draws.len() ==> draw_in_range(#[trigger] draws[i])
    &&& noise_block_rel(policy, prev0, scale, draws, outs)
}

/// The scaled step never exceeds the scale in magnitude.
pub proof fn lemma_walk_step_bounded(scale: int, draw: int)
    requires
        0 <= scale,
        -FP_ONE <= draw <= FP_ONE,
    ensures
        -scale <= walk_step_spec(scale, draw) <= scale,
{
    assert((scale * draw >= 0 ==> scale * draw <= scale * (FP_ONE as int)) && (scale * draw < 0
        ==> -(scale * draw) <= scale * (FP_ONE as int)) && scale * (FP_ONE as int) == (FP_ONE
        as int) * scale) by (nonlinear_arith)
        requires
            0 <= scale,
            -FP_ONE <= draw <= FP_ONE,
    ;
    lemma_div_multiples_vanish(scale, FP_ONE as int);
    if scale * draw >= 0 {
        lemma_div_is_ordered(scale * draw, scale * (FP_ONE as int), FP_ONE as int);
        lemma_div_is_ordered(0, scale * draw, FP_ONE as int);
    } else {
        lemma_div_is_ordered(-(scale * draw), scale * (FP_ONE as int), FP_ONE as int);
        lemma_div_is_ordered(0, -(scale * draw), FP_ONE as int);
    }
}

/// A single step of a well-formed walk stays in the unit range.
pub proof fn lemma_noise_next_in_unit(policy: BoundaryPolicy, prev: int, scale: int, draw: int)
    requires
        in_unit_range(prev),
        0 <= scale <= AMP_LIMIT,
        policy == BoundaryPolicy::Reflect ==> scale <= FP_ONE,
        -FP_ONE <= draw <= FP_ONE,
    ensures
        in_unit_range(noise_next_spec(policy, prev, scale, draw)),
{
    lemma_walk_step_bounded(scale, draw);
}

proof fn lemma_noise_block_in_unit_at(
    policy: BoundaryPolicy,
    prev0: i64,
    scale: i64,
    draws: Seq<i64>,
    outs: Seq<i64>,
    i: int,
)
    requires
        in_unit_range(prev0 as int),
        0 <= scale <= AMP_LIMIT,
        policy == BoundaryPolicy::Reflect ==> scale <= FP_ONE,
        forall|j: int| 0 <= j < draws.len() ==> draw_in_range(#[trigger] draws[j]),
        noise_block_rel(policy, prev0, scale, draws, outs),
        0 <= i < outs.len(),
    ensures
        in_unit_range(outs[i] as int),
    decreases i,
{
    if i == 0 {
        lemma_noise_next_in_unit(policy, prev0 as int, scale as int, draws[0] as int);
    } else {
        lemma_noise_block_in_unit_at(policy, prev0, scale, draws, outs, i - 1);
        lemma_noise_next_in_unit(policy, outs[i - 1] as int, scale as int, draws[i] as int);
    }
}

/// Law: whatever the sequence of in-range draws, a well-formed walk never
/// leaves the unit amplitude range, under either boundary policy (the
/// reflecting policy under its scale bound).
pub proof fn lemma_noise_outputs_bounded(
    policy: BoundaryPolicy,
    prev0: i64,
    scale: i64,
    draws: Seq<i64>,
    outs: Seq<i64>,
)
    requires
        in_unit_range(prev0 as int),
        0 <= scale <= AMP_LIMIT,
        policy == BoundaryPolicy::Reflect ==> scale <= FP_ONE,
        forall|j: int| 0 <= j < draws.len() ==> draw_in_range(#[trigger] draws[j]),
        noise_block_rel(policy, prev0, scale, draws, outs),
    ensures
        forall|i: int| 0 <= i < outs.len() ==> in_unit_range(#[trigger] outs[i] as int),
{
    assert forall|i: int| 0 <= i < outs.len() implies in_unit_range(#[trigger] outs[i] as int) by {
        lemma_noise_block_in_unit_at(policy, prev0, scale, draws, outs, i);
    }
}

/// Mirror an out-of-range candidate back across the unit boundary.
pub fn reflect_unit(c: i64) -> (r: i64)
    requires
        -2 * FP_ONE <= c <= 2 * FP_ONE,
    ensures
        r as int == reflect_unit_spec(c as int),
        in_unit_range(r as int),
{
    if c > FP_ONE {
        2 * FP_ONE - c
    } else if c < -FP_ONE {
        -2 * FP_ONE - c
    } else {
        c
    }
}

/// Truncate an out-of-range candidate at the unit boundary.
pub fn clamp_unit(c: i64) -> (r: i64)
    ensures
        r as int == clamp_unit_spec(c as int),
        in_unit_range(r as int),
{
    if c > FP_ONE {
        FP_ONE
    } else if c < -FP_ONE {
        -FP_ONE
    } else {
        c
    }
}

/// The scaled walk step for one draw.
pub fn walk_step(scale: i64, draw: i64) -> (s: i64)
    requires
        0 <= scale <= AMP_LIMIT,
        -FP_ONE <= draw <= FP_ONE,
    ensures
        s as int == walk_step_spec(scale as int, draw as int),
        -scale <= s <= scale,
{
    let md: u64 = if draw < 0 {
        (-draw) as u64
    } else {
        draw as u64
    };
    proof {
        assert(((scale as int) * (md as int) == (if (scale as int) * (draw as int) >= 0 {
            (scale as int) * (draw as int)
        } else {
            -((scale as int) * (draw as int))
        })) && ((scale as int) * (md as int) <= (AMP_LIMIT as int) * (FP_ONE as int)) && ((draw
            < 0) ==> (scale as int) * (draw as int) <= 0) && ((draw >= 0) ==> (scale as int) * (
        draw as int) >= 0)) by (nonlinear_arith)
            requires
                0 <= scale <= AMP_LIMIT as int,
                md == (if draw < 0 { -(draw as int) } else { draw as int }),
                -FP_ONE <= draw <= FP_ONE,
        ;
    }
    let prod: u64 = (scale as u64) * md;
    let mag: u64 = prod / (FP_ONE as u64);
    proof {
        lemma_walk_step_bounded(scale as int, draw as int);
        assert((scale as int) * (md as int) <= (scale as int) * (FP_ONE as int))
            by (nonlinear_arith)
            requires
                0 <= scale,
                0 <= md <= FP_ONE as int,
        ;
        assert((scale as int) * (FP_ONE as int) == (FP_ONE as int) * (scale as int));
        lemma_div_multiples_vanish(scale as int, FP_ONE as int);
        lemma_div_is_ordered(prod as int, (scale as int) * (FP_ONE as int), FP_ONE as int);
        lemma_div_is_ordered(0, prod as int, FP_ONE as int);
    }
    if draw < 0 {
        -(mag as i64)
    } else {
        mag as i64
    }
}

/// One step of the bounded walk: scale the draw, add it to the previous
/// value, and force the candidate back into the unit range by the policy.
pub fn bounded_step(policy: BoundaryPolicy, prev: i64, scale: i64, draw: i64) -> (v: i64)
    requires
        in_unit_range(prev as int),
        0 <= scale <= AMP_LIMIT,
        policy == BoundaryPolicy::Reflect ==> scale <= FP_ONE,
        -FP_ONE <= draw <= FP_ONE,
    ensures
        v as int == noise_next_spec(policy, prev as int, scale as int, draw as int),
        in_unit_range(v as int),
{
    let step = walk_step(scale, draw);
    let candidate = prev + step;
    if policy == BoundaryPolicy::Reflect {
        reflect_unit(candidate)
    } else {
        clamp_unit(candidate)
    }
}

/// Relies on fastrand::i64: the result of a draw over a non-empty range
/// lies within that range, here at least -FP_ONE and strictly below FP_ONE.
#[verifier::external_body]
fn random_walk_draw() -> (r: i64)
    ensures
        -FP_ONE <= r < FP_ONE,
{
    fastrand::i64(-FP_ONE..FP_ONE)
}

impl BrownishNoise {
    /// A fresh walk with the given step scale, starting from zero, with the
    /// hard-clamp boundary policy.
    pub fn new_with_scale(scale: i64) -> (n: BrownishNoise)
        requires
            0 <= scale <= AMP_LIMIT,
        ensures
            noise_wf(&n),
            n.brown_walk_scale == scale,
            n.previous_brown_value == 0i64,
            n.policy == BoundaryPolicy::Clamp,
    {
        BrownishNoise { brown_walk_scale: scale, previous_brown_value: 0, policy: BoundaryPolicy::Clamp }
    }

    /// A fresh walk with an explicit boundary policy; a reflecting walk
    /// demands a scale at or below one.
    pub fn new_with_policy(scale: i64, policy: BoundaryPolicy) -> (n: BrownishNoise)
        requires
            0 <= scale <= AMP_LIMIT,
            policy == BoundaryPolicy::Reflect ==> scale <= FP_ONE,
        ensures
            noise_wf(&n),
            n.brown_walk_scale == scale,
            n.previous_brown_value == 0i64,
            n.policy == policy,
    {
        BrownishNoise { brown_walk_scale: scale, previous_brown_value: 0, policy }
    }

    /// Produce one block of noise. There is a sequence of in-range draws
    /// under which the block is exactly the bounded walk from the previous
    /// value; every sample stays in the unit range, and the last sample
    /// becomes the walk's memory.
    pub fn process_block(&mut self) -> (out: AudioBlock)
        requires
            noise_wf(&*old(self)),
        ensures
            noise_wf(&*final(self)),
            final(self).brown_walk_scale == old(self).brown_walk_scale,
            final(self).policy == old(self).policy,
            block_wf(&out),
            forall|i: int| 0 <= i < out@.len() ==> in_unit_range(#[trigger] out@[i] as int),
            exists|draws: Seq<i64>|
                noise_block_witnessed(
                    old(self).policy,
                    old(self).previous_brown_value,
                    old(self).brown_walk_scale,
                    draws,
                    out@,
                ),
            final(self).previous_brown_value == out@[BLOCK_LEN - 1],
    {
        let policy = self.policy;
        let scale = self.brown_walk_scale;
        let prev0 = self.previous_brown_value;
        let mut samples: Vec<i64> = Vec::new();
        let ghost mut draws: Seq<i64> = Seq::empty();
        let mut value = prev0;
        while samples.len() < BLOCK_LEN
            invariant
                samples@.len() <= BLOCK_LEN,
                draws.len() == samples@.len(),
                forall|j: int| 0 <= j < draws.len() ==> draw_in_range(#[trigger] draws[j]),
                noise_block_rel(policy, prev0, scale, draws, samples@),
                forall|i: int| 0 <= i < samples@.len() ==> in_unit_range(#[trigger] samples@[i] as int),
                in_unit_range(value as int),
                value == (if samples@.len() == 0 {
                    prev0
                } else {
                    samples@[samples@.len() - 1]
                }),
                in_unit_range(prev0 as int),
                0 <= scale <= AMP_LIMIT,
                policy == BoundaryPolicy::Reflect ==> scale <= FP_ONE,
            decreases BLOCK_LEN - samples@.len(),
        {
            let d = random_walk_draw();
            value = bounded_step(policy, value, scale, d);
            samples.push(value);
            proof {
                draws = draws.push(d);
            }
        }
        self.previous_brown_value = value;
        let out = AudioBlock { samples };
        proof {
            assert(noise_block_witnessed(policy, prev0, scale, draws, out@));
        }
        out
    }
}

} // verus!

