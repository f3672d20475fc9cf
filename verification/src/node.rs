//! Signal-processing nodes.
//!
//! A node is a unit of per-sample processing with a small typed parameter
//! surface: it can process one block of input samples into one block of
//! output samples, and it can receive a parameter update addressed to one
//! of its slots. The closed set of kinds is a tagged union; each kind's
//! per-block behaviour is stated exactly by `node_block_rel`.
use crate::block::{block_wf, AudioBlock, BLOCK_LEN};
use crate::brownish_noise::{
    noise_block_witnessed, noise_wf, BoundaryPolicy, BrownishNoise,
};
use crate::fixed::{
    add_amp, add_amp_spec, div_fp, in_amp_range, mul_fp, mul_fp_spec, AMP_LIMIT, FP_ONE,
};
use vstd::arithmetic::div_mod::{lemma_div_is_ordered, lemma_div_multiples_vanish};
use vstd::prelude::*;

verus! {

/// Samples per second, shared by the whole graph.
pub const SAMPLE_RATE: i64 = 44_100;

/// Upper bound on an impulse period, in samples: the period of a one-hertz
/// impulse. Counters never exceed it.
pub const MAX_PERIOD: u64 = 44_100 * 1_000_000;

/// Saturation point for an envelope's sample clock; past the longest
/// possible attack plus decay, so a saturated clock always reads as idle.
pub const MAX_ENV_T: u64 = 100_000_000_000;

/// A parameter value carried by an update message.
#[derive(Clone, PartialEq, Eq)]
pub enum Value {
    Number(i64),
    List(Vec<i64>),
}

/// Why a parameter update could not be delivered. Such an update is
/// reported and dropped; it never changes an unrelated field and never
/// panics the renderer.
#[derive(Clone, Copy, PartialEq, Eq, Structural)]
pub enum DeliveryError {
    /// The message's target is not a node of this graph.
    UnknownNodeReference,
    /// The target node has no such parameter slot.
    UnknownSlot,
    /// The slot exists but the value is of the wrong kind.
    ValueKindMismatch,
    /// The slot exists but the value lies outside the slot's range.
    ValueOutOfRange,
}

/// Pass-through node: copies its (combined) input block unchanged.
#[derive(Clone, Copy, PartialEq, Eq, Structural)]
pub struct DebugNode;

/// Multiplies the product of its inputs by a factor.
#[derive(Clone, Copy)]
pub struct GainNode {
    pub factor: i64,
}

/// Adds a constant offset to the sum of its inputs.
#[derive(Clone, Copy)]
pub struct OffsetNode {
    pub offset: i64,
}

/// A phase-accumulator oscillator with a triangular waveshape. When edges
/// feed it, the input signal is read as the frequency; otherwise its own
/// frequency parameter is used.
#[derive(Clone, Copy)]
pub struct SineOsc {
    pub freq: i64,
    pub phase: i64,
}

/// A one-pole low-pass filter: each output moves the previous output
/// toward the input by a fraction derived from the cutoff.
#[derive(Clone, Copy)]
pub struct LowPassFilter {
    pub cutoff: i64,
    pub state: i64,
}

/// A percussive envelope: a linear attack ramp to one, then a linear decay
/// ramp to zero. A positive input sample retriggers it. Attack and decay
/// are fixed-point seconds; `t` counts samples since the last trigger and
/// saturates once the envelope is long over.
#[derive(Clone, Copy)]
pub struct EnvelopeNode {
    pub attack: i64,
    pub decay: i64,
    pub t: u64,
}

/// Emits a unit pulse once per period, derived from a frequency in hertz.
#[derive(Clone, Copy)]
pub struct ImpulseNode {
    pub freq: i64,
    pub counter: u64,
}

/// The closed set of node kinds.
#[derive(Clone, Copy)]
pub enum Node {
    Debug(DebugNode),
    Gain(GainNode),
    Offset(OffsetNode),
    Sine(SineOsc),
    LowPass(LowPassFilter),
    Envelope(EnvelopeNode),
    Impulse(ImpulseNode),
    Noise(BrownishNoise),
}

/// Well-formed node state.
pub open spec fn node_wf(n: &Node) -> bool {
    match n {
        Node::Debug(_) => true,
        Node::Gain(g) => in_amp_range(g.factor as int),
        Node::Offset(o) => in_amp_range(o.offset as int),
        Node::Sine(s) => 0 <= s.freq <= AMP_LIMIT && 0 <= s.phase < FP_ONE,
        Node::LowPass(l) => 0 <= l.cutoff <= AMP_LIMIT && in_amp_range(l.state as int),
        Node::Envelope(e) => 0 <= e.attack <= AMP_LIMIT && 0 <= e.decay <= AMP_LIMIT && e.t
            <= MAX_ENV_T,
        Node::Impulse(im) => 0 <= im.freq <= AMP_LIMIT && im.counter <= MAX_PERIOD,
        Node::Noise(b) => noise_wf(b),
    }
}

/// Whether a node combines several incoming signals by multiplying them
/// (a gain stage) rather than summing them.
pub open spec fn combines_by_product(n: &Node) -> bool {
    n is Gain
}

// ---------------------------------------------------------------------------
// Parameter delivery
// ---------------------------------------------------------------------------

/// What a parameter update does to a node: either the updated node, or the
/// delivery error that makes the update undeliverable. Slot zero is a
/// node's primary parameter (gain factor, offset, frequency, cutoff, walk
/// scale, envelope attack); slot one is the envelope's decay. List values
/// match no slot, and values outside a slot's range are refused.
pub open spec fn receive_spec(n: Node, slot: u32, v: Value) -> Result<Node, DeliveryError> {
    match v {
        Value::List(_) => Err(DeliveryError::ValueKindMismatch),
        Value::Number(x) => match n {
            Node::Debug(_) => Err(DeliveryError::UnknownSlot),
            Node::Gain(_) => if slot == 0 {
                if -AMP_LIMIT <= x <= AMP_LIMIT {
                    Ok(Node::Gain(GainNode { factor: x }))
                } else {
                    Err(DeliveryError::ValueOutOfRange)
                }
            } else {
                Err(DeliveryError::UnknownSlot)
            },
            Node::Offset(_) => if slot == 0 {
                if -AMP_LIMIT <= x <= AMP_LIMIT {
                    Ok(Node::Offset(OffsetNode { offset: x }))
                } else {
                    Err(DeliveryError::ValueOutOfRange)
                }
            } else {
                Err(DeliveryError::UnknownSlot)
            },
            Node::Sine(s) => if slot == 0 {
                if 0 <= x <= AMP_LIMIT {
                    Ok(Node::Sine(SineOsc { freq: x, phase: s.phase }))
                } else {
                    Err(DeliveryError::ValueOutOfRange)
                }
            } else {
                Err(DeliveryError::UnknownSlot)
            },
            Node::LowPass(l) => if slot == 0 {
                if 0 <= x <= AMP_LIMIT {
                    Ok(Node::LowPass(LowPassFilter { cutoff: x, state: l.state }))
                } else {
                    Err(DeliveryError::ValueOutOfRange)
                }
            } else {
                Err(DeliveryError::UnknownSlot)
            },
            Node::Envelope(e) => if slot == 0 {
                if 0 <= x <= AMP_LIMIT {
                    Ok(Node::Envelope(EnvelopeNode { attack: x, decay: e.decay, t: e.t }))
                } else {
                    Err(DeliveryError::ValueOutOfRange)
                }
            } else if slot == 1 {
                if 0 <= x <= AMP_LIMIT {
                    Ok(Node::Envelope(EnvelopeNode { attack: e.attack, decay: x, t: e.t }))
                } else {
                    Err(DeliveryError::ValueOutOfRange)
                }
            } else {
                Err(DeliveryError::UnknownSlot)
            },
            Node::Impulse(im) => if slot == 0 {
                if 0 <= x <= AMP_LIMIT {
                    Ok(Node::Impulse(ImpulseNode { freq: x, counter: im.counter }))
                } else {
                    Err(DeliveryError::ValueOutOfRange)
                }
            } else {
                Err(DeliveryError::UnknownSlot)
            },
            Node::Noise(b) => if slot == 0 {
                if 0 <= x <= AMP_LIMIT && (b.policy == BoundaryPolicy::Reflect ==> x <= FP_ONE) {
                    Ok(
                        Node::Noise(
                            BrownishNoise {
                                brown_walk_scale: x,
                                previous_brown_value: b.previous_brown_value,
                                policy: b.policy,
                            },
                        ),
                    )
                } else {
                    Err(DeliveryError::ValueOutOfRange)
                }
            } else {
                Err(DeliveryError::UnknownSlot)
            },
        },
    }
}

/// Delivery preserves node well-formedness.
pub proof fn lemma_receive_spec_wf(n: Node, slot: u32, v: Value)
    requires
        node_wf(&n),
        receive_spec(n, slot, v) is Ok,
    ensures
        node_wf(&receive_spec(n, slot, v)->Ok_0),
{
}

/// Law: within one drain, the later of two updates to the same slot wins;
/// delivering an accepted update twice leaves exactly the later one.
pub proof fn lemma_receive_last_wins(n: Node, slot: u32, v1: Value, v2: Value)
    requires
        receive_spec(n, slot, v1) is Ok,
    ensures
        receive_spec(receive_spec(n, slot, v1)->Ok_0, slot, v2) == receive_spec(n, slot, v2),
{
}

// ---------------------------------------------------------------------------
// Per-block processing
// ---------------------------------------------------------------------------

/// Phase advance per sample for a (non-negative) frequency.
pub open spec fn phase_inc_spec(f: int) -> int {
    (if f < 0 {
        0
    } else {
        f
    }) / (SAMPLE_RATE as int)
}

/// The oscillator's waveshape: a triangle from minus one up to one and
/// back, over one phase cycle.
pub open spec fn tri_wave_spec(p: int) -> int {
    if p <= (FP_ONE as int) / 2 {
        4 * p - FP_ONE
    } else {
        3 * FP_ONE - 4 * p
    }
}

/// The frequency an oscillator follows at one sample: its input signal
/// when edges feed it, its own parameter otherwise.
pub open spec fn sine_freq_at(s0: SineOsc, driven: bool, x: int) -> int {
    if driven {
        if x < 0 {
            0
        } else {
            x
        }
    } else {
        s0.freq as int
    }
}

/// One oscillator sample: the output reads the waveshape at the current
/// phase, and the phase advances by the frequency's increment, wrapping.
pub open spec fn sine_sample_rel(
    s0: SineOsc,
    driven: bool,
    input: Seq<i64>,
    out: Seq<i64>,
    phases: Seq<i64>,
    i: int,
) -> bool {
    &&& out[i] as int == tri_wave_spec(phases[i] as int)
    &&& phases[i + 1] as int == (phases[i] + phase_inc_spec(sine_freq_at(s0, driven, input[i] as int)))
        % (FP_ONE as int)
}

/// A whole oscillator block, chained through its phase trajectory.
pub open spec fn sine_run_rel(
    s0: SineOsc,
    s1: SineOsc,
    driven: bool,
    input: Seq<i64>,
    out: Seq<i64>,
    phases: Seq<i64>,
) -> bool {
    &&& phases.len() == out.len() + 1
    &&& phases[0] == s0.phase
    &&& forall|i: int| 0 <= i < out.len() ==> sine_sample_rel(s0, driven, input, out, phases, i)
    &&& s1.phase == phases[out.len() as int]
    &&& s1.freq == s0.freq
}

/// Seconds (fixed point) to whole samples.
pub open spec fn env_samples(sec: int) -> int {
    (sec * (SAMPLE_RATE as int)) / (FP_ONE as int)
}

/// The envelope curve at `t` samples after a trigger: a linear ramp up to
/// one across the attack, a linear ramp down to zero across the decay,
/// zero afterwards.
pub open spec fn env_value_spec(t: int, a_s: int, d_s: int) -> int {
    if 0 <= t < a_s {
        ((t + 1) * FP_ONE) / a_s
    } else if a_s <= t < a_s + d_s {
        ((a_s + d_s - t) * FP_ONE) / d_s
    } else {
        0
    }
}

/// One envelope sample: a positive input retriggers the clock, the output
/// reads the curve, and the clock advances, saturating.
pub open spec fn env_sample_rel(
    e0: EnvelopeNode,
    input: Seq<i64>,
    out: Seq<i64>,
    ts: Seq<u64>,
    i: int,
) -> bool {
    let a_s = env_samples(e0.attack as int);
    let d_s = env_samples(e0.decay as int);
    let tcur: int = if input[i] > 0 {
        0
    } else {
        ts[i] as int
    };
    &&& out[i] as int == env_value_spec(tcur, a_s, d_s)
    &&& ts[i + 1] as int == (if tcur + 1 > MAX_ENV_T {
        MAX_ENV_T as int
    } else {
        tcur + 1
    })
}

/// A whole envelope block, chained through its clock trajectory.
pub open spec fn env_run_rel(
    e0: EnvelopeNode,
    e1: EnvelopeNode,
    input: Seq<i64>,
    out: Seq<i64>,
    ts: Seq<u64>,
) -> bool {
    &&& ts.len() == out.len() + 1
    &&& ts[0] == e0.t
    &&& forall|i: int| 0 <= i < out.len() ==> env_sample_rel(e0, input, out, ts, i)
    &&& e1.t == ts[out.len() as int]
    &&& e1.attack == e0.attack
    &&& e1.decay == e0.decay
}

/// An impulse node's period in samples, at least one; zero means a silent
/// (zero-frequency) node that never fires.
pub open spec fn period_spec(f: int) -> int {
    if f <= 0 {
        0
    } else {
        let p = ((SAMPLE_RATE as int) * (FP_ONE as int)) / f;
        if p < 1 {
            1
        } else {
            p
        }
    }
}

/// One impulse sample: a unit pulse each time the counter passes zero.
pub open spec fn impulse_sample_rel(im0: ImpulseNode, out: Seq<i64>, cnts: Seq<u64>, i: int) -> bool {
    let period = period_spec(im0.freq as int);
    if im0.freq <= 0 {
        &&& out[i] == 0i64
        &&& cnts[i + 1] == cnts[i]
    } else {
        &&& out[i] == (if cnts[i] == 0 {
            FP_ONE
        } else {
            0i64
        })
        &&& cnts[i + 1] as int == (if cnts[i] + 1 >= period {
            0
        } else {
            cnts[i] as int + 1
        })
    }
}

/// A whole impulse block, chained through its counter trajectory.
pub open spec fn impulse_run_rel(
    im0: ImpulseNode,
    im1: ImpulseNode,
    out: Seq<i64>,
    cnts: Seq<u64>,
) -> bool {
    &&& cnts.len() == out.len() + 1
    &&& cnts[0] == im0.counter
    &&& forall|i: int| 0 <= i < out.len() ==> impulse_sample_rel(im0, out, cnts, i)
    &&& im1.counter == cnts[out.len() as int]
    &&& im1.freq == im0.freq
}

/// The filter's smoothing fraction for a cutoff, capped at one.
pub open spec fn alpha_spec(c: int) -> int {
    let a = (if c < 0 {
        0
    } else {
        c
    }) / (SAMPLE_RATE as int);
    if a > FP_ONE {
        FP_ONE as int
    } else {
        a
    }
}

/// One filter output: the previous output moved toward the input by the
/// smoothing fraction.
pub open spec fn lp_next_spec(y: int, alpha: int, x: int) -> int {
    y + div_fp(alpha * (x - y))
}

/// A whole filter block: each output feeds the next step, and the final
/// output becomes the filter's state.
pub open spec fn lp_run_rel(
    l0: LowPassFilter,
    l1: LowPassFilter,
    input: Seq<i64>,
    out: Seq<i64>,
) -> bool {
    &&& out.len() == input.len()
    &&& forall|i: int|
        0 <= i < out.len() ==> (#[trigger] out[i]) as int == lp_next_spec(
            (if i == 0 {
                l0.state as int
            } else {
                out[i - 1] as int
            }),
            alpha_spec(l0.cutoff as int),
            input[i] as int,
        )
    &&& l1.state == (if out.len() == 0 {
        l0.state
    } else {
        out[out.len() - 1]
    })
    &&& l1.cutoff == l0.cutoff
}

/// What one render call does to a node, given the block of combined input
/// it was fed and whether any edges feed it at all.
pub open spec fn node_block_rel(
    before: Node,
    after: Node,
    driven: bool,
    input: Seq<i64>,
    out: Seq<i64>,
) -> bool {
    match (before, after) {
        (Node::Debug(_), Node::Debug(_)) => out == input,
        (Node::Gain(g0), Node::Gain(g1)) => {
            &&& g1 == g0
            &&& out.len() == input.len()
            &&& forall|i: int|
                0 <= i < out.len() ==> (#[trigger] out[i]) as int == mul_fp_spec(
                    g0.factor as int,
                    input[i] as int,
                )
        },
        (Node::Offset(o0), Node::Offset(o1)) => {
            &&& o1 == o0
            &&& out.len() == input.len()
            &&& forall|i: int|
                0 <= i < out.len() ==> (#[trigger] out[i]) as int == add_amp_spec(
                    o0.offset as int,
                    input[i] as int,
                )
        },
        (Node::Sine(s0), Node::Sine(s1)) => {
            &&& out.len() == input.len()
            &&& exists|phases: Seq<i64>| sine_run_rel(s0, s1, driven, input, out, phases)
        },
        (Node::LowPass(l0), Node::LowPass(l1)) => lp_run_rel(l0, l1, input, out),
        (Node::Envelope(e0), Node::Envelope(e1)) => {
            &&& out.len() == input.len()
            &&& exists|ts: Seq<u64>| env_run_rel(e0, e1, input, out, ts)
        },
        (Node::Impulse(im0), Node::Impulse(im1)) => {
            &&& out.len() == input.len()
            &&& exists|cnts: Seq<u64>| impulse_run_rel(im0, im1, out, cnts)
        },
        (Node::Noise(b0), Node::Noise(b1)) => {
            &&& out.len() == input.len()
            &&& b1.brown_walk_scale == b0.brown_walk_scale
            &&& b1.policy == b0.policy
            &&& exists|draws: Seq<i64>|
                noise_block_witnessed(
                    b0.policy,
                    b0.previous_brown_value,
                    b0.brown_walk_scale,
                    draws,
                    out,
                )
            &&& b1.previous_brown_value == (if out.len() == 0 {
                b0.previous_brown_value
            } else {
                out[out.len() - 1]
            })
        },
        _ => false,
    }
}

impl Node {
    /// Apply one parameter update, or report why it cannot be delivered.
    pub fn receive(&mut self, slot: u32, value: &Value) -> (r: Result<(), DeliveryError>)
        requires
            node_wf(&*old(self)),
        ensures
            node_wf(&*final(self)),
            match r {
                Ok(_) => receive_spec(*old(self), slot, *value) == Ok::<Node, DeliveryError>(
                    *final(self),
                ),
                Err(e) => *final(self) == *old(self) && receive_spec(*old(self), slot, *value)
                    == Err::<Node, DeliveryError>(e),
            },
    {
        let x: i64 = match value {
            Value::List(_) => {
                return Err(DeliveryError::ValueKindMismatch);
            },
            Value::Number(x) => *x,
        };
        match self {
            Node::Debug(_) => Err(DeliveryError::UnknownSlot),
            Node::Gain(g) => {
                if slot == 0 {
                    if -AMP_LIMIT <= x && x <= AMP_LIMIT {
                        g.factor = x;
                        Ok(())
                    } else {
                        Err(DeliveryError::ValueOutOfRange)
                    }
                } else {
                    Err(DeliveryError::UnknownSlot)
                }
            },
            Node::Offset(o) => {
                if slot == 0 {
                    if -AMP_LIMIT <= x && x <= AMP_LIMIT {
                        o.offset = x;
                        Ok(())
                    } else {
                        Err(DeliveryError::ValueOutOfRange)
                    }
                } else {
                    Err(DeliveryError::UnknownSlot)
                }
            },
            Node::Sine(s) => {
                if slot == 0 {
                    if 0 <= x && x <= AMP_LIMIT {
                        s.freq = x;
                        Ok(())
                    } else {
                        Err(DeliveryError::ValueOutOfRange)
                    }
                } else {
                    Err(DeliveryError::UnknownSlot)
                }
            },
            Node::LowPass(l) => {
                if slot == 0 {
                    if 0 <= x && x <= AMP_LIMIT {
                        l.cutoff = x;
                        Ok(())
                    } else {
                        Err(DeliveryError::ValueOutOfRange)
                    }
                } else {
                    Err(DeliveryError::UnknownSlot)
                }
            },
            Node::Envelope(e) => {
                if slot == 0 {
                    if 0 <= x && x <= AMP_LIMIT {
                        e.attack = x;
                        Ok(())
                    } else {
                        Err(DeliveryError::ValueOutOfRange)
                    }
                } else if slot == 1 {
                    if 0 <= x && x <= AMP_LIMIT {
                        e.decay = x;
                        Ok(())
                    } else {
                        Err(DeliveryError::ValueOutOfRange)
                    }
                } else {
                    Err(DeliveryError::UnknownSlot)
                }
            },
            Node::Impulse(im) => {
                if slot == 0 {
                    if 0 <= x && x <= AMP_LIMIT {
                        im.freq = x;
                        Ok(())
                    } else {
                        Err(DeliveryError::ValueOutOfRange)
                    }
                } else {
                    Err(DeliveryError::UnknownSlot)
                }
            },
            Node::Noise(b) => {
                if slot == 0 {
                    if 0 <= x && x <= AMP_LIMIT && (!(b.policy == BoundaryPolicy::Reflect) || x
                        <= FP_ONE) {
                        b.brown_walk_scale = x;
                        Ok(())
                    } else {
                        Err(DeliveryError::ValueOutOfRange)
                    }
                } else {
                    Err(DeliveryError::UnknownSlot)
                }
            },
        }
    }
}

/// Half of the fixed-point one, the waveshape's turning point.
pub const HALF_FP: i64 = 500_000;

impl GainNode {
    /// A gain stage with the given factor.
    pub fn new(factor: i64) -> (g: GainNode)
        requires
            in_amp_range(factor as int),
        ensures
            g.factor == factor,
    {
        GainNode { factor }
    }
}

impl OffsetNode {
    /// An offset stage with the given constant.
    pub fn new(offset: i64) -> (o: OffsetNode)
        requires
            in_amp_range(offset as int),
        ensures
            o.offset == offset,
    {
        OffsetNode { offset }
    }
}

impl SineOsc {
    /// An oscillator at the given frequency, starting at phase zero.
    pub fn new(freq: i64) -> (s: SineOsc)
        requires
            0 <= freq <= AMP_LIMIT,
        ensures
            s.freq == freq,
            s.phase == 0i64,
    {
        SineOsc { freq, phase: 0 }
    }
}

impl LowPassFilter {
    /// A filter with the given cutoff, starting from silence.
    pub fn new(cutoff: i64) -> (l: LowPassFilter)
        requires
            0 <= cutoff <= AMP_LIMIT,
        ensures
            l.cutoff == cutoff,
            l.state == 0i64,
    {
        LowPassFilter { cutoff, state: 0 }
    }
}

impl EnvelopeNode {
    /// An envelope with the given attack and decay (fixed-point seconds),
    /// idle until first triggered.
    pub fn new(attack: i64, decay: i64) -> (e: EnvelopeNode)
        requires
            0 <= attack <= AMP_LIMIT,
            0 <= decay <= AMP_LIMIT,
        ensures
            e.attack == attack,
            e.decay == decay,
            e.t == MAX_ENV_T,
    {
        EnvelopeNode { attack, decay, t: MAX_ENV_T }
    }
}

impl ImpulseNode {
    /// An impulse generator at the given frequency; the first sample fires.
    pub fn new(freq: i64) -> (im: ImpulseNode)
        requires
            0 <= freq <= AMP_LIMIT,
        ensures
            im.freq == freq,
            im.counter == 0u64,
    {
        ImpulseNode { freq, counter: 0 }
    }
}

/// Fixed-point seconds to whole samples.
fn env_samples_exec(sec: i64) -> (r: u64)
    requires
        0 <= sec <= AMP_LIMIT,
    ensures
        r as int == env_samples(sec as int),
        r <= MAX_PERIOD,
{
    proof {
        assert((sec as int) * (SAMPLE_RATE as int) <= (AMP_LIMIT as int) * (SAMPLE_RATE as int))
            by (nonlinear_arith)
            requires
                0 <= sec <= AMP_LIMIT as int,
        ;
    }
    let n: u64 = (sec as u64) * (SAMPLE_RATE as u64);
    let r: u64 = n / (FP_ONE as u64);
    proof {
        lemma_div_is_ordered(n as int, (AMP_LIMIT as int) * (SAMPLE_RATE as int), FP_ONE as int);
        lemma_div_is_ordered(0, n as int, FP_ONE as int);
    }
    r
}

/// The envelope curve at one sample clock.
fn env_value_at(t: u64, a_s: u64, d_s: u64) -> (v: i64)
    requires
        a_s <= MAX_PERIOD,
        d_s <= MAX_PERIOD,
    ensures
        v as int == env_value_spec(t as int, a_s as int, d_s as int),
        0 <= v <= FP_ONE,
{
    if t < a_s {
        proof {
            assert((t as int + 1) * (FP_ONE as int) <= (a_s as int) * (FP_ONE as int) && (
            a_s as int) * (FP_ONE as int) <= (MAX_PERIOD as int) * (FP_ONE as int))
                by (nonlinear_arith)
                requires
                    t < a_s,
                    a_s <= MAX_PERIOD as int,
            ;
        }
        let num: u64 = (t + 1) * (FP_ONE as u64);
        let q: u64 = num / a_s;
        proof {
            lemma_div_is_ordered(num as int, (a_s as int) * (FP_ONE as int), a_s as int);
            lemma_div_multiples_vanish(FP_ONE as int, a_s as int);
            lemma_div_is_ordered(0, num as int, a_s as int);
        }
        q as i64
    } else if d_s > 0 && t < a_s + d_s {
        let rem: u64 = a_s + d_s - t;
        proof {
            assert((rem as int) * (FP_ONE as int) <= (d_s as int) * (FP_ONE as int) && (
            d_s as int) * (FP_ONE as int) <= (MAX_PERIOD as int) * (FP_ONE as int))
                by (nonlinear_arith)
                requires
                    rem <= d_s,
                    d_s <= MAX_PERIOD as int,
            ;
        }
        let num: u64 = rem * (FP_ONE as u64);
        let q: u64 = num / d_s;
        proof {
            lemma_div_is_ordered(num as int, (d_s as int) * (FP_ONE as int), d_s as int);
            lemma_div_multiples_vanish(FP_ONE as int, d_s as int);
            lemma_div_is_ordered(0, num as int, d_s as int);
        }
        q as i64
    } else {
        0
    }
}

/// The filter's smoothing fraction for a cutoff.
fn alpha_exec(cutoff: i64) -> (a: i64)
    requires
        0 <= cutoff <= AMP_LIMIT,
    ensures
        a as int == alpha_spec(cutoff as int),
        0 <= a <= FP_ONE,
{
    let q: u64 = (cutoff as u64) / (SAMPLE_RATE as u64);
    if q > FP_ONE as u64 {
        FP_ONE
    } else {
        q as i64
    }
}

/// One filter step: move `y` toward `x` by the fraction `alpha`.
fn lp_step(y: i64, alpha: i64, x: i64) -> (r: i64)
    requires
        in_amp_range(y as int),
        in_amp_range(x as int),
        0 <= alpha <= FP_ONE,
    ensures
        r as int == lp_next_spec(y as int, alpha as int, x as int),
        in_amp_range(r as int),
{
    let dneg: bool = x < y;
    let dm: u64 = if x >= y {
        (x - y) as u64
    } else {
        (y - x) as u64
    };
    proof {
        assert(((alpha as int) * (dm as int) == (if x >= y {
            (alpha as int) * ((x as int) - (y as int))
        } else {
            -((alpha as int) * ((x as int) - (y as int)))
        })) && ((alpha as int) * (dm as int) <= (FP_ONE as int) * (dm as int)) && (0 <= (
        alpha as int) * (dm as int))) by (nonlinear_arith)
            requires
                0 <= alpha <= FP_ONE as int,
                dm == (if x >= y { (x as int) - (y as int) } else { (y as int) - (x as int) }),
        ;
    }
    let prod: u64 = (alpha as u64) * dm;
    let mag: u64 = prod / (FP_ONE as u64);
    proof {
        lemma_div_is_ordered(prod as int, (FP_ONE as int) * (dm as int), FP_ONE as int);
        lemma_div_multiples_vanish(dm as int, FP_ONE as int);
        lemma_div_is_ordered(0, prod as int, FP_ONE as int);
    }
    if dneg {
        y - (mag as i64)
    } else {
        y + (mag as i64)
    }
}

impl SineOsc {
    /// Render one block: read the waveshape at the running phase, advance
    /// the phase by the frequency in force at each sample.
    fn process(&mut self, input: &AudioBlock, driven: bool) -> (out: AudioBlock)
        requires
            node_wf(&Node::Sine(*old(self))),
            block_wf(input),
        ensures
            node_wf(&Node::Sine(*final(self))),
            block_wf(&out),
            out@.len() == input@.len(),
            exists|phases: Seq<i64>|
                sine_run_rel(*old(self), *final(self), driven, input@, out@, phases),
    {
        let ghost s0 = *self;
        let freq = self.freq;
        let mut ph: i64 = self.phase;
        let mut samples: Vec<i64> = Vec::new();
        let ghost mut phases: Seq<i64> = seq![self.phase];
        let mut i: usize = 0;
        while i < BLOCK_LEN
            invariant
                i == samples@.len(),
                i <= BLOCK_LEN,
                block_wf(input),
                input@.len() == BLOCK_LEN,
                freq == s0.freq,
                0 <= freq <= AMP_LIMIT,
                phases.len() == i + 1,
                phases[0] == s0.phase,
                ph == phases[i as int],
                0 <= ph < FP_ONE,
                forall|j: int| 0 <= j < i ==> sine_sample_rel(s0, driven, input@, samples@, phases, j),
                forall|j: int| 0 <= j < i ==> in_amp_range(#[trigger] samples@[j] as int),
            decreases BLOCK_LEN - i,
        {
            let x = input.samples[i];
            let f: i64 = if driven {
                if x < 0 {
                    0
                } else {
                    x
                }
            } else {
                freq
            };
            let inc: u64 = (f as u64) / (SAMPLE_RATE as u64);
            let v: i64 = if ph <= HALF_FP {
                4 * ph - FP_ONE
            } else {
                3 * FP_ONE - 4 * ph
            };
            let ph2: u64 = ((ph as u64) + inc) % (FP_ONE as u64);
            let ghost samples_pre = samples@;
            let ghost phases_pre = phases;
            samples.push(v);
            ph = ph2 as i64;
            proof {
                phases = phases.push(ph);
                assert forall|j: int|
                    0 <= j < i + 1 implies sine_sample_rel(
                    s0,
                    driven,
                    input@,
                    samples@,
                    phases,
                    j,
                ) by {
                    if j < i {
                        assert(sine_sample_rel(s0, driven, input@, samples_pre, phases_pre, j));
                        assert(samples@[j] == samples_pre[j]);
                        assert(phases[j] == phases_pre[j]);
                        assert(phases[j + 1] == phases_pre[j + 1]);
                    } else {
                        assert(f as int == sine_freq_at(s0, driven, input@[j] as int));
                        assert(inc as int == phase_inc_spec(f as int));
                        assert(samples@[j] == v);
                        assert(phases[j] == phases_pre[j]);
                        assert(phases[j + 1] == ph);
                    }
                }
            }
            i += 1;
        }
        self.phase = ph;
        let out = AudioBlock { samples };
        proof {
            assert(sine_run_rel(s0, *self, driven, input@, out@, phases));
        }
        out
    }
}

impl LowPassFilter {
    /// Render one block: each output moves the previous one toward the
    /// input; the last output becomes the filter state.
    fn process(&mut self, input: &AudioBlock) -> (out: AudioBlock)
        requires
            node_wf(&Node::LowPass(*old(self))),
            block_wf(input),
        ensures
            node_wf(&Node::LowPass(*final(self))),
            block_wf(&out),
            out@.len() == input@.len(),
            lp_run_rel(*old(self), *final(self), input@, out@),
    {
        let ghost l0 = *self;
        let alpha = alpha_exec(self.cutoff);
        let mut y: i64 = self.state;
        let mut samples: Vec<i64> = Vec::new();
        let mut i: usize = 0;
        while i < BLOCK_LEN
            invariant
                i == samples@.len(),
                i <= BLOCK_LEN,
                block_wf(input),
                input@.len() == BLOCK_LEN,
                alpha as int == alpha_spec(l0.cutoff as int),
                0 <= alpha <= FP_ONE,
                in_amp_range(y as int),
                y == (if i == 0 {
                    l0.state
                } else {
                    samples@[i - 1]
                }),
                forall|j: int|
                    0 <= j < i ==> (#[trigger] samples@[j]) as int == lp_next_spec(
                        (if j == 0 {
                            l0.state as int
                        } else {
                            samples@[j - 1] as int
                        }),
                        alpha_spec(l0.cutoff as int),
                        input@[j] as int,
                    ),
                forall|j: int| 0 <= j < i ==> in_amp_range(#[trigger] samples@[j] as int),
            decreases BLOCK_LEN - i,
        {
            let x = input.samples[i];
            y = lp_step(y, alpha, x);
            samples.push(y);
            i += 1;
        }
        self.state = y;
        AudioBlock { samples }
    }
}

impl EnvelopeNode {
    /// Render one block: a positive input retriggers the clock; each
    /// output reads the envelope curve at the clock.
    fn process(&mut self, input: &AudioBlock) -> (out: AudioBlock)
        requires
            node_wf(&Node::Envelope(*old(self))),
            block_wf(input),
        ensures
            node_wf(&Node::Envelope(*final(self))),
            block_wf(&out),
            out@.len() == input@.len(),
            exists|ts: Seq<u64>| env_run_rel(*old(self), *final(self), input@, out@, ts),
    {
        let ghost e0 = *self;
        let a_s = env_samples_exec(self.attack);
        let d_s = env_samples_exec(self.decay);
        let mut t: u64 = self.t;
        let mut samples: Vec<i64> = Vec::new();
        let ghost mut ts: Seq<u64> = seq![self.t];
        let mut i: usize = 0;
        while i < BLOCK_LEN
            invariant
                i == samples@.len(),
                i <= BLOCK_LEN,
                block_wf(input),
                input@.len() == BLOCK_LEN,
                a_s as int == env_samples(e0.attack as int),
                a_s <= MAX_PERIOD,
                d_s as int == env_samples(e0.decay as int),
                d_s <= MAX_PERIOD,
                ts.len() == i + 1,
                ts[0] == e0.t,
                t == ts[i as int],
                t <= MAX_ENV_T,
                forall|j: int| 0 <= j < i ==> env_sample_rel(e0, input@, samples@, ts, j),
                forall|j: int| 0 <= j < i ==> in_amp_range(#[trigger] samples@[j] as int),
            decreases BLOCK_LEN - i,
        {
            let trig = input.samples[i] > 0;
            let tcur: u64 = if trig {
                0
            } else {
                t
            };
            let v = env_value_at(tcur, a_s, d_s);
            let ghost samples_pre = samples@;
            let ghost ts_pre = ts;
            samples.push(v);
            t = if tcur + 1 > MAX_ENV_T {
                MAX_ENV_T
            } else {
                tcur + 1
            };
            proof {
                ts = ts.push(t);
                assert forall|j: int|
                    0 <= j < i + 1 implies env_sample_rel(e0, input@, samples@, ts, j) by {
                    if j < i {
                        assert(env_sample_rel(e0, input@, samples_pre, ts_pre, j));
                        assert(samples@[j] == samples_pre[j]);
                        assert(ts[j] == ts_pre[j]);
                        assert(ts[j + 1] == ts_pre[j + 1]);
                    } else {
                        assert(samples@[j] == v);
                        assert(ts[j] == ts_pre[j]);
                        assert(ts[j + 1] == t);
                    }
                }
            }
            i += 1;
        }
        self.t = t;
        let out = AudioBlock { samples };
        proof {
            assert(env_run_rel(e0, *self, input@, out@, ts));
        }
        out
    }
}

impl ImpulseNode {
    /// Render one block: a unit pulse whenever the counter passes zero.
    fn process(&mut self) -> (out: AudioBlock)
        requires
            node_wf(&Node::Impulse(*old(self))),
        ensures
            node_wf(&Node::Impulse(*final(self))),
            block_wf(&out),
            out@.len() == BLOCK_LEN,
            exists|cnts: Seq<u64>| impulse_run_rel(*old(self), *final(self), out@, cnts),
    {
        let ghost im0 = *self;
        let freq = self.freq;
        let period: u64 = if freq == 0 {
            0
        } else {
            let p: u64 = ((SAMPLE_RATE as u64) * (FP_ONE as u64)) / (freq as u64);
            proof {
                vstd::arithmetic::div_mod::lemma_div_is_ordered_by_denominator(
                    (SAMPLE_RATE as int) * (FP_ONE as int),
                    1,
                    freq as int,
                );
            }
            if p < 1 {
                1
            } else {
                p
            }
        };
        let mut counter: u64 = self.counter;
        let mut samples: Vec<i64> = Vec::new();
        let ghost mut cnts: Seq<u64> = seq![self.counter];
        let mut i: usize = 0;
        while i < BLOCK_LEN
            invariant
                i == samples@.len(),
                i <= BLOCK_LEN,
                freq == im0.freq,
                0 <= freq <= AMP_LIMIT,
                period as int == period_spec(im0.freq as int),
                period <= MAX_PERIOD,
                cnts.len() == i + 1,
                cnts[0] == im0.counter,
                counter == cnts[i as int],
                counter <= MAX_PERIOD,
                forall|j: int| 0 <= j < i ==> impulse_sample_rel(im0, samples@, cnts, j),
                forall|j: int| 0 <= j < i ==> in_amp_range(#[trigger] samples@[j] as int),
            decreases BLOCK_LEN - i,
        {
            let v: i64 = if freq == 0 {
                0
            } else if counter == 0 {
                FP_ONE
            } else {
                0
            };
            let ghost samples_pre = samples@;
            let ghost cnts_pre = cnts;
            samples.push(v);
            if freq != 0 {
                counter = if counter + 1 >= period {
                    0
                } else {
                    counter + 1
                };
            }
            proof {
                cnts = cnts.push(counter);
                assert forall|j: int|
                    0 <= j < i + 1 implies impulse_sample_rel(im0, samples@, cnts, j) by {
                    if j < i {
                        assert(impulse_sample_rel(im0, samples_pre, cnts_pre, j));
                        assert(samples@[j] == samples_pre[j]);
                        assert(cnts[j] == cnts_pre[j]);
                        assert(cnts[j + 1] == cnts_pre[j + 1]);
                    } else {
                        assert(samples@[j] == v);
                        assert(cnts[j] == cnts_pre[j]);
                        assert(cnts[j + 1] == counter);
                    }
                }
            }
            i += 1;
        }
        self.counter = counter;
        let out = AudioBlock { samples };
        proof {
            assert(impulse_run_rel(im0, *self, out@, cnts));
        }
        out
    }
}

/// Scale every sample of a block by a fixed factor.
fn gain_block(factor: i64, input: &AudioBlock) -> (out: AudioBlock)
    requires
        in_amp_range(factor as int),
        block_wf(input),
    ensures
        block_wf(&out),
        out@.len() == input@.len(),
        forall|i: int|
            0 <= i < out@.len() ==> (#[trigger] out@[i]) as int == mul_fp_spec(
                factor as int,
                input@[i] as int,
            ),
{
    let mut samples: Vec<i64> = Vec::new();
    let mut i: usize = 0;
    while i < BLOCK_LEN
        invariant
            i == samples@.len(),
            i <= BLOCK_LEN,
            block_wf(input),
            input@.len() == BLOCK_LEN,
            in_amp_range(factor as int),
            forall|j: int|
                0 <= j < i ==> (#[trigger] samples@[j]) as int == mul_fp_spec(
                    factor as int,
                    input@[j] as int,
                ),
            forall|j: int| 0 <= j < i ==> in_amp_range(#[trigger] samples@[j] as int),
        decreases BLOCK_LEN - i,
    {
        let v = mul_fp(factor, input.samples[i]);
        samples.push(v);
        i += 1;
    }
    AudioBlock { samples }
}

/// Add a fixed offset to every sample of a block.
fn offset_block(offset: i64, input: &AudioBlock) -> (out: AudioBlock)
    requires
        in_amp_range(offset as int),
        block_wf(input),
    ensures
        block_wf(&out),
        out@.len() == input@.len(),
        forall|i: int|
            0 <= i < out@.len() ==> (#[trigger] out@[i]) as int == add_amp_spec(
                offset as int,
                input@[i] as int,
            ),
{
    let mut samples: Vec<i64> = Vec::new();
    let mut i: usize = 0;
    while i < BLOCK_LEN
        invariant
            i == samples@.len(),
            i <= BLOCK_LEN,
            block_wf(input),
            input@.len() == BLOCK_LEN,
            in_amp_range(offset as int),
            forall|j: int|
                0 <= j < i ==> (#[trigger] samples@[j]) as int == add_amp_spec(
                    offset as int,
                    input@[j] as int,
                ),
            forall|j: int| 0 <= j < i ==> in_amp_range(#[trigger] samples@[j] as int),
        decreases BLOCK_LEN - i,
    {
        let v = add_amp(offset, input.samples[i]);
        samples.push(v);
        i += 1;
    }
    AudioBlock { samples }
}

/// Copy a block unchanged.
pub(crate) fn copy_block(input: &AudioBlock) -> (out: AudioBlock)
    requires
        block_wf(input),
    ensures
        block_wf(&out),
        out@ == input@,
{
    let mut samples: Vec<i64> = Vec::new();
    let mut i: usize = 0;
    while i < BLOCK_LEN
        invariant
            i == samples@.len(),
            i <= BLOCK_LEN,
            block_wf(input),
            input@.len() == BLOCK_LEN,
            forall|j: int| 0 <= j < i ==> samples@[j] == input@[j],
        decreases BLOCK_LEN - i,
    {
        let v = input.samples[i];
        samples.push(v);
        i += 1;
    }
    let out = AudioBlock { samples };
    proof {
        assert(out@ =~= input@);
    }
    out
}


/// Law: the envelope curve only rises through the attack ramp.
pub proof fn lemma_env_attack_monotone(t1: int, t2: int, a_s: int, d_s: int)
    requires
        0 <= t1 <= t2 < a_s,
    ensures
        env_value_spec(t1, a_s, d_s) <= env_value_spec(t2, a_s, d_s),
{
    lemma_div_is_ordered((t1 + 1) * (FP_ONE as int), (t2 + 1) * (FP_ONE as int), a_s);
}

/// Law: the envelope curve only falls through the decay ramp.
pub proof fn lemma_env_decay_monotone(t1: int, t2: int, a_s: int, d_s: int)
    requires
        0 <= a_s,
        a_s <= t1 <= t2 < a_s + d_s,
    ensures
        env_value_spec(t1, a_s, d_s) >= env_value_spec(t2, a_s, d_s),
{
    lemma_div_is_ordered(
        (a_s + d_s - t2) * (FP_ONE as int),
        (a_s + d_s - t1) * (FP_ONE as int),
        d_s,
    );
}

/// Law: once attack and decay have both passed, the envelope is exactly
/// zero until the next trigger.
pub proof fn lemma_env_idle(t: int, a_s: int, d_s: int)
    requires
        t >= a_s + d_s,
        0 <= a_s,
        0 <= d_s,
    ensures
        env_value_spec(t, a_s, d_s) == 0,
{
}

impl Node {
    /// Render one block through this node. `input` is the block of
    /// combined predecessor output the engine gathered; `driven` says
    /// whether any edges feed this node.
    pub fn process_block(&mut self, input: &AudioBlock, driven: bool) -> (out: AudioBlock)
        requires
            node_wf(&*old(self)),
            block_wf(input),
        ensures
            node_wf(&*final(self)),
            block_wf(&out),
            out@.len() == input@.len(),
            node_block_rel(*old(self), *final(self), driven, input@, out@),
    {
        match self {
            Node::Debug(_) => copy_block(input),
            Node::Gain(g) => gain_block(g.factor, input),
            Node::Offset(o) => offset_block(o.offset, input),
            Node::Sine(s) => s.process(input, driven),
            Node::LowPass(l) => l.process(input),
            Node::Envelope(e) => e.process(input),
            Node::Impulse(im) => im.process(),
            Node::Noise(b) => b.process_block(),
        }
    }
}

} // verus!
