//! Composite instrument assembly: chains of primitive nodes that make up
//! the configured sounds, and the parameter-update messages that keep a
//! running graph in step with its configuration.
use crate::brownish_noise::{BoundaryPolicy, BrownishNoise};
use crate::channel::ParameterMessage;
use crate::fixed::{AMP_LIMIT, FP_ONE};
use crate::graph::{graph_wf, owns_ref, Edge, Graph, NodeReference, DEST_INDEX};
use crate::node::{
    EnvelopeNode, GainNode, ImpulseNode, LowPassFilter, Node, OffsetNode, SineOsc, Value,
    MAX_ENV_T,
};
use vstd::prelude::*;

verus! {

/// The gain factor the kick's pitch envelope is scaled by, in hertz.
pub const KICK_PITCH_SPAN: i64 = 500 * 1_000_000;

/// The base frequency the scaled pitch envelope is lifted onto, in hertz.
pub const KICK_PITCH_BASE: i64 = 400 * 1_000_000;

/// Node references relevant for one configured sound.
#[derive(Clone, Copy)]
pub enum NodeIndexSet {
    Kick {
        am_env_index: NodeReference,
        fm_env_index: NodeReference,
        impulse_index: NodeReference,
        volume_index: NodeReference,
    },
    Sine { volume_index: NodeReference, freq_index: NodeReference },
    Brownish {
        volume_index: NodeReference,
        low_pass_index: NodeReference,
        knob_a_index: NodeReference,
    },
}

/// Parameters for one sound, all fixed point: amplitudes and envelope
/// times scaled by `FP_ONE`, frequencies in hertz scaled by `FP_ONE`.
#[derive(Clone, Copy)]
pub enum SoundParam {
    Kick {
        volume: i64,
        bpm: i64,
        amplitude_attack: i64,
        amplitude_decay: i64,
        pitch_attack: i64,
        pitch_decay: i64,
    },
    Sine { volume: i64, freq: i64 },
    Brownish { knob_a: i64, volume: i64, low_pass_freq: i64 },
}

/// Every field within the range its node accepts.
pub open spec fn sound_param_wf(p: &SoundParam) -> bool {
    match p {
        SoundParam::Kick {
            volume,
            bpm,
            amplitude_attack,
            amplitude_decay,
            pitch_attack,
            pitch_decay,
        } => {
            &&& 0 <= *volume <= AMP_LIMIT
            &&& 0 <= *bpm <= AMP_LIMIT
            &&& 0 <= *amplitude_attack <= AMP_LIMIT
            &&& 0 <= *amplitude_decay <= AMP_LIMIT
            &&& 0 <= *pitch_attack <= AMP_LIMIT
            &&& 0 <= *pitch_decay <= AMP_LIMIT
        },
        SoundParam::Sine { volume, freq } => 0 <= *volume <= AMP_LIMIT && 0 <= *freq
            <= AMP_LIMIT,
        SoundParam::Brownish { knob_a, volume, low_pass_freq } => {
            &&& 0 <= *knob_a <= AMP_LIMIT
            &&& 0 <= *volume <= AMP_LIMIT
            &&& 0 <= *low_pass_freq <= AMP_LIMIT
        },
    }
}

/// The impulse frequency of a tempo: beats per minute over sixty.
pub open spec fn bpm_to_freq(bpm: int) -> int {
    bpm / 60
}

/// Beats per minute to an impulse frequency, fixed point.
fn bpm_to_freq_exec(bpm: i64) -> (f: i64)
    requires
        0 <= bpm <= AMP_LIMIT,
    ensures
        f as int == bpm_to_freq(bpm as int),
        0 <= f <= AMP_LIMIT,
{
    ((bpm as u64) / 60) as i64
}

/// The nodes a kick is made of, in arena order: the two envelopes, the
/// impulse, the pitch scaling and base, the oscillator, the pre-master and
/// the volume gain.
pub open spec fn kick_nodes(
    amplitude_attack: i64,
    amplitude_decay: i64,
    pitch_attack: i64,
    pitch_decay: i64,
    bpm: i64,
    volume: i64,
) -> Seq<Node> {
    seq![
        Node::Envelope(EnvelopeNode { attack: amplitude_attack, decay: amplitude_decay, t: MAX_ENV_T }),
        Node::Envelope(EnvelopeNode { attack: pitch_attack, decay: pitch_decay, t: MAX_ENV_T }),
        Node::Impulse(ImpulseNode { freq: (bpm_to_freq(bpm as int)) as i64, counter: 0u64 }),
        Node::Gain(GainNode { factor: KICK_PITCH_SPAN }),
        Node::Offset(OffsetNode { offset: KICK_PITCH_BASE }),
        Node::Sine(SineOsc { freq: 0i64, phase: 0i64 }),
        Node::Gain(GainNode { factor: FP_ONE }),
        Node::Gain(GainNode { factor: volume }),
    ]
}

/// The edges a kick adds, with its first node at index `base`: the impulse
/// triggers both envelopes; the pitch envelope is scaled, lifted and drives
/// the oscillator; the amplitude envelope and the oscillator multiply into
/// the pre-master, then the volume gain, then the destination.
pub open spec fn kick_wires(base: int) -> Seq<Edge> {
    seq![
        Edge { source: (base + 2) as usize, dest: base as usize },
        Edge { source: (base + 2) as usize, dest: (base + 1) as usize },
        Edge { source: (base + 1) as usize, dest: (base + 3) as usize },
        Edge { source: (base + 3) as usize, dest: (base + 4) as usize },
        Edge { source: (base + 4) as usize, dest: (base + 5) as usize },
        Edge { source: base as usize, dest: (base + 6) as usize },
        Edge { source: (base + 5) as usize, dest: (base + 6) as usize },
        Edge { source: (base + 6) as usize, dest: (base + 7) as usize },
        Edge { source: (base + 7) as usize, dest: DEST_INDEX },
    ]
}

impl Graph {
    /// Assemble a kick voice: a periodic impulse triggering an amplitude
    /// envelope and a pitch envelope; the pitch envelope, scaled and
    /// lifted, drives the oscillator; amplitude envelope and oscillator
    /// multiply into a pre-master gain, then the volume gain, then the
    /// destination.
    pub fn kick_node_set_from_sound_param(
        &mut self,
        amplitude_attack: i64,
        amplitude_decay: i64,
        pitch_attack: i64,
        pitch_decay: i64,
        bpm: i64,
        volume: i64,
    ) -> (r: NodeIndexSet)
        requires
            graph_wf(&*old(self)),
            old(self).order is None,
            old(self).nodes@.len() + 8 <= usize::MAX,
            0 <= amplitude_attack <= AMP_LIMIT,
            0 <= amplitude_decay <= AMP_LIMIT,
            0 <= pitch_attack <= AMP_LIMIT,
            0 <= pitch_decay <= AMP_LIMIT,
            0 <= bpm <= AMP_LIMIT,
            0 <= volume <= AMP_LIMIT,
        ensures
            graph_wf(&*final(self)),
            final(self).id == old(self).id,
            final(self).order is None,
            final(self).nodes@ == old(self).nodes@ + kick_nodes(
                amplitude_attack,
                amplitude_decay,
                pitch_attack,
                pitch_decay,
                bpm,
                volume,
            ),
            final(self).edges@ == old(self).edges@ + kick_wires(old(self).nodes@.len() as int),
            (r matches NodeIndexSet::Kick { am_env_index, fm_env_index, impulse_index, volume_index }
                && am_env_index == (NodeReference {
                graph_id: old(self).id,
                index: old(self).nodes@.len() as usize,
            }) && fm_env_index == (NodeReference {
                graph_id: old(self).id,
                index: (old(self).nodes@.len() + 1) as usize,
            }) && impulse_index == (NodeReference {
                graph_id: old(self).id,
                index: (old(self).nodes@.len() + 2) as usize,
            }) && volume_index == (NodeReference {
                graph_id: old(self).id,
                index: (old(self).nodes@.len() + 7) as usize,
            })),
    {
        let ghost base = self.nodes@.len() as int;
        let am_env = self.add_node(
            Node::Envelope(EnvelopeNode::new(amplitude_attack, amplitude_decay)),
        );
        let fm_env = self.add_node(Node::Envelope(EnvelopeNode::new(pitch_attack, pitch_decay)));
        let beat = self.add_node(Node::Impulse(ImpulseNode::new(bpm_to_freq_exec(bpm))));
        let kick_pitch = self.add_node(Node::Gain(GainNode::new(KICK_PITCH_SPAN)));
        let kick_pitch_baseline = self.add_node(Node::Offset(OffsetNode::new(KICK_PITCH_BASE)));
        let kick_synth = self.add_node(Node::Sine(SineOsc::new(0)));
        let pre_master = self.add_node(Node::Gain(GainNode::new(FP_ONE)));
        let volume_node = self.add_node(Node::Gain(GainNode::new(volume)));
        let mut ok = true;
        ok = ok && self.connect(beat, am_env).is_ok();
        ok = ok && self.connect(beat, fm_env).is_ok();
        ok = ok && self.connect(fm_env, kick_pitch).is_ok();
        ok = ok && self.connect(kick_pitch, kick_pitch_baseline).is_ok();
        ok = ok && self.connect(kick_pitch_baseline, kick_synth).is_ok();
        ok = ok && self.connect(am_env, pre_master).is_ok();
        ok = ok && self.connect(kick_synth, pre_master).is_ok();
        ok = ok && self.connect(pre_master, volume_node).is_ok();
        ok = ok && self.connect(volume_node, self.destination()).is_ok();
        proof {
            assert(ok);
            assert(self.nodes@ =~= old(self).nodes@ + kick_nodes(
                amplitude_attack,
                amplitude_decay,
                pitch_attack,
                pitch_decay,
                bpm,
                volume,
            ));
            assert(self.edges@ =~= old(self).edges@ + kick_wires(base));
        }
        NodeIndexSet::Kick {
            am_env_index: am_env,
            fm_env_index: fm_env,
            impulse_index: beat,
            volume_index: volume_node,
        }
    }

    /// Assemble a sine voice: an oscillator into a volume gain, into the
    /// destination.
    pub fn sine_node_set_from_sound_param(&mut self, freq: i64, volume: i64) -> (r: NodeIndexSet)
        requires
            graph_wf(&*old(self)),
            old(self).order is None,
            old(self).nodes@.len() + 2 <= usize::MAX,
            0 <= freq <= AMP_LIMIT,
            0 <= volume <= AMP_LIMIT,
        ensures
            graph_wf(&*final(self)),
            final(self).id == old(self).id,
            final(self).order is None,
            final(self).nodes@ == old(self).nodes@ + seq![
                Node::Sine(SineOsc { freq: freq, phase: 0i64 }),
                Node::Gain(GainNode { factor: volume }),
            ],
            final(self).edges@ == old(self).edges@ + seq![
                Edge {
                    source: old(self).nodes@.len() as usize,
                    dest: (old(self).nodes@.len() + 1) as usize,
                },
                Edge { source: (old(self).nodes@.len() + 1) as usize, dest: DEST_INDEX },
            ],
            (r matches NodeIndexSet::Sine { volume_index, freq_index } && freq_index == (
            NodeReference { graph_id: old(self).id, index: old(self).nodes@.len() as usize })
                && volume_index == (NodeReference {
                graph_id: old(self).id,
                index: (old(self).nodes@.len() + 1) as usize,
            })),
    {
        let sine_id = self.add_node(Node::Sine(SineOsc::new(freq)));
        let sine_volume = self.add_node(Node::Gain(GainNode::new(volume)));
        let mut refs: Vec<NodeReference> = Vec::new();
        refs.push(sine_id);
        refs.push(sine_volume);
        let r = self.chain(&refs);
        proof {
            assert(r is Ok);
            assert(self.edges@ =~= old(self).edges@ + seq![
                Edge {
                    source: old(self).nodes@.len() as usize,
                    dest: (old(self).nodes@.len() + 1) as usize,
                },
                Edge { source: (old(self).nodes@.len() + 1) as usize, dest: DEST_INDEX },
            ]);
            assert(self.nodes@ =~= old(self).nodes@ + seq![
                Node::Sine(SineOsc { freq: freq, phase: 0i64 }),
                Node::Gain(GainNode { factor: volume }),
            ]);
        }
        NodeIndexSet::Sine { volume_index: sine_volume, freq_index: sine_id }
    }

    /// Assemble a brownish-noise voice: the noise source through the
    /// volume gain, then the low-pass filter, into the destination.
    pub fn brownish_node_set_from_sound_param(
        &mut self,
        knob_a: i64,
        low_pass_freq: i64,
        volume: i64,
    ) -> (r: NodeIndexSet)
        requires
            graph_wf(&*old(self)),
            old(self).order is None,
            old(self).nodes@.len() + 3 <= usize::MAX,
            0 <= knob_a <= AMP_LIMIT,
            0 <= low_pass_freq <= AMP_LIMIT,
            0 <= volume <= AMP_LIMIT,
        ensures
            graph_wf(&*final(self)),
            final(self).id == old(self).id,
            final(self).order is None,
            final(self).nodes@ == old(self).nodes@ + seq![
                Node::Noise(BrownishNoise {
                    brown_walk_scale: knob_a,
                    previous_brown_value: 0i64,
                    policy: BoundaryPolicy::Clamp,
                }),
                Node::LowPass(LowPassFilter { cutoff: low_pass_freq, state: 0i64 }),
                Node::Gain(GainNode { factor: volume }),
            ],
            final(self).edges@ == old(self).edges@ + seq![
                Edge {
                    source: old(self).nodes@.len() as usize,
                    dest: (old(self).nodes@.len() + 2) as usize,
                },
                Edge {
                    source: (old(self).nodes@.len() + 2) as usize,
                    dest: (old(self).nodes@.len() + 1) as usize,
                },
                Edge { source: (old(self).nodes@.len() + 1) as usize, dest: DEST_INDEX },
            ],
            (r matches NodeIndexSet::Brownish { volume_index, low_pass_index, knob_a_index }
                && knob_a_index == (NodeReference {
                graph_id: old(self).id,
                index: old(self).nodes@.len() as usize,
            }) && low_pass_index == (NodeReference {
                graph_id: old(self).id,
                index: (old(self).nodes@.len() + 1) as usize,
            }) && volume_index == (NodeReference {
                graph_id: old(self).id,
                index: (old(self).nodes@.len() + 2) as usize,
            })),
    {
        let knob_a_index = self.add_node(Node::Noise(BrownishNoise::new_with_scale(knob_a)));
        let low_pass_index = self.add_node(Node::LowPass(LowPassFilter::new(low_pass_freq)));
        let volume_index = self.add_node(Node::Gain(GainNode::new(volume)));
        let mut refs: Vec<NodeReference> = Vec::new();
        refs.push(knob_a_index);
        refs.push(volume_index);
        refs.push(low_pass_index);
        let r = self.chain(&refs);
        proof {
            assert(r is Ok);
            assert(self.edges@ =~= old(self).edges@ + seq![
                Edge {
                    source: old(self).nodes@.len() as usize,
                    dest: (old(self).nodes@.len() + 2) as usize,
                },
                Edge {
                    source: (old(self).nodes@.len() + 2) as usize,
                    dest: (old(self).nodes@.len() + 1) as usize,
                },
                Edge { source: (old(self).nodes@.len() + 1) as usize, dest: DEST_INDEX },
            ]);
            assert(self.nodes@ =~= old(self).nodes@ + seq![
                Node::Noise(BrownishNoise {
                    brown_walk_scale: knob_a,
                    previous_brown_value: 0i64,
                    policy: BoundaryPolicy::Clamp,
                }),
                Node::LowPass(LowPassFilter { cutoff: low_pass_freq, state: 0i64 }),
                Node::Gain(GainNode { factor: volume }),
            ]);
        }
        NodeIndexSet::Brownish { volume_index, low_pass_index, knob_a_index }
    }
}

/// The messages that bring a running sound's parameters in step with its
/// configuration, in the order they are sent. A parameter set and an index
/// set of different kinds produce no messages.
pub open spec fn param_messages_spec(param: SoundParam, indices: NodeIndexSet) -> Seq<
    ParameterMessage,
> {
    match (param, indices) {
        (
            SoundParam::Brownish { knob_a, volume, low_pass_freq },
            NodeIndexSet::Brownish { volume_index, low_pass_index, knob_a_index },
        ) => seq![
            ParameterMessage { target: volume_index, slot: 0u32, value: Value::Number(volume) },
            ParameterMessage {
                target: low_pass_index,
                slot: 0u32,
                value: Value::Number(low_pass_freq),
            },
            ParameterMessage { target: knob_a_index, slot: 0u32, value: Value::Number(knob_a) },
        ],
        (
            SoundParam::Sine { volume, freq },
            NodeIndexSet::Sine { volume_index, freq_index },
        ) => seq![
            ParameterMessage { target: volume_index, slot: 0u32, value: Value::Number(volume) },
            ParameterMessage { target: freq_index, slot: 0u32, value: Value::Number(freq) },
        ],
        (
            SoundParam::Kick {
                volume,
                bpm,
                amplitude_attack,
                amplitude_decay,
                pitch_attack,
                pitch_decay,
            },
            NodeIndexSet::Kick { am_env_index, fm_env_index, impulse_index, volume_index },
        ) => seq![
            ParameterMessage { target: volume_index, slot: 0u32, value: Value::Number(volume) },
            ParameterMessage {
                target: impulse_index,
                slot: 0u32,
                value: Value::Number(bpm_to_freq(bpm as int) as i64),
            },
            ParameterMessage {
                target: am_env_index,
                slot: 0u32,
                value: Value::Number(amplitude_attack),
            },
            ParameterMessage {
                target: am_env_index,
                slot: 1u32,
                value: Value::Number(amplitude_decay),
            },
            ParameterMessage {
                target: fm_env_index,
                slot: 0u32,
                value: Value::Number(pitch_attack),
            },
            ParameterMessage {
                target: fm_env_index,
                slot: 1u32,
                value: Value::Number(pitch_decay),
            },
        ],
        _ => Seq::empty(),
    }
}

/// Build the parameter-update messages for one configured sound.
pub fn param_update_messages(param: &SoundParam, indices: &NodeIndexSet) -> (msgs: Vec<
    ParameterMessage,
>)
    requires
        sound_param_wf(param),
    ensures
        msgs@ == param_messages_spec(*param, *indices),
{
    let mut msgs: Vec<ParameterMessage> = Vec::new();
    match (param, indices) {
        (
            SoundParam::Brownish { knob_a, volume, low_pass_freq },
            NodeIndexSet::Brownish { volume_index, low_pass_index, knob_a_index },
        ) => {
            msgs.push(
                ParameterMessage { target: *volume_index, slot: 0, value: Value::Number(*volume) },
            );
            msgs.push(
                ParameterMessage {
                    target: *low_pass_index,
                    slot: 0,
                    value: Value::Number(*low_pass_freq),
                },
            );
            msgs.push(
                ParameterMessage { target: *knob_a_index, slot: 0, value: Value::Number(*knob_a) },
            );
        },
        (
            SoundParam::Sine { volume, freq },
            NodeIndexSet::Sine { volume_index, freq_index },
        ) => {
            msgs.push(
                ParameterMessage { target: *volume_index, slot: 0, value: Value::Number(*volume) },
            );
            msgs.push(
                ParameterMessage { target: *freq_index, slot: 0, value: Value::Number(*freq) },
            );
        },
        (
            SoundParam::Kick {
                volume,
                bpm,
                amplitude_attack,
                amplitude_decay,
                pitch_attack,
                pitch_decay,
            },
            NodeIndexSet::Kick { am_env_index, fm_env_index, impulse_index, volume_index },
        ) => {
            msgs.push(
                ParameterMessage { target: *volume_index, slot: 0, value: Value::Number(*volume) },
            );
            msgs.push(
                ParameterMessage {
                    target: *impulse_index,
                    slot: 0,
                    value: Value::Number(bpm_to_freq_exec(*bpm)),
                },
            );
            msgs.push(
                ParameterMessage {
                    target: *am_env_index,
                    slot: 0,
                    value: Value::Number(*amplitude_attack),
                },
            );
            msgs.push(
                ParameterMessage {
                    target: *am_env_index,
                    slot: 1,
                    value: Value::Number(*amplitude_decay),
                },
            );
            msgs.push(
                ParameterMessage {
                    target: *fm_env_index,
                    slot: 0,
                    value: Value::Number(*pitch_attack),
                },
            );
            msgs.push(
                ParameterMessage {
                    target: *fm_env_index,
                    slot: 1,
                    value: Value::Number(*pitch_decay),
                },
            );
        },
        _ => {},
    }
    proof {
        assert(msgs@ =~= param_messages_spec(*param, *indices));
    }
    msgs
}

/// Whether one sound's node references address nodes of the right kinds,
/// carrying that sound's parameters.
pub open spec fn indices_match(g: &Graph, param: SoundParam, idx: NodeIndexSet) -> bool {
    match (param, idx) {
        (
            SoundParam::Kick {
                volume,
                bpm,
                amplitude_attack,
                amplitude_decay,
                pitch_attack,
                pitch_decay,
            },
            NodeIndexSet::Kick { am_env_index, fm_env_index, impulse_index, volume_index },
        ) => {
            &&& owns_ref(g, am_env_index)
            &&& g.nodes@[am_env_index.index as int] matches Node::Envelope(e) && e.attack
                == amplitude_attack && e.decay == amplitude_decay
            &&& owns_ref(g, fm_env_index)
            &&& g.nodes@[fm_env_index.index as int] matches Node::Envelope(e2) && e2.attack
                == pitch_attack && e2.decay == pitch_decay
            &&& owns_ref(g, impulse_index)
            &&& g.nodes@[impulse_index.index as int] matches Node::Impulse(im) && im.freq as int
                == bpm_to_freq(bpm as int)
            &&& owns_ref(g, volume_index)
            &&& g.nodes@[volume_index.index as int] matches Node::Gain(gn) && gn.factor == volume
        },
        (
            SoundParam::Sine { volume, freq },
            NodeIndexSet::Sine { volume_index, freq_index },
        ) => {
            &&& owns_ref(g, freq_index)
            &&& g.nodes@[freq_index.index as int] matches Node::Sine(sn) && sn.freq == freq
            &&& owns_ref(g, volume_index)
            &&& g.nodes@[volume_index.index as int] matches Node::Gain(gn) && gn.factor == volume
        },
        (
            SoundParam::Brownish { knob_a, volume, low_pass_freq },
            NodeIndexSet::Brownish { volume_index, low_pass_index, knob_a_index },
        ) => {
            &&& owns_ref(g, knob_a_index)
            &&& g.nodes@[knob_a_index.index as int] matches Node::Noise(b) && b.brown_walk_scale
                == knob_a
            &&& owns_ref(g, low_pass_index)
            &&& g.nodes@[low_pass_index.index as int] matches Node::LowPass(l) && l.cutoff
                == low_pass_freq
            &&& owns_ref(g, volume_index)
            &&& g.nodes@[volume_index.index as int] matches Node::Gain(gn) && gn.factor == volume
        },
        _ => false,
    }
}

/// Build the graph nodes for every configured sound, in order, and hand
/// back the node references addressing each: the settings-to-graph
/// initializer.
pub fn init_sounds(g: &mut Graph, params: &Vec<SoundParam>) -> (indices: Vec<NodeIndexSet>)
    requires
        graph_wf(&*old(g)),
        old(g).order is None,
        forall|i: int| 0 <= i < params@.len() ==> sound_param_wf(&(#[trigger] params@[i])),
        old(g).nodes@.len() + 8 * params@.len() <= usize::MAX,
    ensures
        graph_wf(&*final(g)),
        final(g).id == old(g).id,
        final(g).order is None,
        indices@.len() == params@.len(),
        forall|i: int|
            0 <= i < params@.len() ==> indices_match(&*final(g), params@[i], #[trigger] indices@[i]),
{
    let mut indices: Vec<NodeIndexSet> = Vec::new();
    let mut i: usize = 0;
    while i < params.len()
        invariant
            i <= params@.len(),
            indices@.len() == i,
            graph_wf(g),
            g.order is None,
            g.id == old(g).id,
            forall|j: int| 0 <= j < params@.len() ==> sound_param_wf(&(#[trigger] params@[j])),
            g.nodes@.len() <= old(g).nodes@.len() + 8 * i,
            old(g).nodes@.len() + 8 * params@.len() <= usize::MAX,
            forall|j: int|
                0 <= j < i ==> indices_match(g, params@[j], #[trigger] indices@[j]),
        decreases params@.len() - i,
    {
        let ghost g_pre = *g;
        let param = params[i];
        let idx: NodeIndexSet = match param {
            SoundParam::Brownish { knob_a, volume, low_pass_freq } => g
                .brownish_node_set_from_sound_param(knob_a, low_pass_freq, volume),
            SoundParam::Sine { volume, freq } => g.sine_node_set_from_sound_param(freq, volume),
            SoundParam::Kick {
                volume,
                bpm,
                amplitude_attack,
                amplitude_decay,
                pitch_attack,
                pitch_decay,
            } => g.kick_node_set_from_sound_param(
                amplitude_attack,
                amplitude_decay,
                pitch_attack,
                pitch_decay,
                bpm,
                volume,
            ),
        };
        indices.push(idx);
        proof {
            assert(indices_match(g, params@[i as int], idx));
            assert forall|j: int|
                0 <= j < i + 1 implies indices_match(g, params@[j], #[trigger] indices@[j]) by {
                if j < i {
                    assert(indices_match(&g_pre, params@[j], indices@[j]));
                    assert(forall|x: int|
                        0 <= x < g_pre.nodes@.len() ==> g.nodes@[x] == g_pre.nodes@[x]);
                }
            }
        }
        i += 1;
    }
    indices
}

} // verus!
