use useful_noise::block::BLOCK_LEN;
use useful_noise::channel::{ControlChannel, ParameterMessage};
use useful_noise::engine::RenderEngine;
use useful_noise::fixed::{AMP_LIMIT, FP_ONE};
use useful_noise::graph::Graph;
use useful_noise::node::{
    DeliveryError, GainNode, ImpulseNode, LowPassFilter, Node, OffsetNode, SineOsc, Value,
    EnvelopeNode,
};

#[test]
fn gain_scales_a_unit_signal_exactly() {
    // An offset node emits a constant one; after a message sets the gain
    // factor to 0.3, one rendered block is scaled by exactly 0.3.
    let mut g = Graph::new(1);
    let one = g.add_node(Node::Offset(OffsetNode::new(FP_ONE)));
    let gain = g.add_node(Node::Gain(GainNode::new(FP_ONE)));
    let dest = g.destination();
    assert!(g.connect(one, gain).is_ok());
    assert!(g.connect(gain, dest).is_ok());
    g.finalize().unwrap();
    let mut engine = RenderEngine::new(g);
    let mut channel = ControlChannel::new();
    channel.send(ParameterMessage { target: gain, slot: 0, value: Value::Number(300_000) });
    let block = engine.render_block(&mut channel);
    assert_eq!(channel.pending(), 0);
    for i in 0..BLOCK_LEN {
        assert_eq!(block.samples[i], 300_000);
    }
    // A second message sent after that block changes the factor for the
    // whole next block: one consistent snapshot per block.
    channel.send(ParameterMessage { target: gain, slot: 0, value: Value::Number(500_000) });
    let block2 = engine.render_block(&mut channel);
    for i in 0..BLOCK_LEN {
        assert_eq!(block2.samples[i], 500_000);
    }
}

#[test]
fn the_last_message_for_a_slot_wins() {
    // Two updates to the same slot within one drain: the later one is the
    // factor the block is rendered with.
    let mut g = Graph::new(2);
    let one = g.add_node(Node::Offset(OffsetNode::new(FP_ONE)));
    let gain = g.add_node(Node::Gain(GainNode::new(FP_ONE)));
    let dest = g.destination();
    assert!(g.connect(one, gain).is_ok());
    assert!(g.connect(gain, dest).is_ok());
    g.finalize().unwrap();
    let mut engine = RenderEngine::new(g);
    let mut channel = ControlChannel::new();
    channel.send(ParameterMessage { target: gain, slot: 0, value: Value::Number(400_000) });
    channel.send(ParameterMessage { target: gain, slot: 0, value: Value::Number(250_000) });
    let block = engine.render_block(&mut channel);
    for i in 0..BLOCK_LEN {
        assert_eq!(block.samples[i], 250_000);
    }
}

#[test]
fn undeliverable_messages_are_counted_and_dropped() {
    let mut g = Graph::new(3);
    let one = g.add_node(Node::Offset(OffsetNode::new(FP_ONE)));
    let gain = g.add_node(Node::Gain(GainNode::new(300_000)));
    let dest = g.destination();
    assert!(g.connect(one, gain).is_ok());
    assert!(g.connect(gain, dest).is_ok());
    g.finalize().unwrap();
    let mut engine = RenderEngine::new(g);
    let mut channel = ControlChannel::new();
    // Unknown slot, wrong value kind, out-of-range value, foreign target:
    // all reported, none delivered, none panics the renderer.
    channel.send(ParameterMessage { target: gain, slot: 9, value: Value::Number(1) });
    channel.send(ParameterMessage { target: gain, slot: 0, value: Value::List(vec![1, 2]) });
    channel.send(ParameterMessage { target: gain, slot: 0, value: Value::Number(AMP_LIMIT + 1) });
    let foreign = useful_noise::graph::NodeReference { graph_id: 77, index: 1 };
    channel.send(ParameterMessage { target: foreign, slot: 0, value: Value::Number(1) });
    let errs = engine.drain_and_apply(&mut channel);
    assert_eq!(errs, 4);
    assert_eq!(engine.delivery_errors, 4);
    // The gain factor is untouched by the dropped messages.
    let block = engine.process_graph();
    for i in 0..BLOCK_LEN {
        assert_eq!(block.samples[i], 300_000);
    }
}

#[test]
fn receive_reports_each_delivery_error() {
    let mut n = Node::Gain(GainNode::new(0));
    assert!(matches!(n.receive(3, &Value::Number(5)), Err(DeliveryError::UnknownSlot)));
    assert!(matches!(n.receive(0, &Value::List(vec![])), Err(DeliveryError::ValueKindMismatch)));
    assert!(
        matches!(n.receive(0, &Value::Number(AMP_LIMIT + 1)), Err(DeliveryError::ValueOutOfRange))
    );
    assert!(n.receive(0, &Value::Number(42)).is_ok());
    match n {
        Node::Gain(gn) => assert_eq!(gn.factor, 42),
        _ => panic!("node changed kind"),
    }
    let mut e = Node::Envelope(EnvelopeNode::new(0, 0));
    assert!(e.receive(1, &Value::Number(7_000)).is_ok());
    match e {
        Node::Envelope(en) => {
            assert_eq!(en.attack, 0);
            assert_eq!(en.decay, 7_000);
        },
        _ => panic!("node changed kind"),
    }
}

#[test]
fn impulse_fires_once_per_period() {
    // At 22050 hertz the period is exactly two samples: the pulse
    // alternates with silence.
    let mut g = Graph::new(4);
    let imp = g.add_node(Node::Impulse(ImpulseNode::new(22_050 * FP_ONE)));
    let dest = g.destination();
    assert!(g.connect(imp, dest).is_ok());
    g.finalize().unwrap();
    let mut engine = RenderEngine::new(g);
    let block = engine.process_graph();
    for i in 0..BLOCK_LEN {
        if i % 2 == 0 {
            assert_eq!(block.samples[i], FP_ONE);
        } else {
            assert_eq!(block.samples[i], 0);
        }
    }
}

#[test]
fn oscillator_at_half_the_sample_rate_alternates() {
    // At half the sample rate the phase alternates between zero and one
    // half, so the waveshape alternates between its two extremes.
    let mut g = Graph::new(5);
    let osc = g.add_node(Node::Sine(SineOsc::new(22_050 * FP_ONE)));
    let dest = g.destination();
    assert!(g.connect(osc, dest).is_ok());
    g.finalize().unwrap();
    let mut engine = RenderEngine::new(g);
    let block = engine.process_graph();
    for i in 0..BLOCK_LEN {
        if i % 2 == 0 {
            assert_eq!(block.samples[i], -FP_ONE);
        } else {
            assert_eq!(block.samples[i], FP_ONE);
        }
    }
}

#[test]
fn fully_open_filter_passes_the_signal() {
    // A cutoff of one sample rate makes the smoothing fraction exactly
    // one: the filter output equals its input.
    let mut g = Graph::new(6);
    let one = g.add_node(Node::Offset(OffsetNode::new(FP_ONE)));
    let lp = g.add_node(Node::LowPass(LowPassFilter::new(44_100 * FP_ONE)));
    let dest = g.destination();
    assert!(g.connect(one, lp).is_ok());
    assert!(g.connect(lp, dest).is_ok());
    g.finalize().unwrap();
    let mut engine = RenderEngine::new(g);
    let block = engine.process_graph();
    for i in 0..BLOCK_LEN {
        assert_eq!(block.samples[i], FP_ONE);
    }
}

#[test]
fn closed_filter_stays_silent() {
    let mut g = Graph::new(7);
    let one = g.add_node(Node::Offset(OffsetNode::new(FP_ONE)));
    let lp = g.add_node(Node::LowPass(LowPassFilter::new(0)));
    let dest = g.destination();
    assert!(g.connect(one, lp).is_ok());
    assert!(g.connect(lp, dest).is_ok());
    g.finalize().unwrap();
    let mut engine = RenderEngine::new(g);
    let block = engine.process_graph();
    for i in 0..BLOCK_LEN {
        assert_eq!(block.samples[i], 0);
    }
}

#[test]
fn triggered_envelope_rises_then_falls_to_zero() {
    // A one-hertz impulse triggers the envelope at the first sample. With
    // a 0.002-second attack (88 samples) and a 0.011-second decay (485
    // samples), the first block rises, the peak of exactly one sits at
    // sample 87, and by sample 576 the envelope has converged to zero,
    // long before the next impulse at sample 44100.
    let mut g = Graph::new(8);
    let imp = g.add_node(Node::Impulse(ImpulseNode::new(FP_ONE)));
    let env = g.add_node(Node::Envelope(EnvelopeNode::new(2_000, 11_000)));
    let dest = g.destination();
    assert!(g.connect(imp, env).is_ok());
    assert!(g.connect(env, dest).is_ok());
    g.finalize().unwrap();
    let mut engine = RenderEngine::new(g);
    let mut blocks = Vec::new();
    for _ in 0..10 {
        blocks.push(engine.process_graph());
    }
    // Rising through the attack.
    for i in 0..BLOCK_LEN - 1 {
        assert!(blocks[0].samples[i] <= blocks[0].samples[i + 1]);
        assert!(blocks[0].samples[i] > 0);
    }
    // The peak: at 87 samples after the trigger the ramp reaches one.
    assert_eq!(blocks[1].samples[23], FP_ONE);
    // Falling through the decay.
    for i in 24..BLOCK_LEN - 1 {
        assert!(blocks[1].samples[i] >= blocks[1].samples[i + 1]);
    }
    // Converged to zero before the next impulse.
    for i in 0..BLOCK_LEN {
        assert_eq!(blocks[9].samples[i], 0);
    }
}
