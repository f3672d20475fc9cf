use useful_noise::block::BLOCK_LEN;
use useful_noise::channel::ControlChannel;
use useful_noise::engine::RenderEngine;
use useful_noise::fixed::FP_ONE;
use useful_noise::graph::Graph;
use useful_noise::node::Value;
use useful_noise::sound::{init_sounds, param_update_messages, NodeIndexSet, SoundParam};
use useful_noise::state::{settings_or_default, Settings, CONFIG_VERSION};

#[test]
fn kick_renders_an_envelope_shaped_burst() {
    // One kick at sixty beats per minute: the impulse fires at the first
    // sample, the output is audible while the amplitude envelope runs, and
    // the voice has converged back to silence well before the next beat.
    let mut g = Graph::new(1);
    let idx = g.kick_node_set_from_sound_param(2_000, 11_000, 10_000, 100_000, 60 * FP_ONE, 900_000);
    g.finalize().unwrap();
    let mut engine = RenderEngine::new(g);
    let mut heard_something = false;
    for _ in 0..9 {
        let block = engine.process_graph();
        for i in 0..BLOCK_LEN {
            if block.samples[i] != 0 {
                heard_something = true;
            }
        }
    }
    assert!(heard_something);
    // The amplitude envelope (attack 88 samples, decay 485) is over by
    // sample 573; block nine starts at sample 576.
    let late = engine.process_graph();
    for i in 0..BLOCK_LEN {
        assert_eq!(late.samples[i], 0);
    }
    assert!(matches!(idx, NodeIndexSet::Kick { .. }));
}

#[test]
fn builders_wire_the_documented_chains() {
    let mut g = Graph::new(2);
    let sine = g.sine_node_set_from_sound_param(440 * FP_ONE, 500_000);
    match sine {
        NodeIndexSet::Sine { volume_index, freq_index } => {
            assert_eq!(freq_index.index, 1);
            assert_eq!(volume_index.index, 2);
        },
        _ => panic!("wrong index set"),
    }
    // Oscillator feeds the volume gain, which feeds the destination.
    assert_eq!(g.edges.len(), 2);
    assert!(g.edges[0].source == 1 && g.edges[0].dest == 2);
    assert!(g.edges[1].source == 2 && g.edges[1].dest == 0);

    let brown = g.brownish_node_set_from_sound_param(100_000, 500 * FP_ONE, 500_000);
    match brown {
        NodeIndexSet::Brownish { volume_index, low_pass_index, knob_a_index } => {
            assert_eq!(knob_a_index.index, 3);
            assert_eq!(low_pass_index.index, 4);
            assert_eq!(volume_index.index, 5);
        },
        _ => panic!("wrong index set"),
    }
    // Noise into the volume gain, into the low-pass, into the destination.
    assert_eq!(g.edges.len(), 5);
    assert!(g.edges[2].source == 3 && g.edges[2].dest == 5);
    assert!(g.edges[3].source == 5 && g.edges[3].dest == 4);
    assert!(g.edges[4].source == 4 && g.edges[4].dest == 0);
    assert!(g.finalize().is_ok());
}

#[test]
fn init_sounds_builds_every_configured_voice() {
    let settings = Settings::default();
    let mut g = Graph::new(3);
    let indices = init_sounds(&mut g, &settings.ui_params);
    assert_eq!(indices.len(), 3);
    assert!(matches!(indices[0], NodeIndexSet::Kick { .. }));
    assert!(matches!(indices[1], NodeIndexSet::Sine { .. }));
    assert!(matches!(indices[2], NodeIndexSet::Brownish { .. }));
    g.finalize().unwrap();
    let mut engine = RenderEngine::new(g);
    let mut channel = ControlChannel::new();
    let block = engine.render_block(&mut channel);
    assert_eq!(block.samples.len(), BLOCK_LEN);
}

#[test]
fn update_messages_follow_the_parameter_set() {
    let param = SoundParam::Sine { volume: 700_000, freq: 220 * FP_ONE };
    let mut g = Graph::new(4);
    let idx = g.sine_node_set_from_sound_param(440 * FP_ONE, 500_000);
    let msgs = param_update_messages(&param, &idx);
    assert_eq!(msgs.len(), 2);
    match idx {
        NodeIndexSet::Sine { volume_index, freq_index } => {
            assert!(msgs[0].target == volume_index && msgs[0].slot == 0);
            assert!(matches!(msgs[0].value, Value::Number(700_000)));
            assert!(msgs[1].target == freq_index && msgs[1].slot == 0);
            assert!(matches!(msgs[1].value, Value::Number(220_000_000)));
        },
        _ => panic!("wrong index set"),
    }
}

#[test]
fn kick_update_sends_the_beat_as_a_frequency() {
    let param = SoundParam::Kick {
        volume: 900_000,
        bpm: 120 * FP_ONE,
        amplitude_attack: 2_000,
        amplitude_decay: 11_000,
        pitch_attack: 10_000,
        pitch_decay: 100_000,
    };
    let mut g = Graph::new(5);
    let idx = g.kick_node_set_from_sound_param(2_000, 11_000, 10_000, 100_000, 120 * FP_ONE, 900_000);
    let msgs = param_update_messages(&param, &idx);
    assert_eq!(msgs.len(), 6);
    // 120 beats per minute is an impulse frequency of two hertz.
    assert!(matches!(msgs[1].value, Value::Number(2_000_000)));
    assert_eq!(msgs[2].slot, 0);
    assert_eq!(msgs[3].slot, 1);
    assert_eq!(msgs[4].slot, 0);
    assert_eq!(msgs[5].slot, 1);
}

#[test]
fn mismatched_kinds_produce_no_messages() {
    let param = SoundParam::Sine { volume: 1, freq: 1 };
    let mut g = Graph::new(6);
    let idx = g.brownish_node_set_from_sound_param(1, 1, 1);
    let msgs = param_update_messages(&param, &idx);
    assert_eq!(msgs.len(), 0);
}

#[test]
fn default_settings_hold_the_three_voices() {
    let s = Settings::default();
    assert_eq!(s.config_version, CONFIG_VERSION);
    assert_eq!(s.glicol_indices.len(), 0);
    assert_eq!(s.ui_params.len(), 3);
    match s.ui_params[0] {
        SoundParam::Kick { volume, bpm, amplitude_attack, .. } => {
            assert_eq!(volume, 980_000);
            assert_eq!(bpm, 50_000_000);
            assert_eq!(amplitude_attack, 2_000);
        },
        _ => panic!("first default voice is not the kick"),
    }
    match s.ui_params[1] {
        SoundParam::Sine { volume, freq } => {
            assert_eq!(volume, 500_000);
            assert_eq!(freq, 200_000_000);
        },
        _ => panic!("second default voice is not the sine"),
    }
    match s.ui_params[2] {
        SoundParam::Brownish { knob_a, volume, low_pass_freq } => {
            assert_eq!(knob_a, 100_000);
            assert_eq!(volume, 500_000);
            assert_eq!(low_pass_freq, 500_000_000);
        },
        _ => panic!("third default voice is not the noise"),
    }
}

#[test]
fn outdated_or_missing_settings_fall_back_to_defaults() {
    let stale = Settings { glicol_indices: vec![], config_version: 0, ui_params: vec![] };
    let s = settings_or_default(Some(stale));
    assert_eq!(s.ui_params.len(), 3);
    let s2 = settings_or_default(None);
    assert_eq!(s2.ui_params.len(), 3);
    let current = Settings {
        glicol_indices: vec![],
        config_version: CONFIG_VERSION,
        ui_params: vec![SoundParam::Sine { volume: 1, freq: 2 }],
    };
    let s3 = settings_or_default(Some(current));
    assert_eq!(s3.ui_params.len(), 1);
}
