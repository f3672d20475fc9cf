//! Persisted application settings and the rule deciding which settings a
//! run starts from.
use crate::sound::{NodeIndexSet, SoundParam};
use vstd::prelude::*;

verus! {

/// Version of the configuration layout this build understands.
pub const CONFIG_VERSION: usize = 1;

/// The application settings: the configured sounds, the configuration
/// version they were written under and, while a stream runs, the node
/// references addressing each sound.
pub struct Settings {
    pub glicol_indices: Vec<NodeIndexSet>,
    pub config_version: usize,
    pub ui_params: Vec<SoundParam>,
}

/// The out-of-the-box configuration: one kick, one sine voice and one
/// brownish-noise voice, with no graph built yet.
pub open spec fn is_default_settings(s: &Settings) -> bool {
    &&& s.glicol_indices@.len() == 0
    &&& s.config_version == CONFIG_VERSION
    &&& s.ui_params@ == seq![
        SoundParam::Kick {
            volume: 980_000i64,
            bpm: 50_000_000i64,
            amplitude_attack: 2_000i64,
            amplitude_decay: 11_000i64,
            pitch_attack: 10_000i64,
            pitch_decay: 100_000i64,
        },
        SoundParam::Sine { volume: 500_000i64, freq: 200_000_000i64 },
        SoundParam::Brownish {
            knob_a: 100_000i64,
            volume: 500_000i64,
            low_pass_freq: 500_000_000i64,
        },
    ]
}

impl Default for Settings {
    /// The out-of-the-box configuration.
    fn default() -> (s: Settings)
        ensures
            is_default_settings(&s),
    {
        let mut ui_params: Vec<SoundParam> = Vec::new();
        ui_params.push(
            SoundParam::Kick {
                volume: 980_000,
                bpm: 50_000_000,
                amplitude_attack: 2_000,
                amplitude_decay: 11_000,
                pitch_attack: 10_000,
                pitch_decay: 100_000,
            },
        );
        ui_params.push(SoundParam::Sine { volume: 500_000, freq: 200_000_000 });
        ui_params.push(
            SoundParam::Brownish { knob_a: 100_000, volume: 500_000, low_pass_freq: 500_000_000 },
        );
        let s = Settings { glicol_indices: Vec::new(), config_version: CONFIG_VERSION, ui_params };
        proof {
            assert(s.ui_params@ =~= seq![
                SoundParam::Kick {
                    volume: 980_000i64,
                    bpm: 50_000_000i64,
                    amplitude_attack: 2_000i64,
                    amplitude_decay: 11_000i64,
                    pitch_attack: 10_000i64,
                    pitch_decay: 100_000i64,
                },
                SoundParam::Sine { volume: 500_000i64, freq: 200_000_000i64 },
                SoundParam::Brownish {
                    knob_a: 100_000i64,
                    volume: 500_000i64,
                    low_pass_freq: 500_000_000i64,
                },
            ]);
        }
        s
    }
}

/// Which settings a run starts from: a loaded configuration is kept only
/// when it is present and of a current version; anything older, missing or
/// unreadable falls back to the defaults.
pub fn settings_or_default(loaded: Option<Settings>) -> (s: Settings)
    ensures
        match loaded {
            Some(l) => {
                if l.config_version >= CONFIG_VERSION {
                    s == l
                } else {
                    is_default_settings(&s)
                }
            },
            None => is_default_settings(&s),
        },
{
    match loaded {
        Some(l) => {
            if l.config_version >= CONFIG_VERSION {
                l
            } else {
                Settings::default()
            }
        },
        None => Settings::default(),
    }
}

} // verus!
