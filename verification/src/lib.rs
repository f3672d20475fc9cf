//! A small verified audio-synthesis core: a directed graph of
//! signal-processing nodes rendered in fixed-size sample blocks, with a
//! message queue that carries parameter updates into the renderer.
//!
//! All signal values are fixed-point integers: the value `FP_ONE` stands for
//! an amplitude of one. Keeping the whole signal path in integers lets every
//! processing step carry an exact contract.
pub mod block;
pub mod brownish_noise;
pub mod channel;
pub mod engine;
pub mod fixed;
pub mod graph;
pub mod node;
pub mod sound;
pub mod state;
