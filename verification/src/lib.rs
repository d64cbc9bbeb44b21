//! Voice allocation, module routing and buffer bookkeeping of a modular
//! additive/spectral synthesizer engine.

pub mod modules;
pub mod output;
pub mod phase;
pub mod routing;
pub mod routing_graph;
pub mod seq_search;
pub mod stereo_sample;
pub mod synth_module;
pub mod types;
pub mod ui_bridge;
pub mod utils;
pub mod voice;
pub mod voices_laws;
pub mod voices_handler;


pub use stereo_sample::{SampleBits, StereoSample};
