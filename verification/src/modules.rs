//! Settings and list logic of the spectral and audio modules.

pub mod inputs;
pub mod oscillator;
pub mod spectral_eq;
pub mod spectral_filter;
pub mod spectral_mixer;
pub mod spectral_noise;
pub mod wave_shaper;
