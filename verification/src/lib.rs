//! A real-time noise gate for interleaved multichannel audio.
//!
//! The noise gate tracks a decaying estimate of the signal level and opens or
//! closes around a pair of hysteresis thresholds.  A continuous attenuation
//! coefficient ramps toward full gain while the noise gate is open and, after a
//! configurable hold interval, back toward silence while it is closed.
//!
//! All audio values are fixed-point: a sample of amplitude `1.0` is the
//! integer [`model::UNIT`], and thresholds are linear amplitudes on the same
//! scale.  The per-sample behaviour is specified by the pure state machine in
//! [`model`], and [`gate::NoiseGate`] is proved to follow it exactly.

pub mod gate;
pub mod laws;
pub mod model;

pub use gate::GateError;
pub use gate::NoiseGate;
