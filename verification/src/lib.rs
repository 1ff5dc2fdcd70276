//! The logic of a system-wide audio engine, verified.
//!
//! The engine captures from a virtual cable, sends each frame through a bank of filters and plays
//! it on a headset or speaker, while a dashboard moves the controls. This library chooses the
//! devices and stream configurations, converts and queues the samples, runs the filters and the
//! other stages of the signal path, keeps the control panel, leads the conversation with the
//! dashboard and composes its reports.
//!
//! The signal path is written over a trait for numbers: what is computed from what, and in which
//! order, is proved for every kind of number. The program supplies the floating-point operations.
//! What the filter does to a signal in exact arithmetic, and what the whole signal path and its
//! controls do to a frame, is proved on real numbers, in [`ideal`] and in [`playing`].
pub mod biquad;
pub mod controls;
pub mod devices;
pub mod engine;
pub mod filters;
pub mod formats;
pub mod ideal;
pub mod meter;
pub mod number;
pub mod playing;
pub mod reals;
pub mod ring;
pub mod samples;
pub mod session;
pub mod telemetry;
pub mod text;
