//! A monophonic synthesis core in fixed-point arithmetic.
//!
//! Samples and gains are Q16 numbers (`ONE` stands for 1.0), time is counted
//! in frames at the session's sample rate, and frequencies are in microhertz.
pub mod oscillator;
pub mod pitch;
pub mod unison;
pub mod envelope;
pub mod midi;
pub mod control;
pub mod synth;
