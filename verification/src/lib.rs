//! Estimates the dominant slow oscillation in a grayscale video, such as the
//! cadence of a jump rope in front of a camera.
//!
//! Frames pass through a [`frame::FrameDifferencer`], which keeps what
//! changed. A [`frequency::Analyzer`] feeds the change frames to oscillators
//! scattered over the frame, lets each name the dominant bin of its spectrum
//! and puts their votes together into a [`frequency::Report`]. A
//! [`frequency_tracker::FrequencyTracker`] holds the reports of analyzers of
//! several window sizes and finds their consensus.
//!
//! The crate works on whole numbers only. Grey levels, spectral magnitudes and
//! frequencies are counted in millionths, and the spectrum of an oscillator's
//! samples is taken by the caller and handed in as magnitudes.

pub mod arith;
pub mod config;
pub mod frame;
pub mod frequency;
pub mod frequency_tracker;
pub mod oscillator;
pub mod random;
pub mod vote;
