//! Morse-signal timing decoder.
//!
//! The decoder receives a sampled on/off level once per poll cycle together
//! with the current time in milliseconds, records the duration of every level
//! transition in a fixed-capacity circular log, and classifies the recorded
//! durations into Morse tokens (dits, dahs, letter gaps and word gaps) under
//! caller-supplied thresholds. A diagnostic view ranks the recorded mark and
//! gap durations by magnitude.

pub mod classify;
pub mod code;
pub mod decoder;
pub mod laws;
pub mod model;
pub mod numerals;
pub mod render;
pub mod settings;
pub mod sorting;

pub use code::Code;
pub use decoder::MorseDecoder;
pub use model::LENGTH;
pub use settings::DecoderSettings;
