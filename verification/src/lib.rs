//! A single-track audio effects library.
//!
//! Buffers are ordered sequences of unsigned 8-bit samples. The library
//! offers amplitude- and time-domain transforms over such buffers (gain,
//! pan, fades, normalization, silence trimming, channel split and merge,
//! peak detection), a pluggable transformer abstraction selected by name
//! and dispatched through a processor, and a flat `key = value` settings
//! parser with documented defaults.
//!
//! Scale parameters (gain, pan, intensity, pitch) are fixed-point
//! [`factor::Factor`] values in thousandths; scaling truncates toward
//! zero and clamps to the sample range `[0, 255]`.

pub mod audio_processor;
pub mod config;
pub mod factor;
pub mod gui;
pub mod utils;
pub mod voice_transformer;
