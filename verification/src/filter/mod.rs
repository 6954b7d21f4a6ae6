//! Filters of audio streams.

pub mod silence;
