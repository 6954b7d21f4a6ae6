//! Mixing of live streams with additional audio sources by FFmpeg.

pub mod ffmpeg;
pub mod spec;
