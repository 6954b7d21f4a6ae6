//! Verified core of a server-side streaming kit: time-like and timezone text
//! formats, `vod-meta` playlist validation and scheduling, and the re-streaming
//! state of the `restreamer` component.

mod text;

pub mod timelike;
pub mod seconds;
pub mod timezone;
pub mod weburl;
mod pattern;
pub mod api;
pub mod vod;
mod fspath;
pub mod restreamer;
pub mod backoff;
pub mod mixer;
pub mod filter;
