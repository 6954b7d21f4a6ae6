//! Definitions of [VOD](https://en.wikipedia.org/wiki/Video_on_demand)
//! playlists.

pub mod file;
pub mod meta;
