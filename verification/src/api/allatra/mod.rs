//! Definitions of the [allatra.video](https://allatra.video) site API.

pub mod video;
