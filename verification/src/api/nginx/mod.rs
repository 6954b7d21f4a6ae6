//! Definitions of [nginx](https://nginx.org) modules' APIs.

pub mod vod_module;
