//! Definitions of [`nginx-vod-module`](https://github.com/kaltura/nginx-vod-module).

pub mod mapping;
