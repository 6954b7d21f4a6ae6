//! Definitions of the `vod-meta` server.

pub mod auth;
pub mod state;

pub use self::state::schedule::schedule_nginx_vod_module_set;
