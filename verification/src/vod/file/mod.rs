//! Files served by the VOD server.

pub mod cache;
