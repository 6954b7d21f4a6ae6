//! Definitions of the outside APIs this crate talks to.

pub mod allatra;
pub mod nginx;
