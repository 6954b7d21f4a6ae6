//! Shareable (exportable and importable) specification of the re-streaming
//! state.

pub mod v1;

use vstd::prelude::*;

verus! {

/// All supported versions of the shareable specification.
#[derive(Debug)]
pub enum Spec {
    /// Version 1.
    V1(v1::Spec),
}

impl Spec {
    /// Converts this specification into its version 1.
    pub fn into_v1(self) -> (res: v1::Spec)
        ensures
            self matches Spec::V1(s) && res == s,
    {
        match self {
            Spec::V1(s) => s,
        }
    }
}

} // verus!
