//! Re-streaming of live streams from one input to many outputs.

pub mod api;
pub mod callback;
pub mod dvr;
pub mod ffmpeg;
pub mod merge;
pub mod spec;
pub mod state;

use vstd::prelude::*;

verus! {

/// Whether the flag is off: an output that is not enabled leaves its flag out
/// of a serialized state.
pub fn is_false(val: &bool) -> (res: bool)
    ensures
        res == !*val,
{
    !*val
}

} // verus!
