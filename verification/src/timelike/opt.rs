//! Optional durations in the time-like format.

use vstd::prelude::*;

use crate::timelike::{format_spec, parse_spec, TimelikeError};

verus! {

/// Serializes an optional duration of whole seconds into the time-like
/// format, keeping an absent duration absent.
pub fn serialize(secs: Option<u64>) -> (res: Option<String>)
    ensures
        match secs {
            Some(v) => res matches Some(r) && r@ == format_spec(v as nat),
            None => res is None,
        },
{
    match secs {
        Some(v) => Some(crate::timelike::serialize(v)),
        None => None,
    }
}

/// Deserializes an optional duration from the time-like format, keeping an
/// absent value absent.
pub fn deserialize(s: Option<&str>) -> (res: Result<Option<u64>, TimelikeError>)
    ensures
        match s {
            None => res == Ok::<Option<u64>, TimelikeError>(None),
            Some(t) => match res {
                Ok(Some(v)) => parse_spec(t@) == Ok::<nat, TimelikeError>(v as nat),
                Ok(None) => false,
                Err(e) => parse_spec(t@) == Err::<nat, TimelikeError>(e),
            },
        },
{
    match s {
        None => Ok(None),
        Some(t) => match crate::timelike::deserialize(t) {
            Ok(v) => Ok(Some(v)),
            Err(e) => Err(e),
        },
    }
}

} // verus!
