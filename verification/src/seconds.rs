//! Durations in whole seconds written as a plain decimal number.

use vstd::prelude::*;

use crate::text::{chars_of, decimal, parse_u64, parse_unsigned, push_decimal};

verus! {

/// Serializes a duration of `secs` seconds as its decimal number.
pub fn serialize(secs: u64) -> (res: String)
    ensures
        res@ == decimal(secs as nat),
{
    let mut res = String::new();
    push_decimal(&mut res, secs);
    assert(res@ =~= decimal(secs as nat));
    res
}

/// Deserializes a duration of whole seconds from a decimal number, read as
/// `u64::from_str` reads it; `None` when the text is no such number.
pub fn deserialize(s: &str) -> (res: Option<u64>)
    ensures
        res matches Some(v) ==> parse_unsigned(s@, u64::MAX as nat) == Some(v as nat),
        res is None ==> parse_unsigned(s@, u64::MAX as nat) is None,
{
    let cs = chars_of(s);
    assert(cs@.subrange(0, cs@.len() as int) =~= s@);
    parse_u64(&cs, 0, cs.len())
}

/// Reading back a serialized duration gives the same number of seconds.
pub proof fn lemma_serialize_deserialize_roundtrip(secs: u64)
    ensures
        parse_unsigned(decimal(secs as nat), u64::MAX as nat) == Some(secs as nat),
{
    crate::timelike::lemma_decimal(secs as nat);
    let d = decimal(secs as nat);
    assert(crate::text::is_digit(d[0]));
    assert(crate::text::unsigned_digits(d) == d);
}

} // verus!
