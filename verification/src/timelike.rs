//! Durations in whole seconds written in a `%H:%M:%S` time-like format
//! (`123:05:01`, for example).

pub mod opt;

use vstd::prelude::*;

use crate::text::{
    chars_of, decimal, decimal2, digit_char, digit_value, digits_value, is_digit, parse_u64,
    parse_unsigned, push_char, push_decimal2, split, split_chars, unsigned_digits, views_of,
    all_digits,
};

verus! {

/// Reasons for a text not being a valid time-like duration.
#[derive(Clone, Copy, Debug, PartialEq, Eq)]
pub enum TimelikeError {
    /// The hours piece is not an unsigned number.
    CannotParseHours,
    /// There is no minutes piece.
    NoMinutes,
    /// The minutes piece is not an unsigned number.
    CannotParseMinutes,
    /// The minutes are 60 or more.
    InvalidMinutes(u64),
    /// There is no seconds piece.
    NoSeconds,
    /// The seconds piece is not an unsigned number.
    CannotParseSeconds,
    /// The seconds are 60 or more.
    InvalidSeconds(u64),
    /// There are more than three pieces.
    InvalidFormat,
    /// The duration is too long for a whole number of seconds in `u64`.
    TooLong,
}

/// The time-like text of a duration of `secs` seconds: hours, minutes and
/// seconds, each of at least two digits, separated by colons.
pub open spec fn format_spec(secs: nat) -> Seq<char> {
    let mins = secs / 60;
    decimal2(mins / 60) + seq![':'] + decimal2(mins % 60) + seq![':'] + decimal2(secs % 60)
}

/// What a time-like text stands for: the number of seconds, or the first
/// problem met reading it from left to right.
pub open spec fn parse_spec(s: Seq<char>) -> Result<nat, TimelikeError> {
    let p = split(s, ':');
    match parse_unsigned(p[0], u64::MAX as nat) {
        None => Err(TimelikeError::CannotParseHours),
        Some(hours) => if p.len() < 2 {
            Err(TimelikeError::NoMinutes)
        } else {
            match parse_unsigned(p[1], u64::MAX as nat) {
                None => Err(TimelikeError::CannotParseMinutes),
                Some(mins) => if mins >= 60 {
                    Err(TimelikeError::InvalidMinutes(mins as u64))
                } else if p.len() < 3 {
                    Err(TimelikeError::NoSeconds)
                } else {
                    match parse_unsigned(p[2], u64::MAX as nat) {
                        None => Err(TimelikeError::CannotParseSeconds),
                        Some(secs) => if secs >= 60 {
                            Err(TimelikeError::InvalidSeconds(secs as u64))
                        } else if p.len() > 3 {
                            Err(TimelikeError::InvalidFormat)
                        } else if hours * 3600 + mins * 60 + secs > u64::MAX {
                            Err(TimelikeError::TooLong)
                        } else {
                            Ok(hours * 3600 + mins * 60 + secs)
                        },
                    }
                },
            }
        },
    }
}

/// Formats the given duration of `secs` seconds as a `%H:%M:%S` time-like
/// string (`03:05:01`, for example).
pub fn format(secs: u64) -> (res: String)
    ensures
        res@ == format_spec(secs as nat),
{
    let mins = secs / 60;
    let mut res = String::new();
    push_decimal2(&mut res, mins / 60);
    push_char(&mut res, ':');
    push_decimal2(&mut res, mins % 60);
    push_char(&mut res, ':');
    push_decimal2(&mut res, secs % 60);
    res
}

/// Serializes the given duration of `secs` seconds into the time-like
/// format.
pub fn serialize(secs: u64) -> (res: String)
    ensures
        res@ == format_spec(secs as nat),
{
    format(secs)
}

/// Deserializes a duration in whole seconds from the time-like format.
///
/// Hours may have any number of digits; minutes and seconds must be below 60,
/// and the whole duration must fit into `u64` seconds.
pub fn deserialize(s: &str) -> (res: Result<u64, TimelikeError>)
    ensures
        match res {
            Ok(v) => parse_spec(s@) == Ok::<nat, TimelikeError>(v as nat),
            Err(e) => parse_spec(s@) == Err::<nat, TimelikeError>(e),
        },
{
    let cs = chars_of(s);
    let pieces = split_chars(&cs, ':');
    let ghost p = split(s@, ':');
    proof {
        crate::text::lemma_split_nonempty(s@, ':');
        assert(views_of(pieces@).len() == pieces@.len());
    }
    let hours = match parse_whole(&pieces[0]) {
        None => return Err(TimelikeError::CannotParseHours),
        Some(h) => h,
    };
    if pieces.len() < 2 {
        return Err(TimelikeError::NoMinutes);
    }
    let mins = match parse_whole(&pieces[1]) {
        None => return Err(TimelikeError::CannotParseMinutes),
        Some(m) => m,
    };
    if mins >= 60 {
        return Err(TimelikeError::InvalidMinutes(mins));
    }
    if pieces.len() < 3 {
        return Err(TimelikeError::NoSeconds);
    }
    let secs = match parse_whole(&pieces[2]) {
        None => return Err(TimelikeError::CannotParseSeconds),
        Some(v) => v,
    };
    if secs >= 60 {
        return Err(TimelikeError::InvalidSeconds(secs));
    }
    if pieces.len() > 3 {
        return Err(TimelikeError::InvalidFormat);
    }
    let total = match hours.checked_mul(3600) {
        Some(h) => match h.checked_add(mins * 60 + secs) {
            Some(t) => t,
            None => return Err(TimelikeError::TooLong),
        },
        None => return Err(TimelikeError::TooLong),
    };
    Ok(total)
}

/// Parses a whole piece as an unsigned decimal number.
fn parse_whole(piece: &Vec<char>) -> (res: Option<u64>)
    ensures
        res matches Some(v) ==> parse_unsigned(piece@, u64::MAX as nat) == Some(v as nat),
        res is None ==> parse_unsigned(piece@, u64::MAX as nat) is None,
{
    assert(piece@.subrange(0, piece@.len() as int) =~= piece@);
    parse_u64(piece, 0, piece.len())
}

/// The decimal representation of a number has only digits, which stand for
/// the number.
pub proof fn lemma_decimal(n: nat)
    ensures
        decimal(n).len() > 0,
        all_digits(decimal(n)),
        digits_value(decimal(n)) == n,
    decreases n,
{
    crate::text::lemma_digit_roundtrip(n % 10);
    if n >= 10 {
        lemma_decimal(n / 10);
        let d = decimal(n);
        assert(d.drop_last() =~= decimal(n / 10));
        assert(d.last() == digit_char(n % 10));
        assert(digits_value(d) == (n / 10) * 10 + n % 10);
        assert forall|i: int| 0 <= i < d.len() implies is_digit(#[trigger] d[i]) by {
            if i < d.len() - 1 {
                assert(d[i] == decimal(n / 10)[i]);
            }
        }
    } else {
        let d = decimal(n);
        assert(d.drop_last() =~= Seq::<char>::empty());
        assert(d.last() == digit_char(n));
        assert(digits_value(Seq::<char>::empty()) == 0);
        assert(digits_value(d) == n);
    }
}


/// Zero-padded decimal text reads back as the number it was made of.
pub proof fn lemma_decimal2_parses(n: nat, max: nat)
    requires
        n <= max,
    ensures
        parse_unsigned(decimal2(n), max) == Some(n),
        !decimal2(n).contains(':'),
{
    lemma_decimal(n);
    let d = decimal2(n);
    if n < 10 {
        assert(d.drop_last() =~= seq!['0']);
        assert(seq!['0'].drop_last() =~= Seq::<char>::empty());
        assert(digits_value(seq!['0']) == 0) by {
            reveal_with_fuel(digits_value, 2);
        }
        assert(d.last() == digit_char(n));
        assert(all_digits(d));
    }
    assert(unsigned_digits(d) == d);
    if d.contains(':') {
        let i = choose|i: int| 0 <= i < d.len() && d[i] == ':';
        assert(is_digit(d[i]));
    }
}

/// A piece without separators is split into itself.
pub proof fn lemma_split_no_sep(s: Seq<char>, sep: char)
    requires
        !s.contains(sep),
    ensures
        split(s, sep) == seq![s],
    decreases s.len(),
{
    if s.len() > 0 {
        assert(!s.drop_last().contains(sep)) by {
            if s.drop_last().contains(sep) {
                let i = choose|i: int| 0 <= i < s.drop_last().len() && s.drop_last()[i] == sep;
                assert(s[i] == sep);
            }
        }
        lemma_split_no_sep(s.drop_last(), sep);
        assert(s.last() != sep) by {
            assert(s[s.len() - 1] == s.last());
        }
        assert(s.drop_last().push(s.last()) =~= s);
    } else {
        assert(s =~= Seq::<char>::empty());
    }
}


/// Appending a separator and a piece without separators adds that piece.
pub proof fn lemma_split_append(x: Seq<char>, y: Seq<char>, sep: char)
    requires
        !y.contains(sep),
    ensures
        split(x + seq![sep] + y, sep) == split(x, sep).push(y),
    decreases y.len(),
{
    let s = x + seq![sep] + y;
    if y.len() == 0 {
        assert(s.drop_last() =~= x);
        assert(y =~= Seq::<char>::empty());
    } else {
        assert(!y.drop_last().contains(sep)) by {
            if y.drop_last().contains(sep) {
                let i = choose|i: int| 0 <= i < y.drop_last().len() && y.drop_last()[i] == sep;
                assert(y[i] == sep);
            }
        }
        lemma_split_append(x, y.drop_last(), sep);
        assert(s.drop_last() =~= x + seq![sep] + y.drop_last());
        assert(s.last() == y.last());
        assert(y.last() != sep) by {
            assert(y[y.len() - 1] == y.last());
        }
        assert(y.drop_last().push(y.last()) =~= y);
        assert(split(x, sep).push(y.drop_last()).update(
            split(x, sep).len() as int,
            y.drop_last().push(y.last()),
        ) =~= split(x, sep).push(y));
    }
}

/// Reading back a formatted duration gives the same number of seconds.
pub proof fn lemma_format_parse_roundtrip(secs: u64)
    ensures
        parse_spec(format_spec(secs as nat)) == Ok::<nat, TimelikeError>(secs as nat),
{
    let mins = secs as nat / 60;
    let a = decimal2(mins / 60);
    let b = decimal2(mins % 60);
    let c = decimal2(secs as nat % 60);
    lemma_decimal2_parses(mins / 60, u64::MAX as nat);
    lemma_decimal2_parses(mins % 60, u64::MAX as nat);
    lemma_decimal2_parses(secs as nat % 60, u64::MAX as nat);
    lemma_split_no_sep(a, ':');
    lemma_split_append(a, b, ':');
    lemma_split_append(a + seq![':'] + b, c, ':');
    assert(format_spec(secs as nat) == a + seq![':'] + b + seq![':'] + c);
    let p = split(format_spec(secs as nat), ':');
    assert(p =~= seq![a, b, c]);
    assert((mins / 60) * 3600 + (mins % 60) * 60 + secs as nat % 60 == secs as nat) by (nonlinear_arith)
        requires
            mins == secs as nat / 60,
    ;
}

} // verus!
