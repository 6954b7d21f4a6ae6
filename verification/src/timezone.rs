//! Fixed timezone offsets written in the RFC 3339 format (`+04:03`, for
//! example), optionally with seconds (`-05:30:15`).

use vstd::prelude::*;

use crate::text::{
    chars_of, decimal2, parse_u64, parse_unsigned, split, split_chars, views_of,
};

verus! {

/// Fixed offset of a timezone from UTC, in seconds east of it.
#[derive(Clone, Copy, Debug, PartialEq, Eq)]
pub struct TimeZone {
    local_minus_utc: i32,
}

/// Whether the given number of seconds is an offset that `chrono` accepts:
/// strictly less than a day in either direction.
pub open spec fn valid_offset(secs: int) -> bool {
    -86_400 < secs < 86_400
}

/// The text that `chrono` writes for a fixed offset (its `Debug` impl): a
/// sign, two-digit hours and minutes, and two-digit seconds only where they
/// are not zero.
pub open spec fn offset_text(secs: int) -> Seq<char> {
    let sign = if secs < 0 { '-' } else { '+' };
    let a = if secs < 0 { -secs } else { secs };
    let sec = a % 60;
    let min = (a / 60) % 60;
    let hour = (a / 60) / 60;
    let base = seq![sign] + decimal2(hour as nat) + seq![':'] + decimal2(min as nat);
    if sec == 0 {
        base
    } else {
        base + seq![':'] + decimal2(sec as nat)
    }
}

/// Reasons for a text not being a valid timezone offset.
#[derive(Clone, Copy, Debug, PartialEq, Eq)]
pub enum TimezoneError {
    /// The text is empty, or the offset is out of range.
    InvalidTimezone,
    /// The hours piece is not an unsigned number.
    CannotParseHours,
    /// There is no minutes piece.
    NoMinutes,
    /// The minutes piece is not an unsigned number.
    CannotParseMinutes,
    /// The minutes are 60 or more.
    InvalidMinutes(u32),
    /// The seconds piece is not an unsigned number.
    CannotParseSeconds,
    /// The seconds are 60 or more.
    InvalidSeconds(u32),
    /// Something follows the seconds.
    InvalidFormat,
}

/// Text of the offset after its optional sign.
pub open spec fn unsigned_part(s: Seq<char>) -> Seq<char> {
    if s.len() > 0 && (s[0] == '+' || s[0] == '-') {
        s.drop_first()
    } else {
        s
    }
}

/// Sum of the hours, minutes and seconds that a timezone text holds, before
/// its sign and range are considered, or the first problem met reading it.
pub open spec fn magnitude_spec(s: Seq<char>) -> Result<nat, TimezoneError> {
    let p = split(unsigned_part(s), ':');
    let max = u32::MAX as nat;
    match parse_unsigned(p[0], max) {
        None => Err(TimezoneError::CannotParseHours),
        Some(hours) => if p.len() < 2 {
            Err(TimezoneError::NoMinutes)
        } else {
            match parse_unsigned(p[1], max) {
                None => Err(TimezoneError::CannotParseMinutes),
                Some(mins) => if mins >= 60 {
                    Err(TimezoneError::InvalidMinutes(mins as u32))
                } else {
                    let secs = if p.len() >= 3 { parse_unsigned(p[2], max) } else { Some(0nat) };
                    match secs {
                        None => Err(TimezoneError::CannotParseSeconds),
                        Some(secs) => if secs >= 60 {
                            Err(TimezoneError::InvalidSeconds(secs as u32))
                        } else if p.len() > 3 {
                            Err(TimezoneError::InvalidFormat)
                        } else {
                            Ok(hours * 3600 + mins * 60 + secs)
                        },
                    }
                },
            }
        },
    }
}

/// What a timezone text stands for: the offset in seconds east of UTC, or
/// the first problem met reading it. Nothing may follow the seconds.
pub open spec fn parse_spec(s: Seq<char>) -> Result<int, TimezoneError> {
    if s.len() == 0 {
        Err(TimezoneError::InvalidTimezone)
    } else {
        match magnitude_spec(s) {
            Err(e) => Err(e),
            Ok(total) => {
                let offset = if s[0] == '-' { -total } else { total as int };
                if total > i32::MAX || !valid_offset(offset) {
                    Err(TimezoneError::InvalidTimezone)
                } else {
                    Ok(offset)
                }
            },
        }
    }
}

/// Checks a fixed offset as `chrono::FixedOffset::east_opt` does: the
/// offset is accepted exactly when `secs` lies strictly within a day in
/// either direction, and it is then kept as it is.
fn checked_offset(secs: i32) -> (res: Option<i32>)
    ensures
        res == (if valid_offset(secs as int) { Some(secs) } else { None::<i32> }),
{
    if -86_400 < secs && secs < 86_400 {
        Some(secs)
    } else {
        None
    }
}

/// Writes a `chrono` fixed offset: calls the `Debug` impl of
/// `chrono::FixedOffset`, whose source writes the sign, two-digit hours and
/// minutes, and two-digit seconds only where they are not zero.
#[verifier::external_body]
fn chrono_offset_debug(secs: i32) -> (res: String)
    requires
        valid_offset(secs as int),
    ensures
        res@ == offset_text(secs as int),
{
    format!("{:?}", chrono::FixedOffset::east_opt(secs).unwrap())
}

impl TimeZone {
    /// Well-formedness: the offset is one that `chrono` accepts.
    #[verifier::type_invariant]
    spec fn inv(self) -> bool {
        valid_offset(self.local_minus_utc as int)
    }

    /// Offset of this timezone in seconds east of UTC.
    pub closed spec fn offset(self) -> int {
        self.local_minus_utc as int
    }

    /// Makes a timezone east of UTC by `secs` seconds; `None` when the offset
    /// is a day or more.
    pub fn east_opt(secs: i32) -> (res: Option<TimeZone>)
        ensures
            match res {
                Some(tz) => valid_offset(secs as int) && tz.offset() == secs,
                None => !valid_offset(secs as int),
            },
    {
        match checked_offset(secs) {
            Some(s) => Some(TimeZone { local_minus_utc: s }),
            None => None,
        }
    }

    /// Offset of this timezone in seconds east of UTC.
    pub fn local_minus_utc(&self) -> (res: i32)
        ensures
            res == self.offset(),
            valid_offset(res as int),
    {
        proof {
            use_type_invariant(self);
        }
        self.local_minus_utc
    }
}

/// Serializes a timezone in the RFC 3339 format (`+04:03`, for example).
pub fn serialize(tz: &TimeZone) -> (res: String)
    ensures
        res@ == offset_text(tz.offset()),
{
    proof {
        use_type_invariant(tz);
    }
    chrono_offset_debug(tz.local_minus_utc)
}

/// Parses an unsigned number of a piece that must fit into `u32`.
fn parse_piece_u32(piece: &Vec<char>) -> (res: Option<u32>)
    ensures
        res matches Some(v) ==> parse_unsigned(piece@, u32::MAX as nat) == Some(v as nat),
        res is None ==> parse_unsigned(piece@, u32::MAX as nat) is None,
{
    assert(piece@.subrange(0, piece@.len() as int) =~= piece@);
    match parse_u64(piece, 0, piece.len()) {
        Some(v) => if v <= u32::MAX as u64 {
            Some(v as u32)
        } else {
            None
        },
        None => None,
    }
}

/// Deserializes a timezone from the RFC 3339 format (`+04:03`, for example).
/// The sign may be omitted, and seconds may follow the minutes.
pub fn deserialize(s: &str) -> (res: Result<TimeZone, TimezoneError>)
    ensures
        match res {
            Ok(tz) => parse_spec(s@) == Ok::<int, TimezoneError>(tz.offset()),
            Err(e) => parse_spec(s@) == Err::<int, TimezoneError>(e),
        },
{
    let cs = chars_of(s);
    if cs.len() == 0 {
        return Err(TimezoneError::InvalidTimezone);
    }
    let negative = cs[0] == '-';
    let rest: Vec<char> = if cs[0] == '+' || cs[0] == '-' {
        let mut r: Vec<char> = Vec::new();
        let mut i: usize = 1;
        while i < cs.len()
            invariant
                1 <= i <= cs.len(),
                r@ == cs@.subrange(1, i as int),
            decreases cs.len() - i,
        {
            r.push(cs[i]);
            i = i + 1;
            assert(r@ =~= cs@.subrange(1, i as int));
        }
        assert(r@ =~= cs@.drop_first());
        r
    } else {
        cs
    };
    assert(rest@ == unsigned_part(s@));
    let pieces = split_chars(&rest, ':');
    proof {
        crate::text::lemma_split_nonempty(rest@, ':');
        assert(views_of(pieces@).len() == pieces@.len());
    }
    let hours = match parse_piece_u32(&pieces[0]) {
        None => return Err(TimezoneError::CannotParseHours),
        Some(h) => h,
    };
    if pieces.len() < 2 {
        return Err(TimezoneError::NoMinutes);
    }
    let mins = match parse_piece_u32(&pieces[1]) {
        None => return Err(TimezoneError::CannotParseMinutes),
        Some(m) => m,
    };
    if mins >= 60 {
        return Err(TimezoneError::InvalidMinutes(mins));
    }
    let secs = if pieces.len() >= 3 {
        match parse_piece_u32(&pieces[2]) {
            None => return Err(TimezoneError::CannotParseSeconds),
            Some(v) => v,
        }
    } else {
        0
    };
    if secs >= 60 {
        return Err(TimezoneError::InvalidSeconds(secs));
    }
    if pieces.len() > 3 {
        return Err(TimezoneError::InvalidFormat);
    }
    let total: u64 = hours as u64 * 3600 + mins as u64 * 60 + secs as u64;
    if total > i32::MAX as u64 {
        return Err(TimezoneError::InvalidTimezone);
    }
    let magnitude = total as i32;
    let offset = if negative { -magnitude } else { magnitude };
    match TimeZone::east_opt(offset) {
        Some(tz) => Ok(tz),
        None => Err(TimezoneError::InvalidTimezone),
    }
}

/// Reading back a serialized timezone gives the same offset.
pub proof fn lemma_serialize_deserialize_roundtrip(secs: int)
    requires
        valid_offset(secs),
    ensures
        parse_spec(offset_text(secs)) == Ok::<int, TimezoneError>(secs),
{
    let sign = if secs < 0 { '-' } else { '+' };
    let a = if secs < 0 { -secs } else { secs };
    let sec = a % 60;
    let min = (a / 60) % 60;
    let hour = (a / 60) / 60;
    let h = decimal2(hour as nat);
    let m = decimal2(min as nat);
    let c = decimal2(sec as nat);
    let max = u32::MAX as nat;
    crate::timelike::lemma_decimal2_parses(hour as nat, max);
    crate::timelike::lemma_decimal2_parses(min as nat, max);
    crate::timelike::lemma_decimal2_parses(sec as nat, max);
    crate::timelike::lemma_split_no_sep(h, ':');
    crate::timelike::lemma_split_append(h, m, ':');
    let text = offset_text(secs);
    let body = h + seq![':'] + m;
    if sec == 0 {
        assert(text == seq![sign] + body);
        assert(unsigned_part(text) =~= body);
        assert(split(unsigned_part(text), ':') =~= seq![h, m]);
    } else {
        crate::timelike::lemma_split_append(body, c, ':');
        assert(text == seq![sign] + body + seq![':'] + c);
        assert(unsigned_part(text) =~= body + seq![':'] + c);
        assert(split(unsigned_part(text), ':') =~= seq![h, m, c]);
    }
    assert(hour * 3600 + min * 60 + sec == a) by (nonlinear_arith)
        requires
            sec == a % 60,
            min == (a / 60) % 60,
            hour == (a / 60) / 60,
            a >= 0,
    ;
    assert(text[0] == sign);
}

} // verus!
