//! Wikibase time values (`+2001-12-31T00:00:00Z`) read into UTC date-times.
use vstd::prelude::*;
use crate::entity::EntityError;
use crate::text::{
    chars_of, parse_i32, parse_i32_spec, parse_u32, parse_u32_spec, split_chars, split_spec,
    sub_chars, utf8_len, views, lemma_split_spec, has_char,
};

verus! {

/// The smallest year that chrono's dates hold.
pub const MIN_YEAR: i32 = -262143;

/// The largest year that chrono's dates hold.
pub const MAX_YEAR: i32 = 262142;

/// A leap year of the proleptic Gregorian calendar.
pub open spec fn is_leap_year(y: int) -> bool {
    (y % 4 == 0 && y % 100 != 0) || y % 400 == 0
}

/// The number of days of month `m` (1 to 12) of year `y`.
pub open spec fn days_in_month(y: int, m: int) -> int {
    if m == 2 {
        if is_leap_year(y) {
            29
        } else {
            28
        }
    } else if m == 4 || m == 6 || m == 9 || m == 11 {
        30
    } else {
        31
    }
}

/// The calendar date exists, in the range of years that chrono holds.
pub open spec fn civil_date_exists(y: int, m: int, d: int) -> bool {
    &&& MIN_YEAR <= y <= MAX_YEAR
    &&& 1 <= m <= 12
    &&& 1 <= d <= days_in_month(y, m)
}

/// A date and time of day in UTC, to the second.
#[derive(Debug, Clone, Copy, PartialEq, Eq, Hash)]
pub struct UtcDateTime {
    pub year: i32,
    pub month: u32,
    pub day: u32,
    pub hour: u32,
    pub minute: u32,
    pub second: u32,
}

impl UtcDateTime {
    /// The date exists and the time of day is one of the 86400 seconds of a day.
    pub open spec fn wf(self) -> bool {
        &&& civil_date_exists(self.year as int, self.month as int, self.day as int)
        &&& self.hour < 24
        &&& self.minute < 60
        &&& self.second < 60
    }
}

/// What `Utc.ymd_opt` finds for a calendar date.
#[derive(Debug, Clone, Copy, PartialEq, Eq)]
pub enum DateMatch {
    NoMatch,
    Single,
    Ambiguous,
}

/// Calls `chrono::TimeZone::ymd_opt` on `Utc`. Claimed of it: it finds a single date
/// exactly when `NaiveDate::from_ymd_opt` accepts the calendar date (the month and
/// day exist and the year is in chrono's range), and nothing otherwise; `Utc` maps
/// every local date to one instant, so the answer is never ambiguous.
#[verifier::external_body]
#[allow(deprecated)]
fn utc_ymd_opt(year: i32, month: u32, day: u32) -> (r: DateMatch)
    ensures
        r == (if civil_date_exists(year as int, month as int, day as int) {
            DateMatch::Single
        } else {
            DateMatch::NoMatch
        }),
{
    match chrono::TimeZone::ymd_opt(&chrono::Utc, year, month, day) {
        chrono::LocalResult::Single(_) => DateMatch::Single,
        chrono::LocalResult::None => DateMatch::NoMatch,
        chrono::LocalResult::Ambiguous(_, _) => DateMatch::Ambiguous,
    }
}

/// A month or day field: absent, unreadable or zero all mean "not given".
pub open spec fn date_field(parts: Seq<Seq<char>>, i: int) -> Option<u32> {
    if i < parts.len() {
        match parse_u32_spec(parts[i]) {
            Some(x) => if x == 0 {
                None
            } else {
                Some(x)
            },
            None => None,
        }
    } else {
        None
    }
}

/// The characters of the first two bytes of `p` (`&p[0..2]`), or `None` where that
/// byte range does not end on a character boundary (the slicing panics).
pub open spec fn first_two_bytes(p: Seq<char>) -> Option<Seq<char>> {
    if p.len() >= 1 && utf8_len(p[0]) == 2 {
        Some(p.take(1))
    } else if p.len() >= 2 && utf8_len(p[0]) == 1 && utf8_len(p[1]) == 1 {
        Some(p.take(2))
    } else {
        None
    }
}

/// Hour, minute and second after the `T`, or midnight where there is no time part;
/// `None` where reading them panics.
pub open spec fn time_of_day_spec(tparts: Seq<Seq<char>>) -> Option<Result<(u32, u32, u32), EntityError>> {
    if tparts.len() == 2 {
        let cparts = split_spec(tparts[1], ':');
        if cparts.len() < 1 {
            Some(Err(EntityError::MissingHour))
        } else {
            match parse_u32_spec(cparts[0]) {
                None => Some(Err(EntityError::FloatParse)),
                Some(hour) => if cparts.len() < 2 {
                    Some(Err(EntityError::MissingMinute))
                } else {
                    match parse_u32_spec(cparts[1]) {
                        None => Some(Err(EntityError::FloatParse)),
                        Some(minute) => if cparts.len() < 3 {
                            Some(Err(EntityError::MissingSecond))
                        } else {
                            match first_two_bytes(cparts[2]) {
                                None => None,
                                Some(sec) => match parse_u32_spec(sec) {
                                    None => Some(Err(EntityError::FloatParse)),
                                    Some(second) => Some(Ok((hour, minute, second))),
                                },
                            }
                        },
                    }
                },
            }
        }
    } else {
        Some(Ok((0, 0, 0)))
    }
}

/// What reading a Wikibase time string gives: `None` where it panics, else the
/// date-time or the error.
///
/// The first character is the era: `+` for the common era, anything else for years
/// before it. The rest is `YEAR[-MONTH[-DAY]][THH:MM:SS...]`; a month or day that is
/// missing, unreadable or zero counts as 1, and a missing time part as midnight.
pub open spec fn wb_time_spec(t: Seq<char>) -> Option<Result<UtcDateTime, EntityError>> {
    if t.len() == 0 {
        Some(Err(EntityError::TimeEmpty))
    } else if utf8_len(t[0]) != 1 {
        None
    } else {
        let is_ce = t[0] == '+';
        let tparts = split_spec(t.drop_first(), 'T');
        let dparts = split_spec(tparts[0], '-');
        match parse_i32_spec(dparts[0]) {
            None => Some(Err(EntityError::NoDateYear)),
            Some(y) => {
                let year: int = if is_ce {
                    y as int
                } else {
                    -(y as int)
                };
                let month: u32 = match date_field(dparts, 1) {
                    Some(m) => m,
                    None => 1,
                };
                let day: u32 = match date_field(dparts, 2) {
                    Some(d) => d,
                    None => 1,
                };
                if !civil_date_exists(year, month as int, day as int) {
                    Some(Err(EntityError::NoDateMatched))
                } else {
                    match time_of_day_spec(tparts) {
                        None => None,
                        Some(Err(e)) => Some(Err(e)),
                        Some(Ok((hour, minute, second))) => if hour < 24 && minute < 60 && second
                            < 60 {
                            Some(
                                Ok(
                                    UtcDateTime {
                                        year: year as i32,
                                        month,
                                        day,
                                        hour,
                                        minute,
                                        second,
                                    },
                                ),
                            )
                        } else {
                            None
                        },
                    }
                }
            },
        }
    }
}

/// A piece that holds no `-` reads as a non-negative `i32`, if at all.
proof fn lemma_no_minus_nonneg(s: Seq<char>)
    requires
        !has_char(s, '-'),
    ensures
        parse_i32_spec(s) matches Some(y) ==> y >= 0,
{
    if s.len() > 0 && s[0] == '-' {
        assert(has_char(s, '-'));
    }
}

/// Reads the month or day field `i` of the date part.
fn date_field_exec(parts: &Vec<Vec<char>>, i: usize) -> (r: Option<u32>)
    ensures
        r == date_field(views(parts@), i as int),
{
    if i < parts.len() {
        match parse_u32(parts[i].as_slice()) {
            Some(x) => if x == 0 {
                None
            } else {
                Some(x)
            },
            None => None,
        }
    } else {
        None
    }
}

/// Reads hour, minute and second after the `T`.
fn time_of_day(tparts: &Vec<Vec<char>>) -> (r: Result<(u32, u32, u32), EntityError>)
    requires
        time_of_day_spec(views(tparts@)) is Some,
    ensures
        r == time_of_day_spec(views(tparts@))->0,
{
    if tparts.len() == 2 {
        let cparts = split_chars(tparts[1].as_slice(), ':');
        assert(views(tparts@)[1] == tparts@[1]@);
        if cparts.len() < 1 {
            return Err(EntityError::MissingHour);
        }
        assert(views(cparts@)[0] == cparts@[0]@);
        let hour = match parse_u32(cparts[0].as_slice()) {
            Some(x) => x,
            None => return Err(EntityError::FloatParse),
        };
        if cparts.len() < 2 {
            return Err(EntityError::MissingMinute);
        }
        assert(views(cparts@)[1] == cparts@[1]@);
        let minute = match parse_u32(cparts[1].as_slice()) {
            Some(x) => x,
            None => return Err(EntityError::FloatParse),
        };
        if cparts.len() < 3 {
            return Err(EntityError::MissingSecond);
        }
        assert(views(cparts@)[2] == cparts@[2]@);
        let p = &cparts[2];
        let sec_chars = if p.len() >= 1 && 0x80 <= (p[0] as u32) && (p[0] as u32) < 0x800 {
            sub_chars(p.as_slice(), 0, 1)
        } else {
            sub_chars(p.as_slice(), 0, 2)
        };
        assert(sec_chars@ == first_two_bytes(p@)->0);
        let second = match parse_u32(sec_chars.as_slice()) {
            Some(x) => x,
            None => return Err(EntityError::FloatParse),
        };
        Ok((hour, minute, second))
    } else {
        Ok((0, 0, 0))
    }
}

/// Reads a Wikibase time string, such as `+2001-12-31T00:00:00Z`, as a UTC date-time.
///
/// The first character gives the era (`+` for the common era); the year follows, then
/// optionally `-MONTH`, `-DAY` and `THH:MM:SS`. A month or day that is missing, zero or
/// unreadable counts as 1; a missing time part as midnight. Dates that chrono does not
/// hold are refused.
pub fn parse_wb_time(time: &str) -> (r: Result<UtcDateTime, EntityError>)
    requires
        wb_time_spec(time@) is Some,
    ensures
        r == wb_time_spec(time@)->0,
        r matches Ok(dt) ==> dt.wf(),
{
    let t = chars_of(time);
    if t.len() == 0 {
        return Err(EntityError::TimeEmpty);
    }
    let is_ce = t[0] == '+';
    let rest = sub_chars(t.as_slice(), 1, t.len());
    assert(rest@ =~= time@.drop_first());
    let time_parts = split_chars(rest.as_slice(), 'T');
    proof {
        lemma_split_spec(rest@, 'T');
    }
    assert(views(time_parts@)[0] == time_parts@[0]@);
    let dash_parts = split_chars(time_parts[0].as_slice(), '-');
    proof {
        lemma_split_spec(time_parts@[0]@, '-');
        assert(views(dash_parts@)[0] == dash_parts@[0]@);
        lemma_no_minus_nonneg(dash_parts@[0]@);
    }
    let year: i32 = match parse_i32(dash_parts[0].as_slice()) {
        Some(x) => x,
        None => return Err(EntityError::NoDateYear),
    };
    let year: i32 = if is_ce {
        year
    } else {
        -year
    };
    let month: u32 = match date_field_exec(&dash_parts, 1) {
        Some(m) => m,
        None => 1,
    };
    let day: u32 = match date_field_exec(&dash_parts, 2) {
        Some(d) => d,
        None => 1,
    };
    match utc_ymd_opt(year, month, day) {
        DateMatch::Single => {},
        DateMatch::NoMatch => return Err(EntityError::NoDateMatched),
        DateMatch::Ambiguous => return Err(EntityError::DateAmbiguous),
    }
    let (hour, minute, second) = match time_of_day(&time_parts) {
        Ok(hms) => hms,
        Err(e) => return Err(e),
    };
    Ok(UtcDateTime { year, month, day, hour, minute, second })
}

} // verus!
