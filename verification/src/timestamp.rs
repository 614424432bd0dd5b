//! The timestamp normalizer: recognizes a raw timestamp substring under a
//! fixed priority order of textual grammars, validates its calendar
//! components, and produces a calendar point carrying an explicit UTC
//! offset.
//!
//! Recognized grammars, in default priority order (more specific forms
//! first):
//!   - `DD/MM/YYYY, HH:MM:SS` — day-first, four-digit year, seconds.
//!   - `DD/MM/YY, HH:MM(:SS) AM|PM` — twelve-hour clock, two- or four-digit
//!     year, optional seconds, case-insensitive meridiem.
//!   - `DD/MM/YY, HH:MM` — twenty-four-hour clock, two- or four-digit year,
//!     no seconds.
//!   - `YYYY-MM-DD HH:MM:SS` — ISO-like dashed date.
//! Day, month and hour may be written with one or two digits; a two-digit
//! year `YY` below 69 is read as `20YY`, otherwise as `19YY`.

use vstd::prelude::*;

use crate::ParseError;
use crate::text::{digit_val, is_digit};

verus! {

/// The calendar components captured by one timestamp grammar, with the hour
/// already mapped to the twenty-four-hour clock.
#[derive(PartialEq, Eq, Structural, Clone, Copy, Debug)]
pub struct TimeFields {
    pub year: u32,
    pub month: u32,
    pub day: u32,
    pub hour: u32,
    pub minute: u32,
    pub second: u32,
}

/// An unambiguous point in time: calendar components plus the UTC offset,
/// in seconds, under which they are to be read.
#[derive(PartialEq, Eq, Structural, Clone, Copy, Debug)]
pub struct Timestamp {
    pub fields: TimeFields,
    pub offset_seconds: i32,
}

/// A leap year in the proleptic Gregorian calendar.
pub open spec fn is_leap_year(y: int) -> bool {
    y % 4 == 0 && (y % 100 != 0 || y % 400 == 0)
}

/// The number of days in the given month, 0 for a month outside 1..=12.
pub open spec fn days_in_month(y: int, m: int) -> int {
    if m == 1 || m == 3 || m == 5 || m == 7 || m == 8 || m == 10 || m == 12 {
        31
    } else if m == 4 || m == 6 || m == 9 || m == 11 {
        30
    } else if m == 2 {
        if is_leap_year(y) {
            29
        } else {
            28
        }
    } else {
        0
    }
}

/// Calendar legality of a set of captured components.
pub open spec fn fields_valid(f: TimeFields) -> bool {
    &&& 1 <= f.month <= 12
    &&& 1 <= f.day <= days_in_month(f.year as int, f.month as int)
    &&& f.hour < 24
    &&& f.minute < 60
    &&& f.second < 60
}

/// A well-formed timestamp: legal components and an offset strictly within
/// one day of UTC.
pub open spec fn timestamp_valid(t: Timestamp) -> bool {
    fields_valid(t.fields) && -86400 < t.offset_seconds < 86400
}

/// Two ASCII digits at position `i`.
pub open spec fn digits2(s: Seq<char>, i: int) -> bool {
    0 <= i && i + 2 <= s.len() && is_digit(s[i]) && is_digit(s[i + 1])
}

/// The value of the two digits at position `i`.
pub open spec fn num2(s: Seq<char>, i: int) -> int {
    digit_val(s[i]) * 10 + digit_val(s[i + 1])
}

/// Four ASCII digits at position `i`.
pub open spec fn digits4(s: Seq<char>, i: int) -> bool {
    digits2(s, i) && digits2(s, i + 2)
}

/// The value of the four digits at position `i`.
pub open spec fn num4(s: Seq<char>, i: int) -> int {
    num2(s, i) * 100 + num2(s, i + 2)
}

/// The character `c` stands at position `i`.
pub open spec fn lit(s: Seq<char>, i: int, c: char) -> bool {
    0 <= i < s.len() && s[i] == c
}

/// A one- or two-digit number at position `i`, read greedily; yields the
/// value and the position just past it.
pub open spec fn scan12(s: Seq<char>, i: int) -> Option<(int, int)> {
    if digits2(s, i) {
        Some((num2(s, i), i + 2))
    } else if 0 <= i && i < s.len() && is_digit(s[i]) {
        Some((digit_val(s[i]), i + 1))
    } else {
        None
    }
}

/// Exactly two digits at position `i`.
pub open spec fn scan2(s: Seq<char>, i: int) -> Option<(int, int)> {
    if digits2(s, i) {
        Some((num2(s, i), i + 2))
    } else {
        None
    }
}

/// A two-digit year `YY` read as `20YY` below 69 and as `19YY` otherwise.
pub open spec fn map_two_digit_year(y: int) -> int {
    if y < 69 {
        2000 + y
    } else {
        1900 + y
    }
}

/// A four-digit year, or a two-digit year mapped to a full year.
pub open spec fn scan_year(s: Seq<char>, i: int) -> Option<(int, int)> {
    if digits4(s, i) {
        Some((num4(s, i), i + 4))
    } else if digits2(s, i) {
        Some((map_two_digit_year(num2(s, i)), i + 2))
    } else {
        None
    }
}

/// The twenty-four-hour reading of a twelve-hour clock value.
pub open spec fn hour_to_24(h: int, pm: bool) -> int {
    if pm {
        if h == 12 {
            12
        } else {
            h + 12
        }
    } else {
        if h == 12 {
            0
        } else {
            h
        }
    }
}

/// `DD/MM/YYYY, HH:MM:SS` starting at position `i`: captured components and
/// the position just past the match.
#[verifier::opaque]
pub open spec fn lex_day_slash_seconds(s: Seq<char>, i: int) -> Option<(TimeFields, int)> {
    match scan12(s, i) {
        None => None,
        Some((day, j1)) => if !lit(s, j1, '/') {
            None
        } else {
            match scan12(s, j1 + 1) {
                None => None,
                Some((mon, j2)) => if !lit(s, j2, '/') {
                    None
                } else if !digits4(s, j2 + 1) {
                    None
                } else {
                    let year = num4(s, j2 + 1);
                    let j3 = j2 + 5;
                    if !(lit(s, j3, ',') && lit(s, j3 + 1, ' ')) {
                        None
                    } else {
                        match scan12(s, j3 + 2) {
                            None => None,
                            Some((hour, j4)) => if !lit(s, j4, ':') {
                                None
                            } else {
                                match scan2(s, j4 + 1) {
                                    None => None,
                                    Some((min, j5)) => if !lit(s, j5, ':') {
                                        None
                                    } else {
                                        match scan2(s, j5 + 1) {
                                            None => None,
                                            Some((sec, j6)) => Some(
                                                (
                                                    TimeFields {
                                                        year: year as u32,
                                                        month: mon as u32,
                                                        day: day as u32,
                                                        hour: hour as u32,
                                                        minute: min as u32,
                                                        second: sec as u32,
                                                    },
                                                    j6,
                                                ),
                                            ),
                                        }
                                    },
                                }
                            },
                        }
                    }
                },
            }
        },
    }
}

/// The `DD/MM/YY(YY), HH:MM` common head of the two dash-era grammars:
/// date, comma, space, hour and minutes.
#[verifier::opaque]
pub open spec fn lex_date_hm(s: Seq<char>, i: int) -> Option<(TimeFields, int)> {
    match scan12(s, i) {
        None => None,
        Some((day, j1)) => if !lit(s, j1, '/') {
            None
        } else {
            match scan12(s, j1 + 1) {
                None => None,
                Some((mon, j2)) => if !lit(s, j2, '/') {
                    None
                } else {
                    match scan_year(s, j2 + 1) {
                        None => None,
                        Some((year, j3)) => if !(lit(s, j3, ',') && lit(s, j3 + 1, ' ')) {
                            None
                        } else {
                            match scan12(s, j3 + 2) {
                                None => None,
                                Some((hour, j4)) => if !lit(s, j4, ':') {
                                    None
                                } else {
                                    match scan2(s, j4 + 1) {
                                        None => None,
                                        Some((min, j5)) => Some(
                                            (
                                                TimeFields {
                                                    year: year as u32,
                                                    month: mon as u32,
                                                    day: day as u32,
                                                    hour: hour as u32,
                                                    minute: min as u32,
                                                    second: 0,
                                                },
                                                j5,
                                            ),
                                        ),
                                    }
                                },
                            }
                        },
                    }
                },
            }
        },
    }
}

/// A space followed by a case-insensitive `AM` or `PM` marker at position
/// `i`; maps the hour of `f` to the twenty-four-hour clock.
#[verifier::opaque]
pub open spec fn lex_meridiem(s: Seq<char>, i: int, f: TimeFields) -> Option<(TimeFields, int)> {
    if lit(s, i, ' ') && i + 3 <= s.len() {
        let c1 = s[i + 1];
        let c2 = s[i + 2];
        if (c1 == 'A' || c1 == 'a' || c1 == 'P' || c1 == 'p') && (c2 == 'M' || c2 == 'm') {
            let pm = c1 == 'P' || c1 == 'p';
            Some(
                (
                    TimeFields {
                        year: f.year,
                        month: f.month,
                        day: f.day,
                        hour: hour_to_24(f.hour as int, pm) as u32,
                        minute: f.minute,
                        second: f.second,
                    },
                    i + 3,
                ),
            )
        } else {
            None
        }
    } else {
        None
    }
}

/// `DD/MM/YY(YY), HH:MM(:SS) AM|PM` starting at position `i`.
#[verifier::opaque]
pub open spec fn lex_day_slash_twelve_hour(s: Seq<char>, i: int) -> Option<(TimeFields, int)> {
    match lex_date_hm(s, i) {
        None => None,
        Some((f, j5)) => if lit(s, j5, ':') {
            match scan2(s, j5 + 1) {
                None => None,
                Some((sec, j6)) => lex_meridiem(
                    s,
                    j6,
                    TimeFields {
                        year: f.year,
                        month: f.month,
                        day: f.day,
                        hour: f.hour,
                        minute: f.minute,
                        second: sec as u32,
                    },
                ),
            }
        } else {
            lex_meridiem(s, j5, f)
        },
    }
}

/// `YYYY-MM-DD HH:MM:SS` starting at position `i`.
#[verifier::opaque]
pub open spec fn lex_iso_seconds(s: Seq<char>, i: int) -> Option<(TimeFields, int)> {
    if !digits4(s, i) {
        None
    } else {
        let year = num4(s, i);
        let j1 = i + 4;
        if !lit(s, j1, '-') {
            None
        } else {
            match scan2(s, j1 + 1) {
                None => None,
                Some((mon, j2)) => if !lit(s, j2, '-') {
                    None
                } else {
                    match scan2(s, j2 + 1) {
                        None => None,
                        Some((day, j3)) => if !lit(s, j3, ' ') {
                            None
                        } else {
                            match scan2(s, j3 + 1) {
                                None => None,
                                Some((hour, j4)) => if !lit(s, j4, ':') {
                                    None
                                } else {
                                    match scan2(s, j4 + 1) {
                                        None => None,
                                        Some((min, j5)) => if !lit(s, j5, ':') {
                                            None
                                        } else {
                                            match scan2(s, j5 + 1) {
                                                None => None,
                                                Some((sec, j6)) => Some(
                                                    (
                                                        TimeFields {
                                                            year: year as u32,
                                                            month: mon as u32,
                                                            day: day as u32,
                                                            hour: hour as u32,
                                                            minute: min as u32,
                                                            second: sec as u32,
                                                        },
                                                        j6,
                                                    ),
                                                ),
                                            }
                                        },
                                    }
                                },
                            }
                        },
                    }
                },
            }
        }
    }
}

/// One recognized timestamp grammar.
#[derive(PartialEq, Eq, Structural, Clone, Copy, Debug)]
pub enum Grammar {
    /// `DD/MM/YYYY, HH:MM:SS`.
    DaySlashSeconds,
    /// `DD/MM/YY(YY), HH:MM(:SS) AM|PM`.
    DaySlashTwelveHour,
    /// `DD/MM/YY(YY), HH:MM`.
    DaySlashShort,
    /// `YYYY-MM-DD HH:MM:SS`.
    IsoSeconds,
}

/// The components and end position of a match of grammar `g` at position
/// `i`, if the text matches there.
pub open spec fn lex_at(g: Grammar, s: Seq<char>, i: int) -> Option<(TimeFields, int)> {
    match g {
        Grammar::DaySlashSeconds => lex_day_slash_seconds(s, i),
        Grammar::DaySlashTwelveHour => lex_day_slash_twelve_hour(s, i),
        Grammar::DaySlashShort => lex_date_hm(s, i),
        Grammar::IsoSeconds => lex_iso_seconds(s, i),
    }
}

/// The components of a match of grammar `g` against the whole of `s`.
pub open spec fn lex_full(g: Grammar, s: Seq<char>) -> Option<TimeFields> {
    match lex_at(g, s, 0) {
        Some((f, j)) => if j == s.len() {
            Some(f)
        } else {
            None
        },
        None => None,
    }
}

/// The first grammar in `gs` that both matches the whole of `s` and yields
/// calendar-legal components decides the result; a grammar whose match
/// fails validation is passed over, not a hard failure.
pub open spec fn spec_normalize(gs: Seq<Grammar>, s: Seq<char>) -> Option<TimeFields>
    decreases gs.len(),
{
    if gs.len() == 0 {
        None
    } else {
        match lex_full(gs[0], s) {
            Some(f) => if fields_valid(f) {
                Some(f)
            } else {
                spec_normalize(gs.drop_first(), s)
            },
            None => spec_normalize(gs.drop_first(), s),
        }
    }
}

/// The default grammar priority order.
pub open spec fn default_grammars() -> Seq<Grammar> {
    seq![
        Grammar::DaySlashSeconds,
        Grammar::DaySlashTwelveHour,
        Grammar::DaySlashShort,
        Grammar::IsoSeconds,
    ]
}

pub(crate) fn char_at_is(s: &str, len: usize, i: usize, c: char) -> (r: bool)
    requires
        len == s@.len(),
    ensures
        r == lit(s@, i as int, c),
{
    i < len && s.get_char(i) == c
}

fn read2(s: &str, len: usize, i: usize) -> (r: Option<(u32, usize)>)
    requires
        len == s@.len(),
    ensures
        match r {
            Some((v, j)) => scan2(s@, i as int) == Some((v as int, j as int)) && v < 100 && i < j
                <= len,
            None => scan2(s@, i as int) is None,
        },
{
    if i < len && i + 1 < len {
        let c0 = s.get_char(i);
        let c1 = s.get_char(i + 1);
        if '0' <= c0 && c0 <= '9' && '0' <= c1 && c1 <= '9' {
            let v = (c0 as u32 - 48) * 10 + (c1 as u32 - 48);
            return Some((v, i + 2));
        }
    }
    None
}

fn read12(s: &str, len: usize, i: usize) -> (r: Option<(u32, usize)>)
    requires
        len == s@.len(),
    ensures
        match r {
            Some((v, j)) => scan12(s@, i as int) == Some((v as int, j as int)) && v < 100 && i < j
                <= len,
            None => scan12(s@, i as int) is None,
        },
{
    match read2(s, len, i) {
        Some((v, j)) => Some((v, j)),
        None => {
            if i < len {
                let c0 = s.get_char(i);
                if '0' <= c0 && c0 <= '9' {
                    return Some((c0 as u32 - 48, i + 1));
                }
            }
            None
        },
    }
}

fn read4(s: &str, len: usize, i: usize) -> (r: Option<(u32, usize)>)
    requires
        len == s@.len(),
    ensures
        match r {
            Some((v, j)) => digits4(s@, i as int) && v as int == num4(s@, i as int) && v < 10000
                && j as int == i + 4 && j <= len,
            None => !digits4(s@, i as int),
        },
{
    match read2(s, len, i) {
        None => None,
        Some((hi, j)) => match read2(s, len, j) {
            None => None,
            Some((lo, j2)) => Some((hi * 100 + lo, j2)),
        },
    }
}

fn read_year(s: &str, len: usize, i: usize) -> (r: Option<(u32, usize)>)
    requires
        len == s@.len(),
    ensures
        match r {
            Some((v, j)) => scan_year(s@, i as int) == Some((v as int, j as int)) && v < 10000 && i
                < j <= len,
            None => scan_year(s@, i as int) is None,
        },
{
    match read4(s, len, i) {
        Some((v, j)) => Some((v, j)),
        None => match read2(s, len, i) {
            Some((v, j)) => if v < 69 {
                Some((2000 + v, j))
            } else {
                Some((1900 + v, j))
            },
            None => None,
        },
    }
}

fn lex_day_slash_seconds_exec(s: &str, len: usize, i: usize) -> (r: Option<(TimeFields, usize)>)
    requires
        len == s@.len(),
    ensures
        match r {
            Some((f, j)) => lex_day_slash_seconds(s@, i as int) == Some((f, j as int)) && j <= len,
            None => lex_day_slash_seconds(s@, i as int) is None,
        },
{
    proof {
        reveal(lex_day_slash_seconds);
    }
    let (day, j1) = match read12(s, len, i) {
        Some(x) => x,
        None => return None,
    };
    if !char_at_is(s, len, j1, '/') {
        return None;
    }
    let (mon, j2) = match read12(s, len, j1 + 1) {
        Some(x) => x,
        None => return None,
    };
    if !char_at_is(s, len, j2, '/') {
        return None;
    }
    let (year, j3) = match read4(s, len, j2 + 1) {
        Some(x) => x,
        None => return None,
    };
    if !char_at_is(s, len, j3, ',') {
        return None;
    }
    if !char_at_is(s, len, j3 + 1, ' ') {
        return None;
    }
    let (hour, j4) = match read12(s, len, j3 + 2) {
        Some(x) => x,
        None => return None,
    };
    if !char_at_is(s, len, j4, ':') {
        return None;
    }
    let (min, j5) = match read2(s, len, j4 + 1) {
        Some(x) => x,
        None => return None,
    };
    if !char_at_is(s, len, j5, ':') {
        return None;
    }
    let (sec, j6) = match read2(s, len, j5 + 1) {
        Some(x) => x,
        None => return None,
    };
    Some((TimeFields { year, month: mon, day, hour, minute: min, second: sec }, j6))
}

fn lex_date_hm_exec(s: &str, len: usize, i: usize) -> (r: Option<(TimeFields, usize)>)
    requires
        len == s@.len(),
    ensures
        match r {
            Some((f, j)) => lex_date_hm(s@, i as int) == Some((f, j as int)) && j <= len && f.hour
                < 100,
            None => lex_date_hm(s@, i as int) is None,
        },
{
    proof {
        reveal(lex_date_hm);
    }
    let (day, j1) = match read12(s, len, i) {
        Some(x) => x,
        None => return None,
    };
    if !char_at_is(s, len, j1, '/') {
        return None;
    }
    let (mon, j2) = match read12(s, len, j1 + 1) {
        Some(x) => x,
        None => return None,
    };
    if !char_at_is(s, len, j2, '/') {
        return None;
    }
    let (year, j3) = match read_year(s, len, j2 + 1) {
        Some(x) => x,
        None => return None,
    };
    if !char_at_is(s, len, j3, ',') {
        return None;
    }
    if !char_at_is(s, len, j3 + 1, ' ') {
        return None;
    }
    let (hour, j4) = match read12(s, len, j3 + 2) {
        Some(x) => x,
        None => return None,
    };
    if !char_at_is(s, len, j4, ':') {
        return None;
    }
    let (min, j5) = match read2(s, len, j4 + 1) {
        Some(x) => x,
        None => return None,
    };
    Some((TimeFields { year, month: mon, day, hour, minute: min, second: 0 }, j5))
}

fn lex_meridiem_exec(s: &str, len: usize, i: usize, f: TimeFields) -> (r: Option<
    (TimeFields, usize),
>)
    requires
        len == s@.len(),
        f.hour < 100,
    ensures
        match r {
            Some((g, j)) => lex_meridiem(s@, i as int, f) == Some((g, j as int)) && j <= len,
            None => lex_meridiem(s@, i as int, f) is None,
        },
{
    proof {
        reveal(lex_meridiem);
    }
    if !char_at_is(s, len, i, ' ') {
        return None;
    }
    if len - i < 3 {
        return None;
    }
    let c1 = s.get_char(i + 1);
    let c2 = s.get_char(i + 2);
    if !((c1 == 'A' || c1 == 'a' || c1 == 'P' || c1 == 'p') && (c2 == 'M' || c2 == 'm')) {
        return None;
    }
    let pm = c1 == 'P' || c1 == 'p';
    let hour = if pm {
        if f.hour == 12 {
            12
        } else {
            f.hour + 12
        }
    } else {
        if f.hour == 12 {
            0
        } else {
            f.hour
        }
    };
    Some(
        (
            TimeFields {
                year: f.year,
                month: f.month,
                day: f.day,
                hour,
                minute: f.minute,
                second: f.second,
            },
            i + 3,
        ),
    )
}

fn lex_day_slash_twelve_hour_exec(s: &str, len: usize, i: usize) -> (r: Option<
    (TimeFields, usize),
>)
    requires
        len == s@.len(),
    ensures
        match r {
            Some((f, j)) => lex_day_slash_twelve_hour(s@, i as int) == Some((f, j as int)) && j
                <= len,
            None => lex_day_slash_twelve_hour(s@, i as int) is None,
        },
{
    proof {
        reveal(lex_day_slash_twelve_hour);
    }
    let (f, j5) = match lex_date_hm_exec(s, len, i) {
        Some(x) => x,
        None => return None,
    };
    if char_at_is(s, len, j5, ':') {
        let (sec, j6) = match read2(s, len, j5 + 1) {
            Some(x) => x,
            None => return None,
        };
        lex_meridiem_exec(
            s,
            len,
            j6,
            TimeFields {
                year: f.year,
                month: f.month,
                day: f.day,
                hour: f.hour,
                minute: f.minute,
                second: sec,
            },
        )
    } else {
        lex_meridiem_exec(s, len, j5, f)
    }
}

fn lex_iso_seconds_exec(s: &str, len: usize, i: usize) -> (r: Option<(TimeFields, usize)>)
    requires
        len == s@.len(),
    ensures
        match r {
            Some((f, j)) => lex_iso_seconds(s@, i as int) == Some((f, j as int)) && j <= len,
            None => lex_iso_seconds(s@, i as int) is None,
        },
{
    proof {
        reveal(lex_iso_seconds);
    }
    let (year, j1) = match read4(s, len, i) {
        Some(x) => x,
        None => return None,
    };
    if !char_at_is(s, len, j1, '-') {
        return None;
    }
    let (mon, j2) = match read2(s, len, j1 + 1) {
        Some(x) => x,
        None => return None,
    };
    if !char_at_is(s, len, j2, '-') {
        return None;
    }
    let (day, j3) = match read2(s, len, j2 + 1) {
        Some(x) => x,
        None => return None,
    };
    if !char_at_is(s, len, j3, ' ') {
        return None;
    }
    let (hour, j4) = match read2(s, len, j3 + 1) {
        Some(x) => x,
        None => return None,
    };
    if !char_at_is(s, len, j4, ':') {
        return None;
    }
    let (min, j5) = match read2(s, len, j4 + 1) {
        Some(x) => x,
        None => return None,
    };
    if !char_at_is(s, len, j5, ':') {
        return None;
    }
    let (sec, j6) = match read2(s, len, j5 + 1) {
        Some(x) => x,
        None => return None,
    };
    Some((TimeFields { year, month: mon, day, hour, minute: min, second: sec }, j6))
}

/// Tries grammar `g` at position `i` of `s`.
pub fn try_lex_at(g: Grammar, s: &str, len: usize, i: usize) -> (r: Option<(TimeFields, usize)>)
    requires
        len == s@.len(),
    ensures
        match r {
            Some((f, j)) => lex_at(g, s@, i as int) == Some((f, j as int)) && j <= len,
            None => lex_at(g, s@, i as int) is None,
        },
{
    match g {
        Grammar::DaySlashSeconds => lex_day_slash_seconds_exec(s, len, i),
        Grammar::DaySlashTwelveHour => lex_day_slash_twelve_hour_exec(s, len, i),
        Grammar::DaySlashShort => lex_date_hm_exec(s, len, i),
        Grammar::IsoSeconds => lex_iso_seconds_exec(s, len, i),
    }
}

/// Tries grammar `g` against the whole of `s`.
pub fn try_lex_full(g: Grammar, s: &str) -> (r: Option<TimeFields>)
    ensures
        r == lex_full(g, s@),
{
    let len = s.unicode_len();
    match try_lex_at(g, s, len, 0) {
        Some((f, j)) => if j == len {
            Some(f)
        } else {
            None
        },
        None => None,
    }
}

fn is_leap_year_exec(y: u32) -> (r: bool)
    ensures
        r == is_leap_year(y as int),
{
    y % 4 == 0 && (y % 100 != 0 || y % 400 == 0)
}

/// The number of days in the given month, 0 for a month outside 1..=12.
pub fn days_in_month_exec(y: u32, m: u32) -> (r: u32)
    ensures
        r as int == days_in_month(y as int, m as int),
{
    if m == 1 || m == 3 || m == 5 || m == 7 || m == 8 || m == 10 || m == 12 {
        31
    } else if m == 4 || m == 6 || m == 9 || m == 11 {
        30
    } else if m == 2 {
        if is_leap_year_exec(y) {
            29
        } else {
            28
        }
    } else {
        0
    }
}

/// Calendar legality of a set of captured components.
pub fn check_fields(f: &TimeFields) -> (r: bool)
    ensures
        r == fields_valid(*f),
{
    let dim = days_in_month_exec(f.year, f.month);
    1 <= f.month && f.month <= 12 && 1 <= f.day && f.day <= dim && f.hour < 24 && f.minute < 60
        && f.second < 60
}

/// The default grammar priority order.
pub fn default_grammar_vec() -> (r: Vec<Grammar>)
    ensures
        r@ == default_grammars(),
{
    let mut v: Vec<Grammar> = Vec::new();
    v.push(Grammar::DaySlashSeconds);
    v.push(Grammar::DaySlashTwelveHour);
    v.push(Grammar::DaySlashShort);
    v.push(Grammar::IsoSeconds);
    proof {
        assert(v@ =~= default_grammars());
    }
    v
}

/// Relies on chrono's `Local::now` and `FixedOffset::local_minus_utc` for
/// the process's current UTC offset in seconds; chrono keeps every
/// `FixedOffset` strictly within one day of UTC.
#[verifier::external_body]
fn local_offset_seconds() -> (r: i32)
    ensures
        -86400 < r < 86400,
{
    chrono::Local::now().offset().local_minus_utc()
}

/// The timestamp normalizer: an ordered list of grammars tried in priority
/// order, and the single UTC offset, in seconds, applied to every timestamp
/// of a run.
pub struct Normalizer {
    pub grammars: Vec<Grammar>,
    pub offset_seconds: i32,
}

impl Normalizer {
    /// Well-formedness: the configured offset lies strictly within one day
    /// of UTC.
    pub open spec fn wf(&self) -> bool {
        -86400 < self.offset_seconds < 86400
    }

    /// A normalizer with the default grammar order and the process's local
    /// UTC offset, queried once so that one offset holds for a whole run.
    pub fn new() -> (r: Normalizer)
        ensures
            r.grammars@ == default_grammars(),
            r.wf(),
    {
        Normalizer { grammars: default_grammar_vec(), offset_seconds: local_offset_seconds() }
    }

    /// A normalizer with the default grammar order and a caller-chosen UTC
    /// offset in seconds.
    pub fn with_offset(offset_seconds: i32) -> (r: Normalizer)
        requires
            -86400 < offset_seconds < 86400,
        ensures
            r.grammars@ == default_grammars(),
            r.offset_seconds == offset_seconds,
            r.wf(),
    {
        Normalizer { grammars: default_grammar_vec(), offset_seconds }
    }

    /// Converts a raw timestamp substring into a calendar point with this
    /// normalizer's UTC offset: the first grammar that matches and
    /// validates wins; if none does, the call fails with the offending text
    /// (the line number of the error is 0 at this layer, no line being in
    /// play).
    pub fn normalize(&self, text: &str) -> (r: Result<Timestamp, ParseError>)
        ensures
            match spec_normalize(self.grammars@, text@) {
                Some(f) => r == Ok::<Timestamp, ParseError>(
                    Timestamp { fields: f, offset_seconds: self.offset_seconds },
                ),
                None => r matches Err(ParseError::InvalidTimestamp { text: t, line: l })
                    && t@ == text@ && l == 0,
            },
            self.wf() && r is Ok ==> timestamp_valid(r->Ok_0),
    {
        let ghost gs = self.grammars@;
        proof {
            assert(gs.skip(0) =~= gs);
        }
        let mut k: usize = 0;
        while k < self.grammars.len()
            invariant
                gs == self.grammars@,
                0 <= k <= gs.len(),
                spec_normalize(gs, text@) == spec_normalize(gs.skip(k as int), text@),
            decreases gs.len() - k,
        {
            let g = self.grammars[k];
            proof {
                assert(gs.skip(k as int)[0] == gs[k as int]);
                assert(gs.skip(k as int).drop_first() =~= gs.skip(k as int + 1));
            }
            if let Some(f) = try_lex_full(g, text) {
                if check_fields(&f) {
                    return Ok(Timestamp { fields: f, offset_seconds: self.offset_seconds });
                }
            }
            k = k + 1;
        }
        Err(ParseError::InvalidTimestamp { text: String::from_str(text), line: 0 })
    }
}

} // verus!
