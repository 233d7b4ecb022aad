//! Times of day and calendar dates, with the few calls into `chrono` that the
//! library needs (parsing and formatting).

use vstd::prelude::*;
use crate::text::{string_of, zero_padded};

verus! {

/// Seconds in one day.
pub const SECONDS_PER_DAY: u32 = 86400;

/// The earliest year a date may have (that of `chrono::NaiveDate::MIN`).
pub const MIN_YEAR: i32 = -262143;

/// The latest year a date may have (that of `chrono::NaiveDate::MAX`).
pub const MAX_YEAR: i32 = 262142;

/// The largest number of minutes, in absolute value, that a time delta can hold
/// (`chrono::TimeDelta::minutes` panics beyond it).
pub const MAX_DELTA_MINUTES: i64 = 153_722_867_280_912;

/// Reduces a number of seconds to a time of day, wrapping around midnight.
pub open spec fn day_wrap(seconds: int) -> int {
    seconds % (SECONDS_PER_DAY as int)
}

/// The view of a time of day: seconds since midnight, and whether it is the
/// leap second that follows that second (written `:60`).
pub type TimeView = (int, bool);

/// The place of a time in the order of the day: a leap second comes after the
/// second it follows and before the next one.
pub open spec fn instant(t: TimeView) -> int {
    2 * t.0 + if t.1 {
        1int
    } else {
        0int
    }
}

/// The whole seconds from `b` to `a` as `chrono::NaiveTime::signed_duration_since`
/// counts them: a leap second at or before `a` adds one, one at or after `b`
/// takes one away.
pub open spec fn elapsed(a: TimeView, b: TimeView) -> int {
    (a.0 - b.0) + (if a.1 && a.0 >= b.0 {
        1int
    } else {
        0int
    }) - (if b.1 && a.0 <= b.0 {
        1int
    } else {
        0int
    })
}

/// `t` moved by `seconds` as `chrono::NaiveTime::overflowing_add_signed` moves
/// it, wrapping around midnight: a leap second moved forward counts from its
/// second, moved backward from the next one, and is kept when not moved.
pub open spec fn shifted(t: TimeView, seconds: int) -> TimeView {
    if t.1 && seconds == 0 {
        t
    } else if t.1 && seconds < 0 {
        (day_wrap(t.0 + 1 + seconds), false)
    } else {
        (day_wrap(t.0 + seconds), false)
    }
}

/// Whether `t` is a time of day that a `Time` can hold.
pub open spec fn valid_time(t: TimeView) -> bool {
    0 <= t.0 < SECONDS_PER_DAY && (t.1 ==> t.0 % 60 == 59)
}

/// A time of day with whole-second precision: seconds since midnight, and
/// whether it is the leap second after that second.
#[derive(Clone, Copy, Debug, PartialEq, Eq, Structural)]
pub struct Time {
    secs: u32,
    leap: bool,
}

impl View for Time {
    type V = TimeView;

    closed spec fn view(&self) -> TimeView {
        (self.secs as int, self.leap)
    }
}

impl Time {
    #[verifier::type_invariant]
    spec fn within_day(self) -> bool {
        self.secs < SECONDS_PER_DAY && (self.leap ==> self.secs % 60 == 59)
    }

    /// The time `seconds` after midnight, if that is within one day.
    pub fn from_seconds(seconds: u32) -> (r: Option<Time>)
        ensures
            r is Some <==> seconds < SECONDS_PER_DAY,
            r matches Some(t) ==> t@ == (seconds as int, false),
    {
        if seconds < SECONDS_PER_DAY {
            Some(Time { secs: seconds, leap: false })
        } else {
            None
        }
    }

    /// The time `seconds` after midnight, or the leap second after it when
    /// `leap` holds, if there is such a time.
    pub fn from_parts(seconds: u32, leap: bool) -> (r: Option<Time>)
        ensures
            r is Some <==> valid_time((seconds as int, leap)),
            r matches Some(t) ==> t@ == (seconds as int, leap),
    {
        if seconds < SECONDS_PER_DAY && (!leap || seconds % 60 == 59) {
            Some(Time { secs: seconds, leap })
        } else {
            None
        }
    }

    /// The time `hour:minute:second`, if each part is in range.
    pub fn from_hms(hour: u32, minute: u32, second: u32) -> (r: Option<Time>)
        ensures
            r is Some <==> hour < 24 && minute < 60 && second < 60,
            r matches Some(t) ==> t@ == (hour * 3600 + minute * 60 + second, false),
    {
        if hour < 24 && minute < 60 && second < 60 {
            Some(Time { secs: hour * 3600 + minute * 60 + second, leap: false })
        } else {
            None
        }
    }

    /// Seconds since midnight (for a leap second, those of the second before).
    pub fn seconds_from_midnight(&self) -> (r: u32)
        ensures
            r == self@.0,
            valid_time(self@),
    {
        proof {
            use_type_invariant(self);
        }
        self.secs
    }

    /// Whether this is a leap second.
    pub fn is_leap_second(&self) -> (r: bool)
        ensures
            r == self@.1,
    {
        self.leap
    }

    /// Two times with the same view are the same time.
    pub proof fn lemma_view_injective(a: Time, b: Time)
        ensures
            a@ == b@ ==> a == b,
    {
    }

    /// This time moved by `minutes` (which may be negative), wrapping around
    /// midnight in either direction.
    pub fn add_minutes_wrapping(&self, minutes: i64) -> (r: Time)
        requires
            -MAX_DELTA_MINUTES <= minutes <= MAX_DELTA_MINUTES,
        ensures
            r@ == shifted(self@, minutes * 60),
    {
        self.add_seconds_wrapping(minutes * 60)
    }

    /// This time moved by `seconds` (which may be negative), wrapping around
    /// midnight in either direction.
    pub fn add_seconds_wrapping(&self, seconds: i64) -> (r: Time)
        ensures
            r@ == shifted(self@, seconds as int),
    {
        proof {
            use_type_invariant(self);
        }
        if self.leap && seconds == 0 {
            return *self;
        }
        let day: u64 = SECONDS_PER_DAY as u64;
        let base: u64 = if self.leap && seconds < 0 {
            self.secs as u64 + 1
        } else {
            self.secs as u64
        };
        if seconds >= 0 {
            let step: u64 = (seconds as u64) % day;
            let total: u64 = (base + step) % day;
            proof {
                vstd::arithmetic::div_mod::lemma_add_mod_noop(base as int, seconds as int, day as int);
                vstd::arithmetic::div_mod::lemma_small_mod(step as nat, day as nat);
                vstd::arithmetic::div_mod::lemma_mod_twice(seconds as int, day as int);
            }
            Time { secs: total as u32, leap: false }
        } else {
            let size: u64 = if seconds == i64::MIN {
                0x8000_0000_0000_0000u64
            } else {
                (-seconds) as u64
            };
            let back: u64 = size % day;
            let total: u64 = (base + day - back) % day;
            proof {
                vstd::arithmetic::div_mod::lemma_sub_mod_noop(base as int, (-seconds) as int, day as int);
                vstd::arithmetic::div_mod::lemma_mod_add_multiples_vanish(base - back, day as int);
                vstd::arithmetic::div_mod::lemma_mod_sub_multiples_vanish(base as int, day as int);
                vstd::arithmetic::div_mod::lemma_mod_add_multiples_vanish(base - back - day, day as int);
                if base < day {
                    vstd::arithmetic::div_mod::lemma_small_mod(base as nat, day as nat);
                } else {
                    vstd::arithmetic::div_mod::lemma_mod_self_0(day as int);
                }
            }
            Time { secs: total as u32, leap: false }
        }
    }

    /// The signed whole seconds from `earlier` to this time, as chrono counts
    /// them.
    pub fn seconds_since(&self, earlier: Time) -> (r: i64)
        ensures
            r == elapsed(self@, earlier@),
            -86400 <= r <= 86400,
    {
        proof {
            use_type_invariant(self);
            use_type_invariant(&earlier);
        }
        let mut d: i64 = self.secs as i64 - earlier.secs as i64;
        if self.leap && self.secs >= earlier.secs {
            d = d + 1;
        }
        if earlier.leap && self.secs <= earlier.secs {
            d = d - 1;
        }
        d
    }

    /// Whether this time is before `other`.
    pub fn is_before(&self, other: Time) -> (r: bool)
        ensures
            r == (instant(self@) < instant(other@)),
    {
        self.secs < other.secs || (self.secs == other.secs && !self.leap && other.leap)
    }

    /// The earlier of this time and `other` (this one when they are equal).
    pub fn earliest(self, other: Time) -> (r: Time)
        ensures
            r@ == if instant(other@) < instant(self@) {
                other@
            } else {
                self@
            },
    {
        if other.is_before(self) {
            other
        } else {
            self
        }
    }
}

/// Whether `year` is a leap year of the proleptic Gregorian calendar.
pub open spec fn is_leap_year(year: int) -> bool {
    (year % 4 == 0 && year % 100 != 0) || year % 400 == 0
}

/// The number of days in `month` of `year`.
pub open spec fn days_in_month(year: int, month: int) -> int {
    if month == 2 {
        if is_leap_year(year) {
            29
        } else {
            28
        }
    } else if month == 4 || month == 6 || month == 9 || month == 11 {
        30
    } else {
        31
    }
}

/// Whether `year-month-day` names a day that a date can hold.
pub open spec fn valid_ymd(year: int, month: int, day: int) -> bool {
    &&& MIN_YEAR <= year <= MAX_YEAR
    &&& 1 <= month <= 12
    &&& 1 <= day <= days_in_month(year, month)
}

/// A calendar date of the proleptic Gregorian calendar.
#[derive(Clone, Copy, Debug, PartialEq, Eq, Structural)]
pub struct Date {
    year: i32,
    month: u32,
    day: u32,
}

impl View for Date {
    type V = (int, int, int);

    closed spec fn view(&self) -> (int, int, int) {
        (self.year as int, self.month as int, self.day as int)
    }
}

impl Date {
    #[verifier::type_invariant]
    spec fn is_valid(self) -> bool {
        valid_ymd(self.year as int, self.month as int, self.day as int)
    }

    /// The date `year-month-day`, if there is such a day.
    pub fn from_ymd_opt(year: i32, month: u32, day: u32) -> (r: Option<Date>)
        ensures
            r is Some <==> valid_ymd(year as int, month as int, day as int),
            r matches Some(d) ==> d@ == (year as int, month as int, day as int),
    {
        if year < MIN_YEAR || year > MAX_YEAR || month < 1 || month > 12 || day < 1 {
            return None;
        }
        let leap = (year % 4 == 0 && year % 100 != 0) || year % 400 == 0;
        let last: u32 = if month == 2 {
            if leap {
                29
            } else {
                28
            }
        } else if month == 4 || month == 6 || month == 9 || month == 11 {
            30
        } else {
            31
        };
        if day > last {
            None
        } else {
            Some(Date { year, month, day })
        }
    }

    /// The year.
    pub fn year(&self) -> (r: i32)
        ensures
            r == self@.0,
            valid_ymd(self@.0, self@.1, self@.2),
    {
        proof {
            use_type_invariant(self);
        }
        self.year
    }

    /// The month, from 1 to 12.
    pub fn month(&self) -> (r: u32)
        ensures
            r == self@.1,
    {
        self.month
    }

    /// The day of the month, from 1.
    pub fn day(&self) -> (r: u32)
        ensures
            r == self@.2,
    {
        self.day
    }
}

/// What `chrono::NaiveTime::parse_from_str(value, format)` yields, as seconds
/// since midnight and whether it is a leap second, or `None` when it fails.
pub uninterp spec fn naive_time_parse(value: Seq<char>, format: Seq<char>) -> Option<(int, bool)>;

/// What `chrono::NaiveDate::parse_from_str(value, format)` yields, as
/// (year, month, day), or `None` when it fails.
pub uninterp spec fn naive_date_parse(value: Seq<char>, format: Seq<char>) -> Option<(int, int, int)>;

/// Calls `chrono::NaiveTime::parse_from_str` with one of the two patterns the
/// library uses, which have no fraction of a second: the nanoseconds of the
/// result are 0, or 1_000_000_000 for a leap second (`:60`).  Claimed: the
/// result is the named parse of exactly these arguments.  Nothing more is
/// claimed of the parser.
#[verifier::external_body]
pub(crate) fn chrono_parse_time(value: &str, format: &str) -> (r: Option<Time>)
    requires
        format@ == "%H:%M:%S"@ || format@ == "%H:%M"@,
    ensures
        match r {
            Some(t) => naive_time_parse(value@, format@) == Some(t@),
            None => naive_time_parse(value@, format@) is None,
        },
{
    match chrono::NaiveTime::parse_from_str(value, format) {
        Ok(t) => Some(
            Time {
                secs: chrono::Timelike::num_seconds_from_midnight(&t),
                leap: chrono::Timelike::nanosecond(&t) >= 1_000_000_000,
            },
        ),
        Err(_) => None,
    }
}

/// Calls `chrono::NaiveDate::parse_from_str` with the one pattern the library
/// uses, `%Y-%m-%d`.  Claimed: the result is the named parse of exactly these
/// arguments.  Nothing more is claimed of the parser.
#[verifier::external_body]
pub(crate) fn chrono_parse_date(value: &str, format: &str) -> (r: Option<Date>)
    requires
        format@ == "%Y-%m-%d"@,
    ensures
        match r {
            Some(d) => naive_date_parse(value@, format@) == Some(d@),
            None => naive_date_parse(value@, format@) is None,
        },
{
    match chrono::NaiveDate::parse_from_str(value, format) {
        Ok(d) => Some(
            Date {
                year: chrono::Datelike::year(&d),
                month: chrono::Datelike::month(&d),
                day: chrono::Datelike::day(&d),
            },
        ),
        Err(_) => None,
    }
}

/// How `chrono` writes a year for `%Y`: four digits, zero-padded, for years 0
/// to 9999; otherwise a sign followed by at least four digits.
pub open spec fn year_text(year: int) -> Seq<char> {
    if 0 <= year <= 9999 {
        zero_padded(year as nat, 4)
    } else if year < 0 {
        seq!['-'] + zero_padded((-year) as nat, 4)
    } else {
        seq!['+'] + zero_padded(year as nat, 4)
    }
}

/// A date written as `%Y-%m-%d`.
pub open spec fn ymd_text(date: (int, int, int)) -> Seq<char> {
    year_text(date.0) + seq!['-'] + zero_padded(date.1 as nat, 2) + seq!['-'] + zero_padded(
        date.2 as nat,
        2,
    )
}

/// A date written as `%Y-%m`.
pub open spec fn ym_text(date: (int, int, int)) -> Seq<char> {
    year_text(date.0) + seq!['-'] + zero_padded(date.1 as nat, 2)
}

/// A time of day written as `%H:%M`.
pub open spec fn hm_text(seconds: int) -> Seq<char> {
    zero_padded((seconds / 3600) as nat, 2) + seq![':'] + zero_padded(
        ((seconds % 3600) / 60) as nat,
        2,
    )
}

/// Calls `chrono::NaiveDate::format` for the two patterns the library uses.
/// Claimed, as chrono's `%Y`, `%m`, `%d` documentation and writer show: the
/// year as `year_text`, month and day as two zero-padded digits, joined by `-`.
#[verifier::external_body]
pub(crate) fn chrono_format_date(date: Date, format: &str) -> (r: String)
    requires
        format@ == "%Y-%m-%d"@ || format@ == "%Y-%m"@,
    ensures
        format@ == "%Y-%m-%d"@ ==> r@ == ymd_text(date@),
        format@ == "%Y-%m"@ ==> r@ == ym_text(date@),
{
    chrono::NaiveDate::from_ymd_opt(date.year, date.month, date.day).unwrap().format(
        format,
    ).to_string()
}

/// A time of day written as `%H:%M:%S`; a leap second shows as second 60.
pub open spec fn hms_text(t: TimeView) -> Seq<char> {
    hm_text(t.0) + seq![':'] + zero_padded(
        ((t.0 % 60) + if t.1 {
            1int
        } else {
            0int
        }) as nat,
        2,
    )
}

/// Calls `chrono::NaiveTime::format` for `%H:%M` and `%H:%M:%S`.  Claimed, as
/// chrono's `%H`, `%M` and `%S` documentation and writer show: hour, minute
/// and second as two zero-padded digits joined by `:`, second 60 for a leap
/// second.
#[verifier::external_body]
pub(crate) fn chrono_format_time(time: Time, format: &str) -> (r: String)
    requires
        format@ == "%H:%M"@ || format@ == "%H:%M:%S"@,
    ensures
        format@ == "%H:%M"@ ==> r@ == hm_text(time@.0),
        format@ == "%H:%M:%S"@ ==> r@ == hms_text(time@),
{
    let nano: u32 = if time.leap {
        1_000_000_000
    } else {
        0
    };
    chrono::NaiveTime::from_num_seconds_from_midnight_opt(time.secs, nano).unwrap().format(
        format,
    ).to_string()
}

/// How `parse_time` reads `value`: as `HH:MM:SS`, or failing that as `HH:MM`,
/// both by chrono's parser.
pub open spec fn parsed_time(value: Seq<char>) -> Option<TimeView> {
    match naive_time_parse(value, "%H:%M:%S"@) {
        Some(t) => Some(t),
        None => naive_time_parse(value, "%H:%M"@),
    }
}

/// The message `parse_time` fails with for `value`.
pub open spec fn invalid_time_message(value: Seq<char>) -> Seq<char> {
    "invalid time `"@ + value + "`; expected HH:MM or HH:MM:SS"@
}

/// Reads a time of day written `HH:MM:SS` or `HH:MM`.
pub fn parse_time(value: &str) -> (r: Result<Time, String>)
    ensures
        match r {
            Ok(t) => parsed_time(value@) == Some(t@),
            Err(e) => parsed_time(value@) is None && e@ == invalid_time_message(value@),
        },
{
    match chrono_parse_time(value, "%H:%M:%S") {
        Some(t) => Ok(t),
        None => match chrono_parse_time(value, "%H:%M") {
            Some(t) => Ok(t),
            None => {
                let mut message = String::from_str("invalid time `");
                message.append(value);
                message.append("`; expected HH:MM or HH:MM:SS");
                Err(message)
            },
        },
    }
}

/// `parse_time` on the characters `value`.
pub fn parse_time_chars(value: &Vec<char>) -> (r: Option<Time>)
    ensures
        match r {
            Some(t) => parsed_time(value@) == Some(t@),
            None => parsed_time(value@) is None,
        },
{
    let text = string_of(value);
    match parse_time(text.as_str()) {
        Ok(t) => Some(t),
        Err(_) => None,
    }
}

} // verus!
