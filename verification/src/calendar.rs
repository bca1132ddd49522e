//! Civil dates and times of day: which ones exist, and how they are written.
//!
//! The calendar itself is chrono's. This module states, as small
//! specification functions, what chrono answers for the years that are
//! written with four digits, and keeps a moment as plain numbers so that the
//! rest of the library can reason about it.

use chrono::offset::LocalResult;
use chrono::TimeZone;
use chrono::Utc;
use vstd::prelude::*;

verus! {

/// Whether `year` has a 29th of February in the proleptic Gregorian calendar.
pub open spec fn is_leap_year(year: int) -> bool {
    year % 4 == 0 && (year % 100 != 0 || year % 400 == 0)
}

/// The number of days of `month` in `year`; 0 where there is no such month.
pub open spec fn days_in_month(year: int, month: int) -> int {
    if month == 2 {
        if is_leap_year(year) {
            29
        } else {
            28
        }
    } else if month == 4 || month == 6 || month == 9 || month == 11 {
        30
    } else if 1 <= month <= 12 {
        31
    } else {
        0
    }
}

/// Whether the calendar has the day `year`-`month`-`day`.
pub open spec fn date_exists(year: int, month: int, day: int) -> bool {
    1 <= month <= 12 && 1 <= day <= days_in_month(year, month)
}

/// Whether a clock can show `hour`:`minute`:`second` and `millisecond`.
///
/// A millisecond count from 1000 to 1999 stands for a leap second, which can
/// only follow second 59.
pub open spec fn time_exists(hour: int, minute: int, second: int, millisecond: int) -> bool {
    &&& 0 <= hour < 24
    &&& 0 <= minute < 60
    &&& 0 <= second < 60
    &&& 0 <= millisecond < 2000
    &&& (millisecond < 1000 || second == 59)
}

/// A moment as seven numbers: the mathematical value of a [`Timestamp`].
pub struct CivilTime {
    pub year: int,
    pub month: int,
    pub day: int,
    pub hour: int,
    pub minute: int,
    pub second: int,
    pub millisecond: int,
}

impl CivilTime {
    /// Whether the moment is one that a [`Timestamp`] can hold: a day of the
    /// calendar in a year from 0 to 9999, at a time that a clock can show.
    pub open spec fn is_moment(self) -> bool {
        &&& 0 <= self.year <= 9999
        &&& date_exists(self.year, self.month, self.day)
        &&& time_exists(self.hour, self.minute, self.second, self.millisecond)
    }

    /// Whether both moments fall on the same day.
    pub open spec fn same_day(self, other: CivilTime) -> bool {
        self.year == other.year && self.month == other.month && self.day == other.day
    }
}

/// The character of the decimal digit `d`.
pub open spec fn digit(d: int) -> char {
    ('0' as int + d) as char
}

/// `n` written with two decimal digits.
pub open spec fn two_digits(n: int) -> Seq<char> {
    seq![digit(n / 10), digit(n % 10)]
}

/// `n` written with three decimal digits.
pub open spec fn three_digits(n: int) -> Seq<char> {
    seq![digit(n / 100), digit(n / 10 % 10), digit(n % 10)]
}

/// `n` written with four decimal digits.
pub open spec fn four_digits(n: int) -> Seq<char> {
    seq![digit(n / 1000), digit(n / 100 % 10), digit(n / 10 % 10), digit(n % 10)]
}

/// The second that a clock shows: 60 during a leap second.
pub open spec fn shown_second(second: int, millisecond: int) -> int {
    second + millisecond / 1000
}

/// The day of `t` as `YYYY-MM-DD`.
pub open spec fn date_text(t: CivilTime) -> Seq<char> {
    four_digits(t.year) + seq!['-'] + two_digits(t.month) + seq!['-'] + two_digits(t.day)
}

/// The time of day of `t` as `HH-MM-SS`.
pub open spec fn dashed_time_text(t: CivilTime) -> Seq<char> {
    two_digits(t.hour) + seq!['-'] + two_digits(t.minute) + seq!['-'] + two_digits(
        shown_second(t.second, t.millisecond),
    )
}

/// The time of day of `t` as `HH:MM:SS.mmm`.
pub open spec fn clock_text(t: CivilTime) -> Seq<char> {
    two_digits(t.hour) + seq![':'] + two_digits(t.minute) + seq![':'] + two_digits(
        shown_second(t.second, t.millisecond),
    ) + seq!['.'] + three_digits(t.millisecond % 1000)
}

/// What a time zone answers when asked for a civil date.
enum DateLookup {
    /// The date exists once.
    Single,
    /// The date exists twice.
    Ambiguous,
    /// The date does not exist.
    Missing,
}

/// A date and a time of day to the millisecond.
///
/// Every value is a moment that exists: see [`CivilTime::is_moment`].
#[derive(Clone, Copy, PartialEq, Eq, Structural, Debug)]
pub struct Timestamp {
    year: i32,
    month: u32,
    day: u32,
    hour: u32,
    minute: u32,
    second: u32,
    millisecond: u32,
}

impl View for Timestamp {
    type V = CivilTime;

    closed spec fn view(&self) -> CivilTime {
        CivilTime {
            year: self.year as int,
            month: self.month as int,
            day: self.day as int,
            hour: self.hour as int,
            minute: self.minute as int,
            second: self.second as int,
            millisecond: self.millisecond as int,
        }
    }
}

/// Asks chrono's `TimeZone::ymd_opt`, on `Utc`, for a calendar date.
///
/// Trusted: for a year from 0 to 9999 the answer is `Single` where the
/// Gregorian calendar has the day and `Missing` where it has not.
#[verifier::external_body]
#[allow(deprecated)]
fn utc_ymd_opt(year: i32, month: u32, day: u32) -> (found: DateLookup)
    requires
        0 <= year <= 9999,
    ensures
        date_exists(year as int, month as int, day as int) ==> found is Single,
        !date_exists(year as int, month as int, day as int) ==> found is Missing,
{
    match Utc.ymd_opt(year, month, day) {
        LocalResult::Single(_) => DateLookup::Single,
        LocalResult::Ambiguous(_, _) => DateLookup::Ambiguous,
        LocalResult::None => DateLookup::Missing,
    }
}

/// Asks chrono's `Date::and_hms_milli_opt`, on a UTC date that exists,
/// whether the date has the given time of day.
///
/// Trusted: the answer is yes exactly for the times that [`time_exists`]
/// describes; chrono admits a millisecond count of 1000 and more only
/// together with second 59.
#[verifier::external_body]
#[allow(deprecated)]
fn utc_and_hms_milli_opt(
    year: i32,
    month: u32,
    day: u32,
    hour: u32,
    minute: u32,
    second: u32,
    millisecond: u32,
) -> (found: bool)
    requires
        0 <= year <= 9999,
        date_exists(year as int, month as int, day as int),
    ensures
        found == time_exists(hour as int, minute as int, second as int, millisecond as int),
{
    Utc.ymd(year, month, day).and_hms_milli_opt(hour, minute, second, millisecond).is_some()
}

/// Writes a moment with chrono's `DateTime::format`, taken as a UTC time.
///
/// Trusted, for the three patterns that the library uses: `%Y` is the year
/// in four digits, `%m`, `%d`, `%H` and `%M` are two digits each, `%S` is
/// the second in two digits and reads 60 during a leap second, `%.3f` is a
/// dot and the milliseconds within the second in three digits, and every
/// other character of the pattern stands for itself.
#[verifier::external_body]
#[allow(deprecated)]
fn utc_format(moment: &Timestamp, pattern: &str) -> (text: String)
    requires
        moment@.is_moment(),
        pattern@ == "%Y-%m-%d"@ || pattern@ == "%H-%M-%S"@ || pattern@ == "%H:%M:%S%.3f"@,
    ensures
        pattern@ == "%Y-%m-%d"@ ==> text@ == date_text(moment@),
        pattern@ == "%H-%M-%S"@ ==> text@ == dashed_time_text(moment@),
        pattern@ == "%H:%M:%S%.3f"@ ==> text@ == clock_text(moment@),
{
    Utc.ymd(moment.year, moment.month, moment.day).and_hms_milli(
        moment.hour,
        moment.minute,
        moment.second,
        moment.millisecond,
    ).format(pattern).to_string()
}

impl Timestamp {
    #[verifier::type_invariant]
    spec fn exists_in_calendar(&self) -> bool {
        self@.is_moment()
    }

    /// The moment with the given parts, if there is one.
    ///
    /// The date is looked up first, in UTC; the time of day is asked for
    /// only on a date that exists once.
    pub fn new(
        year: i32,
        month: u32,
        day: u32,
        hour: u32,
        minute: u32,
        second: u32,
        millisecond: u32,
    ) -> (made: Option<Timestamp>)
        ensures
            ({
                let parts = CivilTime {
                    year: year as int,
                    month: month as int,
                    day: day as int,
                    hour: hour as int,
                    minute: minute as int,
                    second: second as int,
                    millisecond: millisecond as int,
                };
                &&& made is Some <==> parts.is_moment()
                &&& made matches Some(t) ==> t@ == parts
            }),
    {
        if year < 0 || year > 9999 {
            return None;
        }
        match utc_ymd_opt(year, month, day) {
            DateLookup::Single => {
                if utc_and_hms_milli_opt(year, month, day, hour, minute, second, millisecond) {
                    Some(Timestamp { year, month, day, hour, minute, second, millisecond })
                } else {
                    None
                }
            },
            DateLookup::Ambiguous => None,
            DateLookup::Missing => None,
        }
    }

    /// The year, from 0 to 9999.
    pub fn year(&self) -> (r: i32)
        ensures
            r == self@.year,
    {
        self.year
    }

    /// The month, from 1 to 12.
    pub fn month(&self) -> (r: u32)
        ensures
            r == self@.month,
    {
        self.month
    }

    /// The day of the month, from 1.
    pub fn day(&self) -> (r: u32)
        ensures
            r == self@.day,
    {
        self.day
    }

    /// The hour, from 0 to 23.
    pub fn hour(&self) -> (r: u32)
        ensures
            r == self@.hour,
    {
        self.hour
    }

    /// The minute, from 0 to 59.
    pub fn minute(&self) -> (r: u32)
        ensures
            r == self@.minute,
    {
        self.minute
    }

    /// The second, from 0 to 59.
    pub fn second(&self) -> (r: u32)
        ensures
            r == self@.second,
    {
        self.second
    }

    /// The millisecond; 1000 and more during a leap second.
    pub fn millisecond(&self) -> (r: u32)
        ensures
            r == self@.millisecond,
    {
        self.millisecond
    }

    /// The day as `YYYY-MM-DD`.
    pub fn format_date(&self) -> (text: String)
        ensures
            self@.is_moment(),
            text@ == date_text(self@),
    {
        proof {
            use_type_invariant(self);
        }
        utc_format(self, "%Y-%m-%d")
    }

    /// The time of day as `HH-MM-SS`, for use in a file name.
    pub fn format_time_dashed(&self) -> (text: String)
        ensures
            self@.is_moment(),
            text@ == dashed_time_text(self@),
    {
        proof {
            use_type_invariant(self);
        }
        utc_format(self, "%H-%M-%S")
    }

    /// The time of day as `HH:MM:SS.mmm`.
    pub fn format_clock(&self) -> (text: String)
        ensures
            self@.is_moment(),
            text@ == clock_text(self@),
    {
        proof {
            use_type_invariant(self);
        }
        utc_format(self, "%H:%M:%S%.3f")
    }

    /// Whether both moments fall on the same day.
    pub fn same_day(&self, other: &Timestamp) -> (r: bool)
        ensures
            r == self@.same_day(other@),
    {
        self.year == other.year && self.month == other.month && self.day == other.day
    }
}

/// A day is written with ten characters, a time of day for a file name with
/// eight and a time of day to the millisecond with twelve.
pub proof fn lemma_text_lengths(t: CivilTime)
    ensures
        date_text(t).len() == 10,
        dashed_time_text(t).len() == 8,
        clock_text(t).len() == 12,
{
}

/// A number below 10000 is the sum of its four decimal digits, each times
/// its power of ten.
proof fn lemma_four_digits_value(n: int)
    requires
        0 <= n <= 9999,
    ensures
        n == 1000 * (n / 1000) + 100 * (n / 100 % 10) + 10 * (n / 10 % 10) + n % 10,
        0 <= n / 1000 <= 9,
{
    let tens: int = n / 10;
    let hundreds: int = tens / 10;
    assert(n == 10 * tens + n % 10);
    assert(tens == 10 * hundreds + tens % 10);
    assert(hundreds == n / 100);
    assert(hundreds == 10 * (hundreds / 10) + hundreds % 10);
    assert(hundreds / 10 == n / 1000);
}

/// Four digits spell one number only.
proof fn lemma_four_digits_tell(a: int, b: int)
    requires
        0 <= a <= 9999,
        0 <= b <= 9999,
        four_digits(a) == four_digits(b),
    ensures
        a == b,
{
    assert(four_digits(a)[0] == four_digits(b)[0]);
    assert(four_digits(a)[1] == four_digits(b)[1]);
    assert(four_digits(a)[2] == four_digits(b)[2]);
    assert(four_digits(a)[3] == four_digits(b)[3]);
    assert(a / 1000 == b / 1000);
    assert(a / 100 % 10 == b / 100 % 10);
    assert(a / 10 % 10 == b / 10 % 10);
    assert(a % 10 == b % 10);
    lemma_four_digits_value(a);
    lemma_four_digits_value(b);
}

/// Two digits spell one number only.
proof fn lemma_two_digits_tell(a: int, b: int)
    requires
        0 <= a <= 99,
        0 <= b <= 99,
        two_digits(a) == two_digits(b),
    ensures
        a == b,
{
    assert(two_digits(a)[0] == two_digits(b)[0]);
    assert(two_digits(a)[1] == two_digits(b)[1]);
}

/// Two moments are written with the same date exactly when they fall on the
/// same day.
pub proof fn lemma_date_text_tells_day(a: CivilTime, b: CivilTime)
    requires
        a.is_moment(),
        b.is_moment(),
    ensures
        date_text(a) == date_text(b) <==> a.same_day(b),
{
    if date_text(a) == date_text(b) {
        assert(date_text(a).subrange(0, 4) == four_digits(a.year));
        assert(date_text(b).subrange(0, 4) == four_digits(b.year));
        assert(date_text(a).subrange(5, 7) == two_digits(a.month));
        assert(date_text(b).subrange(5, 7) == two_digits(b.month));
        assert(date_text(a).subrange(8, 10) == two_digits(a.day));
        assert(date_text(b).subrange(8, 10) == two_digits(b.day));
        lemma_four_digits_tell(a.year, b.year);
        lemma_two_digits_tell(a.month, b.month);
        lemma_two_digits_tell(a.day, b.day);
    }
}

} // verus!
