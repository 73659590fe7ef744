//! Calendar dates and points in time, as day numbers and milliseconds.
//!
//! The calendar itself is `chrono`'s; this module holds its values as plain numbers, so
//! that dates can be compared and reasoned about as integers.

use chrono::{DateTime, Datelike, NaiveDate, TimeDelta, Utc};
use vstd::prelude::*;

verus! {

/// The day number of January 1 of the year -262143, the first date of the calendar.
pub const MIN_DAY: i32 = -95_746_129;

/// The day number of December 31 of the year 262142, the last date of the calendar.
pub const MAX_DAY: i32 = 95_745_399;

/// The day number of January 1, 1970.
pub const EPOCH_DAY: i32 = 719_163;

pub const MILLIS_PER_DAY: i64 = 86_400_000;

pub const MILLIS_PER_SECOND: i64 = 1_000;

/// The most days that a span of time can have: what fits in `i64::MAX` milliseconds.
pub const MAX_SPAN_DAYS: i64 = 106_751_991_167;

/// A date of the proleptic Gregorian calendar, by its day number: January 1 of the year 1
/// is day 1.
#[derive(Debug, Clone, Copy, PartialEq, Eq, Structural)]
pub struct Date {
    days_from_ce: i32,
}

impl View for Date {
    type V = int;

    closed spec fn view(&self) -> int {
        self.days_from_ce as int
    }
}

/// Whether the calendar has a date with this day number.
pub open spec fn is_day(day: int) -> bool {
    MIN_DAY <= day <= MAX_DAY
}

/// Whether a span of this many days can be represented.
pub open spec fn is_span(days: int) -> bool {
    -MAX_SPAN_DAYS <= days <= MAX_SPAN_DAYS
}

/// The day number of a point in time, given in milliseconds since January 1, 1970 UTC.
pub open spec fn day_of(millis: int) -> int {
    EPOCH_DAY + millis / MILLIS_PER_DAY as int
}

/// Whether reading the clock can have given this day number.
pub closed spec fn is_clock_day(day: int) -> bool {
    exists|read: i32| #[trigger] call_ensures(current_day, (), read) && read == day
}

/// The text of the date with day number `day`, as `chrono` shows a `NaiveDate`.
pub uninterp spec fn date_text(day: int) -> Seq<char>;

impl Date {
    #[verifier::type_invariant]
    pub closed spec fn wf(self) -> bool {
        is_day(self.days_from_ce as int)
    }

    /// The date with this day number, if the calendar has it.
    pub fn from_num_days_from_ce_opt(days: i32) -> (date: Option<Date>)
        ensures
            date is Some <==> is_day(days as int),
            date matches Some(d) ==> d@ == days,
    {
        if MIN_DAY <= days && days <= MAX_DAY {
            Some(Date { days_from_ce: days })
        } else {
            None
        }
    }

    /// The day number.
    pub fn num_days_from_ce(&self) -> (days: i32)
        ensures
            days == self@,
            is_day(days as int),
    {
        proof {
            use_type_invariant(self);
        }
        self.days_from_ce
    }

    /// The date as text: year, month and day.
    pub fn to_string(&self) -> (text: String)
        ensures
            text@ == date_text(self@),
    {
        proof {
            use_type_invariant(self);
        }
        render_date(self.days_from_ce)
    }

    /// Whether this date comes before `other`.
    pub fn is_before(&self, other: &Date) -> (before: bool)
        ensures
            before == (self@ < other@),
    {
        self.days_from_ce < other.days_from_ce
    }

    /// The current date in UTC: the one that the clock gave, which rests on the clock alone.
    pub fn today() -> (date: Date)
        ensures
            is_clock_day(date@),
            EPOCH_DAY <= date@,
            is_day(date@),
    {
        Date { days_from_ce: reading_of(current_day) }
    }

    /// Whether the calendar reaches back `days` days from this date, or forward where `days`
    /// is negative.
    pub fn can_go_back(&self, days: i64) -> (can: bool)
        ensures
            can == is_day(self@ - days),
    {
        let from: i64 = self.days_from_ce as i64;
        from - MAX_DAY as i64 <= days && days <= from - MIN_DAY as i64
    }

    /// The date `days` days earlier.
    pub fn back(&self, days: i64) -> (date: Date)
        requires
            is_day(self@ - days),
        ensures
            date@ == self@ - days,
    {
        proof {
            use_type_invariant(self);
        }
        Date { days_from_ce: subtract_days(self.days_from_ce, days) }
    }
}

/// Shows a date: `NaiveDate::from_num_days_from_ce_opt`, which gives the date with a day
/// number, and its `Display`, whose text depends on the date alone and is named `date_text`.
#[verifier::external_body]
fn render_date(day: i32) -> (text: String)
    requires
        is_day(day as int),
    ensures
        text@ == date_text(day as int),
{
    NaiveDate::from_num_days_from_ce_opt(day).unwrap().to_string()
}

/// Takes one reading of the clock, and gives it as it came.
fn reading_of(clock: impl Fn() -> i32) -> (day: i32)
    requires
        call_requires(clock, ()),
    ensures
        call_ensures(clock, (), day),
{
    clock()
}

/// The days of the clock are the readings of it and no others, and none lies before 1970.
proof fn law_clock_days_are_readings(day: int)
    ensures
        is_clock_day(day) ==> EPOCH_DAY <= day && is_day(day) && exists|read: i32| #[trigger]
            call_ensures(current_day, (), read) && read == day,
{
}

/// Reads the clock with `Utc::now`: the day number of the current UTC date. What is claimed
/// is that it is no day before January 1, 1970, and that the calendar has it; which day it is
/// rests on the clock. `Utc::now` panics on a clock set before 1970.
#[verifier::external_body]
fn current_day() -> (day: i32)
    ensures
        EPOCH_DAY <= day,
        is_day(day as int),
{
    Utc::now().date_naive().num_days_from_ce()
}

/// Subtracts a span of whole days from a date with `NaiveDate`'s `-`, which panics where the
/// result leaves the calendar: the day number gets smaller by the number of days.
#[verifier::external_body]
fn subtract_days(day: i32, days: i64) -> (earlier: i32)
    requires
        is_day(day as int),
        is_day(day - days),
    ensures
        earlier == day - days,
{
    let date = NaiveDate::from_num_days_from_ce_opt(day).unwrap();
    (date - TimeDelta::try_days(days).unwrap()).num_days_from_ce()
}

/// Makes a span of whole days with `TimeDelta::try_days`: it exists within the bounds of
/// `i64::MAX` milliseconds either way, and has as many days as were asked for.
#[verifier::external_body]
pub(crate) fn try_days(days: i64) -> (span: Option<i64>)
    ensures
        span is Some <==> is_span(days as int),
        span matches Some(n) ==> n == days,
{
    TimeDelta::try_days(days).map(|span| span.num_days())
}

/// Splits a number of milliseconds since January 1, 1970 UTC with
/// `DateTime::from_timestamp_millis`: there is a time exactly if the calendar has its day,
/// and it has those whole seconds, milliseconds of the second, and day number.
#[verifier::external_body]
fn from_timestamp_millis(millis: i64) -> (parts: Option<(i64, u32, i32)>)
    ensures
        parts is Some <==> is_day(day_of(millis as int)),
        parts matches Some((seconds, subsec_millis, day)) ==> {
            &&& seconds == millis as int / MILLIS_PER_SECOND as int
            &&& subsec_millis == millis as int % MILLIS_PER_SECOND as int
            &&& day == day_of(millis as int)
        },
{
    let time: DateTime<Utc> = DateTime::from_timestamp_millis(millis)?;
    Some((time.timestamp(), time.timestamp_subsec_millis(), time.date_naive().num_days_from_ce()))
}

/// A point in time, in milliseconds since January 1, 1970 UTC.
#[derive(Debug, Clone, Copy, PartialEq, Eq)]
pub struct UtcDateTime {
    seconds: i64,
    subsec_millis: u32,
    date: Date,
}

impl View for UtcDateTime {
    type V = int;

    closed spec fn view(&self) -> int {
        self.seconds * MILLIS_PER_SECOND + self.subsec_millis
    }
}

impl UtcDateTime {
    #[verifier::type_invariant]
    pub closed spec fn wf(self) -> bool {
        &&& self.subsec_millis < MILLIS_PER_SECOND
        &&& self.date@ == day_of(self@)
    }

    /// Whole seconds since January 1, 1970 UTC.
    pub fn timestamp(&self) -> (seconds: i64)
        ensures
            seconds == self@ / MILLIS_PER_SECOND as int,
    {
        proof {
            use_type_invariant(self);
        }
        self.seconds
    }

    /// Milliseconds since the last whole second.
    pub fn timestamp_subsec_millis(&self) -> (millis: u32)
        ensures
            millis == self@ % MILLIS_PER_SECOND as int,
    {
        proof {
            use_type_invariant(self);
        }
        self.subsec_millis
    }

    /// The date.
    pub fn date_naive(&self) -> (date: Date)
        ensures
            date@ == day_of(self@),
            is_day(date@),
    {
        proof {
            use_type_invariant(self);
            use_type_invariant(&self.date);
        }
        self.date
    }
}

/// Why a timestamp was refused.
#[derive(Debug, Clone, Copy, PartialEq, Eq, Structural)]
pub enum TimestampError {
    Negative(i64),
    OutOfRange(i64),
}

/// The point in time of a timestamp in milliseconds. Times before 1970 are refused, and so
/// are those beyond the calendar.
pub fn parse_timestamp(timestamp: i64) -> (time: Result<UtcDateTime, TimestampError>)
    ensures
        match time {
            Ok(t) => timestamp >= 0 && is_day(day_of(timestamp as int)) && t@ == timestamp,
            Err(TimestampError::Negative(t)) => timestamp < 0 && t == timestamp,
            Err(TimestampError::OutOfRange(t)) => {
                timestamp >= 0 && !is_day(day_of(timestamp as int)) && t == timestamp
            },
        },
{
    if timestamp < 0 {
        return Err(TimestampError::Negative(timestamp));
    }
    match from_timestamp_millis(timestamp) {
        Some((seconds, subsec_millis, day)) => Ok(
            UtcDateTime { seconds, subsec_millis, date: Date { days_from_ce: day } },
        ),
        None => Err(TimestampError::OutOfRange(timestamp)),
    }
}

/// A point in time lies on its day: no earlier than the day's beginning, and before the next
/// day's. Days have 86,400,000 milliseconds, and day 719,163 is the one that time is counted from.
pub proof fn law_time_lies_on_its_day(millis: int)
    ensures
        (day_of(millis) - 719_163) * 86_400_000 <= millis < (day_of(millis) - 719_163 + 1)
            * 86_400_000,
{
}

/// The calendar has the days from January 1 of the year -262143 to December 31 of the year 262142,
/// and there are spans of as many days as have no more than `i64::MAX` milliseconds.
pub proof fn law_bounds_of_the_calendar(day: int)
    ensures
        is_day(day) <==> -95_746_129 <= day <= 95_745_399,
        is_span(day) <==> -i64::MAX <= day * 86_400_000 <= i64::MAX,
{
}

/// A timestamp is a time exactly if it is not negative and lies before the end of the calendar,
/// and it is then that time. What is refused is told apart by its sign.
pub proof fn law_timestamp_is_its_time(timestamp: i64, time: Result<UtcDateTime, TimestampError>)
    requires
        call_ensures(parse_timestamp, (timestamp,), time),
    ensures
        time is Ok <==> 0 <= timestamp < 8_210_266_876_800_000,
        time matches Ok(t) ==> t@ == timestamp,
        timestamp < 0 ==> time == Err::<UtcDateTime, TimestampError>(
            TimestampError::Negative(timestamp),
        ),
        timestamp >= 8_210_266_876_800_000 ==> time == Err::<UtcDateTime, TimestampError>(
            TimestampError::OutOfRange(timestamp),
        ),
{
}

/// A time is made of its whole seconds and the milliseconds of the second, of which there are a
/// thousand, and its date is that of the day it lies on.
pub proof fn law_time_is_made_of_its_parts(
    time: UtcDateTime,
    seconds: i64,
    subsec_millis: u32,
    date: Date,
)
    requires
        call_ensures(UtcDateTime::timestamp, (&time,), seconds),
        call_ensures(UtcDateTime::timestamp_subsec_millis, (&time,), subsec_millis),
        call_ensures(UtcDateTime::date_naive, (&time,), date),
    ensures
        seconds * 1_000 + subsec_millis == time@,
        subsec_millis < 1_000,
        (date@ - 719_163) * 86_400_000 <= time@ < (date@ - 719_163 + 1) * 86_400_000,
{
}

} // verus!
