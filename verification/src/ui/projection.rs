//! The texts and rows that stand for a snapshot.

use chrono::{Datelike, Local, TimeZone, Timelike};
use vstd::prelude::*;
use vstd::string::*;

use crate::domain::model;
use crate::domain::model::{Incident, IncidentModel, IncidentState, ServerModel, ServerStatus,
    SnoozedModel, UiSnapshot};
use crate::text::{copy_of, decimal, decimal_text, joined, parse_signed, same_text, signed_decimal,
    signed_decimal_text, signed_value, starts_with, Text};
use crate::timestamp::{parse_rfc3339, rfc3339_reading, Timestamp};
use crate::tray::{OverallState, TrayState};

verus! {

// ---------------------------------------------------------------------------------------------
// Civil time
// ---------------------------------------------------------------------------------------------

/// A date and a time of day, as clocks show them.
#[derive(Clone, Copy, Debug, PartialEq, Eq, Structural)]
pub struct CivilTime {
    pub year: i32,
    pub month: u32,
    pub day: u32,
    pub hour: u32,
    pub minute: u32,
    pub second: u32,
}

/// The first instant that has a date in UTC, in milliseconds: the start of the year -262143.
pub const FIRST_DATED_MILLISECOND: i64 = -8_334_601_228_800_000;

/// The last instant that has a date in UTC, in milliseconds: the end of the year 262142.
pub const LAST_DATED_MILLISECOND: i64 = 8_210_266_876_799_999;

const MILLISECONDS_PER_DAY: i64 = 86_400_000;

/// Whether an instant has a date in UTC.
pub open spec fn is_dated(millis: int) -> bool {
    FIRST_DATED_MILLISECOND <= millis <= LAST_DATED_MILLISECOND
}

/// Whether an instant can be shown in any time zone: it has no date at all, or one that is not
/// the first or the last.
pub open spec fn is_showable(millis: int) -> bool {
    is_dated(millis) ==> is_dated(millis - 86_400_000) && is_dated(millis + 86_400_000)
}

/// Tests whether an instant can be shown in any time zone.
pub fn can_show(millis: i64) -> (showable: bool)
    ensures
        showable == is_showable(millis as int),
{
    millis < FIRST_DATED_MILLISECOND || millis > LAST_DATED_MILLISECOND || (millis
        >= FIRST_DATED_MILLISECOND + MILLISECONDS_PER_DAY && millis <= LAST_DATED_MILLISECOND
        - MILLISECONDS_PER_DAY)
}

/// Whether a year has a 29th of February.
pub open spec fn is_leap_year(year: int) -> bool {
    year % 4 == 0 && (year % 100 != 0 || year % 400 == 0)
}

/// How many days a month has.
pub open spec fn days_in_month(year: int, month: int) -> int {
    if month == 2 {
        if is_leap_year(year) {
            29
        } else {
            28
        }
    } else if month == 4 || month == 6 || month == 9 || month == 11 {
        30
    } else {
        31
    }
}

/// How many days lie between the start of the year 1 and that of another year.
pub open spec fn days_before_year(year: int) -> int {
    let past = year - 1;
    365 * past + past / 4 - past / 100 + past / 400
}

/// How many days of a year lie before a month.
pub open spec fn days_before_month(year: int, month: int) -> int
    decreases month,
{
    if month <= 1 {
        0
    } else {
        days_before_month(year, month - 1) + days_in_month(year, month - 1)
    }
}

/// Whether the calendar has the date, and the clock the time of day.
pub open spec fn is_civil(time: CivilTime) -> bool {
    &&& 1 <= time.month <= 12
    &&& 1 <= time.day <= days_in_month(time.year as int, time.month as int)
    &&& time.hour < 24
    &&& time.minute < 60
    &&& time.second < 60
}

/// The days from the start of 1970 to a date.
pub open spec fn civil_days(time: CivilTime) -> int {
    days_before_year(time.year as int) - days_before_year(1970) + days_before_month(
        time.year as int,
        time.month as int,
    ) + time.day - 1
}

/// The seconds from the start of 1970 to a date and time, by clocks that are never changed.
pub open spec fn civil_seconds(time: CivilTime) -> int {
    86_400 * civil_days(time) + 3_600 * time.hour + 60 * time.minute + time.second
}

/// Whether a date and time can be those of an instant, in some time zone. No zone is a whole day
/// away from UTC.
pub open spec fn may_be_local(civil: Option<CivilTime>, millis: int) -> bool {
    &&& civil is Some <==> is_dated(millis)
    &&& civil matches Some(time) ==> {
        &&& is_civil(time)
        &&& -86_400 < civil_seconds(time) - millis / 1000 < 86_400
    }
}

/// The date and time of an instant in the time zone of this machine, from
/// `chrono::Local.timestamp_millis_opt` and `DateTime::naive_local`. Which one it is depends on
/// the machine. What is claimed is that there is one for each instant that has a date in UTC, and
/// that it is away from the date and time in UTC by less than a day, as every `FixedOffset` of
/// `chrono` is; parts of a second are dropped. The first and the last of the days in UTC are left
/// out: there a time zone may lead beyond the dates that `chrono` has.
#[verifier::external_body]
fn local_time(millis: i64) -> (civil: Option<CivilTime>)
    requires
        is_showable(millis as int),
    ensures
        may_be_local(civil, millis as int),
{
    Local.timestamp_millis_opt(millis).single().map(|instant| instant.naive_local()).map(
        |local| {
            let (year, month, day) = (local.year(), local.month(), local.day());
            let (hour, minute, second) = (local.hour(), local.minute(), local.second());
            CivilTime { year, month, day, hour, minute, second }
        },
    )
}

/// No two dates and times stand for the same second: the seconds since the start of 1970 and the
/// date and time determine each other.
pub proof fn dates_are_told_apart(first: CivilTime, second: CivilTime)
    requires
        is_civil(first),
        is_civil(second),
        civil_seconds(first) == civil_seconds(second),
    ensures
        first == second,
{
    let (year, other) = (first.year as int, second.year as int);
    lemma_day_in_year(first);
    lemma_day_in_year(second);
    assert(civil_days(first) == civil_days(second));
    if year < other {
        lemma_years_in_order(year, other);
    }
    if other < year {
        lemma_years_in_order(other, year);
    }
    assert(year == other);
    if first.month < second.month {
        lemma_months_in_order(year, first.month as int, second.month as int);
    }
    if second.month < first.month {
        lemma_months_in_order(year, second.month as int, first.month as int);
    }
}

/// The calendar goes on day by day: the day after a day is one day later, within a month, from
/// month to month and from year to year. Days are counted from the start of 1970.
pub proof fn days_follow_each_other(time: CivilTime, next: CivilTime)
    requires
        is_civil(time),
        is_civil(next),
        ({
            ||| next.year == time.year && next.month == time.month && next.day == time.day + 1
            ||| next.year == time.year && next.month == time.month + 1 && next.day == 1 && time.day
                == days_in_month(time.year as int, time.month as int)
            ||| next.year == time.year + 1 && next.month == 1 && next.day == 1 && time.month == 12
                && time.day == 31
        }),
    ensures
        civil_days(next) == civil_days(time) + 1,
        time.year == 1969 && next.year == 1970 ==> civil_days(next) == 0,
{
    let year = time.year as int;
    reveal_with_fuel(days_before_month, 13);
    assert(days_before_month(year, 13) == (if is_leap_year(year) {
        366int
    } else {
        365int
    }));
}

/// A month has 30 or 31 days, and February 28 or 29. A year has 365 days, and a leap year one more:
/// every fourth one but those that end a century, unless that is the fourth.
pub proof fn years_have_their_days(year: int, month: int)
    requires
        1 <= month <= 12,
    ensures
        days_before_year(year + 1) - days_before_year(year) == (if year % 400 == 0 || year % 4 == 0
            && year % 100 != 0 {
            366int
        } else {
            365int
        }),
        days_before_year(year + 1) - days_before_year(year) == days_before_month(year, 12)
            + days_in_month(year, 12),
        month == 2 ==> 28 <= days_in_month(year, month) <= 29,
        month == 4 || month == 6 || month == 9 || month == 11 ==> days_in_month(year, month) == 30,
        month != 2 && month != 4 && month != 6 && month != 9 && month != 11 ==> days_in_month(
            year,
            month,
        ) == 31,
{
    reveal_with_fuel(days_before_month, 13);
}

/// The start of the next year comes after every day of a year.
proof fn lemma_day_in_year(time: CivilTime)
    requires
        is_civil(time),
    ensures
        0 <= days_before_month(time.year as int, time.month as int) + time.day - 1
            < days_before_year(time.year + 1) - days_before_year(time.year as int),
{
    let year = time.year as int;
    reveal_with_fuel(days_before_month, 13);
    lemma_months_in_order(year, time.month as int, 13);
    if time.month > 1 {
        lemma_months_in_order(year, 1, time.month as int);
    }
}

proof fn lemma_months_in_order(year: int, month: int, later: int)
    requires
        1 <= month < later,
    ensures
        days_before_month(year, month) + days_in_month(year, month) <= days_before_month(
            year,
            later,
        ),
    decreases later,
{
    if month < later - 1 {
        lemma_months_in_order(year, month, later - 1);
    }
}

proof fn lemma_years_in_order(year: int, later: int)
    requires
        year < later,
    ensures
        days_before_year(year + 1) <= days_before_year(later),
    decreases later - year,
{
    if year + 1 < later {
        lemma_years_in_order(year, later - 1);
    }
}

// ---------------------------------------------------------------------------------------------
// Texts for instants
// ---------------------------------------------------------------------------------------------

/// A number with at least two digits.
pub open spec fn two_digits(number: nat) -> Text {
    if number < 10 {
        "0"@ + decimal(number)
    } else {
        decimal(number)
    }
}

fn two_digits_text(number: u32) -> (text: String)
    ensures
        text@ == two_digits(number as nat),
{
    let digits = decimal_text(number as u128);
    if number < 10 {
        joined("0", digits.as_str())
    } else {
        digits
    }
}

/// The short name of a month.
pub open spec fn month_word(month: int) -> Text {
    if month <= 1 {
        "Jan"@
    } else if month == 2 {
        "Feb"@
    } else if month == 3 {
        "Mar"@
    } else if month == 4 {
        "Apr"@
    } else if month == 5 {
        "May"@
    } else if month == 6 {
        "Jun"@
    } else if month == 7 {
        "Jul"@
    } else if month == 8 {
        "Aug"@
    } else if month == 9 {
        "Sep"@
    } else if month == 10 {
        "Oct"@
    } else if month == 11 {
        "Nov"@
    } else {
        "Dec"@
    }
}

/// The short name of a month.
pub fn month_name(month: u32) -> (name: &'static str)
    ensures
        name@ == month_word(month as int),
{
    match month {
        0 => "Jan",
        1 => "Jan",
        2 => "Feb",
        3 => "Mar",
        4 => "Apr",
        5 => "May",
        6 => "Jun",
        7 => "Jul",
        8 => "Aug",
        9 => "Sep",
        10 => "Oct",
        11 => "Nov",
        _ => "Dec",
    }
}

/// The time of day.
pub open spec fn clock_words(time: CivilTime) -> Text {
    two_digits(time.hour as nat) + ":"@ + two_digits(time.minute as nat) + ":"@ + two_digits(
        time.second as nat,
    )
}

/// An instant as a date and time, with as much of the date as differs from now.
pub open spec fn absolute_words(value: CivilTime, now: CivilTime) -> Text {
    let date = month_word(value.month as int) + " "@ + decimal(value.day as nat);
    if value.year == now.year && value.month == now.month && value.day == now.day {
        clock_words(value)
    } else if value.year == now.year {
        date + ", "@ + clock_words(value)
    } else {
        date + ", "@ + signed_decimal(value.year as int) + ", "@ + clock_words(value)
    }
}

/// An instant as a date and time, with as much of the date as differs from now.
pub fn format_absolute(value: CivilTime, now: CivilTime) -> (text: String)
    ensures
        text@ == absolute_words(value, now),
{
    let hour = two_digits_text(value.hour);
    let minute = two_digits_text(value.minute);
    let second = two_digits_text(value.second);
    let time = hour.concat(":").concat(minute.as_str()).concat(":").concat(second.as_str());
    if value.year == now.year && value.month == now.month && value.day == now.day {
        return time;
    }
    let day = decimal_text(value.day as u128);
    let date = joined(month_name(value.month), " ").concat(day.as_str());
    if value.year == now.year {
        date.concat(", ").concat(time.as_str())
    } else {
        let year = signed_decimal_text(value.year as i128);
        date.concat(", ").concat(year.as_str()).concat(", ").concat(time.as_str())
    }
}

/// A number of seconds in words. Short times are told in steps of fifteen seconds, longer ones in
/// minutes, hours and minutes, or days and hours.
pub open spec fn duration_words(seconds: int) -> Text {
    if seconds < 15 {
        "<15s"@
    } else if seconds < 60 {
        decimal((seconds / 15 * 15) as nat) + "s"@
    } else if seconds < 3600 {
        decimal((seconds / 60) as nat) + "m"@
    } else if seconds < 86400 {
        let hours = decimal((seconds / 3600) as nat) + "h"@;
        let minutes = seconds / 60 % 60;
        if minutes == 0 {
            hours
        } else {
            hours + " "@ + decimal(minutes as nat) + "m"@
        }
    } else {
        let days = decimal((seconds / 86400) as nat) + "d"@;
        let hours = seconds / 3600 % 24;
        if hours == 0 {
            days
        } else {
            days + " "@ + decimal(hours as nat) + "h"@
        }
    }
}

/// A number of seconds in words.
pub fn duration(seconds: i64) -> (text: String)
    ensures
        text@ == duration_words(seconds as int),
{
    if seconds < 15 {
        return "<15s".to_owned();
    }
    let seconds: u64 = seconds as u64;
    if seconds < 60 {
        decimal_text((seconds / 15 * 15) as u128).concat("s")
    } else if seconds < 3600 {
        decimal_text((seconds / 60) as u128).concat("m")
    } else if seconds < 86400 {
        let total_minutes: u64 = seconds / 60;
        let minutes: u64 = total_minutes % 60;
        assert(total_minutes / 60 == seconds / 3600);
        let hours = decimal_text((total_minutes / 60) as u128).concat("h");
        if minutes == 0 {
            hours
        } else {
            let rest = decimal_text(minutes as u128);
            hours.concat(" ").concat(rest.as_str()).concat("m")
        }
    } else {
        let total_hours: u64 = seconds / 3600;
        let hours: u64 = total_hours % 24;
        assert(total_hours / 24 == seconds / 86400);
        let days = decimal_text((total_hours / 24) as u128).concat("d");
        if hours == 0 {
            days
        } else {
            let rest = decimal_text(hours as u128);
            days.concat(" ").concat(rest.as_str()).concat("h")
        }
    }
}

/// How many whole seconds lie between an instant and now. What is still to come is rounded up.
pub open spec fn distance(value_millis: int, now_millis: int) -> int {
    if now_millis < value_millis {
        (value_millis - now_millis + 999) / 1000
    } else {
        (now_millis - value_millis) / 1000
    }
}

/// How long ago an instant was, or how far it is ahead.
pub open spec fn relative_words(value_millis: int, now_millis: int) -> Text {
    let length = duration_words(distance(value_millis, now_millis));
    if now_millis < value_millis {
        "in "@ + length
    } else {
        length + " ago"@
    }
}

/// How long ago an instant was, or how far it is ahead.
pub fn format_relative(value_millis: i64, now_millis: i64) -> (text: String)
    ensures
        text@ == relative_words(value_millis as int, now_millis as int),
{
    if now_millis < value_millis {
        let ahead: u128 = (value_millis as i128 - now_millis as i128) as u128;
        let length = duration(((ahead + 999) / 1000) as i64);
        joined("in ", length.as_str())
    } else {
        let elapsed: u128 = (now_millis as i128 - value_millis as i128) as u128;
        duration((elapsed / 1000) as i64).concat(" ago")
    }
}

/// The text for an instant whose local date and time are given, as are those of now. Without
/// them it is a number of milliseconds.
pub open spec fn timestamp_words(
    value_millis: int,
    now_millis: int,
    value: Option<CivilTime>,
    now: Option<CivilTime>,
) -> Text {
    match (value, now) {
        (Some(value), Some(now)) => absolute_words(value, now) + " ("@ + relative_words(
            value_millis,
            now_millis,
        ) + ")"@,
        _ => signed_decimal(value_millis),
    }
}

/// The text for an instant whose local date and time are given, as are those of now.
pub fn timestamp_text(
    value_millis: i64,
    now_millis: i64,
    value: Option<CivilTime>,
    now: Option<CivilTime>,
) -> (text: String)
    ensures
        text@ == timestamp_words(value_millis as int, now_millis as int, value, now),
{
    match (value, now) {
        (Some(value), Some(now)) => {
            let relative = format_relative(value_millis, now_millis);
            format_absolute(value, now).concat(" (").concat(relative.as_str()).concat(")")
        },
        _ => signed_decimal_text(value_millis as i128),
    }
}

/// Whether a text tells an instant, in some time zone.
pub open spec fn tells(text: Text, value_millis: int, now_millis: int) -> bool {
    exists|value: Option<CivilTime>, now: Option<CivilTime>|
        #![trigger timestamp_words(value_millis, now_millis, value, now)]
        may_be_local(value, value_millis) && may_be_local(now, now_millis) && text
            == timestamp_words(value_millis, now_millis, value, now)
}

/// The text for an instant, in the time zone of this machine.
pub fn format_timestamp_millis(value_millis: i64, now_millis: i64) -> (text: String)
    requires
        is_showable(value_millis as int),
        is_showable(now_millis as int),
    ensures
        tells(text@, value_millis as int, now_millis as int),
{
    let value = local_time(value_millis);
    let now = local_time(now_millis);
    timestamp_text(value_millis, now_millis, value, now)
}

/// A number as a number of 64 bits, or the nearest one there is.
pub open spec fn clamped(number: int) -> i64 {
    if number > i64::MAX {
        i64::MAX
    } else if number < i64::MIN {
        i64::MIN
    } else {
        number as i64
    }
}

/// The milliseconds of a number of seconds, as far as they reach.
pub open spec fn seconds_to_millis(seconds: i64) -> i64 {
    clamped(seconds * 1000)
}

/// The milliseconds of a number of seconds, as far as they reach.
pub fn millis_of_seconds(seconds: i64) -> (millis: i64)
    ensures
        millis == seconds_to_millis(seconds),
{
    let exact: i128 = seconds as i128 * 1000;
    clamp(exact)
}

fn clamp(number: i128) -> (result: i64)
    ensures
        result == clamped(number as int),
{
    if number > i64::MAX as i128 {
        i64::MAX
    } else if number < i64::MIN as i128 {
        i64::MIN
    } else {
        number as i64
    }
}

/// The milliseconds of an instant, rounded down, as far as they reach.
pub open spec fn instant_to_millis(at: Timestamp) -> i64 {
    clamped(at as int / 1_000_000)
}

fn whole_millis(at: Timestamp) -> (millis: i128)
    ensures
        millis == at as int / 1_000_000,
{
    if at >= 0 {
        at / 1_000_000
    } else {
        let size: i128 = -(at + 1);
        assert(at as int / 1_000_000 == -(size as int / 1_000_000) - 1) by (nonlinear_arith)
            requires
                size == -(at + 1),
        ;
        -(size / 1_000_000) - 1
    }
}

/// The milliseconds of an instant, rounded down, as far as they reach.
pub fn millis_of_instant(at: Timestamp) -> (millis: i64)
    ensures
        millis == instant_to_millis(at),
{
    clamp(whole_millis(at))
}

/// The text for an instant in seconds, or for none.
pub open spec fn tells_seconds(text: Text, seconds: Option<i64>, now_millis: int) -> bool {
    match seconds {
        Some(seconds) => tells(text, seconds_to_millis(seconds) as int, now_millis),
        None => text == "never"@,
    }
}

/// The text for an instant in seconds, or for none.
pub fn format_unix_timestamp(value: Option<i64>, now_millis: i64) -> (text: String)
    requires
        value matches Some(seconds) ==> is_showable(seconds_to_millis(seconds) as int)
            && is_showable(now_millis as int),
    ensures
        tells_seconds(text@, value, now_millis as int),
{
    match value {
        Some(seconds) => format_timestamp_millis(millis_of_seconds(seconds), now_millis),
        None => "never".to_owned(),
    }
}

/// Whether a text for an instant, as servers send it, can be shown.
pub open spec fn is_showable_text(value: Text) -> bool {
    signed_value(value) matches Some(seconds) ==> is_showable(seconds_to_millis(seconds) as int)
}

/// Tests whether a text for an instant, as servers send it, can be shown.
pub fn can_show_text(value: &str) -> (showable: bool)
    ensures
        showable == is_showable_text(value@),
{
    match parse_signed(value) {
        Some(seconds) => can_show(millis_of_seconds(seconds)),
        None => true,
    }
}

/// What is shown for a text that a server sent for an instant, once it was read as RFC 3339: an
/// instant in such a text or in seconds is told, and any other text stands for itself.
pub open spec fn tells_wire_time(
    text: Text,
    value: Text,
    reading: Result<i128, Text>,
    now_millis: int,
) -> bool {
    if value.len() == 0 {
        text == "never"@
    } else {
        match reading {
            Ok(at) => {
                let millis = at as int / 1_000_000;
                if i64::MIN <= millis <= i64::MAX {
                    tells(text, millis, now_millis)
                } else {
                    text == value
                }
            },
            Err(_) => if signed_value(value) is Some {
                tells_seconds(text, signed_value(value), now_millis)
            } else {
                text == value
            },
        }
    }
}

/// What is shown for a text that a server sent for an instant, once it was read as RFC 3339.
pub fn wire_time_text(
    value: &str,
    reading: &Result<Timestamp, String>,
    now_millis: i64,
) -> (text: String)
    requires
        is_showable_text(value@),
        is_showable(now_millis as int),
        reading matches Ok(at) ==> is_showable(*at as int / 1_000_000),
    ensures
        tells_wire_time(
            text@,
            value@,
            match *reading {
                Ok(at) => Ok(at),
                Err(words) => Err(words@),
            },
            now_millis as int,
        ),
{
    if value.is_empty() {
        return "never".to_owned();
    }
    match reading {
        Ok(at) => {
            let millis: i128 = whole_millis(*at);
            if i64::MIN as i128 <= millis && millis <= i64::MAX as i128 {
                format_timestamp_millis(millis as i64, now_millis)
            } else {
                copy_of(value)
            }
        },
        Err(_) => match parse_signed(value) {
            Some(seconds) => format_unix_timestamp(Some(seconds), now_millis),
            None => copy_of(value),
        },
    }
}

/// What is shown for a text that a server sent for an instant.
pub fn display_wire_time(value: &str, now_millis: i64) -> (text: String)
    requires
        is_showable_text(value@),
        is_showable(now_millis as int),
    ensures
        tells_wire_time(text@, value@, rfc3339_reading(value@), now_millis as int),
{
    let reading = parse_rfc3339(value);
    wire_time_text(value, &reading, now_millis)
}

// ---------------------------------------------------------------------------------------------
// Rows
// ---------------------------------------------------------------------------------------------

/// How a heartbeat looks.
#[derive(Clone, Copy, Debug, PartialEq, Eq, Structural)]
pub enum HeartbeatStatus {
    Normal,
    Warning,
    Overdue,
}

/// How a heartbeat looks: one of the last 15 seconds, or none, is normal, and one of 30 seconds
/// or more is overdue.
pub open spec fn heartbeat_look(value_millis: Option<i64>, now_millis: int) -> HeartbeatStatus {
    match value_millis {
        None => HeartbeatStatus::Normal,
        Some(value) => if now_millis - value < 15_000 {
            HeartbeatStatus::Normal
        } else if now_millis - value < 30_000 {
            HeartbeatStatus::Warning
        } else {
            HeartbeatStatus::Overdue
        },
    }
}

/// How a heartbeat looks.
pub fn heartbeat_status(value_millis: Option<i64>, now_millis: i64) -> (status: HeartbeatStatus)
    ensures
        status == heartbeat_look(value_millis, now_millis as int),
{
    match value_millis {
        None => HeartbeatStatus::Normal,
        Some(value) => {
            let age: i128 = now_millis as i128 - value as i128;
            if age < 15_000 {
                HeartbeatStatus::Normal
            } else if age < 30_000 {
                HeartbeatStatus::Warning
            } else {
                HeartbeatStatus::Overdue
            }
        },
    }
}

/// A row that keeps its place while it stands for one thing.
pub trait Row: Sized {
    /// What the row stands for.
    spec fn identity(&self) -> Text;

    /// Whether two rows show the same.
    spec fn shows(&self, other: &Self) -> bool;

    /// Whether two rows stand for the same thing.
    fn same_identity(&self, other: &Self) -> (same: bool)
        ensures
            same == (self.identity() == other.identity()),
    ;

    /// Whether two rows show the same.
    fn same_row(&self, other: &Self) -> (same: bool)
        ensures
            same == self.shows(other),
    ;
}

/// A row of the list of servers.
#[derive(Debug, PartialEq, Eq)]
pub struct ServerView {
    pub id: String,
    pub connection: String,
    pub last_heartbeat: String,
    pub connected: bool,
    pub heartbeat_warning: bool,
    pub heartbeat_overdue: bool,
}

impl Row for ServerView {
    open spec fn identity(&self) -> Text {
        self.id@
    }

    open spec fn shows(&self, other: &Self) -> bool {
        &&& self.id@ == other.id@
        &&& self.connection@ == other.connection@
        &&& self.last_heartbeat@ == other.last_heartbeat@
        &&& self.connected == other.connected
        &&& self.heartbeat_warning == other.heartbeat_warning
        &&& self.heartbeat_overdue == other.heartbeat_overdue
    }

    fn same_identity(&self, other: &Self) -> (same: bool) {
        same_text(self.id.as_str(), other.id.as_str())
    }

    fn same_row(&self, other: &Self) -> (same: bool) {
        same_text(self.id.as_str(), other.id.as_str()) && same_text(
            self.connection.as_str(),
            other.connection.as_str(),
        ) && same_text(self.last_heartbeat.as_str(), other.last_heartbeat.as_str())
            && self.connected == other.connected && self.heartbeat_warning
            == other.heartbeat_warning && self.heartbeat_overdue == other.heartbeat_overdue
    }
}

/// The words for the connection of a server.
pub open spec fn connection_word(connected: bool, initialized: bool) -> Text {
    if connected {
        "online"@
    } else if initialized {
        "offline"@
    } else {
        "connecting"@
    }
}

/// The milliseconds of an instant, if there is one.
pub open spec fn optional_millis(at: Option<Timestamp>) -> Option<i64> {
    match at {
        Some(at) => Some(instant_to_millis(at)),
        None => None,
    }
}

/// Whether an instant, if there is one, can be shown.
pub open spec fn is_showable_instant(at: Option<Timestamp>) -> bool {
    at matches Some(at) ==> is_showable(instant_to_millis(at) as int)
}

/// What is shown for an instant, or for none.
pub open spec fn tells_instant(text: Text, at: Option<Timestamp>, now_millis: int) -> bool {
    match at {
        Some(at) => tells(text, instant_to_millis(at) as int, now_millis),
        None => text == "never"@,
    }
}

/// Whether a row stands for a server.
pub open spec fn is_server_row(view: ServerView, server: ServerModel, now_millis: int) -> bool {
    let look = heartbeat_look(optional_millis(server.last_heartbeat_at), now_millis);
    &&& view.id@ == server.id
    &&& view.connection@ == connection_word(server.connected, server.initialized)
    &&& tells_instant(view.last_heartbeat@, server.last_heartbeat_at, now_millis)
    &&& view.connected == server.connected
    &&& view.heartbeat_warning == (look is Warning)
    &&& view.heartbeat_overdue == (look is Overdue)
}

/// The row for a server.
pub fn server_view(server: &ServerStatus, now_millis: i64) -> (view: ServerView)
    requires
        is_showable_instant(server.last_heartbeat_at),
        is_showable(now_millis as int),
    ensures
        is_server_row(view, server@, now_millis as int),
{
    let heartbeat_millis: Option<i64> = match server.last_heartbeat_at {
        Some(at) => Some(millis_of_instant(at)),
        None => None,
    };
    let status = heartbeat_status(heartbeat_millis, now_millis);
    let last_heartbeat = match heartbeat_millis {
        Some(millis) => format_timestamp_millis(millis, now_millis),
        None => "never".to_owned(),
    };
    let connection = if server.connected {
        "online"
    } else if server.initialized {
        "offline"
    } else {
        "connecting"
    };
    ServerView {
        id: copy_of(server.id.as_str()),
        connection: connection.to_owned(),
        last_heartbeat,
        connected: server.connected,
        heartbeat_warning: status == HeartbeatStatus::Warning,
        heartbeat_overdue: status == HeartbeatStatus::Overdue,
    }
}

/// A row of a list of incidents.
#[derive(Debug, PartialEq, Eq)]
pub struct IncidentView {
    pub key: String,
    pub state: String,
    pub details: String,
    pub started_at: String,
    pub snoozed_until: String,
    pub severity: i32,
    pub stale: bool,
    pub snoozed: bool,
}

impl Row for IncidentView {
    open spec fn identity(&self) -> Text {
        self.key@
    }

    open spec fn shows(&self, other: &Self) -> bool {
        &&& self.key@ == other.key@
        &&& self.state@ == other.state@
        &&& self.details@ == other.details@
        &&& self.started_at@ == other.started_at@
        &&& self.snoozed_until@ == other.snoozed_until@
        &&& self.severity == other.severity
        &&& self.stale == other.stale
        &&& self.snoozed == other.snoozed
    }

    fn same_identity(&self, other: &Self) -> (same: bool) {
        same_text(self.key.as_str(), other.key.as_str())
    }

    fn same_row(&self, other: &Self) -> (same: bool) {
        same_text(self.key.as_str(), other.key.as_str()) && same_text(
            self.state.as_str(),
            other.state.as_str(),
        ) && same_text(self.details.as_str(), other.details.as_str()) && same_text(
            self.started_at.as_str(),
            other.started_at.as_str(),
        ) && same_text(self.snoozed_until.as_str(), other.snoozed_until.as_str()) && self.severity
            == other.severity && self.stale == other.stale && self.snoozed == other.snoozed
    }
}

/// The words for the state of an incident. Those of a stale one say so, whether or not it is
/// snoozed.
pub open spec fn state_label(state: IncidentState, stale: bool, snoozed: bool) -> Text {
    let word = match state {
        IncidentState::Okay => "ok"@,
        IncidentState::Warning => "warning"@,
        IncidentState::Error => "error"@,
    };
    if stale {
        word + " (STALE)"@
    } else if snoozed {
        word + " (SNOOZED)"@
    } else {
        word
    }
}

/// The number by which the window colours an incident. Troubles of the client itself have one of
/// their own.
pub open spec fn severity_number(incident: IncidentModel) -> i32 {
    if incident.state != IncidentState::Okay && model::internal_prefix().is_prefix_of(
        incident.key,
    ) {
        4
    } else {
        match incident.state {
            IncidentState::Okay => 1,
            IncidentState::Warning => 2,
            IncidentState::Error => 3,
        }
    }
}

/// Whether a row stands for an incident, which may be snoozed until an instant.
pub open spec fn is_incident_row(
    view: IncidentView,
    incident: IncidentModel,
    snoozed_until: Option<Timestamp>,
    now_millis: int,
) -> bool {
    &&& view.key@ == incident.key
    &&& view.state@ == state_label(incident.state, incident.stale, snoozed_until is Some)
    &&& view.details@ == incident.details
    &&& tells_wire_time(
        view.started_at@,
        incident.incident_started_at,
        rfc3339_reading(incident.incident_started_at),
        now_millis,
    )
    &&& match snoozed_until {
        Some(until) => tells(view.snoozed_until@, instant_to_millis(until) as int, now_millis),
        None => view.snoozed_until@ == Seq::<char>::empty(),
    }
    &&& view.severity == severity_number(incident)
    &&& view.stale == incident.stale
    &&& view.snoozed == (snoozed_until is Some)
}

/// The row for an incident, which may be snoozed until an instant.
pub fn incident_view(
    incident: &Incident,
    snoozed_until: Option<Timestamp>,
    now_millis: i64,
) -> (view: IncidentView)
    requires
        is_showable_text(incident.incident_started_at@),
        is_showable_instant(snoozed_until),
        is_showable(now_millis as int),
    ensures
        is_incident_row(view, incident@, snoozed_until, now_millis as int),
{
    let word = match incident.state {
        IncidentState::Okay => "ok",
        IncidentState::Warning => "warning",
        IncidentState::Error => "error",
    };
    let state = if incident.stale {
        joined(word, " (STALE)")
    } else if snoozed_until.is_some() {
        joined(word, " (SNOOZED)")
    } else {
        word.to_owned()
    };
    let severity: i32 = if incident.state != IncidentState::Okay && starts_with(
        incident.key.as_str(),
        "internal.",
    ) {
        4
    } else {
        match incident.state {
            IncidentState::Okay => 1,
            IncidentState::Warning => 2,
            IncidentState::Error => 3,
        }
    };
    let until = match snoozed_until {
        Some(until) => format_timestamp_millis(millis_of_instant(until), now_millis),
        None => String::new(),
    };
    IncidentView {
        key: copy_of(incident.key.as_str()),
        state,
        details: copy_of(incident.details.as_str()),
        started_at: display_wire_time(incident.incident_started_at.as_str(), now_millis),
        snoozed_until: until,
        severity,
        stale: incident.stale,
        snoozed: snoozed_until.is_some(),
    }
}

/// Whether rows stand for the same things, in one order.
pub open spec fn same_things<T: Row>(current: Seq<T>, rows: Seq<T>) -> bool {
    &&& current.len() == rows.len()
    &&& forall|i: int| 0 <= i < rows.len() ==> (#[trigger] current[i]).identity()
        == rows[i].identity()
}

/// The numbers of the first rows that show something else than before, ascending.
pub open spec fn changed_rows<T: Row>(current: Seq<T>, rows: Seq<T>, count: int) -> Seq<usize>
    decreases count,
{
    if count <= 0 {
        Seq::empty()
    } else {
        let before = changed_rows(current, rows, count - 1);
        if current[count - 1].shows(&rows[count - 1]) {
            before
        } else {
            before.push((count - 1) as usize)
        }
    }
}

/// Which rows of a list to write so that it shows new ones. If they stand for other things, or in
/// another order, the list is to be replaced as a whole.
pub fn row_updates<T: Row>(current: &Vec<T>, rows: &Vec<T>) -> (updates: Option<Vec<usize>>)
    ensures
        updates is Some <==> same_things(current@, rows@),
        updates matches Some(changed) ==> changed@ == changed_rows(
            current@,
            rows@,
            rows@.len() as int,
        ),
{
    if current.len() != rows.len() {
        return None;
    }
    let mut changed: Vec<usize> = Vec::new();
    let mut i: usize = 0;
    while i < rows.len()
        invariant
            current.len() == rows.len(),
            i <= rows.len(),
            forall|j: int| 0 <= j < i ==> (#[trigger] current@[j]).identity() == rows@[j].identity(),
            changed@ == changed_rows(current@, rows@, i as int),
        decreases rows.len() - i,
    {
        if !current[i].same_identity(&rows[i]) {
            assert(current@[i as int].identity() != rows@[i as int].identity());
            return None;
        }
        if !current[i].same_row(&rows[i]) {
            changed.push(i);
        }
        i += 1;
    }
    Some(changed)
}

// ---------------------------------------------------------------------------------------------
// The whole
// ---------------------------------------------------------------------------------------------

/// A severity as the tray shows it.
pub open spec fn tray_severity(state: model::OverallState) -> OverallState {
    match state {
        model::OverallState::Unknown => OverallState::Unknown,
        model::OverallState::Okay => OverallState::Okay,
        model::OverallState::InternalError => OverallState::InternalError,
        model::OverallState::Warning => OverallState::Warning,
        model::OverallState::Error => OverallState::Error,
    }
}

/// A severity as the tray shows it.
pub fn overall(state: model::OverallState) -> (shown: OverallState)
    ensures
        shown == tray_severity(state),
{
    match state {
        model::OverallState::Unknown => OverallState::Unknown,
        model::OverallState::Okay => OverallState::Okay,
        model::OverallState::InternalError => OverallState::InternalError,
        model::OverallState::Warning => OverallState::Warning,
        model::OverallState::Error => OverallState::Error,
    }
}

/// What the tray shows for a snapshot.
pub fn tray_state(snapshot: &UiSnapshot) -> (state: TrayState)
    ensures
        state == (TrayState {
            alerting: tray_severity(snapshot.alerting_state),
            unknown_server_count: snapshot.unknown_server_count,
            server_count: snapshot.servers.len(),
            alerting_count: snapshot.active.len(),
            snoozed: match snapshot.snoozed_state {
                Some(state) => Some(tray_severity(state)),
                None => None,
            },
            snoozed_count: snapshot.snoozed.len(),
        }),
{
    let snoozed = match snapshot.snoozed_state {
        Some(state) => Some(overall(state)),
        None => None,
    };
    TrayState {
        alerting: overall(snapshot.alerting_state),
        unknown_server_count: snapshot.unknown_server_count,
        server_count: snapshot.servers.len(),
        alerting_count: snapshot.active.len(),
        snoozed,
        snoozed_count: snapshot.snoozed.len(),
    }
}

/// How many servers are connected.
pub open spec fn online_count(servers: Seq<ServerModel>) -> nat
    decreases servers.len(),
{
    if servers.len() == 0 {
        0
    } else {
        online_count(servers.drop_last()) + if servers.last().connected {
            1nat
        } else {
            0nat
        }
    }
}

/// The line above the list of servers.
pub open spec fn summary_words(online: nat, count: nat) -> Text {
    decimal(online) + "/"@ + decimal(count) + " servers are online"@
}

/// All that is shown for a snapshot.
#[derive(Debug, PartialEq, Eq)]
pub struct Projection {
    pub server_summary: String,
    pub online_server_count: usize,
    pub servers: Vec<ServerView>,
    pub active: Vec<IncidentView>,
    pub snoozed: Vec<IncidentView>,
    pub tray: TrayState,
}

/// Whether the instants of a snapshot can be shown.
pub open spec fn is_showable_snapshot(snapshot: model::SnapshotModel) -> bool {
    &&& forall|i: int|
        0 <= i < snapshot.servers.len() ==> is_showable_instant(
            (#[trigger] snapshot.servers[i]).last_heartbeat_at,
        )
    &&& forall|i: int|
        0 <= i < snapshot.active.len() ==> is_showable_text(
            (#[trigger] snapshot.active[i]).incident_started_at,
        )
    &&& forall|i: int|
        0 <= i < snapshot.snoozed.len() ==> is_showable_text(
            (#[trigger] snapshot.snoozed[i]).incident.incident_started_at,
        ) && is_showable_instant(Some(snapshot.snoozed[i].until))
}

/// Whether rows stand for the servers of a snapshot.
pub open spec fn are_server_rows(
    views: Seq<ServerView>,
    servers: Seq<ServerModel>,
    now_millis: int,
) -> bool {
    &&& views.len() == servers.len()
    &&& forall|i: int|
        0 <= i < servers.len() ==> is_server_row(#[trigger] views[i], servers[i], now_millis)
}

/// Whether rows stand for incidents that are not snoozed.
pub open spec fn are_active_rows(
    views: Seq<IncidentView>,
    incidents: Seq<IncidentModel>,
    now_millis: int,
) -> bool {
    &&& views.len() == incidents.len()
    &&& forall|i: int|
        0 <= i < incidents.len() ==> is_incident_row(
            #[trigger] views[i],
            incidents[i],
            None,
            now_millis,
        )
}

/// Whether rows stand for snoozed incidents.
pub open spec fn are_snoozed_rows(
    views: Seq<IncidentView>,
    incidents: Seq<SnoozedModel>,
    now_millis: int,
) -> bool {
    &&& views.len() == incidents.len()
    &&& forall|i: int|
        0 <= i < incidents.len() ==> is_incident_row(
            #[trigger] views[i],
            incidents[i].incident,
            Some(incidents[i].until),
            now_millis,
        )
}

fn server_rows(snapshot: &UiSnapshot, now_millis: i64) -> (rows: (Vec<ServerView>, usize))
    requires
        is_showable_snapshot(snapshot@),
        is_showable(now_millis as int),
    ensures
        are_server_rows(rows.0@, snapshot@.servers, now_millis as int),
        rows.1 == online_count(snapshot@.servers),
{
    let mut views: Vec<ServerView> = Vec::new();
    let mut online: usize = 0;
    let mut i: usize = 0;
    assert(snapshot@.servers.take(0) =~= Seq::<ServerModel>::empty());
    while i < snapshot.servers.len()
        invariant
            i <= snapshot.servers.len(),
            online <= i,
            is_showable_snapshot(snapshot@),
            is_showable(now_millis as int),
            are_server_rows(views@, snapshot@.servers.take(i as int), now_millis as int),
            online == online_count(snapshot@.servers.take(i as int)),
        decreases snapshot.servers.len() - i,
    {
        let server = &snapshot.servers[i];
        assert(snapshot@.servers[i as int] == server@);
        views.push(server_view(server, now_millis));
        assert(snapshot@.servers.take(i + 1).drop_last() =~= snapshot@.servers.take(i as int));
        if server.connected {
            online += 1;
        }
        i += 1;
    }
    assert(snapshot@.servers.take(i as int) =~= snapshot@.servers);
    (views, online)
}

fn active_rows(snapshot: &UiSnapshot, now_millis: i64) -> (views: Vec<IncidentView>)
    requires
        is_showable_snapshot(snapshot@),
        is_showable(now_millis as int),
    ensures
        are_active_rows(views@, snapshot@.active, now_millis as int),
{
    let mut views: Vec<IncidentView> = Vec::new();
    let mut i: usize = 0;
    while i < snapshot.active.len()
        invariant
            i <= snapshot.active.len(),
            is_showable_snapshot(snapshot@),
            is_showable(now_millis as int),
            are_active_rows(views@, snapshot@.active.take(i as int), now_millis as int),
        decreases snapshot.active.len() - i,
    {
        let incident = &snapshot.active[i];
        assert(snapshot@.active[i as int] == incident@);
        views.push(incident_view(incident, None, now_millis));
        i += 1;
    }
    assert(snapshot@.active.take(i as int) =~= snapshot@.active);
    views
}

fn snoozed_rows(snapshot: &UiSnapshot, now_millis: i64) -> (views: Vec<IncidentView>)
    requires
        is_showable_snapshot(snapshot@),
        is_showable(now_millis as int),
    ensures
        are_snoozed_rows(views@, snapshot@.snoozed, now_millis as int),
{
    let mut views: Vec<IncidentView> = Vec::new();
    let mut i: usize = 0;
    while i < snapshot.snoozed.len()
        invariant
            i <= snapshot.snoozed.len(),
            is_showable_snapshot(snapshot@),
            is_showable(now_millis as int),
            are_snoozed_rows(views@, snapshot@.snoozed.take(i as int), now_millis as int),
        decreases snapshot.snoozed.len() - i,
    {
        let item = &snapshot.snoozed[i];
        assert(snapshot@.snoozed[i as int] == item@);
        views.push(incident_view(&item.incident, Some(item.until), now_millis));
        i += 1;
    }
    assert(snapshot@.snoozed.take(i as int) =~= snapshot@.snoozed);
    views
}

/// Tests whether the instants of a snapshot can be shown.
pub fn can_show_snapshot(snapshot: &UiSnapshot) -> (showable: bool)
    ensures
        showable == is_showable_snapshot(snapshot@),
{
    let mut i: usize = 0;
    while i < snapshot.servers.len()
        invariant
            i <= snapshot.servers.len(),
            forall|j: int|
                0 <= j < i ==> is_showable_instant(
                    (#[trigger] snapshot@.servers[j]).last_heartbeat_at,
                ),
        decreases snapshot.servers.len() - i,
    {
        assert(snapshot@.servers[i as int] == snapshot.servers@[i as int]@);
        if let Some(at) = snapshot.servers[i].last_heartbeat_at {
            if !can_show(millis_of_instant(at)) {
                return false;
            }
        }
        i += 1;
    }
    let mut i: usize = 0;
    while i < snapshot.active.len()
        invariant
            i <= snapshot.active.len(),
            forall|j: int|
                0 <= j < i ==> is_showable_text(
                    (#[trigger] snapshot@.active[j]).incident_started_at,
                ),
        decreases snapshot.active.len() - i,
    {
        assert(snapshot@.active[i as int] == snapshot.active@[i as int]@);
        if !can_show_text(snapshot.active[i].incident_started_at.as_str()) {
            return false;
        }
        i += 1;
    }
    let mut i: usize = 0;
    while i < snapshot.snoozed.len()
        invariant
            i <= snapshot.snoozed.len(),
            forall|j: int|
                0 <= j < i ==> is_showable_text(
                    (#[trigger] snapshot@.snoozed[j]).incident.incident_started_at,
                ) && is_showable_instant(Some(snapshot@.snoozed[j].until)),
        decreases snapshot.snoozed.len() - i,
    {
        let item = &snapshot.snoozed[i];
        assert(snapshot@.snoozed[i as int] == item@);
        if !can_show_text(item.incident.incident_started_at.as_str()) || !can_show(
            millis_of_instant(item.until),
        ) {
            return false;
        }
        i += 1;
    }
    true
}

/// All that is shown for a snapshot.
pub fn project(snapshot: &UiSnapshot, now_millis: i64) -> (projection: Projection)
    requires
        is_showable_snapshot(snapshot@),
        is_showable(now_millis as int),
    ensures
        projection.online_server_count == online_count(snapshot@.servers),
        projection.server_summary@ == summary_words(
            online_count(snapshot@.servers),
            snapshot@.servers.len(),
        ),
        are_server_rows(projection.servers@, snapshot@.servers, now_millis as int),
        are_active_rows(projection.active@, snapshot@.active, now_millis as int),
        are_snoozed_rows(projection.snoozed@, snapshot@.snoozed, now_millis as int),
        projection.tray.alerting == tray_severity(snapshot.alerting_state),
        projection.tray.unknown_server_count == snapshot@.unknown_server_count,
        projection.tray.server_count == snapshot@.servers.len(),
        projection.tray.alerting_count == snapshot@.active.len(),
        projection.tray.snoozed_count == snapshot@.snoozed.len(),
        projection.tray.snoozed == (match snapshot.snoozed_state {
            Some(state) => Some(tray_severity(state)),
            None => None,
        }),
{
    let (servers, online) = server_rows(snapshot, now_millis);
    let count = decimal_text(snapshot.servers.len() as u128);
    let server_summary = decimal_text(online as u128).concat("/").concat(count.as_str()).concat(
        " servers are online",
    );
    Projection {
        server_summary,
        online_server_count: online,
        servers,
        active: active_rows(snapshot, now_millis),
        snoozed: snoozed_rows(snapshot, now_millis),
        tray: tray_state(snapshot),
    }
}

// ---------------------------------------------------------------------------------------------
// Laws
// ---------------------------------------------------------------------------------------------

/// Rows that show what they showed are not written again.
pub proof fn unchanged_rows_are_kept<T: Row>(current: Seq<T>, rows: Seq<T>, count: int)
    requires
        0 <= count <= rows.len(),
        forall|i: int| 0 <= i < rows.len() ==> (#[trigger] current[i]).shows(&rows[i]),
    ensures
        changed_rows(current, rows, count) == Seq::<usize>::empty(),
    decreases count,
{
    if count > 0 {
        unchanged_rows_are_kept(current, rows, count - 1);
        assert(current[count - 1].shows(&rows[count - 1]));
    }
}

/// Exactly the rows that show something else are written.
pub proof fn changed_rows_are_written<T: Row>(
    current: Seq<T>,
    rows: Seq<T>,
    count: int,
    row: usize,
)
    requires
        0 <= count <= rows.len() <= usize::MAX,
    ensures
        changed_rows(current, rows, count).contains(row) <==> row < count && !current[row as int]
            .shows(&rows[row as int]),
    decreases count,
{
    if count > 0 {
        changed_rows_are_written(current, rows, count - 1, row);
        let before = changed_rows(current, rows, count - 1);
        let after = changed_rows(current, rows, count);
        if !current[count - 1].shows(&rows[count - 1]) {
            assert(after == before.push((count - 1) as usize));
            assert(after[before.len() as int] == (count - 1) as usize);
            if before.contains(row) {
                let at = choose|i: int| 0 <= i < before.len() && before[i] == row;
                assert(after[at] == row);
            }
            if after.contains(row) && row != count - 1 {
                let at = choose|i: int| 0 <= i < after.len() && after[i] == row;
                assert(before[at] == row);
            }
        }
    }
}

/// An older heartbeat never looks better.
pub proof fn heartbeats_only_get_worse(value: i64, now: int, later: int)
    requires
        now <= later,
    ensures
        heartbeat_look(Some(value), now) is Overdue ==> heartbeat_look(Some(value), later)
            is Overdue,
        heartbeat_look(Some(value), now) is Warning ==> !(heartbeat_look(Some(value), later)
            is Normal),
{
}

} // verus!
