//! How points in time are turned into dates.

use crate::time::{
    is_leap_year, same_conversion, FixedOffset, NaiveDateTime, SharedConverter, SystemTime,
    TimeConverter, ZoneConverter,
};
use vstd::prelude::*;

verus! {

/// How many days a month has: thirty in April, June, September and November, 28 in February, one
/// more in leap years, and 31 in all others.
pub open spec fn month_length(year: int, month: int) -> int {
    if month == 4 || month == 6 || month == 9 || month == 11 {
        30
    } else if month != 2 {
        31
    } else if year % 400 == 0 || year % 4 == 0 && year % 100 != 0 {
        29
    } else {
        28
    }
}

/// The midnight with which a day begins.
pub open spec fn midnight(year: i32, month: u32, day: u32) -> NaiveDateTime {
    NaiveDateTime { year, month, day, hour: 0, minute: 0, second: 0 }
}

/// Dates are those of the Gregorian calendar, and days have 24 hours.
pub proof fn law_dates_exist(datetime: NaiveDateTime)
    ensures
        datetime.valid() <==> {
            &&& 1 <= datetime.month <= 12
            &&& 1 <= datetime.day <= month_length(datetime.year as int, datetime.month as int)
            &&& datetime.hour < 24
            &&& datetime.minute < 60
            &&& datetime.second < 60
        },
{
    lemma_leap_year(datetime.year as int);
}

/// Leap years are those divisible by 4, but not by 100, or by 400.
proof fn lemma_leap_year(year: int)
    ensures
        is_leap_year(year) <==> year % 400 == 0 || year % 4 == 0 && year % 100 != 0,
{
}

/// Time is counted from 1970-01-01T00:00:00, and within a day by hours, minutes and seconds.
pub proof fn law_time_is_counted(datetime: NaiveDateTime)
    ensures
        midnight(1970, 1, 1).timestamp() == 0,
        datetime.timestamp() - midnight(datetime.year, datetime.month, datetime.day).timestamp()
            == (datetime.hour * 60 + datetime.minute) * 60 + datetime.second,
{
}

/// Every day is 24 hours long: the next one of a month, the first of the next month behind the last
/// of a month, and the first of a year behind the last of the year before.
pub proof fn law_days_follow(year: i32, month: u32, day: u32)
    requires
        midnight(year, month, day).valid(),
        year < i32::MAX,
    ensures
        ({
            let next = if day < month_length(year as int, month as int) {
                midnight(year, month, (day + 1) as u32)
            } else if month < 12 {
                midnight(year, (month + 1) as u32, 1)
            } else {
                midnight((year + 1) as i32, 1, 1)
            };
            &&& next.valid()
            &&& next.timestamp() - midnight(year, month, day).timestamp() == 24 * 60 * 60
        }),
{
    law_dates_exist(midnight(year, month, day));
    lemma_leap_year(year as int);
    if day < month_length(year as int, month as int) {
        law_dates_exist(midnight(year, month, (day + 1) as u32));
    } else if month < 12 {
        law_dates_exist(midnight(year, (month + 1) as u32, 1));
    } else {
        law_dates_exist(midnight((year + 1) as i32, 1, 1));
        crate::time::lemma_year_length(year as int);
    }
}

/// A converter that entries share gives just what the converter gives that it was made of.
pub proof fn law_shared_converters_convert<F: TimeConverter>(
    shared: SharedConverter,
    converter: F,
    time: SystemTime,
    datetime: NaiveDateTime,
)
    requires
        same_conversion(shared, converter),
    ensures
        shared.handles(time) <==> converter.handles(time),
        shared.converts(time, datetime) <==> converter.converts(time, datetime),
{
}

/// In a time zone in which clocks are ahead of UTC, what they show is as many seconds after
/// 1970-01-01T00:00:00 as have passed in UTC and they are ahead. It is the only such date and time.
pub proof fn law_clocks_are_ahead(
    shared: SharedConverter,
    ahead: i32,
    time: SystemTime,
    datetime: NaiveDateTime,
    other: NaiveDateTime,
)
    requires
        same_conversion(shared, (ZoneConverter { zone: FixedOffset { local_minus_utc: ahead } })),
        shared.converts(time, datetime),
    ensures
        datetime.valid(),
        datetime.timestamp() == time.seconds + ahead,
        shared.converts(time, other) ==> other == datetime,
{
    let zone = ZoneConverter { zone: FixedOffset { local_minus_utc: ahead } };
    assert(zone.converts(time, datetime));
    if shared.converts(time, other) {
        assert(zone.converts(time, other));
        crate::time::law_timestamp_injective(datetime, other);
    }
}

} // verus!
