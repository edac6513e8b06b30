//! Points in time, and how they are turned into dates.

use crate::structs::DosDatetime;
use chrono::{Datelike, Timelike};
use std::rc::Rc;
use vstd::prelude::*;

verus! {

/// A point in time.
#[derive(Clone, Copy, Debug, PartialEq, Eq, Structural)]
pub struct SystemTime {
    /// Seconds since 1970-01-01T00:00:00 UTC, rounded down.
    pub seconds: i64,
    /// Nanoseconds since the last whole second.
    pub nanos: u32,
}

/// A date and time of no particular time zone.
#[derive(Clone, Copy, Debug, PartialEq, Eq, Structural)]
pub struct NaiveDateTime {
    pub year: i32,
    pub month: u32,
    pub day: u32,
    pub hour: u32,
    pub minute: u32,
    pub second: u32,
}

/// Whether a year of the Gregorian calendar is a leap year.
pub open spec fn is_leap_year(year: int) -> bool {
    &&& year % 4 == 0
    &&& year % 100 == 0 ==> year % 400 == 0
}

/// How many days of a year precede a month.
pub open spec fn days_before_month(year: int, month: int) -> int {
    let leap_day: int = if is_leap_year(year) && month > 2 {
        1
    } else {
        0
    };
    let days: int = if month <= 1 {
        0
    } else if month == 2 {
        31
    } else if month == 3 {
        59
    } else if month == 4 {
        90
    } else if month == 5 {
        120
    } else if month == 6 {
        151
    } else if month == 7 {
        181
    } else if month == 8 {
        212
    } else if month == 9 {
        243
    } else if month == 10 {
        273
    } else if month == 11 {
        304
    } else if month == 12 {
        334
    } else {
        365
    };
    days + leap_day
}

/// How many days lie between 1970-01-01 and the first day of a year.
pub open spec fn days_before_year(year: int) -> int {
    let past = year - 1;
    365 * past + past / 4 - past / 100 + past / 400 - 719162
}

impl NaiveDateTime {
    /// How the date and time is stored, if it can be.
    pub open spec fn spec_dos_datetime(self) -> Option<DosDatetime> {
        DosDatetime::spec_new(
            self.year,
            self.month,
            self.day,
            self.hour,
            self.minute,
            self.second,
        )
    }

    /// The date exists in the Gregorian calendar, and the time on a day without leap seconds.
    pub open spec fn valid(self) -> bool {
        let (year, month) = (self.year as int, self.month as int);
        &&& 1 <= month <= 12
        &&& 1 <= self.day <= days_before_month(year, month + 1) - days_before_month(year, month)
        &&& self.hour < 24
        &&& self.minute < 60
        &&& self.second < 60
    }

    /// Seconds since 1970-01-01T00:00:00, on a clock that shows this date and time.
    pub open spec fn timestamp(self) -> int {
        let days = days_before_year(self.year as int) + days_before_month(
            self.year as int,
            self.month as int,
        ) + self.day - 1;
        86400 * days + 3600 * self.hour + 60 * self.minute + self.second
    }
}

/// The seconds whose dates can be told: those of the years -262143 to 262142.
pub open spec fn in_calendar(seconds: int) -> bool {
    86400 * days_before_year(-262143) <= seconds < 86400 * days_before_year(262143)
}

/// The date and time `seconds` after 1970-01-01T00:00:00, by `chrono::DateTime::from_timestamp`.
///
/// The result is the date and time in the proleptic Gregorian calendar. There is none outside of
/// the years that chrono can represent.
#[verifier::external_body]
fn civil_from_timestamp(seconds: i64) -> (result: Option<NaiveDateTime>)
    ensures
        result is Some <==> in_calendar(seconds as int),
        result matches Some(datetime) ==> datetime.valid() && datetime.timestamp() == seconds,
{
    let datetime = chrono::DateTime::from_timestamp(seconds, 0)?;
    Some(
        NaiveDateTime {
            year: datetime.year(),
            month: datetime.month(),
            day: datetime.day(),
            hour: datetime.hour(),
            minute: datetime.minute(),
            second: datetime.second(),
        },
    )
}

/// Every fourth number is divisible by 4.
proof fn lemma_step_4(n: int)
    ensures
        n / 4 - (n - 1) / 4 == (if n % 4 == 0 { 1int } else { 0 }),
{
}

/// Every hundredth number is divisible by 100.
proof fn lemma_step_100(n: int)
    ensures
        n / 100 - (n - 1) / 100 == (if n % 100 == 0 { 1int } else { 0 }),
{
}

/// Every four hundredth number is divisible by 400.
proof fn lemma_step_400(n: int)
    ensures
        n / 400 - (n - 1) / 400 == (if n % 400 == 0 { 1int } else { 0 }),
{
}

/// Numbers divisible by 400 are divisible by 100, and those by 4.
proof fn lemma_multiples(n: int)
    ensures
        n % 400 == 0 ==> n % 100 == 0,
        n % 100 == 0 ==> n % 4 == 0,
{
}

/// A year is as long as its months.
pub proof fn lemma_year_length(year: int)
    ensures
        days_before_year(year + 1) == days_before_year(year) + days_before_month(year, 13),
{
    let (y4, y100, y400) = (year / 4, year / 100, year / 400);
    let (p4, p100, p400) = ((year - 1) / 4, (year - 1) / 100, (year - 1) / 400);
    lemma_step_4(year);
    lemma_step_100(year);
    lemma_step_400(year);
    lemma_multiples(year);
    assert(days_before_year(year + 1) == 365 * year + y4 - y100 + y400 - 719162);
    assert(days_before_year(year) == 365 * (year - 1) + p4 - p100 + p400 - 719162);
}

/// Later years begin later.
proof fn lemma_years_ordered(first: int, second: int)
    requires
        first <= second,
    ensures
        days_before_year(first) <= days_before_year(second),
    decreases second - first,
{
    if first < second {
        lemma_years_ordered(first, second - 1);
        lemma_year_length(second - 1);
        assert(days_before_month(second - 1, 13) > 0);
    }
}

/// The number of days tells the year and the day of the year.
proof fn lemma_year_unique(y1: int, d1: int, y2: int, d2: int)
    requires
        0 <= d1 < days_before_month(y1, 13),
        0 <= d2 < days_before_month(y2, 13),
        days_before_year(y1) + d1 == days_before_year(y2) + d2,
    ensures
        y1 == y2,
        d1 == d2,
{
    lemma_year_length(y1);
    lemma_year_length(y2);
    if y1 < y2 {
        lemma_years_ordered(y1 + 1, y2);
    } else if y2 < y1 {
        lemma_years_ordered(y2 + 1, y1);
    }
}

/// The day of the year tells the month and the day of the month.
proof fn lemma_month_unique(year: int, m1: int, d1: int, m2: int, d2: int)
    requires
        1 <= m1 <= 12,
        1 <= m2 <= 12,
        1 <= d1 <= days_before_month(year, m1 + 1) - days_before_month(year, m1),
        1 <= d2 <= days_before_month(year, m2 + 1) - days_before_month(year, m2),
        days_before_month(year, m1) + d1 == days_before_month(year, m2) + d2,
    ensures
        m1 == m2,
        d1 == d2,
{
}

/// Each day of a month is a day of its year.
proof fn lemma_day_of_year(year: int, month: int, day: int)
    requires
        1 <= month <= 12,
        1 <= day <= days_before_month(year, month + 1) - days_before_month(year, month),
    ensures
        0 <= days_before_month(year, month) + day - 1 < days_before_month(year, 13),
{
}

/// The number of seconds tells the number of days and the time of day.
proof fn lemma_time_unique(
    d1: int,
    h1: int,
    m1: int,
    s1: int,
    d2: int,
    h2: int,
    m2: int,
    s2: int,
)
    requires
        0 <= h1 < 24,
        0 <= m1 < 60,
        0 <= s1 < 60,
        0 <= h2 < 24,
        0 <= m2 < 60,
        0 <= s2 < 60,
        86400 * d1 + 3600 * h1 + 60 * m1 + s1 == 86400 * d2 + 3600 * h2 + 60 * m2 + s2,
    ensures
        d1 == d2,
        h1 == h2,
        m1 == m2,
        s1 == s2,
{
}

/// No two dates and times are the same number of seconds after 1970-01-01T00:00:00.
pub proof fn law_timestamp_injective(first: NaiveDateTime, second: NaiveDateTime)
    requires
        first.valid(),
        second.valid(),
        first.timestamp() == second.timestamp(),
    ensures
        first == second,
{
    let (y1, y2) = (first.year as int, second.year as int);
    let (m1, m2) = (first.month as int, second.month as int);
    let (d1, d2) = (first.day as int, second.day as int);
    lemma_time_unique(
        days_before_year(y1) + days_before_month(y1, m1) + d1 - 1,
        first.hour as int,
        first.minute as int,
        first.second as int,
        days_before_year(y2) + days_before_month(y2, m2) + d2 - 1,
        second.hour as int,
        second.minute as int,
        second.second as int,
    );
    lemma_day_of_year(y1, m1, d1);
    lemma_day_of_year(y2, m2, d2);
    lemma_year_unique(
        y1,
        days_before_month(y1, m1) + d1 - 1,
        y2,
        days_before_month(y2, m2) + d2 - 1,
    );
    lemma_month_unique(y1, m1, d1, m2, d2);
}

/// Turns points in time into dates.
pub trait TimeConverter {
    /// Whether this point in time can be converted.
    open spec fn handles(&self, time: SystemTime) -> bool {
        true
    }

    /// Whether this may be the date and time at a point in time.
    open spec fn converts(&self, time: SystemTime, datetime: NaiveDateTime) -> bool {
        true
    }

    /// The date and time at a point in time.
    fn convert(&self, time: SystemTime) -> (datetime: NaiveDateTime)
        requires
            self.handles(time),
        ensures
            self.converts(time, datetime),
    ;
}

/// A converter that several entries share.
pub type SharedConverter = Rc<Box<dyn TimeConverter>>;

/// Shares a converter by `Rc::clone`, which makes another pointer to the same value.
#[verifier::external_body]
fn clone_rc(converter: &SharedConverter) -> (shared: SharedConverter)
    ensures
        shared == *converter,
{
    Rc::clone(converter)
}

/// Shares a converter, if there is one.
pub fn share(converter: &Option<SharedConverter>) -> (shared: Option<SharedConverter>)
    ensures
        shared == *converter,
{
    match converter {
        Some(converter) => Some(clone_rc(converter)),
        None => None,
    }
}

/// The two converters convert the same points in time to the same dates.
pub open spec fn same_conversion<F: TimeConverter>(first: SharedConverter, second: F) -> bool {
    &&& forall|time: SystemTime| #[trigger] first.handles(time) == second.handles(time)
    &&& forall|time: SystemTime, datetime: NaiveDateTime| #[trigger]
        first.converts(time, datetime) == second.converts(time, datetime)
}

/// Passes on to another converter.
struct Delegate<F: TimeConverter> {
    converter: F,
}

impl<F: TimeConverter> TimeConverter for Delegate<F> {
    closed spec fn handles(&self, time: SystemTime) -> bool {
        self.converter.handles(time)
    }

    closed spec fn converts(&self, time: SystemTime, datetime: NaiveDateTime) -> bool {
        self.converter.converts(time, datetime)
    }

    fn convert(&self, time: SystemTime) -> (datetime: NaiveDateTime) {
        self.converter.convert(time)
    }
}

/// Makes a converter that entries can share.
pub fn new_shared<F: TimeConverter + 'static>(converter: F) -> (shared: SharedConverter)
    ensures
        same_conversion(shared, converter),
{
    let boxed: Box<dyn TimeConverter> = Box::new(Delegate { converter });
    assert(forall|time: SystemTime| boxed.handles(time) == converter.handles(time));
    assert(forall|time: SystemTime, datetime: NaiveDateTime|
        boxed.converts(time, datetime) == converter.converts(time, datetime));
    let ghost inner = boxed;
    let shared = Rc::new(boxed);
    assert(*shared == inner);
    shared
}

/// A time zone.
pub trait UtcOffset {
    /// Whether clocks may be ahead of UTC by so many seconds.
    open spec fn offsets(&self, seconds: i64, offset: i32) -> bool {
        true
    }

    /// By how many seconds clocks are ahead of UTC, `seconds` after 1970-01-01T00:00:00 UTC.
    fn offset_at(&self, seconds: i64) -> (offset: i32)
        ensures
            self.offsets(seconds, offset),
    ;
}

/// A time zone in which clocks always differ from UTC by the same time.
#[derive(Clone, Copy, Debug, PartialEq, Eq, Structural)]
pub struct FixedOffset {
    /// By how many seconds clocks are ahead of UTC.
    pub local_minus_utc: i32,
}

impl UtcOffset for FixedOffset {
    open spec fn offsets(&self, seconds: i64, offset: i32) -> bool {
        offset == self.local_minus_utc
    }

    fn offset_at(&self, _seconds: i64) -> (offset: i32) {
        self.local_minus_utc
    }
}

/// Tells the date and time by the clocks of a time zone.
#[derive(Clone, Copy, Debug)]
pub struct ZoneConverter<Z: UtcOffset> {
    pub zone: Z,
}

impl<Z: UtcOffset> TimeConverter for ZoneConverter<Z> {
    /// The date can be told in UTC and by the clocks of the time zone.
    open spec fn handles(&self, time: SystemTime) -> bool {
        &&& in_calendar(time.seconds as int)
        &&& forall|offset: i32| #[trigger]
            self.zone.offsets(time.seconds, offset) ==> in_calendar(time.seconds + offset)
    }

    /// It is the date and time that clocks show.
    open spec fn converts(&self, time: SystemTime, datetime: NaiveDateTime) -> bool {
        &&& datetime.valid()
        &&& exists|offset: i32| #[trigger]
            self.zone.offsets(time.seconds, offset) && datetime.timestamp() == time.seconds + offset
    }

    fn convert(&self, time: SystemTime) -> (datetime: NaiveDateTime) {
        let offset: i32 = self.zone.offset_at(time.seconds);
        let local: i64 = time.seconds + offset as i64;
        match civil_from_timestamp(local) {
            Some(datetime) => datetime,
            None => NaiveDateTime { year: 0, month: 0, day: 0, hour: 0, minute: 0, second: 0 },
        }
    }
}

/// Creates a converter that tells the date and time by the clocks of `zone`.
pub fn system_timezone_converter<Z: UtcOffset>(zone: Z) -> (converter: ZoneConverter<Z>)
    ensures
        converter.zone == zone,
{
    ZoneConverter { zone }
}

} // verus!
