//! Core data types of the production calendar: months, day-of-month numbers,
//! calendar dates, classified day records, and the library's error type.

use vstd::prelude::*;

verus! {

/// The twelve calendar months.
#[derive(Debug, Clone, Copy, PartialEq, Eq, Structural)]
pub enum Month {
    January,
    February,
    March,
    April,
    May,
    June,
    July,
    August,
    September,
    October,
    November,
    December,
}

/// The 1-based number of a month: January is 1, December is 12.
pub open spec fn month_number(m: Month) -> int {
    match m {
        Month::January => 1,
        Month::February => 2,
        Month::March => 3,
        Month::April => 4,
        Month::May => 5,
        Month::June => 6,
        Month::July => 7,
        Month::August => 8,
        Month::September => 9,
        Month::October => 10,
        Month::November => 11,
        Month::December => 12,
    }
}

/// The cyclic successor of a month: December wraps to January.
pub open spec fn next_month(m: Month) -> Month {
    match m {
        Month::January => Month::February,
        Month::February => Month::March,
        Month::March => Month::April,
        Month::April => Month::May,
        Month::May => Month::June,
        Month::June => Month::July,
        Month::July => Month::August,
        Month::August => Month::September,
        Month::September => Month::October,
        Month::October => Month::November,
        Month::November => Month::December,
        Month::December => Month::January,
    }
}

/// The cyclic predecessor of a month: January wraps to December.
pub open spec fn prev_month(m: Month) -> Month {
    match m {
        Month::January => Month::December,
        Month::February => Month::January,
        Month::March => Month::February,
        Month::April => Month::March,
        Month::May => Month::April,
        Month::June => Month::May,
        Month::July => Month::June,
        Month::August => Month::July,
        Month::September => Month::August,
        Month::October => Month::September,
        Month::November => Month::October,
        Month::December => Month::November,
    }
}

impl Month {
    /// The cyclic successor: `next(December) == January`.
    pub fn next(self) -> (r: Month)
        ensures
            r == next_month(self),
    {
        match self {
            Month::January => Month::February,
            Month::February => Month::March,
            Month::March => Month::April,
            Month::April => Month::May,
            Month::May => Month::June,
            Month::June => Month::July,
            Month::July => Month::August,
            Month::August => Month::September,
            Month::September => Month::October,
            Month::October => Month::November,
            Month::November => Month::December,
            Month::December => Month::January,
        }
    }

    /// The cyclic predecessor: `prev(January) == December`.
    pub fn prev(self) -> (r: Month)
        ensures
            r == prev_month(self),
    {
        match self {
            Month::January => Month::December,
            Month::February => Month::January,
            Month::March => Month::February,
            Month::April => Month::March,
            Month::May => Month::April,
            Month::June => Month::May,
            Month::July => Month::June,
            Month::August => Month::July,
            Month::September => Month::August,
            Month::October => Month::September,
            Month::November => Month::October,
            Month::December => Month::November,
        }
    }

    /// The month with the given 1-based number; rejects anything outside 1..=12.
    pub fn from_number(value: u8) -> (r: Result<Month, CalendarError>)
        ensures
            match r {
                Ok(m) => 1 <= value <= 12 && month_number(m) == value as int,
                Err(e) => e == CalendarError::InvalidDate && !(1 <= value && value <= 12),
            },
    {
        match value {
            1 => Ok(Month::January),
            2 => Ok(Month::February),
            3 => Ok(Month::March),
            4 => Ok(Month::April),
            5 => Ok(Month::May),
            6 => Ok(Month::June),
            7 => Ok(Month::July),
            8 => Ok(Month::August),
            9 => Ok(Month::September),
            10 => Ok(Month::October),
            11 => Ok(Month::November),
            12 => Ok(Month::December),
            _ => Err(CalendarError::InvalidDate),
        }
    }

    /// The 1-based number of the month: January is 1, December is 12.
    pub fn number(self) -> (n: u8)
        ensures
            n as int == month_number(self),
    {
        match self {
            Month::January => 1,
            Month::February => 2,
            Month::March => 3,
            Month::April => 4,
            Month::May => 5,
            Month::June => 6,
            Month::July => 7,
            Month::August => 8,
            Month::September => 9,
            Month::October => 10,
            Month::November => 11,
            Month::December => 12,
        }
    }
}

/// `next` and `prev` are mutual inverses, and the cycle closes: December's
/// successor is January and January's predecessor is December.
pub proof fn lemma_month_next_prev_inverse(m: Month)
    ensures
        prev_month(next_month(m)) == m,
        next_month(prev_month(m)) == m,
        next_month(Month::December) == Month::January,
        prev_month(Month::January) == Month::December,
{
}

/// The classification of a calendar day. Only `Working` and `PreHoliday`
/// count as work days; `Weekend` and `Holiday` never do.
#[derive(Debug, Clone, Copy, PartialEq, Eq, Structural)]
pub enum DayType {
    Working,
    Weekend,
    PreHoliday,
    Holiday,
}

/// The library's error kinds: a (year, month, day) combination that is no
/// valid Gregorian date or an out-of-range month or day-of-month number, and
/// a lookup that matched no record.
#[derive(Debug, Clone, Copy, PartialEq, Eq, Structural)]
pub enum CalendarError {
    InvalidDate,
    NotFound,
}

/// A day-of-month number, constrained to 1..=31.
#[derive(Debug, Clone, Copy, PartialEq, Eq, Structural)]
pub struct DayNumber {
    day: u8,
}

impl DayNumber {
    /// The wrapped day-of-month number.
    pub closed spec fn spec_value(self) -> u8 {
        self.day
    }

    /// Wraps a day-of-month number; rejects anything outside 1..=31.
    pub fn new(value: u8) -> (r: Result<DayNumber, CalendarError>)
        ensures
            match r {
                Ok(d) => 1 <= value <= 31 && d.spec_value() == value,
                Err(e) => e == CalendarError::InvalidDate && !(1 <= value && value <= 31),
            },
    {
        if 1 <= value && value <= 31 {
            Ok(DayNumber { day: value })
        } else {
            Err(CalendarError::InvalidDate)
        }
    }

    /// The wrapped day-of-month number.
    pub fn value(self) -> (v: u8)
        ensures
            v == self.spec_value(),
    {
        self.day
    }
}

/// A calendar date held as plain values: a year, a month, and a day of the
/// month. Whether the triple forms a valid Gregorian date is expressed by
/// `date_valid`.
#[derive(Debug, Clone, Copy, PartialEq, Eq, Structural)]
pub struct CalendarDate {
    pub year: i32,
    pub month: Month,
    pub day: u8,
}

/// Whether a year is a leap year in the proleptic Gregorian calendar.
pub open spec fn leap_year(y: int) -> bool {
    (y % 4 == 0 && y % 100 != 0) || y % 400 == 0
}

/// The number of days in the month with 1-based number `m` of year `y`.
pub open spec fn days_in_month_of(y: int, m: int) -> int {
    if m == 2 {
        if leap_year(y) {
            29
        } else {
            28
        }
    } else if m == 4 || m == 6 || m == 9 || m == 11 {
        30
    } else {
        31
    }
}

/// The number of days in year `y`.
pub open spec fn days_in_year(y: int) -> int {
    if leap_year(y) {
        366
    } else {
        365
    }
}

/// Whether (year `y`, month number `m`, day `d`) forms a valid Gregorian
/// date that the external date library can represent: its supported years
/// are -9999..=9999.
pub open spec fn valid_ymd(y: int, m: int, d: int) -> bool {
    &&& -9999 <= y <= 9999
    &&& 1 <= m <= 12
    &&& 1 <= d <= days_in_month_of(y, m)
}

/// Whether a `CalendarDate` is a valid, representable Gregorian date.
pub open spec fn date_valid(d: CalendarDate) -> bool {
    valid_ymd(d.year as int, month_number(d.month), d.day as int)
}

/// The number of days of year `y` that fall before the month with 1-based
/// number `m`.
pub open spec fn days_before_month(y: int, m: int) -> int
    decreases m,
{
    if m <= 1 {
        0
    } else {
        days_before_month(y, m - 1) + days_in_month_of(y, m - 1)
    }
}

/// The ordinal of a date within its year: January 1 is 1, December 31 is
/// 365 or 366.
pub open spec fn day_ordinal(d: CalendarDate) -> int {
    days_before_month(d.year as int, month_number(d.month)) + d.day
}

/// Strict ordering of calendar dates: by year, then month, then day.
pub open spec fn date_lt(a: CalendarDate, b: CalendarDate) -> bool {
    ||| a.year < b.year
    ||| (a.year == b.year && month_number(a.month) < month_number(b.month))
    ||| (a.year == b.year && a.month == b.month && a.day < b.day)
}

/// One classified calendar day. The `day`, `month` and `year` fields are the
/// caller-supplied decomposition of `date`; the record is built once and
/// never mutated, and keeping them consistent with `date` is the caller's
/// responsibility.
#[derive(Debug, Clone, Copy, PartialEq, Eq, Structural)]
pub struct Day {
    pub date: CalendarDate,
    pub day: DayNumber,
    pub month: Month,
    pub year: i32,
    pub day_type: DayType,
}

} // verus!
