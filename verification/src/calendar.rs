//! The production calendar: an immutable, date-ordered sequence of
//! classified day records for one year, and the query operations over it.

use vstd::prelude::*;

use crate::types::CalendarDate;
use crate::types::CalendarError;
use crate::types::Day;
use crate::types::DayNumber;
use crate::types::DayType;
use crate::types::Month;
use crate::types::date_lt;
use crate::types::date_valid;
use crate::types::day_ordinal;
use crate::types::days_before_month;
use crate::types::days_in_year;
use crate::types::leap_year;
use crate::types::month_number;
use crate::types::valid_ymd;

verus! {

/// Whether a classification counts as a work day: `Working` and `PreHoliday`
/// do, `Weekend` and `Holiday` do not.
pub open spec fn is_work_day(t: DayType) -> bool {
    t == DayType::Working || t == DayType::PreHoliday
}

/// The number of work-day records in `s`.
pub open spec fn work_day_count(s: Seq<Day>) -> int
    decreases s.len(),
{
    if s.len() == 0 {
        0
    } else {
        work_day_count(s.drop_last()) + if is_work_day(s.last().day_type) {
            1int
        } else {
            0int
        }
    }
}

/// The number of work-day records in `s` whose date lies in month `m`.
pub open spec fn work_in_month_count(s: Seq<Day>, m: Month) -> int
    decreases s.len(),
{
    if s.len() == 0 {
        0
    } else {
        work_in_month_count(s.drop_last(), m) + if s.last().date.month == m && is_work_day(
            s.last().day_type,
        ) {
            1int
        } else {
            0int
        }
    }
}

/// The number of work-day records in `s` in month `m` whose day of the
/// month is at most `n` (inclusive of `n`).
pub open spec fn work_in_month_upto_count(s: Seq<Day>, m: Month, n: u8) -> int
    decreases s.len(),
{
    if s.len() == 0 {
        0
    } else {
        work_in_month_upto_count(s.drop_last(), m, n) + if s.last().date.month == m
            && s.last().date.day <= n && is_work_day(s.last().day_type) {
            1int
        } else {
            0int
        }
    }
}

/// The number of work-day records in `s` in month `m` whose day of the
/// month is strictly greater than `n` (exclusive of `n`).
pub open spec fn work_in_month_after_count(s: Seq<Day>, m: Month, n: u8) -> int
    decreases s.len(),
{
    if s.len() == 0 {
        0
    } else {
        work_in_month_after_count(s.drop_last(), m, n) + if s.last().date.month == m
            && s.last().date.day > n && is_work_day(s.last().day_type) {
            1int
        } else {
            0int
        }
    }
}

/// The records of `s` whose date lies in month `m`, in sequence order.
pub open spec fn month_days_seq(s: Seq<Day>, m: Month) -> Seq<Day>
    decreases s.len(),
{
    if s.len() == 0 {
        Seq::empty()
    } else {
        month_days_seq(s.drop_last(), m) + if s.last().date.month == m {
            seq![s.last()]
        } else {
            Seq::empty()
        }
    }
}

/// The work-day records of `s` whose date lies in month `m`, in sequence
/// order.
pub open spec fn work_month_days_seq(s: Seq<Day>, m: Month) -> Seq<Day>
    decreases s.len(),
{
    if s.len() == 0 {
        Seq::empty()
    } else {
        work_month_days_seq(s.drop_last(), m) + if s.last().date.month == m && is_work_day(
            s.last().day_type,
        ) {
            seq![s.last()]
        } else {
            Seq::empty()
        }
    }
}

/// The position of the last work-day record of `s` strictly before position
/// `i`, or -1 when no work-day record precedes `i`.
pub open spec fn last_work_before(s: Seq<Day>, i: int) -> int
    decreases i,
{
    if i <= 0 {
        -1
    } else if is_work_day(s[i - 1].day_type) {
        i - 1
    } else {
        last_work_before(s, i - 1)
    }
}

/// Relies on time::Date::from_calendar_date: with the crate's default
/// features it returns Ok exactly when the year lies in -9999..=9999 and
/// the day lies in 1..=days-in-month of the proleptic Gregorian calendar;
/// and on time::Month::try_from, which accepts exactly the numbers 1..=12.
#[verifier::external_body]
fn time_date_exists(year: i32, month: u8, day: u8) -> (r: bool)
    ensures
        r == valid_ymd(year as int, month as int, day as int),
{
    match time::Month::try_from(month) {
        Ok(m) => time::Date::from_calendar_date(year, m, day).is_ok(),
        Err(_) => false,
    }
}

/// Whether some record in `s` has date `t`.
pub open spec fn has_date(s: Seq<Day>, t: CalendarDate) -> bool {
    exists|i: int| 0 <= i < s.len() && (#[trigger] s[i]).date == t
}

/// The position of the first record in `s` whose date is `t`; meaningful
/// only when `has_date(s, t)` holds.
pub open spec fn first_index_of(s: Seq<Day>, t: CalendarDate) -> int
    decreases s.len(),
{
    if s.len() == 0 {
        0
    } else if s[0].date == t {
        0
    } else {
        1 + first_index_of(s.drop_first(), t)
    }
}

/// When `s[i]` is the first record with date `t`, `first_index_of` finds
/// exactly that position.
proof fn lemma_first_index_of_at(s: Seq<Day>, t: CalendarDate, i: int)
    requires
        0 <= i < s.len(),
        s[i].date == t,
        forall|k: int| 0 <= k < i ==> (#[trigger] s[k]).date != t,
    ensures
        first_index_of(s, t) == i,
    decreases i,
{
    if i == 0 {
    } else {
        assert(s[0].date != t);
        assert(forall|k: int| 0 <= k < i - 1 ==> (#[trigger] s.drop_first()[k]).date != t);
        lemma_first_index_of_at(s.drop_first(), t, i - 1);
    }
}

/// A production calendar: one year and its classified day records, in
/// ascending date order (an unchecked precondition on the caller-supplied
/// sequence).
#[derive(Debug, Clone)]
pub struct ProductionCalendar {
    year: u32,
    days: Vec<Day>,
}

impl ProductionCalendar {
    /// The calendar's year.
    pub closed spec fn spec_year(self) -> u32 {
        self.year
    }

    /// The calendar's day records, in sequence order.
    pub closed spec fn spec_days(self) -> Seq<Day> {
        self.days@
    }

    /// Builds a calendar from a year and its already-classified day records.
    /// The records must be sorted ascending by date without duplicates;
    /// this is not validated here.
    pub fn new(year: u32, days: Vec<Day>) -> (r: ProductionCalendar)
        ensures
            r.spec_year() == year,
            r.spec_days() == days@,
    {
        ProductionCalendar { year, days }
    }

    /// The calendar's year.
    pub fn get_year(&self) -> (r: u32)
        ensures
            r == self.spec_year(),
    {
        self.year
    }

    /// The total number of day records held.
    pub fn get_days_count(&self) -> (r: usize)
        ensures
            r == self.spec_days().len(),
    {
        self.days.len()
    }

    /// The number of records classified as work days.
    pub fn get_work_days_count(&self) -> (r: usize)
        ensures
            r as int == work_day_count(self.spec_days()),
    {
        let ghost s = self.spec_days();
        let mut count: usize = 0;
        let mut i: usize = 0;
        while i < self.days.len()
            invariant
                i <= s.len(),
                s == self.spec_days(),
                self.days@ == s,
                count <= i,
                count as int == work_day_count(s.take(i as int)),
            decreases s.len() - i,
        {
            proof {
                lemma_work_day_count_take(s, i as int);
            }
            let t = self.days[i].day_type;
            if t == DayType::Working || t == DayType::PreHoliday {
                count = count + 1;
            }
            i = i + 1;
        }
        proof {
            assert(s.take(s.len() as int) =~= s);
        }
        count
    }

    /// The zero-based position of the record with the given date; the first
    /// match in sequence order if duplicates violate the precondition.
    /// Fails with `NotFound` when no record has that date.
    pub fn get_index(&self, date: CalendarDate) -> (r: Result<usize, CalendarError>)
        ensures
            match r {
                Ok(i) => {
                    &&& has_date(self.spec_days(), date)
                    &&& i as int == first_index_of(self.spec_days(), date)
                    &&& i < self.spec_days().len()
                    &&& self.spec_days()[i as int].date == date
                    &&& forall|k: int|
                        0 <= k < i ==> (#[trigger] self.spec_days()[k]).date != date
                },
                Err(e) => e == CalendarError::NotFound && !has_date(self.spec_days(), date),
            },
    {
        let ghost s = self.spec_days();
        let mut i: usize = 0;
        while i < self.days.len()
            invariant
                i <= s.len(),
                self.days@ == s,
                s == self.spec_days(),
                forall|k: int| 0 <= k < i ==> (#[trigger] s[k]).date != date,
            decreases s.len() - i,
        {
            if self.days[i].date == date {
                proof {
                    lemma_first_index_of_at(s, date, i as int);
                }
                return Ok(i);
            }
            i = i + 1;
        }
        Err(CalendarError::NotFound)
    }

    /// The unique record with the given date; the first match in sequence
    /// order if duplicates violate the precondition. Fails with `NotFound`
    /// when no record has that date.
    pub fn get_day(&self, date: CalendarDate) -> (r: Result<&Day, CalendarError>)
        ensures
            match r {
                Ok(d) => {
                    &&& has_date(self.spec_days(), date)
                    &&& *d == self.spec_days()[first_index_of(self.spec_days(), date)]
                    &&& d.date == date
                },
                Err(e) => e == CalendarError::NotFound && !has_date(self.spec_days(), date),
            },
    {
        let index = match self.get_index(date) {
            Ok(i) => i,
            Err(e) => {
                return Err(e);
            },
        };
        Ok(&self.days[index])
    }

    /// The work-day record nearest before the date formed by the given day
    /// of the month and month in the calendar's own year: the target date
    /// itself is excluded, and the scan runs backward through sequence
    /// order. Fails with `InvalidDate` when no valid date is formed, and
    /// with `NotFound` when the target date is absent or no work-day record
    /// precedes it.
    pub fn get_prev_work_day(&self, day: u8, month: Month) -> (r: Result<&Day, CalendarError>)
        ensures
            ({
                let s = self.spec_days();
                let valid = valid_ymd(self.spec_year() as int, month_number(month), day as int);
                let t = CalendarDate { year: self.spec_year() as i32, month, day };
                match r {
                    Ok(d) => {
                        &&& valid
                        &&& has_date(s, t)
                        &&& last_work_before(s, first_index_of(s, t)) >= 0
                        &&& *d == s[last_work_before(s, first_index_of(s, t))]
                    },
                    Err(e) => if e == CalendarError::InvalidDate {
                        !valid
                    } else {
                        &&& e == CalendarError::NotFound
                        &&& valid
                        &&& (!has_date(s, t) || last_work_before(s, first_index_of(s, t)) == -1)
                    },
                }
            }),
    {
        let ghost s = self.spec_days();
        if self.year > 9999 {
            return Err(CalendarError::InvalidDate);
        }
        let y: i32 = self.year as i32;
        if !time_date_exists(y, month.number(), day) {
            return Err(CalendarError::InvalidDate);
        }
        let target = CalendarDate { year: y, month, day };
        let index = match self.get_index(target) {
            Ok(i) => i,
            Err(_) => {
                return Err(CalendarError::NotFound);
            },
        };
        let mut j: usize = index;
        while j > 0
            invariant
                j <= index,
                index < s.len(),
                self.days@ == s,
                s == self.spec_days(),
                valid_ymd(self.spec_year() as int, month_number(month), day as int),
                target == (CalendarDate { year: self.spec_year() as i32, month, day }),
                has_date(s, target),
                index as int == first_index_of(s, target),
                last_work_before(s, index as int) == last_work_before(s, j as int),
            decreases j,
        {
            j = j - 1;
            let d = &self.days[j];
            if d.day_type == DayType::Working || d.day_type == DayType::PreHoliday {
                proof {
                    assert(last_work_before(s, j as int + 1) == j as int);
                }
                return Ok(&self.days[j]);
            }
        }
        Err(CalendarError::NotFound)
    }

    /// The number of work-day records in the given month.
    pub fn count_work_days_in_month(&self, month: Month) -> (r: Result<
        usize,
        CalendarError,
    >)
        ensures
            r matches Ok(c) && c as int == work_in_month_count(self.spec_days(), month),
    {
        let ghost s = self.spec_days();
        let mut count: usize = 0;
        let mut i: usize = 0;
        while i < self.days.len()
            invariant
                i <= s.len(),
                self.days@ == s,
                s == self.spec_days(),
                count <= i,
                count as int == work_in_month_count(s.take(i as int), month),
            decreases s.len() - i,
        {
            proof {
                assert(s.take(i as int + 1).drop_last() =~= s.take(i as int));
                assert(s.take(i as int + 1).last() == s[i as int]);
            }
            let d = &self.days[i];
            if d.date.month == month && (d.day_type == DayType::Working || d.day_type
                == DayType::PreHoliday) {
                count = count + 1;
            }
            i = i + 1;
        }
        proof {
            assert(s.take(s.len() as int) =~= s);
        }
        Ok(count)
    }

    /// All records of the given month, in sequence order.
    pub fn get_days_in_month(&self, month: Month) -> (r: Result<Vec<Day>, CalendarError>)
        ensures
            r matches Ok(v) && v@ == month_days_seq(self.spec_days(), month),
    {
        let ghost s = self.spec_days();
        let mut found: Vec<Day> = Vec::new();
        let mut i: usize = 0;
        while i < self.days.len()
            invariant
                i <= s.len(),
                self.days@ == s,
                s == self.spec_days(),
                found@ == month_days_seq(s.take(i as int), month),
            decreases s.len() - i,
        {
            proof {
                assert(s.take(i as int + 1).drop_last() =~= s.take(i as int));
                assert(s.take(i as int + 1).last() == s[i as int]);
            }
            let d = self.days[i];
            if d.date.month == month {
                found.push(d);
            }
            proof {
                assert(found@ =~= month_days_seq(s.take(i as int + 1), month));
            }
            i = i + 1;
        }
        proof {
            assert(s.take(s.len() as int) =~= s);
        }
        Ok(found)
    }

    /// The work-day records of the given month, in sequence order.
    pub fn get_work_days_in_month(&self, month: Month) -> (r: Result<
        Vec<Day>,
        CalendarError,
    >)
        ensures
            r matches Ok(v) && v@ == work_month_days_seq(self.spec_days(), month),
    {
        let ghost s = self.spec_days();
        let mut found: Vec<Day> = Vec::new();
        let mut i: usize = 0;
        while i < self.days.len()
            invariant
                i <= s.len(),
                self.days@ == s,
                s == self.spec_days(),
                found@ == work_month_days_seq(s.take(i as int), month),
            decreases s.len() - i,
        {
            proof {
                assert(s.take(i as int + 1).drop_last() =~= s.take(i as int));
                assert(s.take(i as int + 1).last() == s[i as int]);
            }
            let d = self.days[i];
            if d.date.month == month && (d.day_type == DayType::Working || d.day_type
                == DayType::PreHoliday) {
                found.push(d);
            }
            proof {
                assert(found@ =~= work_month_days_seq(s.take(i as int + 1), month));
            }
            i = i + 1;
        }
        proof {
            assert(s.take(s.len() as int) =~= s);
        }
        Ok(found)
    }

    /// The number of work-day records in the given month whose day of the
    /// month is at most `day` (inclusive).
    pub fn count_work_days_in_month_before(&self, month: Month, day: DayNumber) -> (r: Result<
        usize,
        CalendarError,
    >)
        ensures
            r matches Ok(c) && c as int == work_in_month_upto_count(
                self.spec_days(),
                month,
                day.spec_value(),
            ),
    {
        let ghost s = self.spec_days();
        let n = day.value();
        let mut count: usize = 0;
        let mut i: usize = 0;
        while i < self.days.len()
            invariant
                i <= s.len(),
                self.days@ == s,
                s == self.spec_days(),
                n == day.spec_value(),
                count <= i,
                count as int == work_in_month_upto_count(s.take(i as int), month, n),
            decreases s.len() - i,
        {
            proof {
                assert(s.take(i as int + 1).drop_last() =~= s.take(i as int));
                assert(s.take(i as int + 1).last() == s[i as int]);
            }
            let d = &self.days[i];
            if d.date.month == month && d.date.day <= n && (d.day_type == DayType::Working
                || d.day_type == DayType::PreHoliday) {
                count = count + 1;
            }
            i = i + 1;
        }
        proof {
            assert(s.take(s.len() as int) =~= s);
        }
        Ok(count)
    }

    /// The number of work-day records in the given month whose day of the
    /// month is strictly greater than `day` (exclusive).
    pub fn count_work_days_in_month_after(&self, month: Month, day: DayNumber) -> (r: Result<
        usize,
        CalendarError,
    >)
        ensures
            r matches Ok(c) && c as int == work_in_month_after_count(
                self.spec_days(),
                month,
                day.spec_value(),
            ),
    {
        let ghost s = self.spec_days();
        let n = day.value();
        let mut count: usize = 0;
        let mut i: usize = 0;
        while i < self.days.len()
            invariant
                i <= s.len(),
                self.days@ == s,
                s == self.spec_days(),
                n == day.spec_value(),
                count <= i,
                count as int == work_in_month_after_count(s.take(i as int), month, n),
            decreases s.len() - i,
        {
            proof {
                assert(s.take(i as int + 1).drop_last() =~= s.take(i as int));
                assert(s.take(i as int + 1).last() == s[i as int]);
            }
            let d = &self.days[i];
            if d.date.month == month && d.date.day > n && (d.day_type == DayType::Working
                || d.day_type == DayType::PreHoliday) {
                count = count + 1;
            }
            i = i + 1;
        }
        proof {
            assert(s.take(s.len() as int) =~= s);
        }
        Ok(count)
    }
}

/// Whether the records of `s` are strictly ascending by date.
pub open spec fn sorted_by_date(s: Seq<Day>) -> bool {
    forall|i: int, j: int|
        0 <= i < j < s.len() ==> date_lt((#[trigger] s[i]).date, (#[trigger] s[j]).date)
}

/// Whether `s` holds one valid record for every date of year `y`, in order:
/// it starts at January 1, ends at December 31, and consecutive records
/// carry consecutive dates of that year.
pub open spec fn spans_full_year(s: Seq<Day>, y: int) -> bool {
    &&& s.len() > 0
    &&& forall|i: int|
        0 <= i < s.len() ==> (#[trigger] s[i]).date.year as int == y && date_valid(s[i].date)
    &&& s[0].date.month == Month::January && s[0].date.day == 1
    &&& s[s.len() - 1].date.month == Month::December && s[s.len() - 1].date.day == 31
    &&& forall|i: int|
        0 <= i < s.len() - 1 ==> day_ordinal((#[trigger] s[i + 1]).date) == day_ordinal(
            s[i].date,
        ) + 1
}

/// In a sequence that spans a full year, the record at position `i` carries
/// the date with ordinal `i + 1`.
proof fn lemma_ordinal_at(s: Seq<Day>, y: int, i: int)
    requires
        spans_full_year(s, y),
        0 <= i < s.len(),
    ensures
        day_ordinal(s[i].date) == i + 1,
    decreases i,
{
    if i > 0 {
        lemma_ordinal_at(s, y, i - 1);
    }
}

/// The days of January through November sum to 31 less than the length of
/// the year.
proof fn lemma_days_before_december(y: int)
    ensures
        days_before_month(y, 12) + 31 == days_in_year(y),
{
    let l: int = if leap_year(y) {
        1
    } else {
        0
    };
    assert(days_before_month(y, 1) == 0);
    assert(days_before_month(y, 2) == 31);
    assert(days_before_month(y, 3) == 59 + l);
    assert(days_before_month(y, 4) == 90 + l);
    assert(days_before_month(y, 5) == 120 + l);
    assert(days_before_month(y, 6) == 151 + l);
    assert(days_before_month(y, 7) == 181 + l);
    assert(days_before_month(y, 8) == 212 + l);
    assert(days_before_month(y, 9) == 243 + l);
    assert(days_before_month(y, 10) == 273 + l);
    assert(days_before_month(y, 11) == 304 + l);
    assert(days_before_month(y, 12) == 334 + l);
}

/// A calendar that spans a full year holds 366 records when the year is a
/// leap year and 365 otherwise.
pub proof fn lemma_full_year_day_count(s: Seq<Day>, y: int)
    requires
        spans_full_year(s, y),
    ensures
        s.len() == days_in_year(y),
{
    lemma_ordinal_at(s, y, s.len() - 1);
    lemma_days_before_december(y);
}

/// The total work-day count is the sum of the work-day counts of the
/// twelve months.
pub proof fn lemma_work_count_is_month_sum(s: Seq<Day>)
    ensures
        work_day_count(s) == work_in_month_count(s, Month::January) + work_in_month_count(
            s,
            Month::February,
        ) + work_in_month_count(s, Month::March) + work_in_month_count(s, Month::April)
            + work_in_month_count(s, Month::May) + work_in_month_count(s, Month::June)
            + work_in_month_count(s, Month::July) + work_in_month_count(s, Month::August)
            + work_in_month_count(s, Month::September) + work_in_month_count(s, Month::October)
            + work_in_month_count(s, Month::November) + work_in_month_count(s, Month::December),
    decreases s.len(),
{
    if s.len() > 0 {
        lemma_work_count_is_month_sum(s.drop_last());
    }
}

/// For any month and any day number, the inclusive count up to that day and
/// the exclusive count after it partition the month's work-day count.
pub proof fn lemma_work_count_split_at_day(s: Seq<Day>, m: Month, n: u8)
    ensures
        work_in_month_count(s, m) == work_in_month_upto_count(s, m, n)
            + work_in_month_after_count(s, m, n),
    decreases s.len(),
{
    if s.len() > 0 {
        lemma_work_count_split_at_day(s.drop_last(), m, n);
    }
}

/// The work-day count of a month is the number of records that
/// `get_work_days_in_month` hands back for it.
pub proof fn lemma_work_in_month_count_is_len(s: Seq<Day>, m: Month)
    ensures
        work_in_month_count(s, m) == work_month_days_seq(s, m).len(),
    decreases s.len(),
{
    if s.len() > 0 {
        lemma_work_in_month_count_is_len(s.drop_last(), m);
    }
}

/// Properties of `first_index_of` under `has_date`: it is a position of
/// `s`, its record carries the sought date, and no earlier record does.
proof fn lemma_first_index_of_props(s: Seq<Day>, t: CalendarDate)
    requires
        has_date(s, t),
    ensures
        ({
            let i = first_index_of(s, t);
            &&& 0 <= i < s.len()
            &&& s[i].date == t
            &&& forall|k: int| 0 <= k < i ==> (#[trigger] s[k]).date != t
        }),
    decreases s.len(),
{
    if s.len() > 0 && s[0].date != t {
        let w = choose|i: int| 0 <= i < s.len() && (#[trigger] s[i]).date == t;
        assert(s.drop_first()[w - 1].date == t);
        lemma_first_index_of_props(s.drop_first(), t);
        let i = first_index_of(s, t);
        assert(s[i] == s.drop_first()[i - 1]);
        assert forall|k: int| 0 <= k < i implies (#[trigger] s[k]).date != t by {
            if k > 0 {
                assert(s[k] == s.drop_first()[k - 1]);
            }
        }
    }
}

/// Properties of `last_work_before`: -1 means no work-day record stands
/// before position `i`; otherwise it is the greatest work-day position
/// strictly before `i`.
proof fn lemma_last_work_before_props(s: Seq<Day>, i: int)
    requires
        0 <= i <= s.len(),
    ensures
        last_work_before(s, i) == -1 ==> forall|k: int|
            0 <= k < i ==> !is_work_day((#[trigger] s[k]).day_type),
        last_work_before(s, i) >= 0 ==> ({
            let j = last_work_before(s, i);
            &&& j < i
            &&& is_work_day(s[j].day_type)
            &&& forall|k: int| j < k < i ==> !is_work_day((#[trigger] s[k]).day_type)
        }),
    decreases i,
{
    if i > 0 {
        lemma_last_work_before_props(s, i - 1);
    }
}

/// On a date-sorted calendar, the record that `get_prev_work_day` hands
/// back is a work day strictly earlier than the target date, and no
/// work-day record strictly earlier than the target date is later than it.
pub proof fn lemma_prev_work_day_nearest(s: Seq<Day>, t: CalendarDate)
    requires
        sorted_by_date(s),
        has_date(s, t),
        last_work_before(s, first_index_of(s, t)) >= 0,
    ensures
        ({
            let j = last_work_before(s, first_index_of(s, t));
            &&& is_work_day(s[j].day_type)
            &&& date_lt(s[j].date, t)
            &&& forall|k: int|
                0 <= k < s.len() && is_work_day((#[trigger] s[k]).day_type) && date_lt(
                    s[k].date,
                    t,
                ) ==> !date_lt(s[j].date, s[k].date)
        }),
{
    let i = first_index_of(s, t);
    let j = last_work_before(s, i);
    lemma_first_index_of_props(s, t);
    lemma_last_work_before_props(s, i);
    assert(date_lt(s[j].date, s[i].date));
    assert forall|k: int|
        0 <= k < s.len() && is_work_day((#[trigger] s[k]).day_type) && date_lt(s[k].date, t)
        implies !date_lt(s[j].date, s[k].date) by {
        if date_lt(s[j].date, s[k].date) {
            if k < j {
                assert(date_lt(s[k].date, s[j].date));
            } else if j < k && k < i {
                assert(!is_work_day(s[k].day_type));
            } else if k == i {
                assert(s[k].date == t);
            } else if k > i {
                assert(date_lt(s[i].date, s[k].date));
            }
        }
    }
}

/// Extending a prefix of `s` by one record adds that record's work-day
/// indicator to its work-day count.
proof fn lemma_work_day_count_take(s: Seq<Day>, i: int)
    requires
        0 <= i < s.len(),
    ensures
        work_day_count(s.take(i + 1)) == work_day_count(s.take(i)) + if is_work_day(
            s[i].day_type,
        ) {
            1int
        } else {
            0int
        },
{
    assert(s.take(i + 1).drop_last() =~= s.take(i));
    assert(s.take(i + 1).last() == s[i]);
}

} // verus!
