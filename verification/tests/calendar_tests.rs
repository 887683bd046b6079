use production_calendar::calendar::ProductionCalendar;
use production_calendar::types::CalendarDate;
use production_calendar::types::CalendarError;
use production_calendar::types::Day;
use production_calendar::types::DayNumber;
use production_calendar::types::DayType;
use production_calendar::types::Month;
use time::Date;
use time::Duration;
use time::Weekday;

fn month_from_time(m: time::Month) -> Month {
    match m {
        time::Month::January => Month::January,
        time::Month::February => Month::February,
        time::Month::March => Month::March,
        time::Month::April => Month::April,
        time::Month::May => Month::May,
        time::Month::June => Month::June,
        time::Month::July => Month::July,
        time::Month::August => Month::August,
        time::Month::September => Month::September,
        time::Month::October => Month::October,
        time::Month::November => Month::November,
        time::Month::December => Month::December,
    }
}

fn get_day_type(date: Date) -> DayType {
    if date.month() == time::Month::January && date.day() < 9 {
        return DayType::Holiday;
    }

    match date.weekday() {
        Weekday::Saturday | Weekday::Sunday => DayType::Weekend,
        _ => DayType::Working,
    }
}

fn make_calendar() -> ProductionCalendar {
    let mut date = Date::from_calendar_date(2024, time::Month::January, 1).unwrap();
    let date_end = Date::from_calendar_date(2024, time::Month::December, 31).unwrap();

    let mut days: Vec<Day> = vec![];
    while date <= date_end {
        let month = month_from_time(date.month());
        let day = Day {
            date: CalendarDate { year: date.year(), month, day: date.day() },
            day: DayNumber::new(date.day()).unwrap(),
            month,
            year: date.year(),
            day_type: get_day_type(date),
        };

        days.push(day);

        date = date + Duration::days(1);
    }

    ProductionCalendar::new(2024, days)
}

#[test]
fn test_make_calendar() {
    let calendar = make_calendar();

    assert_eq!(2024, calendar.get_year());
    assert_eq!(366, calendar.get_days_count());
}

#[test]
fn test_get_index() {
    let calendar = make_calendar();

    assert_eq!(
        19,
        calendar
            .get_index(CalendarDate { year: 2024, month: Month::January, day: 20 })
            .unwrap()
    );
}

#[test]
fn test_get_prev_work_day() {
    let calendar = make_calendar();

    assert_eq!(
        CalendarDate { year: 2024, month: Month::January, day: 19 },
        calendar.get_prev_work_day(21, Month::January).unwrap().date
    );
}

#[test]
fn test_count_work_days_in_month() {
    let calendar = make_calendar();

    assert_eq!(
        17,
        calendar.count_work_days_in_month(Month::January).unwrap()
    );
}

#[test]
fn test_count_work_days_in_month_before() {
    let calendar = make_calendar();

    assert_eq!(
        5,
        calendar
            .count_work_days_in_month_before(Month::January, DayNumber::new(15).unwrap())
            .unwrap()
    );
}

#[test]
fn test_work_days_in_month_after() {
    let calendar = make_calendar();

    assert_eq!(
        12,
        calendar
            .count_work_days_in_month_after(Month::January, DayNumber::new(15).unwrap())
            .unwrap()
    );
}

#[test]
fn test_get_day_present_and_absent() {
    let calendar = make_calendar();

    let date = CalendarDate { year: 2024, month: Month::February, day: 29 };
    let day = calendar.get_day(date).unwrap();
    assert_eq!(date, day.date);
    assert_eq!(DayType::Working, day.day_type);

    let absent = CalendarDate { year: 2023, month: Month::February, day: 28 };
    assert_eq!(Err(CalendarError::NotFound), calendar.get_day(absent).map(|d| *d));
    assert_eq!(Err(CalendarError::NotFound), calendar.get_index(absent));
}

#[test]
fn test_work_day_count_is_sum_over_months() {
    let calendar = make_calendar();

    let mut sum: usize = 0;
    let mut month = Month::January;
    for _ in 0..12 {
        sum += calendar.count_work_days_in_month(month).unwrap();
        month = month.next();
    }

    assert_eq!(calendar.get_work_days_count(), sum);
}

#[test]
fn test_before_after_partition() {
    let calendar = make_calendar();

    for n in 1..=31u8 {
        let day = DayNumber::new(n).unwrap();
        let before = calendar
            .count_work_days_in_month_before(Month::January, day)
            .unwrap();
        let after = calendar
            .count_work_days_in_month_after(Month::January, day)
            .unwrap();
        assert_eq!(
            calendar.count_work_days_in_month(Month::January).unwrap(),
            before + after
        );
    }
}

#[test]
fn test_days_in_month_listing() {
    let calendar = make_calendar();

    let all = calendar.get_days_in_month(Month::January).unwrap();
    assert_eq!(31, all.len());
    for day in &all {
        assert_eq!(Month::January, day.date.month);
    }

    let work = calendar.get_work_days_in_month(Month::January).unwrap();
    assert_eq!(17, work.len());
    for day in &work {
        assert_eq!(Month::January, day.date.month);
        assert!(day.day_type == DayType::Working || day.day_type == DayType::PreHoliday);
    }
}

#[test]
fn test_prev_work_day_invalid_date() {
    let calendar = make_calendar();

    assert!(matches!(
        calendar.get_prev_work_day(30, Month::February).map(|d| *d),
        Err(CalendarError::InvalidDate)
    ));
    assert!(matches!(
        calendar.get_prev_work_day(0, Month::January).map(|d| *d),
        Err(CalendarError::InvalidDate)
    ));
}

#[test]
fn test_prev_work_day_none_found() {
    let calendar = make_calendar();

    assert!(matches!(
        calendar.get_prev_work_day(2, Month::January).map(|d| *d),
        Err(CalendarError::NotFound)
    ));
}

#[test]
fn test_prev_work_day_absent_target() {
    let days: Vec<Day> = vec![];
    let calendar = ProductionCalendar::new(2024, days);

    assert!(matches!(
        calendar.get_prev_work_day(5, Month::March).map(|d| *d),
        Err(CalendarError::NotFound)
    ));
}
