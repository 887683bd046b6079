use production_calendar::types::CalendarError;
use production_calendar::types::DayNumber;
use production_calendar::types::Month;

#[test]
fn test_day_use_cases() {
    let day: DayNumber = DayNumber::new(9).unwrap();
    assert_eq!(day, DayNumber::new(9).unwrap());
}

#[test]
fn test_day_new() {
    DayNumber::new(1).unwrap();
    DayNumber::new(31).unwrap();
}

#[test]
fn test_day_into() {
    let day = DayNumber::new(15).unwrap();

    let number: u8 = day.value();

    assert_eq!(15, number);
}

#[test]
fn test_day_number_out_of_range() {
    assert_eq!(Err(CalendarError::InvalidDate), DayNumber::new(0));
    assert_eq!(Err(CalendarError::InvalidDate), DayNumber::new(32));
}

#[test]
fn test_month_into() {
    let _: Month = Month::from_number(1).unwrap();
    let _: Month = Month::from_number(12).unwrap();
}

#[test]
fn test_month_out_of_range() {
    assert_eq!(Err(CalendarError::InvalidDate), Month::from_number(0));
    assert_eq!(Err(CalendarError::InvalidDate), Month::from_number(13));
}

#[test]
fn test_month_number_round_trip() {
    let mut month = Month::January;
    for _ in 0..12 {
        assert_eq!(month, Month::from_number(month.number()).unwrap());
        assert_eq!(month, month.next().prev());
        assert_eq!(month, month.prev().next());
        month = month.next();
    }
    assert_eq!(Month::January, month);
}

#[test]
fn test_month_prev() {
    assert_eq!(Month::December, Month::January.prev());
    assert_eq!(Month::January, Month::February.prev());
    assert_eq!(Month::February, Month::March.prev());
    assert_eq!(Month::March, Month::April.prev());
    assert_eq!(Month::April, Month::May.prev());
    assert_eq!(Month::May, Month::June.prev());
    assert_eq!(Month::June, Month::July.prev());
    assert_eq!(Month::July, Month::August.prev());
    assert_eq!(Month::September, Month::October.prev());
    assert_eq!(Month::October, Month::November.prev());
    assert_eq!(Month::November, Month::December.prev());
}

#[test]
fn test_month_next() {
    assert_eq!(Month::February, Month::January.next());
    assert_eq!(Month::March, Month::February.next());
    assert_eq!(Month::April, Month::March.next());
    assert_eq!(Month::May, Month::April.next());
    assert_eq!(Month::June, Month::May.next());
    assert_eq!(Month::July, Month::June.next());
    assert_eq!(Month::August, Month::July.next());
    assert_eq!(Month::September, Month::August.next());
    assert_eq!(Month::November, Month::October.next());
    assert_eq!(Month::December, Month::November.next());
    assert_eq!(Month::January, Month::December.next());
}
