use delphi::{
    days_before, format_date_dd_mm_yyyy, get_two_days_before_today, parse_date_dd_mm_yyyy,
    CalendarDate, OracleError,
};

#[test]
fn parses_day_month_year() {
    let d = parse_date_dd_mm_yyyy("10-11-2025").unwrap();
    assert_eq!((d.year, d.month, d.day), (2025, 11, 10));
}

#[test]
fn parse_then_format_is_identity() {
    for text in ["10-11-2025", "01-01-2024", "29-02-2024", "31-12-0999", "01-01-0000", "28-02-1900"] {
        let d = parse_date_dd_mm_yyyy(text).unwrap();
        assert_eq!(format_date_dd_mm_yyyy(&d), text);
    }
}

#[test]
fn rejects_malformed_dates() {
    for text in [
        "", "1-1-2024", "01/01/2024", "2024-01-01", "01-01-24", "aa-bb-cccc", "00-01-2024",
        "01-00-2024", "01-13-2024", "32-01-2024", "31-04-2024", "29-02-2023", "29-02-1900",
        " 01-01-2024", "01-01-2024 ", "０1-01-2024",
    ] {
        assert_eq!(parse_date_dd_mm_yyyy(text).err(), Some(OracleError::InvalidDate), "{}", text);
    }
}

#[test]
fn formats_with_zero_padding() {
    let d = CalendarDate::from_ymd(999, 3, 5).unwrap();
    assert_eq!(format_date_dd_mm_yyyy(&d), "05-03-0999");
}

#[test]
fn from_ymd_checks_the_calendar() {
    assert!(CalendarDate::from_ymd(2024, 2, 29).is_some());
    assert!(CalendarDate::from_ymd(2000, 2, 29).is_some());
    assert!(CalendarDate::from_ymd(2023, 2, 29).is_none());
    assert!(CalendarDate::from_ymd(2024, 4, 31).is_none());
    assert!(CalendarDate::from_ymd(10000, 1, 1).is_none());
}

#[test]
fn steps_back_over_month_and_year_ends() {
    let d = CalendarDate::from_ymd(2025, 1, 1).unwrap();
    assert_eq!(days_before(&d, 2), Ok(CalendarDate { year: 2024, month: 12, day: 30 }));
    let d = CalendarDate::from_ymd(2023, 3, 1).unwrap();
    assert_eq!(days_before(&d, 1), Ok(CalendarDate { year: 2023, month: 2, day: 28 }));
    assert_eq!(days_before(&d, 0), Ok(d));
    assert_eq!(days_before(&d, 365), Ok(CalendarDate { year: 2022, month: 3, day: 1 }));
    let d = CalendarDate::from_ymd(0, 1, 1).unwrap();
    assert_eq!(days_before(&d, 1), Err(OracleError::CalendarUnderflow));
}

#[test]
fn two_days_before_today_as_text() {
    let today = CalendarDate::from_ymd(2025, 11, 12).unwrap();
    assert_eq!(get_two_days_before_today(&today), Ok("10-11-2025".to_string()));
    let today = CalendarDate::from_ymd(2024, 3, 1).unwrap();
    assert_eq!(get_two_days_before_today(&today), Ok("28-02-2024".to_string()));
    let today = CalendarDate::from_ymd(2023, 3, 1).unwrap();
    assert_eq!(get_two_days_before_today(&today), Ok("27-02-2023".to_string()));
    let today = CalendarDate::from_ymd(2025, 1, 1).unwrap();
    assert_eq!(get_two_days_before_today(&today), Ok("30-12-2024".to_string()));
    let today = CalendarDate::from_ymd(0, 1, 3).unwrap();
    assert_eq!(get_two_days_before_today(&today), Ok("01-01-0000".to_string()));
}

#[test]
fn two_days_before_year_zero_underflows() {
    let today = CalendarDate::from_ymd(0, 1, 2).unwrap();
    assert_eq!(get_two_days_before_today(&today), Err(OracleError::CalendarUnderflow));
}
