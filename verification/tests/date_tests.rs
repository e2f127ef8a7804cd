use today::date::{Date, MAX_YEAR, MIN_YEAR};

#[test]
fn dates_exist_only_in_the_calendar() {
    assert!(Date::from_ymd(2024, 2, 29).is_some());
    assert!(Date::from_ymd(2023, 2, 29).is_none());
    assert!(Date::from_ymd(1900, 2, 29).is_none());
    assert!(Date::from_ymd(2000, 2, 29).is_some());
    assert!(Date::from_ymd(2024, 4, 31).is_none());
    assert!(Date::from_ymd(2024, 13, 1).is_none());
    assert!(Date::from_ymd(2024, 1, 0).is_none());
    assert!(Date::from_ymd(MAX_YEAR, 12, 31).is_some());
    assert!(Date::from_ymd(MAX_YEAR + 1, 1, 1).is_none());
    assert!(Date::from_ymd(MIN_YEAR, 1, 1).is_some());
    assert!(Date::from_ymd(MIN_YEAR - 1, 12, 31).is_none());
    let d = Date::from_ymd(1759, 1, 15).unwrap();
    assert_eq!((d.year(), d.month(), d.day()), (1759, 1, 15));
}

#[test]
fn leap_years() {
    assert!(Date::from_ymd(2024, 1, 1).unwrap().leap_year());
    assert!(!Date::from_ymd(2023, 1, 1).unwrap().leap_year());
    assert!(!Date::from_ymd(1900, 1, 1).unwrap().leap_year());
    assert!(Date::from_ymd(2000, 1, 1).unwrap().leap_year());
}

#[test]
fn days_between_dates() {
    let a = Date::from_ymd(2000, 1, 1).unwrap();
    let b = Date::from_ymd(2000, 3, 1).unwrap();
    assert_eq!(b.days_since(&a), 60);
    assert_eq!(a.days_since(&b), -60);
    assert_eq!(a.days_since(&a), 0);
}
