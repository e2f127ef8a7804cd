use today::cli::{event_from_add_args, handle_categories, listing_filter, listing_month_day, provider_mark, AddDateError};
use today::date::Date;
use today::event::{Category, EventKind, MonthDay, MonthDayParseError, Rule};

#[test]
fn categories_of_a_list() {
    assert_eq!(
        handle_categories("a/b,c,d/*"),
        vec![Category::new("a", "b"), Category::from_primary("c"), Category::new("d", "*")]
    );
    assert_eq!(handle_categories(""), vec![Category::from_primary("")]);
}

#[test]
fn listing_filter_holds_what_was_asked() {
    let md = MonthDay::new(1, 15).unwrap();
    let filter = listing_filter(md, Some("testing,annual"), Some("culture/museum"), Some("museum".to_string()));
    assert_eq!(filter.month_day(), Some(md));
    assert_eq!(filter.exclude_categories(), Some(vec![Category::from_primary("testing"), Category::from_primary("annual")]));
    assert_eq!(filter.categories(), Some(vec![Category::new("culture", "museum")]));
    assert_eq!(filter.text(), Some("museum".to_string()));
    let plain = listing_filter(md, None, None, None);
    assert!(plain.contains_month_day());
    assert!(!plain.contains_categories() && !plain.contains_exclude_categories() && !plain.contains_text());
}

#[test]
fn listing_month_day_from_the_argument_or_today() {
    let today = Date::from_ymd(2026, 11, 19).unwrap();
    assert_eq!(listing_month_day(Some("01-01"), &today), MonthDay::new(1, 1));
    assert_eq!(listing_month_day(None, &today), MonthDay::new(11, 19));
    assert_eq!(listing_month_day(Some("0101"), &today), MonthDay::new(1, 1));
    assert_eq!(listing_month_day(Some("1231"), &today), MonthDay::new(12, 31));
    assert_eq!(listing_month_day(Some("1301"), &today), Err(MonthDayParseError::InvalidMonth));
    assert_eq!(listing_month_day(Some("0230"), &today), Err(MonthDayParseError::InvalidDay));
    assert_eq!(listing_month_day(Some("01011"), &today), Err(MonthDayParseError::InvalidFormat));
}

#[test]
fn add_arguments_of_each_kind() {
    let e = event_from_add_args("2024-12-25", "Christmas Day".to_string(), "holiday/seasonal").unwrap();
    assert_eq!(e.kind(), EventKind::Singular(Date::from_ymd(2024, 12, 25).unwrap()));
    assert_eq!(e.category(), Category::new("holiday", "seasonal"));
    let e = event_from_add_args("02-14", "Valentine's Day".to_string(), "annual/holiday").unwrap();
    assert_eq!(e.kind(), EventKind::Annual(MonthDay::new(2, 14).unwrap()));
    let e = event_from_add_args("--02-14", "Valentine's Day".to_string(), "annual/holiday").unwrap();
    assert_eq!(e.kind(), EventKind::Annual(MonthDay::new(2, 14).unwrap()));
    let e = event_from_add_args("third Monday in January", "Rule".to_string(), "r").unwrap();
    assert_eq!(e.kind(), EventKind::RuleBased(Rule::parse("third monday in january").unwrap()));
    assert_eq!(e.description(), "Rule");
}

#[test]
fn add_arguments_that_name_no_event() {
    assert_eq!(event_from_add_args("someday", "x".to_string(), "c").unwrap_err(), AddDateError::InvalidRule);
    assert_eq!(event_from_add_args("2024-13-01", "x".to_string(), "c").unwrap_err(), AddDateError::InvalidDate);
    assert_eq!(event_from_add_args("02-30", "x".to_string(), "c").unwrap_err(), AddDateError::InvalidDate);
    assert_eq!(event_from_add_args("--02-30", "x".to_string(), "c").unwrap_err(), AddDateError::InvalidDate);
    assert_eq!(event_from_add_args("hello", "x".to_string(), "c").unwrap_err(), AddDateError::InvalidRule);
}

#[test]
fn provider_marks() {
    assert_eq!(provider_mark("text"), " *");
    assert_eq!(provider_mark("csv"), " *");
    assert_eq!(provider_mark("sqlite"), " **");
    assert_eq!(provider_mark("web"), "");
}
