use today::date::Date;
use today::event::{Category, Event, MonthDay, Rule};
use today::filter::{EventFilter, FilterBuilder};
use today::providers::CSVFileProvider;

const CONTENT: &str = "2024-01-01,Event 1,testing\n2024-02-14,Event 2,testing/test\n--02-14,Annual Event,annual/event\n";

fn get_test_events() -> [Event; 3] {
    [
        Event::new_singular(Date::from_ymd(2024, 1, 1).unwrap(), String::from("Event 1"), Category::from_primary("testing")),
        Event::new_singular(Date::from_ymd(2024, 2, 14).unwrap(), String::from("Event 2"), Category::new("testing", "test")),
        Event::new_annual(MonthDay::new(2, 14).unwrap(), String::from("Annual Event"), Category::new("annual", "event")),
    ]
}

fn read(content: &str, filter: &EventFilter) -> Vec<Event> {
    CSVFileProvider::events_from_bytes(content.as_bytes(), filter).unwrap()
}

#[test]
fn test_csv_provider() {
    let filter = FilterBuilder::new().build();
    let events = read(CONTENT, &filter);
    let test_events = get_test_events();
    assert_eq!(events.len(), 3);
    assert_eq!(events[0], test_events[0]);
    assert_eq!(events[1], test_events[1]);
    assert_eq!(events[2], test_events[2]);
}

#[test]
fn test_csv_provider_with_primary_category_filter() {
    let categories = Some(vec![Category::from_primary("testing")]);
    let filter = FilterBuilder::new().categories(categories).build();
    let events = read(CONTENT, &filter);
    let test_events = get_test_events();
    assert_eq!(events.len(), 2);
    assert_eq!(events[0], test_events[0]);
    assert_eq!(events[1], test_events[1]);
}

#[test]
fn test_csv_provider_with_full_category_filter() {
    let categories = Some(vec![Category::new("annual", "event")]);
    let filter = FilterBuilder::new().categories(categories).build();
    let events = read(CONTENT, &filter);
    let test_events = get_test_events();
    assert_eq!(events.len(), 1);
    assert_eq!(events[0], test_events[2]);
}

#[test]
fn test_csv_provider_with_text_filter() {
    let text = Some("Annual".to_string());
    let filter = FilterBuilder::new().text(text).build();
    let events = read(CONTENT, &filter);
    let test_events = get_test_events();
    assert_eq!(events.len(), 1);
    assert_eq!(events[0], test_events[2]);
}

fn read_after_adding(event: &Event) -> Vec<Event> {
    let content = format!("{}{}", CONTENT, CSVFileProvider::entry_line(event));
    read(&content, &FilterBuilder::new().build())
}

#[test]
fn adds_singular_event_to_csv_file() {
    let event = Event::new_singular(Date::from_ymd(2024, 3, 5).unwrap(), String::from("Added Event"), Category::new("testing", "addition"));
    let events = read_after_adding(&event);
    assert_eq!(events.len(), 4);
    assert_eq!(events[3], event);
}

#[test]
fn adds_annual_event_to_csv_file() {
    let event = Event::new_annual(MonthDay::new(3, 5).unwrap(), String::from("Added Annual Event"), Category::new("testing", "addition"));
    let events = read_after_adding(&event);
    assert_eq!(events.len(), 4);
    assert_eq!(events[3], event);
}

#[test]
fn adds_rule_based_event_to_csv_file() {
    let rule = Rule::parse("last Friday in March").unwrap();
    let event = Event::new_rule_based(rule, String::from("Added Rule-Based Event"), Category::new("testing", "addition"));
    let events = read_after_adding(&event);
    assert_eq!(events.len(), 4);
    assert_eq!(events[3], event);
}

#[test]
fn csv_entry_line() {
    let event = Event::new_singular(Date::from_ymd(2024, 3, 5).unwrap(), String::from("Added Event"), Category::new("testing", "addition"));
    assert_eq!(CSVFileProvider::entry_line(&event), "2024-03-05,Added Event,testing/addition\n");
    let annual = Event::new_annual(MonthDay::new(3, 5).unwrap(), String::from("A"), Category::from_primary("t"));
    assert_eq!(CSVFileProvider::entry_line(&annual), "--03-05,A,t\n");
}

#[test]
fn csv_records_with_too_few_fields_give_nothing() {
    let filter = FilterBuilder::new().build();
    assert!(CSVFileProvider::events_from_bytes(b"2024-01-01,only two\n", &filter).is_none());
}

#[test]
fn csv_reading_stops_at_an_unreadable_record() {
    let filter = FilterBuilder::new().build();
    let events = CSVFileProvider::events_from_bytes(b"2024-01-01,a,b\n2024-01-02,c,d,e\n2024-01-03,f,g\n", &filter).unwrap();
    assert_eq!(events.len(), 1);
}

#[test]
fn csv_records_without_an_event_are_passed_over() {
    let filter = FilterBuilder::new().build();
    let events = CSVFileProvider::events_from_bytes(b"not a date,a,b\n2024-01-02,c,d\n", &filter).unwrap();
    assert_eq!(events.len(), 1);
    assert_eq!(events[0].description(), "c");
}

#[test]
fn csv_yearless_dates_take_the_year() {
    let leap = Date::from_ymd(2024, 6, 1).unwrap();
    let plain = Date::from_ymd(2025, 6, 1).unwrap();
    let e = CSVFileProvider::parse_event_on("a", "--02-29", "x", &leap).unwrap();
    assert_eq!(e.month_day(), MonthDay::new(2, 29).unwrap());
    assert!(CSVFileProvider::parse_event_on("a", "--02-29", "x", &plain).is_none());
    assert!(CSVFileProvider::parse_event_on("a", "--03-01", "x", &plain).is_some());
}

#[test]
fn simple_records_are_read_in_full() {
    let records = CSVFileProvider::records_of(b"a,b,c\nd,e,f\n");
    assert_eq!(
        records,
        vec![
            Some(vec!["a".to_string(), "b".to_string(), "c".to_string()]),
            Some(vec!["d".to_string(), "e".to_string(), "f".to_string()]),
        ]
    );
}

#[test]
fn csv_entry_of_years_before_the_common_era() {
    let event = Event::new_singular(Date::from_ymd(-1, 1, 1).unwrap(), "Old".to_string(), Category::from_primary("t"));
    assert_eq!(CSVFileProvider::entry_line(&event), "-0001-01-01,Old,t\n");
    let events = read(&CSVFileProvider::entry_line(&event), &FilterBuilder::new().build());
    assert_eq!(events, vec![event]);
}
