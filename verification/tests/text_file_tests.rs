use today::date::Date;
use today::event::{Category, Event, EventKind, MonthDay, Rule};
use today::filter::FilterBuilder;
use today::providers::text::TextFileProviderError;
use today::providers::TextFileProvider;

const CONTENT: &str = "2024-01-01
Event 1
testing/test

2024-02-14
Event 2
testing

--02-14
Annual Event
Annual

first monday in january
Rule based event
rule-based/January

";

fn get_test_events() -> [Event; 4] {
    [
        Event::new_singular(Date::from_ymd(2024, 1, 1).unwrap(), String::from("Event 1"), Category::new("testing", "test")),
        Event::new_singular(Date::from_ymd(2024, 2, 14).unwrap(), String::from("Event 2"), Category::from_primary("testing")),
        Event::new_annual(MonthDay::new(2, 14).unwrap(), String::from("Annual Event"), Category::from_primary("Annual")),
        Event::new_rule_based(
            Rule::parse("first monday in january").unwrap(),
            String::from("Rule based event"),
            Category::new("rule-based", "January"),
        ),
    ]
}

fn read(content: &str, filter: &today::filter::EventFilter) -> Vec<Event> {
    let lines = TextFileProvider::lines_of(content);
    TextFileProvider::events_from_lines(&lines, filter)
}

#[test]
fn reads_events_from_text_file() {
    let filter = FilterBuilder::new().build();
    let events = read(CONTENT, &filter);
    let test_events = get_test_events();
    assert_eq!(events.len(), 4);
    assert_eq!(events[0], test_events[0]);
    assert_eq!(events[1], test_events[1]);
    assert_eq!(events[2], test_events[2]);
    assert_eq!(events[3], test_events[3]);
}

#[test]
fn reads_events_from_text_file_with_primary_category_filter() {
    let category = Category::from_primary("testing");
    let filter = FilterBuilder::new().categories(Some(vec![category])).build();
    let events = read(CONTENT, &filter);
    assert_eq!(events.len(), 2);
    assert_eq!(events[0].category(), Category::new("testing", "test"));
    assert_eq!(events[1].category(), Category::from_primary("testing"));
}

#[test]
fn reads_events_from_text_file_with_exact_category_filter() {
    let category = Category::new("testing", "test");
    let filter = FilterBuilder::new().categories(Some(vec![category])).build();
    let events = read(CONTENT, &filter);
    assert_eq!(events.len(), 1);
    assert_eq!(events[0].category(), Category::new("testing", "test"));
}

#[test]
fn reads_events_from_text_file_with_text_filter() {
    let text = Some("Event 1".to_string());
    let filter = FilterBuilder::new().text(text).build();
    let events = read(CONTENT, &filter);
    assert_eq!(events.len(), 1);
    assert_eq!(events[0].description(), "Event 1");
}

#[test]
fn reads_events_from_text_file_with_month_day_filter() {
    let month_day = MonthDay::new(2, 14).unwrap();
    let filter = FilterBuilder::new().month_day(month_day.clone()).build();
    let events = read(CONTENT, &filter);
    assert_eq!(events.len(), 2);
    assert_eq!(events[0].month_day(), month_day);
    assert_eq!(events[1].month_day(), month_day);
}

#[test]
fn filter_denies_wrong_text() {
    let text = Some("Wrong".to_string());
    let filter = FilterBuilder::new().text(text).build();
    let events = read(CONTENT, &filter);
    assert_eq!(events.len(), 0);
}

#[test]
fn adds_singular_event_to_text_file() {
    let event = Event::new_singular(Date::from_ymd(2024, 3, 5).unwrap(), String::from("Added Event"), Category::new("testing", "addition"));
    let content = format!("{}{}", CONTENT, TextFileProvider::entry_text(&event));
    let filter = FilterBuilder::new().build();
    let events = read(&content, &filter);
    assert_eq!(events.len(), 5);
    assert_eq!(events[4], event);
}

#[test]
fn adds_annual_event_to_text_file() {
    let event = Event::new_annual(MonthDay::new(3, 5).unwrap(), String::from("Added Annual Event"), Category::new("testing", "addition"));
    let content = format!("{}{}", CONTENT, TextFileProvider::entry_text(&event));
    let filter = FilterBuilder::new().build();
    let events = read(&content, &filter);
    assert_eq!(events.len(), 5);
    assert_eq!(events[4], event);
}

#[test]
fn parse_singular_event() {
    let category_string = "testing/test";
    let date_string = "2024-01-01";
    let description = "Event 1";
    let event_result = TextFileProvider::parse_event(category_string, date_string, description);
    assert!(event_result.is_ok());
    let event = event_result.unwrap();
    assert_eq!(event.description(), description);
    assert_eq!(event.category(), Category::new("testing", "test"));
    assert_eq!(event.kind(), EventKind::Singular(Date::from_ymd(2024, 1, 1).unwrap()));
}

#[test]
fn parse_annual_event() {
    let category_string = "testing/test";
    let date_string = "--02-14";
    let description = "Annual Event";
    let event_result = TextFileProvider::parse_event(category_string, date_string, description);
    assert!(event_result.is_ok());
    let event = event_result.unwrap();
    assert_eq!(event.description(), description);
    assert_eq!(event.category(), Category::new("testing", "test"));
    assert_eq!(event.kind(), EventKind::Annual(MonthDay::new(2, 14).unwrap()));
}

#[test]
fn parse_rule_based_event() {
    let category_string = "rule-based/January";
    let date_string = "first monday in january";
    let description = "Rule based event";
    let event_result = TextFileProvider::parse_event(category_string, date_string, description);
    assert!(event_result.is_ok());
    let event = event_result.unwrap();
    assert_eq!(event.description(), description);
    assert_eq!(event.category(), Category::new("rule-based", "January"));
}

#[test]
fn parse_errors() {
    assert_eq!(TextFileProvider::parse_event("a", "2024-13-01", "x"), Err(TextFileProviderError::ParseError));
    assert_eq!(TextFileProvider::parse_event("a", "someday", "x"), Err(TextFileProviderError::ParseError));
    assert!(TextFileProvider::parse_event("a", "--02-29", "x").is_ok());
}

#[test]
fn reading_stops_at_the_first_block_without_an_event() {
    let content = "2024-01-01\nfirst\na\n\nnot a date\nbroken\nb\n\n2024-01-03\nthird\nc\n\n";
    let events = read(content, &FilterBuilder::new().build());
    assert_eq!(events.len(), 1);
    assert_eq!(events[0].description(), "first");
}

#[test]
fn an_incomplete_last_block_holds_no_event() {
    let content = "2024-01-01\nfirst\na\n\n2024-01-02\nsecond\nb";
    let events = read(content, &FilterBuilder::new().build());
    assert_eq!(events.len(), 1);
}

#[test]
fn lines_drop_carriage_returns() {
    assert_eq!(TextFileProvider::lines_of("a\r\nb\n\nc"), vec!["a".to_string(), "b".to_string(), "".to_string(), "c".to_string()]);
    assert_eq!(TextFileProvider::lines_of("a\n"), vec!["a".to_string()]);
    assert_eq!(TextFileProvider::lines_of(""), Vec::<String>::new());
}

#[test]
fn added_events_read_back() {
    let rule = Rule::parse("last friday in march").unwrap();
    let events = [
        Event::new_singular(Date::from_ymd(1759, 1, 15).unwrap(), "Museum".to_string(), Category::new("culture", "museum")),
        Event::new_annual(MonthDay::new(2, 29).unwrap(), "Leap".to_string(), Category::from_primary("calendar")),
        Event::new_rule_based(rule, "Rule".to_string(), Category::new("a", "b")),
    ];
    for event in events {
        let text = TextFileProvider::entry_text(&event);
        let back = read(&text, &FilterBuilder::new().build());
        assert_eq!(back.len(), 1);
        assert_eq!(back[0], event);
    }
}

#[test]
fn entry_text_of_each_kind() {
    let singular = Event::new_singular(Date::from_ymd(2024, 3, 5).unwrap(), "Added Event".to_string(), Category::new("testing", "addition"));
    assert_eq!(TextFileProvider::entry_text(&singular), "2024-03-05\nAdded Event\ntesting/addition\n\n");
    let annual = Event::new_annual(MonthDay::new(3, 5).unwrap(), "A".to_string(), Category::from_primary("t"));
    assert_eq!(TextFileProvider::entry_text(&annual), "--03-05\nA\nt\n\n");
    let rule = Event::new_rule_based(Rule::parse("first monday in january").unwrap(), "R".to_string(), Category::from_primary("t"));
    assert_eq!(TextFileProvider::entry_text(&rule), "First Monday in January\nR\nt\n\n");
}

#[test]
fn entry_text_of_years_before_the_common_era() {
    let event = Event::new_singular(Date::from_ymd(-1, 1, 1).unwrap(), "Old".to_string(), Category::from_primary("t"));
    assert_eq!(TextFileProvider::entry_text(&event), "-0001-01-01\nOld\nt\n\n");
    let back = read(&TextFileProvider::entry_text(&event), &FilterBuilder::new().build());
    assert_eq!(back, vec![event]);
    let far = Event::new_singular(Date::from_ymd(10000, 12, 31).unwrap(), "Far".to_string(), Category::from_primary("t"));
    assert_eq!(TextFileProvider::entry_text(&far), "+10000-12-31\nFar\nt\n\n");
}
