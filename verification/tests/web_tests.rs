use today::date::Date;
use today::event::{Category, Event, MonthDay};
use today::filter::FilterBuilder;
use today::providers::web::JsonEvent;
use today::providers::{EventProviderError, WebProvider};

fn json(category: &str, date: &str, description: &str) -> JsonEvent {
    JsonEvent { category: category.to_string(), date: date.to_string(), description: description.to_string() }
}

#[test]
fn web_request_url_names_the_day() {
    let provider = WebProvider::new("Web", "https://example.org/events");
    let filter = FilterBuilder::new().month_day(MonthDay::new(1, 5).unwrap()).build();
    assert_eq!(provider.request_url(&filter), Some("https://example.org/events?date=01-05".to_string()));
    assert_eq!(provider.request_url(&FilterBuilder::new().build()), None);
    assert_eq!(provider.name(), "Web");
    assert_eq!(provider.url(), "https://example.org/events");
}

#[test]
fn web_events_pass_the_filter() {
    let events = vec![
        json("holiday", "2026-01-01", "New Year's Day"),
        json("Culture/Museum", "1759-01-15", "The British Museum opens to the public."),
    ];
    let filter = FilterBuilder::new().categories(Some(vec![Category::from_primary("culture")])).build();
    let read = WebProvider::checked_events_from_json_in_year(&events, &filter, 2026).unwrap();
    assert_eq!(read.len(), 1);
    assert_eq!(
        read[0],
        Event::new_singular(
            Date::from_ymd(1759, 1, 15).unwrap(),
            "The British Museum opens to the public.".to_string(),
            Category::new("culture", "museum")
        )
    );
    let all = WebProvider::events_from_json(&events, &FilterBuilder::new().build()).unwrap();
    assert_eq!(all.len(), 2);
    assert_eq!(all[0].category(), Category::from_primary("holiday"));
}

#[test]
fn web_events_with_an_unreadable_date_give_nothing() {
    let events = vec![json("holiday", "2026-01-01", "ok"), json("holiday", "01.01.2026", "bad")];
    assert!(!WebProvider::json_dates_readable(&events));
    assert!(WebProvider::checked_events_from_json_in_year(&events, &FilterBuilder::new().build(), 2026).is_none());
    assert!(WebProvider::events_from_json(&events, &FilterBuilder::new().build()).is_none());
}

#[test]
fn web_endpoints_take_no_events() {
    let provider = WebProvider::new("Web", "https://example.org/events");
    assert!(!provider.add_is_supported());
    let event = Event::new_singular(Date::from_ymd(2024, 1, 1).unwrap(), "x".to_string(), Category::from_primary("y"));
    assert_eq!(provider.add_event(&event), Err(EventProviderError::OperationNotSupported));
}
