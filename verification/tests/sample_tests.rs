use today::date::Date;
use today::event::{Category, Event};
use today::providers::TestProvider;

#[test]
fn name_provider() {
    let provider = TestProvider::new("test");
    assert_eq!(provider.name(), "test")
}

#[test]
fn events_provided() {
    let mut events: Vec<Event> = Vec::new();
    let provider = TestProvider::new("test");

    events.push(Event::new_singular(Date::from_ymd(1999, 1, 1).unwrap(), String::from("TEST_EVENT"), Category::new("TESTING", "test")));

    provider.get_events(&mut events);

    let test_event_first =
        Event::new_singular(Date::from_ymd(1999, 1, 1).unwrap(), String::from("TEST_EVENT"), Category::new("TESTING", "test"));

    let test_event_second = Event::new_singular(
        Date::from_ymd(1759, 1, 15).unwrap(),
        String::from("The British Museum opens to the public."),
        Category::new("culture", "museum"),
    );

    assert_eq!(events[0], test_event_first);
    assert_eq!(events[1], test_event_second);
    assert_eq!(events.len(), 22);
}

#[test]
fn sample_events_end_with_the_goaltender() {
    let mut events: Vec<Event> = Vec::new();
    TestProvider::new("t").get_events(&mut events);
    assert_eq!(events.len(), 21);
    assert_eq!(events[20].description(), "Dominik Hašek, ice hockey goaltender, is born");
    assert_eq!(events[20].category(), Category::new("sport", "ice hockey"));
}
