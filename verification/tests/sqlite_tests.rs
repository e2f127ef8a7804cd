use today::date::Date;
use today::event::{Category, Event, MonthDay};
use today::filter::{EventFilter, FilterBuilder};
use today::providers::sqlite::CategoryRow;
use today::providers::{EventProviderError, SQLiteProvider};

fn create_memory_db() -> sqlite::Connection {
    let connection = sqlite::open(":memory:").unwrap();
    let query = "
CREATE TABLE IF NOT EXISTS event(
 event_id INTEGER PRIMARY KEY,
 event_date DATE NOT NULL,
 event_description TEXT NOT NULL,
 category_id INTEGER NOT NULL,
 FOREIGN KEY (category_id) REFERENCES category(category_id));
CREATE TABLE IF NOT EXISTS category(
 category_id INTEGER PRIMARY KEY,
 primary_name TEXT NOT NULL,
 secondary_name TEXT);
INSERT INTO category VALUES (1, 'test', NULL);
INSERT INTO event (event_date, event_description, category_id)
 VALUES ('2026-03-07', 'Unit test for SQLiteProvider', 1);
";
    connection.execute(query).unwrap();
    connection
}

#[test]
fn test_get_categories() -> Result<(), String> {
    let connection = create_memory_db();
    let category_query = "SELECT category_id, primary_name, secondary_name FROM category";
    let mut statement = connection.prepare(category_query).unwrap();
    if let Ok(sqlite::State::Row) = statement.next() {
        let actual = (
            statement.read::<i64, _>("category_id").unwrap(),
            statement.read::<String, _>("primary_name").unwrap(),
            statement.read::<Option<String>, _>("secondary_name").unwrap(),
        );
        let expected = (1, "test".to_string(), None);
        assert_eq!(expected, actual);
        let map = SQLiteProvider::categories_from_rows(&vec![actual]);
        assert_eq!(map.len(), 1);
        assert_eq!(map[0].0, 1);
        assert_eq!(map[0].1, Category::from_primary("test"));
        Ok(())
    } else {
        Err("Unable to get category from database".to_string())
    }
}

fn setup_test_db(faulty: bool) -> sqlite::Connection {
    let connection = sqlite::open(":memory:").unwrap();
    connection
        .execute(
            "CREATE TABLE category (category_id INTEGER PRIMARY KEY, primary_name TEXT NOT NULL, secondary_name TEXT);
             CREATE TABLE event (event_date TEXT NOT NULL, event_description TEXT NOT NULL, category_id INTEGER NOT NULL);
             INSERT INTO category (category_id, primary_name, secondary_name) VALUES
               (1, 'history', 'politics'), (2, 'programming', 'technology'), (3, 'ice-hockey', 'sports');
             INSERT INTO event (event_date, event_description, category_id) VALUES
               ('2023-01-15', 'historical event', 1), ('2024-01-15', 'tech event', 2),
               ('2025-03-25', 'historical sports event', 3);",
        )
        .unwrap();
    if faulty {
        connection
            .execute(
                "INSERT INTO event (event_date, event_description, category_id) VALUES
                 ('2023-03-10', 'Test event with missing category', 999),
                 ('invalid-date', 'Test event with invalid date', 1)",
            )
            .unwrap();
    }
    connection
}

fn category_rows(connection: &sqlite::Connection) -> Vec<CategoryRow> {
    let mut rows = Vec::new();
    let mut statement = connection.prepare("SELECT category_id, primary_name, secondary_name FROM category").unwrap();
    while let Ok(sqlite::State::Row) = statement.next() {
        rows.push((
            statement.read::<i64, _>("category_id").unwrap(),
            statement.read::<String, _>("primary_name").unwrap(),
            statement.read::<Option<String>, _>("secondary_name").unwrap(),
        ));
    }
    rows
}

fn read_events(connection: &sqlite::Connection, filter: &EventFilter) -> Vec<Event> {
    let provider = SQLiteProvider::new("test", "unused.db");
    let map = SQLiteProvider::categories_from_rows(&category_rows(connection));
    let mut events = Vec::new();
    let query = match provider.event_query(filter, &map) {
        Some(q) => q,
        None => return events,
    };
    let mut statement = connection.prepare(query).unwrap();
    while let Ok(sqlite::State::Row) = statement.next() {
        let date = statement.read::<String, _>("event_date").unwrap();
        let description = statement.read::<String, _>("event_description").unwrap();
        let id = statement.read::<i64, _>("category_id").unwrap();
        if let Some(e) = SQLiteProvider::event_from_row(&date, &description, id, &map) {
            events.push(e);
        }
    }
    events
}

fn get_test_events() -> [Event; 3] {
    [
        Event::new_singular(Date::from_ymd(2023, 1, 15).unwrap(), String::from("historical event"), Category::new("history", "politics")),
        Event::new_singular(Date::from_ymd(2024, 1, 15).unwrap(), String::from("tech event"), Category::new("programming", "technology")),
        Event::new_singular(Date::from_ymd(2025, 3, 25).unwrap(), String::from("historical sports event"), Category::new("ice-hockey", "sports")),
    ]
}

#[test]
fn successful_read_events() {
    let connection = setup_test_db(true);
    let events = read_events(&connection, &FilterBuilder::new().build());
    let test_events = get_test_events();
    assert_eq!(events.len(), 3);
    assert_eq!(events[0], test_events[0]);
    assert_eq!(events[1], test_events[1]);
    assert_eq!(events[2], test_events[2]);
}

#[test]
fn successful_read_events_with_exact_categories_filter() {
    let connection = setup_test_db(false);
    let categories = Some(vec![Category::new("history", "politics"), Category::new("programming", "technology")]);
    let events = read_events(&connection, &FilterBuilder::new().categories(categories).build());
    let test_events = get_test_events();
    assert_eq!(events.len(), 2);
    assert_eq!(events[0], test_events[0]);
    assert_eq!(events[1], test_events[1]);
}

#[test]
fn successful_read_events_with_primary_category_filter() {
    let connection = setup_test_db(false);
    let filter = FilterBuilder::new().categories(Some(vec![Category::from_primary("history")])).build();
    let events = read_events(&connection, &filter);
    let test_events = get_test_events();
    assert_eq!(events.len(), 1);
    assert_eq!(events[0], test_events[0]);
}

#[test]
fn successful_read_events_with_exclude_category_filter() {
    let connection = setup_test_db(false);
    let filter = FilterBuilder::new().exclude_categories(Some(vec![Category::new("programming", "technology")])).build();
    let events = read_events(&connection, &filter);
    let test_events = get_test_events();
    assert_eq!(events.len(), 2);
    assert_eq!(events[0], test_events[0]);
    assert_eq!(events[1], test_events[2]);
}

#[test]
fn successful_read_events_with_date_filter() {
    let connection = setup_test_db(false);
    let filter = FilterBuilder::new().month_day(MonthDay::new(1, 15).unwrap()).build();
    let events = read_events(&connection, &filter);
    let test_events = get_test_events();
    assert_eq!(events.len(), 2);
    assert_eq!(events[0], test_events[0]);
    assert_eq!(events[1], test_events[1]);
}

#[test]
fn successful_read_events_with_text_filter() {
    let connection = setup_test_db(false);
    let filter = FilterBuilder::new().text(Some("hist".to_string())).build();
    let events = read_events(&connection, &filter);
    let test_events = get_test_events();
    assert_eq!(events.len(), 2);
    assert_eq!(events[0], test_events[0]);
    assert_eq!(events[1], test_events[2]);
}

#[test]
fn successful_read_events_with_text_and_date_filters() {
    let connection = setup_test_db(false);
    let filter = FilterBuilder::new().text(Some("hist".to_string())).month_day(MonthDay::new(1, 15).unwrap()).build();
    let events = read_events(&connection, &filter);
    let test_events = get_test_events();
    assert_eq!(events.len(), 1);
    assert_eq!(events[0], test_events[0]);
}

fn sample_map() -> Vec<(i64, Category)> {
    SQLiteProvider::categories_from_rows(&vec![
        (1, "history".to_string(), Some("politics".to_string())),
        (2, "programming".to_string(), Some("technology".to_string())),
        (3, "ice-hockey".to_string(), Some("sports".to_string())),
    ])
}

#[test]
fn where_clause_of_each_option() {
    let provider = SQLiteProvider::new("test", "unused.db");
    let map = sample_map();
    assert_eq!(provider.make_where_clause(&FilterBuilder::new().build(), &map), Some(String::new()));
    let filter = FilterBuilder::new()
        .categories(Some(vec![Category::from_primary("history"), Category::from_primary("sports")]))
        .month_day(MonthDay::new(1, 15).unwrap())
        .exclude_categories(Some(vec![Category::new("programming", "*")]))
        .text(Some("hist".to_string()))
        .build();
    assert_eq!(
        provider.make_where_clause(&filter, &map),
        Some(
            "WHERE category_id IN (1, 3) AND strftime('%m-%d', event_date) = '01-15' AND category_id NOT IN (2) AND event_description LIKE '%hist%'"
                .to_string()
        )
    );
}

#[test]
fn where_clause_without_matching_categories() {
    let provider = SQLiteProvider::new("test", "unused.db");
    let map = sample_map();
    let filter = FilterBuilder::new().categories(Some(vec![Category::from_primary("nothing")])).build();
    assert_eq!(provider.make_where_clause(&filter, &map), None);
    assert_eq!(provider.event_query(&filter, &map), None);
    let exclude = FilterBuilder::new().exclude_categories(Some(vec![Category::from_primary("nothing")])).build();
    assert_eq!(provider.make_where_clause(&exclude, &map), Some(String::new()));
}

#[test]
fn event_query_text() {
    let provider = SQLiteProvider::new("test", "unused.db");
    let map = sample_map();
    let filter = FilterBuilder::new().month_day(MonthDay::new(3, 25).unwrap()).build();
    assert_eq!(
        provider.event_query(&filter, &map),
        Some("SELECT event_date, event_description, category_id FROM\n event WHERE strftime('%m-%d', event_date) = '03-25'".to_string())
    );
}

#[test]
fn matching_ids_are_those_of_every_matching_category() {
    let provider = SQLiteProvider::new("test", "unused.db");
    let map = sample_map();
    assert_eq!(
        provider.matching_categories_ids(vec![Category::from_primary("sports"), Category::from_primary("history")], &map),
        Some(vec!["1".to_string(), "3".to_string()])
    );
    assert_eq!(provider.matching_categories_ids(vec![Category::from_primary("none")], &map), None);
    let wars = SQLiteProvider::categories_from_rows(&vec![
        (1, "history".to_string(), Some("politics".to_string())),
        (4, "history".to_string(), Some("war".to_string())),
        (5, "sports".to_string(), None),
    ]);
    assert_eq!(
        provider.matching_categories_ids(vec![Category::from_primary("history")], &wars),
        Some(vec!["1".to_string(), "4".to_string()])
    );
    let filter = FilterBuilder::new().categories(Some(vec![Category::from_primary("history")])).build();
    assert_eq!(provider.make_where_clause(&filter, &wars), Some("WHERE category_id IN (1, 4)".to_string()));
}

#[test]
fn rows_of_every_matching_category_are_read() {
    let connection = setup_test_db(false);
    connection
        .execute(
            "INSERT INTO category (category_id, primary_name, secondary_name) VALUES (4, 'history', 'war');
             INSERT INTO event (event_date, event_description, category_id) VALUES ('1918-11-11', 'armistice', 4);",
        )
        .unwrap();
    let filter = FilterBuilder::new().categories(Some(vec![Category::from_primary("history")])).build();
    let events = read_events(&connection, &filter);
    assert_eq!(events.len(), 2);
    assert_eq!(events[1].description(), "armistice");
}

#[test]
fn later_rows_replace_earlier_ones_with_the_same_id() {
    let map = SQLiteProvider::categories_from_rows(&vec![
        (7, "a".to_string(), None),
        (8, "b".to_string(), None),
        (7, "C".to_string(), Some("D".to_string())),
    ]);
    assert_eq!(map.len(), 2);
    assert_eq!(map[0], (7, Category::new("c", "d")));
    assert_eq!(map[1], (8, Category::from_primary("b")));
}

#[test]
fn exact_category_ids_and_rows() {
    let map = sample_map();
    assert_eq!(SQLiteProvider::find_exact_category_id(&map, &Category::new("programming", "technology")), Some(2));
    assert_eq!(SQLiteProvider::find_exact_category_id(&map, &Category::from_primary("programming")), None);
    assert_eq!(SQLiteProvider::event_from_row("2023-03-10", "x", 999, &map), None);
    assert_eq!(SQLiteProvider::event_from_row("invalid-date", "x", 1, &map), None);
    assert_eq!(
        SQLiteProvider::event_from_row("2023-01-15", "historical event", 1, &map),
        Some(Event::new_singular(Date::from_ymd(2023, 1, 15).unwrap(), "historical event".to_string(), Category::new("history", "politics")))
    );
}

#[test]
fn databases_take_no_new_events() {
    let provider = SQLiteProvider::new("db", "unused.db");
    assert!(provider.add_is_supported());
    let event = Event::new_singular(Date::from_ymd(2024, 1, 1).unwrap(), "x".to_string(), Category::from_primary("y"));
    assert_eq!(provider.add_event(&event), Err(EventProviderError::OperationFailed));
    assert_eq!(provider.name(), "db");
}
