use today::birthday::{birthday_greeting, birthday_message, make_message};
use today::date::Date;

#[test]
fn make_message_normal() {
    assert_eq!(make_message(12345_i64), "You are 12345 days old.");
}

#[test]
fn make_message_normal_nice() {
    assert_eq!(make_message(10000_i64), "You are 10000 days old. That's a nice, round number!");
}

#[test]
fn make_message_newborn() {
    assert_eq!(make_message(0), "Looks like you're new here.");
}

#[test]
fn make_message_future() {
    assert_eq!(make_message(-1), "Are you from the future?");
}

#[test]
fn make_message_first_day_and_large_ages() {
    assert_eq!(make_message(1), "You are 1 days old.");
    assert_eq!(make_message(1000), "You are 1000 days old. That's a nice, round number!");
    assert_eq!(make_message(-1000), "Are you from the future?");
    assert_eq!(make_message(i64::MAX), "You are 9223372036854775807 days old.");
}

#[test]
fn birthday_message_on_the_birthday() {
    let birth = Date::from_ymd(2000, 3, 5).unwrap();
    let today = Date::from_ymd(2026, 3, 5).unwrap();
    assert_eq!(birthday_message(&birth, &today), "Happy birthday! You are 9496 days old.");
}

#[test]
fn birthday_message_on_another_day() {
    let birth = Date::from_ymd(2000, 1, 1).unwrap();
    let today = Date::from_ymd(2000, 1, 2).unwrap();
    assert_eq!(birthday_message(&birth, &today), "You are 1 days old.");
    let later = Date::from_ymd(2002, 9, 27).unwrap();
    assert_eq!(birthday_message(&birth, &later), "You are 1000 days old. That's a nice, round number!");
}

#[test]
fn birthday_on_the_day_of_birth_and_before() {
    let birth = Date::from_ymd(2026, 3, 5).unwrap();
    assert_eq!(birthday_message(&birth, &birth), "Happy birthday! Looks like you're new here.");
    let before = Date::from_ymd(2025, 3, 5).unwrap();
    assert_eq!(birthday_message(&birth, &before), "Happy birthday! Are you from the future?");
}

#[test]
fn birthday_greeting_reads_the_date() {
    let today = Date::from_ymd(2026, 3, 5).unwrap();
    assert_eq!(birthday_greeting("2000-03-05", &today), Some("Happy birthday! You are 9496 days old.".to_string()));
    assert_eq!(birthday_greeting("05.03.2000", &today), None);
    assert_eq!(birthday_greeting("2000-02-30", &today), None);
}
