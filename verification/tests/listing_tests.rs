use today::date::Date;
use today::listing::{day_ending, events_on_month_day, format_date, print_events_on_date};

#[test]
fn format_date_splits_the_number() {
    assert_eq!(format_date(17590115), (1759, 1, 15));
    assert_eq!(format_date(20260117), (2026, 1, 17));
    assert_eq!(format_date(1000101), (1000, 10, 1));
    assert_eq!(format_date(-1234567), (-123, 45, 67));
    assert_eq!(format_date(i32::MAX), (2147, 48, 3647));
}

fn numbered() -> Vec<(i32, String)> {
    vec![
        (17590115, " The British Museum opens to the public.".to_string()),
        (18920115, "James Naismith publishes the rules of basketball.".to_string()),
        (15560116, "Philip II becomes King of Spain.".to_string()),
    ]
}

#[test]
fn numbered_listing_of_a_day_with_events() {
    let lines = print_events_on_date(&numbered(), (1, 15));
    assert_eq!(
        lines,
        vec![
            "Events on date: 15.1. :".to_string(),
            "1759:  The British Museum opens to the public.".to_string(),
            "1892: James Naismith publishes the rules of basketball.".to_string(),
        ]
    );
}

#[test]
fn numbered_listing_of_a_day_without_events() {
    let lines = print_events_on_date(&numbered(), (1, 17));
    assert_eq!(lines, vec!["Events on date: 17.1. :".to_string(), "No events found on date 17.1.".to_string()]);
}

#[test]
fn day_endings() {
    assert_eq!(day_ending(1), "st");
    assert_eq!(day_ending(2), "nd");
    assert_eq!(day_ending(3), "rd");
    assert_eq!(day_ending(4), "th");
    assert_eq!(day_ending(21), "th");
    assert_eq!(day_ending(22), "th");
}

#[test]
fn dated_listing() {
    let events = vec![
        (Date::from_ymd(1759, 1, 15).unwrap(), "The British Museum opens to the public.".to_string()),
        (Date::from_ymd(1556, 1, 16).unwrap(), "Philip II becomes King of Spain.".to_string()),
    ];
    let on = events_on_month_day(&events, &Date::from_ymd(2026, 1, 15).unwrap());
    assert_eq!(
        on,
        vec!["Events on date: January 15th".to_string(), "1759: The British Museum opens to the public.".to_string()]
    );
    let off = events_on_month_day(&events, &Date::from_ymd(2026, 1, 3).unwrap());
    assert_eq!(off, vec!["Events on date: January 3rd".to_string(), "No events found on date January 3rd".to_string()]);
}
