use today::date::Date;
use today::event::{MonthDay, MonthDayParseError};

#[test]
fn month_day_new() {
    let md = MonthDay::new(1, 1).unwrap();
    assert_eq!(md.month(), 1);
    assert_eq!(md.day(), 1);

    let md = MonthDay::new(12, 31).unwrap();
    assert_eq!(md.month(), 12);
    assert_eq!(md.day(), 31);

    let md = MonthDay::new(2, 29).unwrap();
    assert_eq!(md.month(), 2);
    assert_eq!(md.day(), 29);

    let md = MonthDay::new(4, 30).unwrap();
    assert_eq!(md.month(), 4);
    assert_eq!(md.day(), 30);
}

#[test]
fn month_day_new_invalid() {
    MonthDay::new(0, 1).unwrap_err();
    MonthDay::new(1, 0).unwrap_err();
    MonthDay::new(13, 1).unwrap_err();
    MonthDay::new(1, 32).unwrap_err();
    MonthDay::new(2, 30).unwrap_err();
    MonthDay::new(3, 32).unwrap_err();
    MonthDay::new(4, 31).unwrap_err();
    MonthDay::new(5, 32).unwrap_err();
    MonthDay::new(6, 31).unwrap_err();
    MonthDay::new(7, 32).unwrap_err();
    MonthDay::new(8, 32).unwrap_err();
    MonthDay::new(9, 31).unwrap_err();
    MonthDay::new(10, 32).unwrap_err();
    MonthDay::new(11, 31).unwrap_err();
    MonthDay::new(12, 32).unwrap_err();
}

#[test]
fn month_day_from_valid_str() {
    let md = MonthDay::from_str("01-01").unwrap();
    assert_eq!(md.month(), 1);
    assert_eq!(md.day(), 1);

    let md = MonthDay::from_str("12-31").unwrap();
    assert_eq!(md.month(), 12);
    assert_eq!(md.day(), 31);

    let md = MonthDay::from_str("4-5").unwrap();
    assert_eq!(md.month(), 4);
    assert_eq!(md.day(), 5);
}

#[test]
fn month_day_from_invalid_string() {
    MonthDay::from_str("0101").unwrap_err();
    MonthDay::from_str("103").unwrap_err();
    MonthDay::from_str("13-01").unwrap_err();
    MonthDay::from_str("10-32").unwrap_err();
    MonthDay::from_str("02-30").unwrap_err();
    MonthDay::from_str("03-32").unwrap_err();
    MonthDay::from_str("ERRR").unwrap_err();
}

#[test]
fn month_day_errors_name_the_part() {
    assert_eq!(MonthDay::new(0, 1), Err(MonthDayParseError::InvalidMonth));
    assert_eq!(MonthDay::new(2, 30), Err(MonthDayParseError::InvalidDay));
    assert_eq!(MonthDay::from_str("0101"), Err(MonthDayParseError::InvalidFormat));
    assert_eq!(MonthDay::from_str("xx-01"), Err(MonthDayParseError::InvalidMonth));
    assert_eq!(MonthDay::from_str("01-xx"), Err(MonthDayParseError::InvalidDay));
    assert_eq!(MonthDay::from_str("+4-+5"), MonthDay::new(4, 5));
}

#[test]
fn month_day_text_reads_back() {
    for month in 1..=12u32 {
        for day in 1..=31u32 {
            if let Ok(md) = MonthDay::new(month, day) {
                let text = md.to_string();
                assert_eq!(text.len(), 5);
                assert_eq!(MonthDay::from_str(&text), Ok(md));
            }
        }
    }
    assert_eq!(MonthDay::new(3, 5).unwrap().to_string(), "03-05");
}

#[test]
fn month_day_of_a_date() {
    let date = Date::from_ymd(2024, 2, 29).unwrap();
    assert_eq!(date.month_day(), MonthDay::new(2, 29).unwrap());
    assert_eq!(MonthDay::of_date(&date), MonthDay::new(2, 29).unwrap());
}
