use today::date::Date;
use today::event::{
    last_weekday_in_month, nth_weekday_in_month, Category, Event, EventKind, Month, MonthDay, Ordinal, Rule,
    RuleParseError, Weekday,
};

fn date(y: i32, m: u32, d: u32) -> Date {
    Date::from_ymd(y, m, d).unwrap()
}

#[test]
fn last_weekday_in_month_function_works() {
    let d = last_weekday_in_month(2024, Month::January, Weekday::Monday).unwrap();
    assert_eq!(d, date(2024, 1, 29));

    let d = last_weekday_in_month(2024, Month::March, Weekday::Tuesday).unwrap();
    assert_eq!(d, date(2024, 3, 26));

    let d = last_weekday_in_month(2018, Month::August, Weekday::Thursday).unwrap();
    assert_eq!(d, date(2018, 8, 30));
}

#[test]
fn nth_weekday_in_month_function_works() {
    let d = nth_weekday_in_month(2001, Month::January, Weekday::Monday, Ordinal::First).unwrap();
    assert_eq!(d, date(2001, 1, 1));

    let d = nth_weekday_in_month(1967, Month::March, Weekday::Tuesday, Ordinal::Second).unwrap();
    assert_eq!(d, date(1967, 3, 14));

    let d = nth_weekday_in_month(1999, Month::August, Weekday::Thursday, Ordinal::Third).unwrap();
    assert_eq!(d, date(1999, 8, 19));

    let d = nth_weekday_in_month(1987, Month::January, Weekday::Monday, Ordinal::Fourth).unwrap();
    assert_eq!(d, date(1987, 1, 26));
}

#[test]
fn rule_parsing_works() {
    let rule = Rule::parse("first Monday in January").unwrap();
    assert_eq!(rule.ordinal, Ordinal::First);
    assert_eq!(rule.weekday, Weekday::Monday);
    assert_eq!(rule.month, Month::January);

    let rule = Rule::parse("second Tuesday of March").unwrap();
    assert_eq!(rule.ordinal, Ordinal::Second);
    assert_eq!(rule.weekday, Weekday::Tuesday);
    assert_eq!(rule.month, Month::March);

    let rule = Rule::parse("third Thursday in August").unwrap();
    assert_eq!(rule.ordinal, Ordinal::Third);
    assert_eq!(rule.weekday, Weekday::Thursday);
    assert_eq!(rule.month, Month::August);

    let rule = Rule::parse("fourth Monday in January").unwrap();
    assert_eq!(rule.ordinal, Ordinal::Fourth);
    assert_eq!(rule.weekday, Weekday::Monday);
    assert_eq!(rule.month, Month::January);

    let rule = Rule::parse("last Monday in January").unwrap();
    assert_eq!(rule.ordinal, Ordinal::Last);
    assert_eq!(rule.weekday, Weekday::Monday);
    assert_eq!(rule.month, Month::January);
}

#[test]
fn rule_parsing_rejects_invalid_ordinal() {
    Rule::parse("firstest Monday in January").unwrap_err();
}

#[test]
fn rule_parsing_rejects_invalid_weekday() {
    Rule::parse("first Monaday in January").unwrap_err();
}

#[test]
fn rule_parsing_rejects_invalid_month() {
    Rule::parse("first Monday in Janury").unwrap_err();
}

#[test]
fn rule_parsing_rejects_invalid_format() {
    Rule::parse("firstMondayinJanuary").unwrap_err();
    Rule::parse("first Monday January").unwrap_err();
    Rule::parse("Monday in January").unwrap_err();
}

#[test]
fn rule_parsing_accepts_valid_rules() {
    let rule = Rule::parse("first Monday in January").unwrap();
    let d = rule.resolve_date(2024).unwrap();
    assert_eq!(d, date(2024, 1, 1));

    let rule = Rule::parse("second Tuesday of March").unwrap();
    let d = rule.resolve_date(2024).unwrap();
    assert_eq!(d, date(2024, 3, 12));

    let rule = Rule::parse("third Thursday in August").unwrap();
    let d = rule.resolve_date(2024).unwrap();
    assert_eq!(d, date(2024, 8, 15));

    let rule = Rule::parse("fourth Monday in January").unwrap();
    let d = rule.resolve_date(2024).unwrap();
    assert_eq!(d, date(2024, 1, 22));

    let rule = Rule::parse("last Monday in January").unwrap();
    let d = rule.resolve_date(2024).unwrap();
    assert_eq!(d, date(2024, 1, 29));
}

#[test]
fn rule_parse_errors_name_the_word() {
    assert_eq!(Rule::parse("first Monday January"), Err(RuleParseError::InvalidFormat));
    assert_eq!(Rule::parse("first Monday at January"), Err(RuleParseError::InvalidFormat));
    assert_eq!(Rule::parse("fifth Monday in January"), Err(RuleParseError::InvalidOrdinal));
    assert_eq!(Rule::parse("first Mon in January"), Err(RuleParseError::InvalidWeekday));
    assert_eq!(Rule::parse("first Monday in Janu"), Err(RuleParseError::InvalidMonth));
}

#[test]
fn rule_parsing_ignores_case_and_spacing() {
    let rule = Rule::parse("  LAST   friday\tOF mar ").unwrap();
    assert_eq!(rule, Rule { ordinal: Ordinal::Last, weekday: Weekday::Friday, month: Month::March });
}

#[test]
fn rule_text_reads_back() {
    let rule = Rule::parse("last friday of march").unwrap();
    assert_eq!(rule.as_string(), "Last Friday in March");
    assert_eq!(Rule::parse(&rule.as_string()), Ok(rule));
    let rule = Rule { ordinal: Ordinal::Second, weekday: Weekday::Wednesday, month: Month::September };
    assert_eq!(Rule::parse(&rule.as_string()), Ok(rule));
}

#[test]
fn last_weekday_in_a_leap_february() {
    assert_eq!(last_weekday_in_month(2024, Month::February, Weekday::Thursday), Some(date(2024, 2, 29)));
    assert_eq!(last_weekday_in_month(2023, Month::February, Weekday::Tuesday), Some(date(2023, 2, 28)));
}

#[test]
fn rule_month_day_in_a_year() {
    let rule = Rule::parse("third Monday in January").unwrap();
    assert_eq!(rule.month_day_in(2026), Some(MonthDay::new(1, 19).unwrap()));
}

#[test]
fn events_give_their_month_and_day() {
    let singular = Event::new_singular(date(1759, 1, 15), "Museum".to_string(), Category::new("culture", "museum"));
    assert_eq!(singular.month_day(), MonthDay::new(1, 15).unwrap());
    assert_eq!(singular.year(), 1759);
    assert_eq!(singular.to_string(), "1759: Museum (culture/museum)");
    let annual = Event::new_annual(MonthDay::new(2, 14).unwrap(), "Valentine".to_string(), Category::from_primary("holiday"));
    assert_eq!(annual.month_day(), MonthDay::new(2, 14).unwrap());
    assert_eq!(annual.kind(), EventKind::Annual(MonthDay::new(2, 14).unwrap()));
    assert_eq!(annual.to_string_in(2026), "2026: Valentine (holiday)");
    let rule = Rule::parse("first monday in january").unwrap();
    let rule_based = Event::new_rule_based(rule, "Rule".to_string(), Category::from_primary("r"));
    assert_eq!(rule_based.month_day_in(2024), Some(MonthDay::new(1, 1).unwrap()));
}

#[test]
fn rule_parsing_ignores_ascii_case() {
    assert_eq!(Rule::parse("FIRST MONDAY IN JANUARY"), Rule::parse("first monday in january"));
    assert_eq!(Rule::parse("FIFTH MONDAY IN JANUARY"), Rule::parse("fifth monday in january"));
}

#[test]
fn rule_parsing_takes_of_as_in() {
    assert_eq!(Rule::parse("second Tuesday of March"), Rule::parse("second Tuesday in March"));
    assert_eq!(Rule::parse("first of in January"), Rule::parse("first in in January"));
    assert_eq!(Rule::parse("of Monday in January"), Rule::parse("in Monday in January"));
}
