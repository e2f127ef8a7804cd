use chrono::Datelike;
use today::date::Date;
use today::event::{Category, Event, MonthDay, Rule};
use today::filter::{categories_match, EventFilter, FilterBuilder};

fn date(y: i32, m: u32, d: u32) -> Date {
    Date::from_ymd(y, m, d).unwrap()
}

fn today_date() -> Date {
    let t = chrono::Local::now().date_naive();
    Date::from_ymd(t.year(), t.month(), t.day()).unwrap()
}

#[test]
fn creates_filter_with_month_day() {
    let month_day = MonthDay::new(3, 5).unwrap();
    let filter = FilterBuilder::new().month_day(month_day.clone()).build();
    assert_eq!(filter.month_day(), Some(month_day));
}

#[test]
fn creates_filter_with_categories() {
    let categories = vec![Category::new("programming", "rust")];
    let filter = FilterBuilder::new().categories(Some(categories.clone())).build();
    assert_eq!(filter.categories(), Some(categories));
}

#[test]
fn creates_filter_with_text() {
    let text = "test".to_string();
    let filter = FilterBuilder::new().text(Some(text.clone())).build();
    assert_eq!(filter.text(), Some(text));
}

#[test]
fn creates_filter_with_exclude_categories() {
    let exclude_categories = vec![Category::new("programming", "rust"), Category::new("holiday", "christmas")];
    let filter = FilterBuilder::new().exclude_categories(Some(exclude_categories.clone())).build();
    assert_eq!(filter.exclude_categories(), Some(exclude_categories));
}

#[test]
fn creates_empty_filter() {
    let filter = FilterBuilder::new().build();
    let filter_content = [filter.contains_categories(), filter.contains_month_day(), filter.contains_text()];
    assert_eq!(filter_content, [false, false, false]);
}

#[test]
fn filter_accepts_anything() {
    let category = Category::new("programming", "rust");
    let event = Event::new_singular(date(2026, 3, 5), "Test description".to_string(), category);
    let filter = FilterBuilder::new().build();
    assert!(filter.accepts(&event));
}

#[test]
fn filter_accepts_right_date() {
    let category = Category::new("programming", "rust");
    let today = today_date();
    let month_day = MonthDay::new(today.month(), today.day()).unwrap();
    let event = Event::new_singular(today, "Test description".to_string(), category);
    let filter = FilterBuilder::new().month_day(month_day).build();
    assert!(filter.accepts(&event));
}

#[test]
fn filter_denies_wrong_date() {
    let category = Category::new("programming", "rust");
    let today = today_date();
    let month_day = MonthDay::new(today.month(), today.day()).unwrap();
    let event = Event::new_singular(date(2026, 3, 5), "Test description".to_string(), category);
    let filter = FilterBuilder::new().month_day(month_day).build();
    assert!(!filter.accepts(&event));
}

#[test]
fn filter_accepts_right_exact_category() {
    let category = Category::new("programming", "rust");
    let event = Event::new_singular(date(2026, 3, 5), "Test description".to_string(), category.clone());
    let filter = FilterBuilder::new().categories(Some(vec![category])).build();
    assert!(filter.accepts(&event));
}

#[test]
fn filter_accepts_primary_only_filter_matching_event_primary_category() {
    let event = Event::new_singular(date(2026, 3, 5), "Test description".to_string(), Category::new("programming", "rust"));
    let filter_category = Category::from_primary("programming");
    let filter = FilterBuilder::new().categories(Some(vec![filter_category])).build();
    assert!(filter.accepts(&event));
}

#[test]
fn filter_accepts_primary_only_filter_matching_event_secondary_category() {
    let event = Event::new_singular(date(2000, 1, 2), "Another test".to_string(), Category::new("rust", "programming"));
    let filter_category = Category::from_primary("programming");
    let filter = FilterBuilder::new().categories(Some(vec![filter_category])).build();
    assert!(filter.accepts(&event));
}

#[test]
fn filter_denies_wrong_primary_category() {
    let event = Event::new_singular(date(2026, 3, 5), "Test description".to_string(), Category::new("programming", "rust"));
    let filter_category = Category::from_primary("wrong");
    let filter = FilterBuilder::new().categories(Some(vec![filter_category])).build();
    assert!(!filter.accepts(&event));
}

#[test]
fn filter_denies_wrong_secondary_category() {
    let event = Event::new_singular(date(2026, 3, 5), "Test description".to_string(), Category::new("programming", "rust"));
    let filter_category = Category::new("programming", "wrong");
    let filter = FilterBuilder::new().categories(Some(vec![filter_category])).build();
    assert!(!filter.accepts(&event));
}

#[test]
fn filter_denies_wrong_category() {
    let right_category = Category::new("programming", "rust");
    let wrong_category = Category::new("wrong", "category");
    let event = Event::new_singular(date(2026, 3, 5), "Test description".to_string(), right_category);
    let filter = FilterBuilder::new().categories(Some(vec![wrong_category])).build();
    assert!(!filter.accepts(&event));
}

#[test]
fn filter_accepts_right_description() {
    let category = Category::new("programming", "rust");
    let event = Event::new_singular(date(2026, 3, 5), "Test description".to_string(), category);
    let text = Some("Test".to_string());
    let filter = FilterBuilder::new().text(text).build();
    assert!(filter.accepts(&event));
}

#[test]
fn filter_denies_wrong_description() {
    let category = Category::new("programming", "rust");
    let event = Event::new_singular(date(2026, 3, 5), "Test description".to_string(), category);
    let text = Some("Wrong".to_string());
    let filter = FilterBuilder::new().text(text).build();
    assert!(!filter.accepts(&event));
}

#[test]
fn filter_excludes_exact_category() {
    let category = Category::new("programming", "rust");
    let event = Event::new_singular(date(2026, 3, 5), "Test description".to_string(), category.clone());
    let filter = FilterBuilder::new().exclude_categories(Some(vec![category])).build();
    assert!(!filter.accepts(&event));
}

#[test]
fn filter_excludes_primary_category() {
    let event = Event::new_singular(date(2026, 3, 5), "Test description".to_string(), Category::new("programming", "rust"));
    let exclude_categories = vec![Category::from_primary("programming")];
    let filter = FilterBuilder::new().exclude_categories(Some(exclude_categories)).build();
    assert!(!filter.accepts(&event));
}

#[test]
fn category_is_not_case_sensitive() {
    let event = Event::new_singular(date(2026, 3, 5), "Test description".to_string(), Category::new("programming", "rust"));
    let filter_category = Category::new("ProgRamMing", "rUsT");
    let filter = FilterBuilder::new().categories(Some(vec![filter_category])).build();
    assert!(filter.accepts(&event));
}

#[test]
fn exclude_category_is_not_case_sensitive() {
    let event = Event::new_singular(date(2026, 3, 5), "Test description".to_string(), Category::new("prOgrAmminG", "RuSt"));
    let exclude_category = Category::new("ProgRamMing", "rUsT");
    let filter = FilterBuilder::new().exclude_categories(Some(vec![exclude_category])).build();
    assert!(!filter.accepts(&event));
}

#[test]
fn text_search_is_not_case_sensitive() {
    let event = Event::new_singular(date(2026, 3, 5), "TesT dEsCripTioN".to_string(), Category::new("programming", "rust"));
    let text = Some("tESt".to_string());
    let filter = FilterBuilder::new().text(text).build();
    assert!(filter.accepts(&event));

    let text = Some("DeScrIPtiOn".to_string());
    let filter = FilterBuilder::new().text(text).build();
    assert!(filter.accepts(&event));
}

#[test]
fn wildcard_secondary_matches_any_secondary() {
    let filter_category = Category::new("testing", "*");
    assert!(categories_match(&filter_category, &Category::new("testing", "anything")));
    assert!(categories_match(&filter_category, &Category::from_primary("testing")));
    assert!(!categories_match(&filter_category, &Category::new("other", "testing")));
    assert!(!categories_match(&Category::new("testing", "a"), &Category::from_primary("testing")));
}

#[test]
fn every_category_matches_itself() {
    for c in [Category::new("a", "b"), Category::from_primary("a"), Category::new("a", "*")] {
        assert!(categories_match(&c, &c));
    }
}

#[test]
fn empty_filter_passes_every_kind_of_event() {
    let filter = EventFilter::new();
    let rule = Rule::parse("last sunday in december").unwrap();
    assert!(filter.accepts(&Event::new_rule_based(rule, "x".to_string(), Category::from_primary("y"))));
    assert!(filter.accepts(&Event::new_annual(MonthDay::new(2, 29).unwrap(), "x".to_string(), Category::from_primary("y"))));
}

#[test]
fn added_options_narrow_the_filter() {
    let event = Event::new_singular(date(2026, 3, 5), "Test description".to_string(), Category::new("programming", "rust"));
    let wide = FilterBuilder::new().categories(Some(vec![Category::from_primary("programming")])).build();
    let narrow = FilterBuilder::new()
        .categories(Some(vec![Category::from_primary("programming")]))
        .text(Some("nothing like it".to_string()))
        .build();
    assert!(wide.accepts(&event));
    assert!(!narrow.accepts(&event));
}

#[test]
fn rule_based_event_passes_its_day_of_the_year() {
    let rule = Rule::parse("first monday in january").unwrap();
    let event = Event::new_rule_based(rule, "Rule based event".to_string(), Category::from_primary("r"));
    let on_day = FilterBuilder::new().month_day(MonthDay::new(1, 1).unwrap()).build();
    let off_day = FilterBuilder::new().month_day(MonthDay::new(1, 2).unwrap()).build();
    assert!(on_day.accepts_in_year(&event, 2024));
    assert!(!off_day.accepts_in_year(&event, 2024));
}

#[test]
fn setting_an_option_twice_keeps_one_copy() {
    let md = MonthDay::new(7, 4).unwrap();
    let filter = FilterBuilder::new().month_day(md).month_day(md).build();
    assert_eq!(filter.month_day(), Some(md));
    assert!(filter.contains_month_day());
    assert!(!filter.contains_exclude_categories());
}

#[test]
fn category_filter_syntax() {
    let computing = Category::from_str("computing");
    assert!(categories_match(&computing, &Category::from_str("computing")));
    assert!(categories_match(&computing, &Category::from_str("computing/technology")));
    assert!(categories_match(&computing, &Category::from_str("technology/computing")));
    let museum = Category::from_str("culture/museum");
    assert!(categories_match(&museum, &Category::from_str("culture/museum")));
    assert!(!categories_match(&museum, &Category::from_str("culture")));
    assert!(!categories_match(&museum, &Category::from_str("culture/art")));
    let testing = Category::from_str("testing/*");
    assert!(categories_match(&testing, &Category::from_str("testing/unit")));
    assert!(categories_match(&testing, &Category::from_str("testing")));
    assert!(!categories_match(&testing, &Category::from_str("unit/testing")));
}

#[test]
fn a_later_setting_replaces_an_earlier_one() {
    let first = MonthDay::new(7, 4).unwrap();
    let second = MonthDay::new(12, 24).unwrap();
    let filter = FilterBuilder::new()
        .month_day(first)
        .text(Some("a".to_string()))
        .month_day(second)
        .text(Some("b".to_string()))
        .categories(Some(vec![Category::from_primary("x")]))
        .categories(Some(vec![Category::from_primary("y")]))
        .build();
    assert_eq!(filter.month_day(), Some(second));
    assert_eq!(filter.text(), Some("b".to_string()));
    assert_eq!(filter.categories(), Some(vec![Category::from_primary("y")]));
    let event = Event::new_singular(date(2020, 12, 24), "b".to_string(), Category::from_primary("y"));
    assert!(filter.accepts(&event));
    let unset = FilterBuilder::new().month_day(first).categories(None).text(None).build();
    assert_eq!(unset.categories(), None);
    assert_eq!(unset.month_day(), Some(first));
}
