use today::event::Category;

#[test]
fn creating_a_category() {
    let category = Category::new("primary", "secondary");
    assert_eq!(category.primary(), "primary");
    assert_eq!(category.secondary().unwrap(), "secondary");
}

#[test]
fn creating_a_category_from_primary() {
    let category = Category::from_primary("primary");
    assert_eq!(category.primary(), "primary");
    assert_eq!(category.secondary(), None);
}

#[test]
fn creating_a_category_from_string_with_both() {
    let category = Category::from_str("primary/secondary");
    assert_eq!(category.primary(), "primary");
    assert_eq!(category.secondary().unwrap(), "secondary");
}

#[test]
fn creating_a_category_from_string_with_primary_only() {
    let category = Category::from_str("primary");
    assert_eq!(category.primary(), "primary");
    assert_eq!(category.secondary(), None);
}

#[test]
fn primary_category() {
    let category = Category::from_primary("testing");
    assert_eq!(category.primary(), "testing");
    assert_eq!(category.secondary(), None);
}

#[test]
fn primary_secondary_category() {
    let category = Category::new("testing", "test");
    assert_eq!(category.primary(), "testing");
    assert_eq!(category.secondary(), Some("test".to_string()));
}

#[test]
fn primary_category_from_str() {
    let category = Category::from_str("testing");
    assert_eq!(category.primary(), "testing");
    assert_eq!(category.secondary(), None);
}

#[test]
fn primary_secondary_category_from_str() {
    let category = Category::from_str("testing/test");
    assert_eq!(category.primary(), "testing");
    assert_eq!(category.secondary(), Some("test".to_string()));
}

#[test]
fn category_names_are_lowered() {
    let category = Category::new("ProgRamMing", "rUsT");
    assert_eq!(category.primary(), "programming");
    assert_eq!(category.secondary(), Some("rust".to_string()));
    assert_eq!(category, Category::new("programming", "rust"));
}

#[test]
fn category_lowers_non_ascii_names() {
    let category = Category::from_str("ÄÖ/Straße");
    assert_eq!(category.primary(), "äö");
    assert_eq!(category.secondary(), Some("straße".to_string()));
}

#[test]
fn category_from_str_keeps_only_two_parts() {
    let category = Category::from_str("a/b/c");
    assert_eq!(category.primary(), "a");
    assert_eq!(category.secondary(), Some("b".to_string()));
}

#[test]
fn category_text_reads_back() {
    let category = Category::new("culture", "museum");
    let text = category.to_string();
    assert_eq!(text, "culture/museum");
    assert_eq!(Category::from_str(&text), category);
    let primary_only = Category::from_primary("holiday");
    assert_eq!(primary_only.to_string(), "holiday");
    assert_eq!(Category::from_str(&primary_only.to_string()), primary_only);
}
