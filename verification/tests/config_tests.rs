use today::config::{add_target, create_providers, find_provider, kind_of, AddError, Provider, ProviderKind};
use today::{Config, ProviderConfig};

fn config() -> Config {
    Config::new(vec![
        ProviderConfig::new("sqlite", "sqlite", "events.db"),
        ProviderConfig::new("Web", "web", "https://example.org/events"),
        ProviderConfig::new("odd", "yaml", "events.yaml"),
        ProviderConfig::new("txt", "text", "test.txt"),
        ProviderConfig::new("csv", "csv", "test.csv"),
    ])
}

#[test]
fn config_getters() {
    let c = config();
    let providers = c.providers();
    assert_eq!(providers.len(), 5);
    assert_eq!(providers[1].name(), "Web");
    assert_eq!(providers[1].kind(), "web");
    assert_eq!(providers[1].resource(), "https://example.org/events");
}

#[test]
fn providers_of_known_kinds_are_made_in_order() {
    let providers = create_providers(&config(), "/tmp/today");
    let kinds: Vec<ProviderKind> = providers.iter().map(|p| p.kind()).collect();
    assert_eq!(kinds, vec![ProviderKind::Sqlite, ProviderKind::Web, ProviderKind::Text, ProviderKind::Csv]);
    let names: Vec<String> = providers.iter().map(|p| p.name()).collect();
    assert_eq!(names, vec!["sqlite", "Web", "txt", "csv"]);
    match &providers[0] {
        Provider::Sqlite(p) => assert_eq!(p.path(), "/tmp/today/events.db"),
        _ => panic!("expected a database"),
    }
    match &providers[2] {
        Provider::Text(p) => assert_eq!(p.path(), "/tmp/today/test.txt"),
        _ => panic!("expected a text file"),
    }
    match &providers[3] {
        Provider::Csv(p) => assert_eq!(p.path(), "/tmp/today/test.csv"),
        _ => panic!("expected a CSV file"),
    }
    let absolute = create_providers(&Config::new(vec![ProviderConfig::new("abs", "text", "/var/events.txt")]), "/tmp/today");
    match &absolute[0] {
        Provider::Text(p) => assert_eq!(p.path(), "/var/events.txt"),
        _ => panic!("expected a text file"),
    }
    match &providers[1] {
        Provider::Web(p) => assert_eq!(p.url(), "https://example.org/events"),
        _ => panic!("expected a web endpoint"),
    }
}

#[test]
fn kinds_are_named_exactly() {
    assert_eq!(kind_of("text"), Some(ProviderKind::Text));
    assert_eq!(kind_of("csv"), Some(ProviderKind::Csv));
    assert_eq!(kind_of("sqlite"), Some(ProviderKind::Sqlite));
    assert_eq!(kind_of("web"), Some(ProviderKind::Web));
    assert_eq!(kind_of("Text"), None);
    assert_eq!(kind_of("test"), None);
}

#[test]
fn adding_goes_to_the_first_source_with_the_name() {
    let providers = create_providers(&config(), "/tmp/today");
    assert_eq!(find_provider(&providers, "txt"), Some(2));
    assert_eq!(add_target(&providers, "txt"), Ok(2));
    assert_eq!(add_target(&providers, "sqlite"), Ok(0));
    assert_eq!(add_target(&providers, "Web"), Err(AddError::NotSupported));
    assert_eq!(add_target(&providers, "odd"), Err(AddError::UnknownProvider));
    assert_eq!(add_target(&providers, "missing"), Err(AddError::UnknownProvider));
}
