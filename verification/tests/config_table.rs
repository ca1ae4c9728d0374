use agency::config::{Config, Defaults, ProviderConfig, ProviderTable};

fn cfg(url: &str) -> ProviderConfig {
    ProviderConfig { base_url: Some(url.to_string()), api_key: None, default_model: None }
}

#[test]
fn empty_config_has_no_providers() {
    let c = Config::default();
    assert!(c.provider("local").is_none());
    assert!(c.defaults.provider.is_none());
}

#[test]
fn provider_lookup_reads_back_what_was_stored() {
    let mut c = Config::new();
    c.providers.insert("local".to_string(), cfg("http://localhost:1234/v1"));
    c.providers.insert("remote".to_string(), cfg("https://api.example/v1"));
    assert_eq!(c.provider("local").unwrap().base_url.as_deref(), Some("http://localhost:1234/v1"));
    assert_eq!(c.provider("remote").unwrap().base_url.as_deref(), Some("https://api.example/v1"));
    assert!(c.provider("other").is_none());
}

#[test]
fn storing_under_an_existing_name_replaces_it() {
    let mut t = ProviderTable::new();
    t.insert("a".to_string(), cfg("one"));
    t.insert("a".to_string(), cfg("two"));
    assert_eq!(t.get("a").unwrap().base_url.as_deref(), Some("two"));
}

#[test]
fn defaults_are_empty_by_default() {
    let d = Defaults::default();
    assert!(d.provider.is_none());
    let p = ProviderConfig::default();
    assert!(p.base_url.is_none() && p.api_key.is_none() && p.default_model.is_none());
}

#[test]
fn config_from_sections_keeps_the_last_of_a_name() {
    let c = Config::from_sections(
        vec![("a".to_string(), cfg("first")), ("b".to_string(), cfg("other")), ("a".to_string(), cfg("last"))],
        Defaults { provider: Some("a".to_string()) },
    );
    assert_eq!(c.provider("a").unwrap().base_url.as_deref(), Some("last"));
    assert_eq!(c.provider("b").unwrap().base_url.as_deref(), Some("other"));
    assert_eq!(c.defaults.provider.as_deref(), Some("a"));
}
