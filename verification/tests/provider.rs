use duckduckgo_suggest::provider::{default_config, ConfigEntry, SuggestionProvider};

#[test]
fn provider_name() {
    let p = SuggestionProvider::new("token".to_string());
    assert_eq!(p.name(), "DuckDuckGo-Search");
}

#[test]
fn plugin_id_passes_through() {
    let p = SuggestionProvider::new("token-17".to_string());
    assert_eq!(p.plugin_id(), "token-17".to_string());
}

#[test]
fn default_config_declares_one_enabled_option() {
    let entries = default_config();
    assert_eq!(entries.len(), 1);
    assert_eq!(entries[0].name, "Always return query even if no results found".to_string());
    assert!(entries[0].value);
}

#[test]
fn policy_defaults_to_on() {
    let p = SuggestionProvider::new("t".to_string());
    assert!(p.always_include_query());
}

#[test]
fn policy_follows_loaded_config() {
    let mut p = SuggestionProvider::new("t".to_string());
    let entries = vec![ConfigEntry {
        name: "Always return query even if no results found".to_string(),
        value: false,
    }];
    p.lazy_load_config(entries);
    assert!(!p.always_include_query());
}

#[test]
fn policy_falls_back_when_entry_is_absent() {
    let mut p = SuggestionProvider::new("t".to_string());
    let entries = vec![ConfigEntry { name: "Some other option".to_string(), value: false }];
    p.lazy_load_config(entries);
    assert!(p.always_include_query());
}

#[test]
fn search_uses_the_configured_policy() {
    let mut p = SuggestionProvider::new("t".to_string());
    let body = "[{\"phrase\":\"beta\"},{\"phrase\":\"alpha\"}]";
    let with_policy = p.search("q", Some(body));
    assert_eq!(
        with_policy,
        vec!["q".to_string(), "alpha".to_string(), "beta".to_string()],
    );
    p.lazy_load_config(vec![ConfigEntry {
        name: "Always return query even if no results found".to_string(),
        value: false,
    }]);
    let without_policy = p.search("q", Some(body));
    assert_eq!(without_policy, vec!["alpha".to_string(), "beta".to_string()]);
}

#[test]
fn colored_name_spells_duckduckgo() {
    let p = SuggestionProvider::new("t".to_string());
    let label = p.colored_name();
    assert_eq!(label.len(), 10);
    let word: String = label.iter().map(|c| c.ch).collect();
    assert_eq!(word, "DuckDuckGo".to_string());
    assert_eq!(label[0].color, 0xDE5833FF);
    assert_eq!(label[4].color, 0xFFCC33FF);
    assert_eq!(label[9].color, 0x4CBA3CFF);
}
