use shuvarie_core::catalog::{providers, CatalogState};
use shuvarie_core::config::connections::{Connections, ProviderConfig};
use shuvarie_core::config::connections_kdl;
use shuvarie_core::config::connections_kdl::ProviderNode;
use shuvarie_core::connections as older;
use shuvarie_core::error::{CoreError, FileRead};
use shuvarie_core::kdlfmt::{Entry, Leaf, Value};
use shuvarie_core::text_map::TextMap;

#[test]
fn empty_file_is_defaults() {
    let parsed: Connections = connections_kdl::from_kdl("").unwrap();
    assert!(parsed.providers.is_empty());
    assert!(parsed.active_provider.is_none());
    assert!(parsed.active_model.is_none());
}

#[test]
fn parses_planned_format() {
    let text = r#"
            active "Ollama Cloud" "glm-5.3-flash"

            providers {
                provider "Ollama Cloud" kind="ollama-cloud" {
                    api-key "<API KEY>"
                    base-url "https://ollama.com"
                }
                provider "Ollama Cloud compat" {
                    api-key "<API KEY>"
                    base-url "https://ollama.com/v1"
                }
            }
        "#;
    let parsed: Connections = connections_kdl::from_kdl(text).unwrap();
    assert_eq!(parsed.active_provider.as_deref(), Some("Ollama Cloud"));
    assert_eq!(parsed.active_model.as_deref(), Some("glm-5.3-flash"));
    assert_eq!(parsed.providers.len(), 2);
    let cloud = parsed.providers.get("Ollama Cloud").expect("cloud");
    assert_eq!(cloud.kind, "ollama-cloud");
    assert!(!cloud.kind_omitted);
    assert_eq!(cloud.api_key.as_deref(), Some("<API KEY>"));
    assert_eq!(cloud.base_url.as_deref(), Some("https://ollama.com"));
    let compat = parsed.providers.get("Ollama Cloud compat").expect("compat");
    assert_eq!(compat.kind, "openai");
    assert!(compat.kind_omitted);
    assert_eq!(compat.base_url.as_deref(), Some("https://ollama.com/v1"));
}

#[test]
fn providers_layout_round_trip() {
    let text = r#"
            active "acme" "gpt-4o"
            providers {
                provider "acme" kind="openai" {
                    api-key "sk-secret"
                    base-url "https://example.com/v1"
                }
                provider "ollama-local" kind="ollama"
            }
        "#;
    let parsed: Connections = connections_kdl::from_kdl(text).unwrap();
    assert_eq!(parsed.providers.len(), 2);
    let acme = parsed.providers.get("acme").expect("acme");
    assert_eq!(acme.kind, "openai");
    assert!(!acme.kind_omitted);
    assert_eq!(acme.api_key.as_deref(), Some("sk-secret"));
    assert_eq!(acme.base_url.as_deref(), Some("https://example.com/v1"));
    let ollama = parsed.providers.get("ollama-local").expect("ollama");
    assert_eq!(ollama.kind, "ollama");
    assert!(ollama.api_key.is_none());
    assert_eq!(parsed.active_provider.as_deref(), Some("acme"));
    assert_eq!(parsed.active_model.as_deref(), Some("gpt-4o"));

    let text = connections_kdl::to_kdl(&parsed);
    let reparsed: Connections = connections_kdl::from_kdl(&text).unwrap();
    assert_eq!(parsed, reparsed);
}

#[test]
fn omitted_kind_stays_omitted_on_save() {
    let text = r#"
            providers {
                provider "compat" {
                    base-url "https://example.com/v1"
                }
            }
        "#;
    let parsed: Connections = connections_kdl::from_kdl(text).unwrap();
    let compat = parsed.providers.get("compat").expect("compat");
    assert_eq!(compat.kind, "openai");
    assert!(compat.kind_omitted);

    let saved = connections_kdl::to_kdl(&parsed);
    assert!(!saved.contains("kind="), "unexpected kind in:\n{saved}");
    let reparsed: Connections = connections_kdl::from_kdl(&saved).unwrap();
    assert_eq!(parsed, reparsed);
}

#[test]
fn explicit_kind_is_emitted_on_save() {
    let mut connections = Connections::default();
    connections
        .providers
        .insert("local".to_string(), ProviderConfig::new("ollama", None, None));
    let saved = connections_kdl::to_kdl(&connections);
    assert!(
        saved.contains("provider local kind=ollama")
            || saved.contains("provider \"local\" kind=\"ollama\""),
        "expected explicit kind in:\n{saved}"
    );
    let reparsed: Connections = connections_kdl::from_kdl(&saved).unwrap();
    assert_eq!(connections, reparsed);
}

#[test]
fn active_without_model_omits_model_slot() {
    let mut connections = Connections::default();
    connections.active_provider = Some("ollama".to_string());
    let text = connections_kdl::to_kdl(&connections);
    assert!(
        text.contains("active ollama") || text.contains("active \"ollama\"\n"),
        "expected single-arg active:\n{text}"
    );
    let reparsed: Connections = connections_kdl::from_kdl(&text).unwrap();
    assert_eq!(reparsed.active_provider.as_deref(), Some("ollama"));
    assert!(reparsed.active_model.is_none());
}

#[test]
fn empty_connections_save_has_empty_providers_block() {
    let saved = connections_kdl::to_kdl(&Connections::default());
    let reparsed: Connections = connections_kdl::from_kdl(&saved).unwrap();
    assert_eq!(Connections::default(), reparsed);
}

#[test]
fn rejects_wrong_active_arg_count() {
    let err = connections_kdl::from_kdl("active \"a\" \"b\" \"c\"").unwrap_err();
    assert!(err.text().contains("at most two"));
}

#[test]
fn rejects_old_format() {
    let err = connections_kdl::from_kdl("active-provider \"acme\"").unwrap_err();
    assert!(err.text().contains("legacy"));
}

#[test]
fn rejects_duplicate_active() {
    let text = "active \"a\"\nactive \"b\"";
    let err = connections_kdl::from_kdl(text).unwrap_err();
    assert!(err.text().contains("duplicate"));
}

#[test]
fn a_name_that_is_taken_is_an_error_though_the_provider_is_replaced() {
    let text = |s: &str| Entry { name: None, value: Value::Text(s.to_string()) };
    let node = |name: &str, key: &str| ProviderNode {
        name: name.to_string(),
        entries: vec![text("a")],
        children: Some(vec![Leaf {
            name: "api-key".to_string(),
            entries: vec![text(key)],
            offset: 0,
            length: 0,
        }]),
        offset: 0,
        length: 0,
    };
    let mut found = TextMap::new();
    connections_kdl::parse_provider(&node("provider", "one"), "", &mut found).unwrap();
    let err =
        connections_kdl::parse_provider(&node("provider", "two"), "", &mut found).unwrap_err();
    assert!(err.text().contains("duplicate provider name"));
    assert_eq!(found.len(), 1);
    assert_eq!(found.get("a").unwrap().api_key.as_deref(), Some("two"));
    assert!(connections_kdl::parse_provider(&node("other", "three"), "", &mut found).is_err());
    assert_eq!(found.get("a").unwrap().api_key.as_deref(), Some("two"));
}

#[test]
fn rejects_duplicate_provider() {
    let text =
        "providers {\n    provider \"a\" kind=\"openai\"\n    provider \"a\" kind=\"ollama\"\n}";
    let err = connections_kdl::from_kdl(text).unwrap_err();
    assert!(err.text().contains("duplicate"));
}

#[test]
fn malformed_kdl_has_location() {
    let err = connections_kdl::from_kdl("active ").unwrap_err();
    let CoreError::ConfigParse(e) = err else {
        panic!("expected parse error");
    };
    assert!(e.line >= 1);
    assert!(e.column >= 1);
}

#[test]
fn unreadable_text_has_location() {
    let err = connections_kdl::from_kdl("active \"a\"\nproviders {").unwrap_err();
    let CoreError::ConfigParse(e) = err else {
        panic!("expected parse error");
    };
    assert!(e.line >= 1);
    assert!(!e.message.is_empty());
}

#[test]
fn connections_save_and_reload_via_temp_file() {
    let mut connections = Connections::default();
    connections
        .providers
        .insert("ollama".to_string(), ProviderConfig::new("ollama", None, None));
    connections.active_provider = Some("ollama".to_string());
    connections.active_model = Some("llama3".to_string());
    let loaded = Connections::load_from(FileRead::Text(connections.save_text())).unwrap();
    assert_eq!(connections, loaded);
}

#[test]
fn odd_texts_are_read_back() {
    let mut connections = Connections::default();
    for name in ["", "true", "12", "-5", "a b", "tab\there", "quote\"d", "back\\slash", "line\nbreak"] {
        connections.providers.insert(
            name.to_string(),
            ProviderConfig::new("openai", Some(name.to_string()), Some("#null".to_string())),
        );
    }
    connections.active_provider = Some("a b".to_string());
    let saved = connections_kdl::to_kdl(&connections);
    assert_eq!(connections_kdl::from_kdl(&saved).unwrap(), connections);
}

#[test]
fn a_missing_file_gives_no_connections() {
    assert_eq!(
        Connections::load_from(FileRead::Missing).unwrap(),
        Connections::default()
    );
    let err = Connections::load_from(FileRead::Failed("denied".to_string())).unwrap_err();
    assert_eq!(err.text(), "denied");
}

#[test]
fn the_file_stands_in_the_settings_directory() {
    assert_eq!(
        Connections::connections_path(Some("/home/u/.config")).unwrap(),
        "/home/u/.config/shuvarie/connections.kdl"
    );
    assert_eq!(
        older::Connections::connections_path(None).unwrap_err().text(),
        "no config directory for this platform"
    );
}

#[test]
fn a_provider_can_be_connected_to_with_a_key_or_without_the_need_of_one() {
    let state = CatalogState::new();
    let catalog = providers(&state);
    assert!(ProviderConfig::new("ollama", None, None).is_connectable(catalog));
    assert!(!ProviderConfig::new("groq", None, None).is_connectable(catalog));
    assert!(ProviderConfig::new("groq", Some("k".to_string()), None).is_connectable(catalog));
    let mut connections = Connections::default();
    assert!(!connections.has_connected_providers(catalog));
    connections
        .providers
        .insert("o".to_string(), ProviderConfig::new("ollama", None, None));
    connections.active_provider = Some("o".to_string());
    assert!(connections.has_connected_providers(catalog));
}

#[test]
fn the_older_file_is_read_and_written() {
    let mut connections = older::Connections::default();
    connections.providers.insert(
        "acme".to_string(),
        older::ProviderConfig::new("openai", Some("k".to_string()), None),
    );
    connections.active_provider = Some("acme".to_string());
    connections.active_model = Some("m".to_string());
    let saved = connections.to_kdl();
    assert_eq!(older::Connections::from_kdl(&saved).unwrap(), connections);
    assert_eq!(
        older::Connections::load_from(FileRead::Missing).unwrap(),
        older::Connections::default()
    );
    assert!(older::Connections::from_kdl("a {").is_err());
}

#[test]
fn a_copy_of_the_connections_stands_by_itself() {
    let mut first = Connections::default();
    first.providers.insert("b".to_string(), ProviderConfig::new("ollama", None, None));
    first.providers.insert("a".to_string(), ProviderConfig::new("openai", None, None));
    let mut second = first.clone();
    assert_eq!(second, first);
    second.providers.insert("c".to_string(), ProviderConfig::new("openai", None, None));
    assert_eq!((first.providers.len(), second.providers.len()), (2, 3));
    assert_eq!(second.providers.key(0), "a");
    assert_eq!(second.providers.get("b").unwrap().kind, "ollama");
}
