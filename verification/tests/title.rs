use shuvarie_core::catalog::{providers, CatalogState};
use shuvarie_core::settings::{Active, Connections, ProviderConfig};
use shuvarie_core::title::{
    clean, resolve_model, swap_title, title_for, title_preamble, title_task,
    DEFAULT_TITLE_PREAMBLE, TITLE_MAX_CHARS,
};

#[test]
fn the_preamble_in_the_settings_is_preferred() {
    assert_eq!(title_preamble(Some("Be brief.")), "Be brief.");
    assert_eq!(title_preamble(Some("")), "");
    assert_eq!(title_preamble(None), DEFAULT_TITLE_PREAMBLE);
    assert!(DEFAULT_TITLE_PREAMBLE.starts_with("You write session titles"));
}

#[test]
fn clean_takes_the_first_line_and_strips_markup() {
    assert_eq!(
        clean("\"Fix flaky auth retry\"\n\nSome trailing chatter"),
        Some("Fix flaky auth retry".to_string())
    );
    assert_eq!(clean("**Refactor db module**"), Some("Refactor db module".to_string()));
    assert_eq!(clean("- Fix login bug."), Some("Fix login bug".to_string()));
    assert_eq!(clean("Fix   login\tbug"), Some("Fix login bug".to_string()));
}

#[test]
fn clean_caps_long_titles_at_a_word_boundary() {
    let cleaned =
        clean("Fix a very long session title that keeps going and going beyond the cap").unwrap();
    assert!(cleaned.chars().count() <= TITLE_MAX_CHARS);
    assert_eq!(cleaned, "Fix a very long session title that keeps going and going beyond");
}

#[test]
fn clean_drops_empty_replies() {
    assert_eq!(clean(""), None);
    assert_eq!(clean("   \n  \"\"  "), None);
    assert_eq!(clean("..."), None);
}

fn connections_with(provider: &str, catalog_id: &str) -> Connections {
    let mut connections = Connections::default();
    connections.providers.insert(
        provider.to_string(),
        ProviderConfig::new(provider, catalog_id, None, None),
    );
    connections
}

fn active(provider: &str, model: Option<&str>) -> Option<Active> {
    Some(Active {
        provider: provider.to_string(),
        model: model.map(|m| m.to_string()),
        variant: None,
    })
}

#[test]
fn resolve_model_defaults_to_the_active_provider_small_model() {
    let state = CatalogState::new();
    let mut connections = connections_with("Anthropic", "anthropic");
    connections.active = active("Anthropic", Some("acme-sonnet-4-5"));
    let (name, model) = resolve_model(providers(&state), &connections, None, None).unwrap();
    assert_eq!(name, "Anthropic");
    assert!(model.ends_with("-haiku-4-5-20251001"), "{model}");
}

#[test]
fn resolve_model_honors_the_configured_provider_and_model() {
    let state = CatalogState::new();
    let catalog = providers(&state);
    let mut connections = connections_with("Anthropic", "anthropic");
    connections.providers.insert(
        "Openai".to_string(),
        ProviderConfig::new("Openai", "openai", None, None),
    );
    connections.active = active("Anthropic", Some("acme-sonnet-4-5"));
    let (name, model) = resolve_model(catalog, &connections, Some("Openai"), None).unwrap();
    assert_eq!(name, "Openai");
    assert_eq!(model, "gpt-5.6-luna");
    let (name, model) =
        resolve_model(catalog, &connections, Some("Openai"), Some("gpt-5-nano")).unwrap();
    assert_eq!(name, "Openai");
    assert_eq!(model, "gpt-5-nano");
}

#[test]
fn resolve_model_skips_without_an_active_or_known_provider() {
    let state = CatalogState::new();
    let catalog = providers(&state);
    assert_eq!(resolve_model(catalog, &Connections::default(), None, None), None);
    let connections = connections_with("weird", "not-a-catalog-id");
    assert_eq!(resolve_model(catalog, &connections, None, None), None);
    assert_eq!(resolve_model(catalog, &connections, Some("ghost"), None), None);
    let unlisted = Connections { active: active("ghost", None), ..Connections::default() };
    assert_eq!(resolve_model(catalog, &unlisted, None, None), None);
    assert_eq!(
        resolve_model(catalog, &connections, Some("weird"), Some("m")),
        Some(("weird".to_string(), "m".to_string()))
    );
}

#[test]
fn the_first_title_is_the_start_of_the_prompt() {
    assert_eq!(title_for("  ", 10), "Untitled session");
    assert_eq!(title_for("fix it", 10), "fix it");
}

#[test]
fn the_task_holds_the_prompt() {
    assert_eq!(title_task("  "), None);
    assert!(title_task("fix it").unwrap().ends_with("---\nfix it\n---"));
}

#[test]
fn a_title_is_swapped_only_while_it_is_the_expected_one() {
    let mut title = Some("draft".to_string());
    assert!(swap_title(&mut title, "draft", "better"));
    assert_eq!(title.as_deref(), Some("better"));
    assert!(!swap_title(&mut title, "draft", "late"));
    assert_eq!(title.as_deref(), Some("better"));
}
