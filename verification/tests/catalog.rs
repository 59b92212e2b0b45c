use shuvarie_core::catalog::{
    base_url_for, context_length, default_small_model, effective_base_url, enrich, fetch_remote,
    find_model, find_provider, has_connected_providers, is_connectable, is_dated_alias,
    model_variants, next_variant, parse_provider_type, provider_type, provider_type_name,
    providers, refresh, registry_providers, remote_registry, remote_registry_loaded, resolve_env,
    strip_tag, CatalogModel, CatalogProvider, CatalogState, EffortOption, NextVariant, Transport,
};
use shuvarie_core::llm::ModelInfo;
use shuvarie_core::settings::{Active, Connections, ProviderConfig};
use shuvarie_core::text_map::TextMap;

fn catalog_provider(id: &str, kind: Option<Transport>, endpoint: Option<&str>) -> CatalogProvider {
    CatalogProvider {
        name: id.to_string(),
        id: id.to_string(),
        api_key: None,
        api_endpoint: endpoint.map(str::to_string),
        kind,
        default_large_model_id: None,
        default_small_model_id: None,
        models: Vec::new(),
    }
}

fn plain_model(id: &str) -> CatalogModel {
    CatalogModel {
        id: id.to_string(),
        name: id.to_string(),
        reasoning: false,
        reasoning_options: Vec::new(),
        attachment: false,
        context: None,
    }
}

fn test_provider(id: &str, models: &[(&str, i64)]) -> CatalogProvider {
    CatalogProvider {
        models: models
            .iter()
            .map(|(model, context)| CatalogModel { context: Some(*context), ..plain_model(model) })
            .collect(),
        ..catalog_provider(id, None, None)
    }
}

fn id_of(m: Option<&CatalogModel>) -> Option<&str> {
    m.map(|m| m.id.as_str())
}

fn no_env() -> TextMap<String> {
    TextMap::new()
}

#[test]
fn find_model_matches_exact_vendor_tail_and_dated_aliases() {
    let provider = test_provider(
        "acme",
        &[
            ("gpt-5.4", 128_000),
            ("gpt-5.4-mini", 400_000),
            ("acme-sonnet-4-5-20250929", 200_000),
            ("moonshotai/kimi-k2-instruct", 131_072),
        ],
    );
    assert_eq!(id_of(find_model(&provider, "gpt-5.4")), Some("gpt-5.4"));
    assert_eq!(
        id_of(find_model(&provider, "moonshotai/kimi-k2-instruct")),
        Some("moonshotai/kimi-k2-instruct")
    );
    assert_eq!(id_of(find_model(&provider, "moonshotai/gpt-5.4")), Some("gpt-5.4"));
    assert_eq!(
        id_of(find_model(&provider, "acme-sonnet-4-5")),
        Some("acme-sonnet-4-5-20250929")
    );
    assert_eq!(
        id_of(find_model(&provider, "acme-sonnet-4-5-20250929")),
        Some("acme-sonnet-4-5-20250929")
    );
    assert_eq!(id_of(find_model(&provider, "gpt-5.4-20250101")), Some("gpt-5.4"));
    assert_eq!(id_of(find_model(&provider, "gpt-5.4-2025-01-01")), Some("gpt-5.4"));
    assert_eq!(id_of(find_model(&provider, "gpt-5.4-mini")), Some("gpt-5.4-mini"));
    assert_eq!(id_of(find_model(&provider, "gpt-5.4-preview")), None);
    assert_eq!(id_of(find_model(&provider, "unknown")), None);
    assert_eq!(id_of(find_model(&provider, "")), None);
}

#[test]
fn context_length_resolves_through_dated_alias() {
    let provider = test_provider("anthropic", &[("acme-sonnet-4-5-20250929", 200_000)]);
    assert_eq!(context_length(&provider, "acme-sonnet-4-5"), Some(200_000));
}

#[test]
fn find_model_matches_unique_tagged_variant() {
    let provider = test_provider(
        "ollama-cloud",
        &[
            ("glm-5.3", 1_310_720),
            ("glm-5.3-flash:cloud", 1_310_720),
            ("gpt-oss:20b", 131_072),
            ("gpt-oss:120b", 131_072),
            ("kimi-k3", 1_048_576),
            ("deepseek-v4-flash", 1_048_576),
            ("deepseek-v4-flash:0731", 1_048_576),
        ],
    );
    assert_eq!(
        id_of(find_model(&provider, "glm-5.3-flash")),
        Some("glm-5.3-flash:cloud")
    );
    assert_eq!(id_of(find_model(&provider, "kimi-k3:cloud")), Some("kimi-k3"));
    assert_eq!(id_of(find_model(&provider, "gpt-oss:120b")), Some("gpt-oss:120b"));
    assert_eq!(id_of(find_model(&provider, "gpt-oss")), None);
    assert_eq!(id_of(find_model(&provider, "deepseek-v4-flash:cloud")), None);
    assert_eq!(id_of(find_model(&provider, "glm-5.3")), Some("glm-5.3"));
}

#[test]
fn context_length_resolves_through_tagged_variant() {
    let provider = test_provider(
        "ollama-cloud",
        &[("glm-5.3", 1_310_720), ("glm-5.3-flash:cloud", 1_310_720)],
    );
    assert_eq!(context_length(&provider, "glm-5.3-flash"), Some(1_310_720));
}

#[test]
fn aliases_and_tags_are_told_apart() {
    assert_eq!(strip_tag("gpt-oss:20b"), "gpt-oss");
    assert_eq!(strip_tag("gpt-oss"), "gpt-oss");
    assert!(is_dated_alias("m-20250101", "m"));
    assert!(is_dated_alias("m-2025-01-01", "m"));
    assert!(!is_dated_alias("m-2025", "m"));
    assert!(!is_dated_alias("m", "m"));
    assert!(!is_dated_alias("-20250101", ""));
}

fn effort_model(id: &str, values: &[&str]) -> CatalogModel {
    CatalogModel {
        reasoning: true,
        reasoning_options: vec![EffortOption {
            kind: "effort".to_string(),
            values: values.iter().map(|v| v.to_string()).collect(),
        }],
        ..plain_model(id)
    }
}

fn variant_provider(models: Vec<CatalogModel>) -> CatalogProvider {
    CatalogProvider { models, ..catalog_provider("acme", None, None) }
}

fn acme(catalog: &str) -> ProviderConfig {
    ProviderConfig::new("acme", "openai", None, None).with_catalog(Some(catalog))
}

fn chosen(effort: &str) -> Option<NextVariant> {
    Some(NextVariant::Chosen(effort.to_string()))
}

#[test]
fn model_variants_reads_the_effort_option() {
    let model = effort_model("gpt-5.4", &["low", "medium", "high"]);
    assert_eq!(model_variants(&model), vec!["low", "medium", "high"]);
    assert!(model_variants(&plain_model("gpt-4o")).is_empty());
}

#[test]
fn next_variant_cycles_through_the_default() {
    let catalog = vec![variant_provider(vec![effort_model(
        "gpt-5.4",
        &["low", "medium", "high"],
    )])];
    let pc = acme("acme");
    let next = |current: Option<&str>| next_variant(&catalog, &pc, "gpt-5.4", current);
    assert_eq!(next(None), chosen("low"), "unset current starts at the first");
    assert_eq!(next(Some("low")), chosen("medium"));
    assert_eq!(next(Some("medium")), chosen("high"));
    assert_eq!(
        next(Some("high")),
        Some(NextVariant::Default),
        "last wraps to the default"
    );
    assert_eq!(next(Some("xhigh")), chosen("low"), "unknown current restarts the cycle");
}

#[test]
fn next_variant_matches_model_ids_loosely() {
    let catalog = vec![variant_provider(vec![effort_model(
        "acme-opus-4-6-20251101",
        &["low", "medium", "high"],
    )])];
    assert_eq!(
        next_variant(&catalog, &acme("acme"), "acme-opus-4-6", None),
        chosen("low"),
        "the dated alias resolves"
    );
}

#[test]
fn next_variant_is_none_without_catalog_variants() {
    let catalog = vec![variant_provider(vec![plain_model("gpt-4o")])];
    let pc = acme("acme");
    assert_eq!(next_variant(&catalog, &pc, "gpt-4o", None), None);
    assert_eq!(next_variant(&catalog, &pc, "unknown-model", None), None);
}

#[test]
fn next_variant_clears_a_stale_variant_without_catalog_variants() {
    let catalog = vec![variant_provider(vec![plain_model("gpt-4o")])];
    assert_eq!(
        next_variant(&catalog, &acme("acme"), "gpt-4o", Some("high")),
        Some(NextVariant::Default),
        "a variant the model no longer declares cycles back to the default"
    );
}

#[test]
fn next_variant_is_none_for_unknown_catalog_id() {
    let catalog = vec![variant_provider(vec![effort_model("gpt-5.4", &["low", "high"])])];
    assert_eq!(next_variant(&catalog, &acme("elsewhere"), "gpt-5.4", None), None);
    let pc = ProviderConfig::new("acme", "ollama", None, None);
    assert_eq!(
        next_variant(&catalog, &pc, "gpt-5.4", None),
        None,
        "no catalog id and `ollama` is not a catalog entry here"
    );
}

#[test]
fn parses_all_transport_kinds() {
    for (name, expected) in [
        ("openai", Transport::Openai),
        ("openai-compat", Transport::OpenaiCompat),
        ("openrouter", Transport::Openrouter),
        ("vercel", Transport::Vercel),
        ("anthropic", Transport::Anthropic),
        ("google", Transport::Google),
        ("azure", Transport::Azure),
        ("bedrock", Transport::Bedrock),
        ("google-vertex", Transport::GoogleVertex),
        ("ollama", Transport::Ollama),
    ] {
        assert_eq!(parse_provider_type(name), Some(expected), "{name}");
        assert_eq!(provider_type_name(expected), name);
    }
    assert_eq!(parse_provider_type("ollama-cloud"), None);
    assert_eq!(parse_provider_type(""), None);
}

#[test]
fn provider_type_prefers_transport_then_legacy_catalog_id() {
    let catalog = vec![catalog_provider("ollama-cloud", Some(Transport::Ollama), None)];
    assert_eq!(provider_type(&catalog, "ollama"), Transport::Ollama);
    assert_eq!(provider_type(&catalog, "ollama-cloud"), Transport::Ollama);
    assert_eq!(provider_type(&catalog, "gemini"), Transport::OpenaiCompat);
}

#[test]
fn base_url_prefers_override_then_type_default_then_catalog() {
    let catalog = vec![catalog_provider(
        "acme",
        Some(Transport::OpenaiCompat),
        Some("https://acme.example/v1"),
    )];
    let base_url = |kind: &str, given: Option<&str>| base_url_for(&catalog, kind, given, &no_env());
    assert_eq!(base_url("ollama", None).as_deref(), Some("http://localhost:11434"));
    assert_eq!(base_url("ollama", Some("  ")).as_deref(), Some("http://localhost:11434"));
    assert_eq!(base_url("anthropic", None), None);
    assert_eq!(base_url("openai", None), None);
    assert_eq!(base_url("acme", None).as_deref(), Some("https://acme.example/v1"));
    assert_eq!(
        base_url("acme", Some("https://x.dev/v1")).as_deref(),
        Some("https://x.dev/v1")
    );
    assert_eq!(base_url("unknown", None), None);
}

#[test]
fn base_url_skips_unresolved_env_placeholders() {
    let catalog = vec![catalog_provider(
        "anthropic",
        Some(Transport::Anthropic),
        Some("$ANTHROPIC_API_ENDPOINT"),
    )];
    assert_eq!(base_url_for(&catalog, "anthropic", None, &no_env()), None);
}

#[test]
fn effective_base_url_resolves_env() {
    let mut env = no_env();
    env.insert("SHUVARIE_TEST_ENDPOINT".to_string(), "https://env.example/v1".to_string());
    let provider = catalog_provider("x", None, Some("$SHUVARIE_TEST_ENDPOINT"));
    assert_eq!(
        effective_base_url(&provider, None, &env).as_deref(),
        Some("https://env.example/v1")
    );
    assert_eq!(effective_base_url(&provider, None, &no_env()), None);
}

#[test]
fn placeholders_are_resolved_in_place() {
    let mut env = no_env();
    env.insert("HOST".to_string(), "h.dev".to_string());
    assert_eq!(resolve_env("https://$HOST/v1", &env), "https://h.dev/v1");
    assert_eq!(resolve_env("https://${HOST}/v1", &env), "https://h.dev/v1");
    assert_eq!(resolve_env("no placeholder", &env), "no placeholder");
}

#[test]
fn is_connectable_transport_rules() {
    let state = CatalogState::new();
    let catalog = providers(&state);
    let local = ProviderConfig::new("local", "ollama", None, None);
    assert!(is_connectable(catalog, &local));
    let remote = ProviderConfig::new("remote", "openai-compat", None, None);
    assert!(!is_connectable(catalog, &remote));
    let keyed = ProviderConfig::new("remote", "openai", Some("sk-x".into()), None);
    assert!(is_connectable(catalog, &keyed));
    let blank_key = ProviderConfig::new("remote", "anthropic", Some("  ".into()), None);
    assert!(!is_connectable(catalog, &blank_key));
}

#[test]
fn is_connectable_legacy_catalog_kinds() {
    let state = CatalogState::new();
    let catalog = providers(&state);
    let groq = ProviderConfig::new("groq", "groq", None, None);
    assert!(!is_connectable(catalog, &groq), "catalog entry requires a key");
    let groq = ProviderConfig::new("groq", "groq", Some("gsk-x".into()), None);
    assert!(is_connectable(catalog, &groq));
}

#[test]
fn is_connectable_explicit_catalog_governs() {
    let state = CatalogState::new();
    let catalog = providers(&state);
    let pc = ProviderConfig::new("groq-compat", "openai-compat", Some("gsk-x".into()), None)
        .with_catalog(Some("groq"));
    assert!(is_connectable(catalog, &pc));
    let pc = ProviderConfig::new("copilot", "openai-compat", None, None)
        .with_catalog(Some("copilot"));
    assert!(is_connectable(catalog, &pc), "catalog entry needs no key");
}

#[test]
fn the_active_provider_decides_whether_one_is_connected() {
    let catalog = vec![];
    let mut connections = Connections::default();
    assert!(!has_connected_providers(&catalog, &connections));
    connections.providers.insert(
        "local".to_string(),
        ProviderConfig::new("local", "ollama", None, None),
    );
    assert!(!has_connected_providers(&catalog, &connections));
    connections.active =
        Some(Active { provider: "local".to_string(), model: None, variant: None });
    assert!(has_connected_providers(&catalog, &connections));
}

#[test]
fn the_embedded_catalog_is_read() {
    let state = CatalogState::new();
    let anthropic = find_provider(providers(&state), "anthropic").unwrap();
    assert_eq!(anthropic.id, "anthropic");
    assert_eq!(anthropic.kind, Some(Transport::Anthropic));
    let small = default_small_model(anthropic).unwrap();
    assert!(small.ends_with("-haiku-4-5-20251001"), "{small}");
    let haiku = find_model(anthropic, small).unwrap();
    assert!(haiku.context.is_some());
    assert!(anthropic
        .models
        .iter()
        .any(|m| m.reasoning_options.iter().any(|o| !o.kind.is_empty())));
}

#[test]
fn a_fetched_catalog_takes_over() {
    let mut state = CatalogState::new();
    assert!(!remote_registry_loaded(&state));
    assert!(registry_providers(&state, true).is_empty());
    refresh(&mut state, Err("offline".to_string()));
    refresh(&mut state, Ok(vec![]));
    assert!(remote_registry(&state).is_none());
    assert!(fetch_remote(&mut state, Ok(vec![])).is_err());
    assert_eq!(fetch_remote(&mut state, Err("offline".to_string())), Err("offline".to_string()));
    fetch_remote(&mut state, Ok(vec![catalog_provider("acme", None, None)])).unwrap();
    assert_eq!(providers(&state).len(), 1);
    assert_eq!(registry_providers(&state, true).len(), 1);
    assert!(registry_providers(&state, false).len() > 1);
}

#[test]
fn enrichment_fills_in_what_is_missing() {
    let provider = test_provider("acme", &[("m", 128_000), ("odd", -5)]);
    let info = |id: &str, known: Option<u32>| {
        let mut info = ModelInfo { id: id.to_string(), context_length: known };
        enrich(&provider, &mut info);
        info.context_length
    };
    assert_eq!(info("m", None), Some(128_000));
    assert_eq!(info("m", Some(1)), Some(1));
    assert_eq!(info("odd", None), Some(0));
    assert_eq!(info("unknown", None), None);
}
