use shuvarie_core::config::{
    config_dir, map_error, AgentConfig, Config, ContextConfig, LspConfigRepr, LspServerSpecRepr,
    ValuePlace,
};
use shuvarie_core::error::{error_at, span_to_line_column, CoreError};
use shuvarie_core::lsp_manager::{lsp_config_from_repr, lsp_config_to_repr};
use shuvarie_core::mcp_manager::{
    mcp_specs, EnvsConfig, McpConfig, McpHttpConfig, McpServerSpec, McpStdioConfig,
};
use shuvarie_core::text_map::TextMap;

fn go_repr() -> LspConfigRepr {
    let mut servers = TextMap::new();
    servers.insert(
        "go".to_string(),
        LspServerSpecRepr {
            command: vec!["gopls".to_string()],
            extensions: vec![".go".to_string()],
            no_auto_start: true,
            root_markers: vec!["go.mod".to_string()],
        },
    );
    LspConfigRepr { disabled: true, servers }
}

#[test]
fn lsp_manager_lsp_mirror_converts() {
    let repr = go_repr();
    let lsp = lsp_config_from_repr(&repr);
    assert!(!lsp.enabled);
    assert_eq!(lsp.servers.get("go").expect("go").command[0], "gopls");
    let back = lsp_config_to_repr(&lsp);
    assert_eq!(repr, back);
}

#[test]
fn config_lsp_mirror_converts() {
    let repr = go_repr();
    let lsp = lsp_config_from_repr(&repr);
    assert!(!lsp.servers.get("go").expect("go").auto_start);
    assert_eq!(lsp.servers.get("go").expect("go").root_markers, vec!["go.mod"]);
    assert_eq!(lsp_config_to_repr(&lsp), repr);
}

#[test]
fn lsp_conversion_is_invertible_on_defaults() {
    let lsp = lsp_config_from_repr(&LspConfigRepr::default());
    assert!(lsp.enabled);
    assert!(lsp.servers.is_empty());
    assert_eq!(lsp_config_to_repr(&lsp), LspConfigRepr::default());
}

fn map_of(entries: &[(&str, &str)]) -> TextMap<String> {
    let mut map = TextMap::new();
    for (k, v) in entries {
        map.insert(k.to_string(), v.to_string());
    }
    map
}

#[test]
fn converts_stdio_and_http_with_resolved_placeholders() {
    let mut config = McpConfig { stdio: TextMap::new(), http: TextMap::new() };
    config.stdio.insert(
        "github".to_string(),
        McpStdioConfig {
            command: "npx".to_string(),
            args: vec![
                "-y".to_string(),
                "@modelcontextprotocol/server-github".to_string(),
            ],
            envs: EnvsConfig {
                inherit: false,
                entries: map_of(&[
                    ("PLAIN", "value"),
                    ("UNSET", "$SHUVARIE_DEFINITELY_UNSET_12345"),
                ]),
            },
        },
    );
    config.http.insert(
        "deepwiki".to_string(),
        McpHttpConfig {
            url: "https://mcp.deepwiki.com/mcp".to_string(),
            headers: map_of(&[("Authorization", "$SHUVARIE_DEFINITELY_UNSET_67890")]),
        },
    );

    let specs = mcp_specs(&config, &TextMap::new());
    assert_eq!(specs.len(), 2);
    let McpServerSpec::Stdio { command, args, envs } = specs.get("github").expect("github") else {
        panic!("expected the stdio transport");
    };
    assert_eq!(command, "npx");
    assert_eq!(
        args,
        &vec![
            "-y".to_string(),
            "@modelcontextprotocol/server-github".to_string()
        ]
    );
    assert!(!envs.inherit);
    assert_eq!(envs.entries.get("PLAIN").map(String::as_str), Some("value"));
    assert_eq!(
        envs.entries.get("UNSET").map(String::as_str),
        Some("$SHUVARIE_DEFINITELY_UNSET_12345")
    );

    let McpServerSpec::Http { url, headers } = specs.get("deepwiki").expect("deepwiki") else {
        panic!("expected the http transport");
    };
    assert_eq!(url, "https://mcp.deepwiki.com/mcp");
    assert_eq!(
        headers.get("Authorization").map(String::as_str),
        Some("$SHUVARIE_DEFINITELY_UNSET_67890")
    );

    let specs = mcp_specs(&config, &map_of(&[("SHUVARIE_DEFINITELY_UNSET_67890", "token")]));
    let McpServerSpec::Http { headers, .. } = specs.get("deepwiki").expect("deepwiki") else {
        panic!("expected the http transport");
    };
    assert_eq!(headers.get("Authorization").map(String::as_str), Some("token"));
}

#[test]
fn empty_config_yields_no_specs() {
    let config = McpConfig { stdio: TextMap::new(), http: TextMap::new() };
    assert!(mcp_specs(&config, &TextMap::new()).is_empty());
}

#[test]
fn what_is_reserved_cannot_be_used() {
    let context = ContextConfig::default();
    assert_eq!(context.usable(128_000), 108_000);
    assert_eq!(context.usable(5), 0);
}

#[test]
fn no_limit_stands_for_the_largest() {
    let agent = AgentConfig::default();
    assert_eq!(agent.effective_max_turns(), usize::MAX);
    let agent = AgentConfig { max_turns: 3, worker_max_turns: 4 };
    assert_eq!(agent.effective_max_turns(), 3);
    assert_eq!(agent.effective_worker_max_turns(), 4);
}

#[test]
fn places_are_counted_from_one() {
    assert_eq!(span_to_line_column("ab\ncd", 0, 2), (1, 1, 2));
    assert_eq!(span_to_line_column("ab\ncd", 4, 1), (2, 2, 1));
    assert_eq!(span_to_line_column("ab", 99, 0), (1, 3, 0));
    assert_eq!(span_to_line_column("ä\nö", 2, 1), (2, 1, 1));
}

#[test]
fn errors_are_shown_with_their_place() {
    let e = error_at("ab\ncd", 3, 2, "bad".to_string(), Some("fix it".to_string()));
    assert_eq!(e.text(), "2:1: bad (fix it)");
    assert_eq!(CoreError::ConfigIo("denied".to_string()).text(), "denied");
    let place = ValuePlace {
        input: "x 1".to_string(),
        message: Some("expected a string".to_string()),
        help: None,
        offset: 2,
        length: 1,
    };
    assert_eq!(map_error(&Some(place), "fallback").text(), "1:3: expected a string");
}

#[test]
fn the_configuration_stands_in_the_settings_directory() {
    assert_eq!(config_dir(Some("/c")).unwrap(), "/c/shuvarie");
    assert_eq!(Config::config_path(Some("/c/")).unwrap(), "/c/shuvarie/config.kdl");
    assert!(Config::config_path(None).is_err());
}
