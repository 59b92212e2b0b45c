use shuvarie_core::agents::{build_workers, WorkerPlan};
use shuvarie_core::llm::{ChatMsg, Role};
use shuvarie_core::scenes::{
    history_for, inject_history, is_switchable, Hooks, Scene, SceneConfig, SceneToolVerb,
    SceneToolsConfig, ScenesConfig, SubagentConfig, SubagentsConfig, SystemPromptsConfig,
    ToolOverride, ToolScene, DEFAULT_INTERLUDE, DEFAULT_SCENE_NAME,
};
use shuvarie_core::text_map::TextMap;

fn config_of(entries: Vec<(&str, SceneConfig)>) -> ScenesConfig {
    let mut config = ScenesConfig::default();
    for (name, scene) in entries {
        config.scenes.insert(name.to_string(), scene);
    }
    config
}

fn tool_rules(entries: Vec<(&str, Option<bool>, Option<bool>)>) -> TextMap<ToolOverride> {
    let mut tools = TextMap::new();
    for (name, disabled, ask) in entries {
        tools.insert(name.to_string(), ToolOverride { disabled, ask });
    }
    tools
}

fn names(workers: &[WorkerPlan]) -> Vec<&str> {
    workers.iter().map(|w| w.name).collect()
}

#[test]
fn default_scene_builds_the_full_roster() {
    let set = build_workers(&Scene::default(), false, false);
    assert_eq!(names(&set), vec!["explore_workspace", "run_tests", "edit_files"]);
}

#[test]
fn subagents_disabled_empties_the_roster() {
    let config = config_of(vec![(
        "Solo",
        SceneConfig {
            subagents: SubagentsConfig { disabled: true, ..Default::default() },
            ..Default::default()
        },
    )]);
    let scene = Scene::resolve(&config, Some("Solo"));
    assert!(build_workers(&scene, false, false).is_empty());
}

#[test]
fn worker_override_replaces_the_preamble_and_disables_the_worker() {
    let mut workers = TextMap::new();
    workers.insert(
        "edit_files".to_string(),
        SubagentConfig { disabled: true, ..Default::default() },
    );
    workers.insert(
        "explore_workspace".to_string(),
        SubagentConfig {
            system_prompts: SystemPromptsConfig {
                prelude: Some("You are a librarian.".into()),
                interlude: Some("Stay quiet.".into()),
                ..Default::default()
            },
            ..Default::default()
        },
    );
    let config = config_of(vec![(
        "Plan",
        SceneConfig {
            subagents: SubagentsConfig { disabled: false, workers },
            ..Default::default()
        },
    )]);
    let scene = Scene::resolve(&config, Some("Plan"));
    let set = build_workers(&scene, false, false);
    assert_eq!(names(&set), vec!["explore_workspace", "run_tests"]);
    let explorer = &set[0];
    assert_eq!(
        explorer.preamble, "You are a librarian.\n\nStay quiet.",
        "the override replaces the preamble and the interlude appends"
    );
}

#[test]
fn worker_rosters_follow_the_search_and_skill_tools() {
    let set = build_workers(&Scene::default(), true, true);
    let explorer: Vec<&str> = set[0].tools.iter().map(|t| t.name).collect();
    assert!(explorer.contains(&"web_search"));
    assert!(explorer.contains(&"skill"));
    let tester: Vec<&str> = set[1].tools.iter().map(|t| t.name).collect();
    assert_eq!(tester, vec!["run_shell"]);
}

#[test]
fn resolves_the_persisted_scene() {
    let config = ScenesConfig::default();
    let resolved = Scene::resolve(&config, None);
    assert!(resolved.is_default());
    assert_eq!(resolved.display_name(), DEFAULT_SCENE_NAME);
    assert_eq!(resolved.description(), None);
    assert_eq!(resolved.prelude(), None);
    assert_eq!(resolved.interlude(), Some(DEFAULT_INTERLUDE));
    assert!(resolved.tools().allows("run_shell"));
    assert!(!resolved.tools().forces_ask("run_shell"));
}

#[test]
fn switchability_needs_a_non_empty_interlude() {
    let config = config_of(vec![
        (
            "Plan",
            SceneConfig {
                system_prompts: SystemPromptsConfig {
                    interlude: Some("We switched to Plan mode.".into()),
                    ..Default::default()
                },
                ..Default::default()
            },
        ),
        ("Draft", SceneConfig::default()),
    ]);
    assert!(config.scenes.get("Plan").map(is_switchable).unwrap_or(false));
    assert_eq!(config.scenes.get("Draft").map(is_switchable), Some(false));
    let blank = SceneConfig {
        system_prompts: SystemPromptsConfig {
            interlude: Some("   ".into()),
            ..Default::default()
        },
        ..Default::default()
    };
    assert!(!is_switchable(&blank), "a whitespace-only interlude is absent");
}

#[test]
fn unknown_scene_falls_back_to_builtin() {
    let config = ScenesConfig::default();
    let resolved = Scene::resolve(&config, Some("Ghost"));
    assert!(resolved.is_default(), "unresolvable name falls back");
    assert_eq!(resolved.display_name(), DEFAULT_SCENE_NAME);
}

#[test]
fn a_configured_default_resolves_over_the_builtin() {
    let config = config_of(vec![(
        "Default",
        SceneConfig {
            description: Some("custom default".into()),
            tools: SceneToolsConfig {
                verb: Some(SceneToolVerb::AskAll),
                ..Default::default()
            },
            ..Default::default()
        },
    )]);
    let resolved = Scene::resolve(&config, Some("Default"));
    assert!(!resolved.is_default(), "the configured scene wins");
    assert_eq!(resolved.display_name(), "Default");
    assert_eq!(resolved.description(), Some("custom default"));
    assert!(resolved.tools().forces_ask("run_shell"));
}

#[test]
fn resolution_reads_the_configured_scene() {
    let config = config_of(vec![(
        "Plan",
        SceneConfig {
            description: Some("plan first".into()),
            system_prompts: SystemPromptsConfig {
                prelude: Some("You are a planner.".into()),
                interlude: Some("We switched to Plan mode.".into()),
                ..Default::default()
            },
            ..Default::default()
        },
    )]);
    let resolved = Scene::resolve(&config, Some("Plan"));
    assert!(!resolved.is_default());
    assert_eq!(resolved.display_name(), "Plan");
    assert_eq!(resolved.description(), Some("plan first"));
    assert_eq!(resolved.prelude(), Some("You are a planner."));
    assert_eq!(resolved.interlude(), Some("We switched to Plan mode."));
}

#[test]
fn tool_scene_verbs_and_overrides() {
    let tools_cfg = SceneToolsConfig {
        verb: Some(SceneToolVerb::DisableAll),
        tools: tool_rules(vec![
            ("read_file", Some(false), None),
            ("grep", Some(false), None),
            ("run_shell", Some(false), Some(true)),
        ]),
    };
    let tools = ToolScene::build(Some(&tools_cfg));
    assert!(!tools.allows("write_file"), "disable-all removes tools");
    assert!(tools.allows("read_file"), "explicit re-enable survives");
    assert!(tools.allows("grep"));
    assert!(tools.forces_ask("run_shell"), "re-enabled and asking");
    assert!(!tools.forces_ask("read_file"));

    let config = config_of(vec![(
        "Plan",
        SceneConfig {
            tools: SceneToolsConfig {
                verb: Some(SceneToolVerb::AskAll),
                tools: tool_rules(vec![("read_file", Some(true), None)]),
            },
            ..Default::default()
        },
    )]);
    let scene = Scene::resolve(&config, Some("Plan"));
    let tools = scene.tools();
    assert!(!tools.allows("read_file"), "per-tool disabled beats ask-all");
    assert!(tools.forces_ask("write_file"), "ask-all asks everything");
    assert!(tools.allows("write_file"));

    let config = config_of(vec![(
        "Plan",
        SceneConfig {
            tools: SceneToolsConfig {
                verb: None,
                tools: tool_rules(vec![("run_shell", None, Some(true))]),
            },
            ..Default::default()
        },
    )]);
    let scene = Scene::resolve(&config, Some("Plan"));
    let tools = scene.tools();
    assert!(tools.allows("run_shell"));
    assert!(tools.forces_ask("run_shell"));
    assert!(tools.allows("write_file"));
    assert!(!tools.forces_ask("write_file"));
}

#[test]
fn injection_passes_default_history_through() {
    let prior = vec![ChatMsg::user("hi"), ChatMsg::assistant("hello")];
    let injected = inject_history(&Scene::default(), &prior, Some("next"));
    assert_eq!(
        injected,
        vec![
            ChatMsg::system(DEFAULT_INTERLUDE),
            ChatMsg::user("hi"),
            ChatMsg::assistant("hello"),
        ],
        "the built-in scene injects only its default interlude"
    );
    let empty = inject_history(&Scene::default(), &[], Some("next"));
    assert_eq!(empty, vec![ChatMsg::system(DEFAULT_INTERLUDE)]);
}

fn hooked() -> ScenesConfig {
    config_of(vec![(
        "Plan",
        SceneConfig {
            system_prompts: SystemPromptsConfig {
                prelude: Some("p".into()),
                interlude: Some("switched".into()),
                before_each: Some(Hooks {
                    user_prompt: Some("BU".into()),
                    assistant_prompt: Some("BA".into()),
                    turn: Some("BT".into()),
                }),
                after_each: Some(Hooks {
                    user_prompt: Some("AU".into()),
                    assistant_prompt: Some("AA".into()),
                    turn: Some("AT".into()),
                }),
            },
            ..Default::default()
        },
    )])
}

fn rendered(messages: &[ChatMsg]) -> Vec<(char, &str)> {
    messages
        .iter()
        .map(|m| {
            (
                match m.role {
                    Role::System => 's',
                    Role::User => 'u',
                    Role::Assistant => 'a',
                },
                m.content.as_str(),
            )
        })
        .collect()
}

#[test]
fn injection_wraps_messages_and_appends_the_pending_hooks() {
    let config = hooked();
    let scene = Scene::resolve(&config, Some("Plan"));
    let prior = vec![
        ChatMsg::user("u1"),
        ChatMsg::assistant("a1"),
        ChatMsg::user("u2"),
    ];
    let injected = inject_history(&scene, &prior, Some("u3"));
    assert_eq!(
        rendered(&injected),
        vec![
            ('s', "switched"),
            ('s', "BT"),
            ('s', "BU"),
            ('u', "u1"),
            ('s', "AU"),
            ('s', "BA"),
            ('a', "a1"),
            ('s', "AA"),
            ('s', "AT"),
            ('s', "BT"),
            ('s', "BU"),
            ('u', "u2"),
            ('s', "AU"),
            ('s', "BT"),
            ('s', "BU"),
        ]
    );
}

#[test]
fn history_without_announcement_leaves_the_interlude_out() {
    let config = hooked();
    let scene = Scene::resolve(&config, Some("Plan"));
    let prior = vec![ChatMsg::user("u1")];
    let quiet = history_for(&scene, &prior, false, false);
    assert_eq!(
        rendered(&quiet),
        vec![('s', "BT"), ('s', "BU"), ('u', "u1"), ('s', "AU")]
    );
    let told = history_for(&scene, &prior, false, true);
    assert_eq!(told[0], ChatMsg::system("switched"));
    assert_eq!(&told[1..], &quiet[..]);
}
