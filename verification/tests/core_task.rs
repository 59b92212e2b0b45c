use shuvarie_core::catalog::{CatalogModel, CatalogProvider};
use shuvarie_core::command::Command;
use shuvarie_core::config::ContextConfig;
use shuvarie_core::context::LoadedContext;
use shuvarie_core::compaction::SUMMARY_PREAMBLE;
use shuvarie_core::core_task::compact::{
    compaction_steps, fork_summary, plan_summary, summary_added, summary_made, summary_steps,
    SummaryMade, SummaryPlan, SummaryStep,
};
use shuvarie_core::core_task::request::{
    announce_scene, build_request, context_news, scene_list, scene_stored, switch_scene,
    SceneSwitch, AGENT_PREAMBLE,
};
use shuvarie_core::core_task::retry::{next_connection_retry, RetrySchedule};
use shuvarie_core::core_task::run::{
    branch_loaded, fork_done, lsp_started, lsp_stopped, mcp_reconnected, replay_forked,
    replay_reloaded, Action, ForkFailure,
    Facts, LockAnswer, LoopState, SessionFacts,
};
use shuvarie_core::core_task::services::{
    begin_startup, login_done, login_target, models_listed, registry_reply, resumed_prompt,
    save_failure, startup_found, startup_locked, title_drafter, title_failure, LoginReply, StartupSession, StartupStep,
};
use shuvarie_core::core_task::steer::{SteerSignal, SteerState};
use shuvarie_core::core_task::stream::{StreamOutcome, TurnStream};
use shuvarie_core::core_task::target::{
    choose_target, client_settings, context_budget, resolve_model_override,
};
use shuvarie_core::core_task::tree::{
    chain_of, fork_session, resume_point, subtree_contains, ForkPlan,
};
use shuvarie_core::core_task::turn_end::{reply_place, reply_row_added, reply_stored};
use shuvarie_core::core_task::turn_start::{
    begin_turn, ensure_session, lock_settled, prompt_stored, repeat_prompt,
    repeated_prompt_stored, session_made, TurnAction,
};
use shuvarie_core::llm::{ChatMsg, ModelInfo, Role, TokenUsage};
use shuvarie_core::scenes::{
    Scene, SceneConfig, ScenesConfig, SystemPromptsConfig, DEFAULT_INTERLUDE, DEFAULT_SCENE_NAME,
};
use shuvarie_core::session::Session;
use shuvarie_core::settings::{Active, Connections, ProviderConfig};
use shuvarie_core::skills::Skills;
use shuvarie_core::stored::{
    StoredMessage, StoredScroll, StoredSession, StoredToolCall, EMPTY_LEAF,
};

fn provider(id: &str, kind: &str) -> ProviderConfig {
    ProviderConfig::new(id, kind, Some("tok".into()), None)
}

fn connections_with(providers: &[(&str, &str)]) -> Connections {
    let mut connections = Connections::default();
    for (id, kind) in providers {
        connections.providers.insert(id.to_string(), provider(id, kind));
    }
    connections
}

fn ids(names: &[&str]) -> Vec<String> {
    names.iter().map(|n| n.to_string()).collect()
}

fn overridden(
    connections: &Connections,
    use_ids: &[&str],
    spec: &str,
) -> Result<(String, String), String> {
    resolve_model_override(connections, &ids(use_ids), &vec![], spec)
}

fn pair(a: &str, b: &str) -> (String, String) {
    (a.to_string(), b.to_string())
}

#[test]
fn model_override_resolves_the_matching_default_provider() {
    let connections = connections_with(&[
        ("openai-a", "openai"),
        ("openai-b", "openai"),
        ("anthropic-c", "anthropic"),
    ]);
    assert_eq!(
        overridden(&connections, &["openai-b"], "openai/gpt-6").unwrap(),
        pair("openai-b", "gpt-6")
    );
    assert_eq!(
        overridden(&connections, &["openai-b"], "anthropic/acme-x").unwrap(),
        pair("anthropic-c", "acme-x")
    );
}

#[test]
fn model_override_last_matching_use_entry_wins() {
    let connections = connections_with(&[("a", "openai"), ("b", "openai"), ("c", "openai")]);
    assert_eq!(
        overridden(&connections, &["a", "b"], "openai/m").unwrap(),
        pair("b", "m")
    );
}

#[test]
fn model_override_skips_entries_whose_type_no_longer_matches() {
    let connections = connections_with(&[("a", "openai"), ("c", "anthropic")]);
    assert_eq!(overridden(&connections, &["c"], "openai/m").unwrap(), pair("a", "m"));
}

#[test]
fn model_override_skips_entries_whose_connection_vanished() {
    let connections = connections_with(&[("a", "openai")]);
    assert_eq!(overridden(&connections, &["ghost"], "openai/m").unwrap(), pair("a", "m"));
}

#[test]
fn model_override_errors() {
    let connections = connections_with(&[("a", "openai")]);
    let error = overridden(&connections, &[], "anthropic/m").unwrap_err();
    assert!(
        error.contains("no provider connection of type `anthropic`"),
        "{error}"
    );
    let error = overridden(&connections, &[], "nosuchtype/m").unwrap_err();
    assert!(error.contains("unknown provider type"), "{error}");
    let error = overridden(&connections, &[], "nomodel").unwrap_err();
    assert!(error.contains("expected `<provider>/<model>`"), "{error}");
}

#[test]
fn a_turn_goes_to_the_provider_in_use() {
    let mut connections = connections_with(&[("a", "openai")]);
    let target = |c: &Connections, spec: Option<&str>| choose_target(c, &vec![], &vec![], spec);
    assert_eq!(target(&connections, None).unwrap_err(), "no active provider");
    connections.active = Some(Active { provider: "a".into(), model: None, variant: None });
    assert_eq!(target(&connections, None).unwrap_err(), "no active model");
    connections.active =
        Some(Active { provider: "a".into(), model: Some("m".into()), variant: None });
    assert_eq!(target(&connections, None).unwrap(), pair("a", "m"));
    assert_eq!(target(&connections, Some("openai/x")).unwrap(), pair("a", "x"));
    assert!(client_settings(&connections, true, "ghost").unwrap().is_none());
    assert_eq!(client_settings(&connections, false, "a").unwrap().unwrap().kind, "openai");
    assert_eq!(
        client_settings(&connections, false, "ghost").unwrap_err(),
        "provider 'ghost' not found"
    );
}

fn catalog_entry(id: &str, model: &str, context: i64) -> CatalogProvider {
    CatalogProvider {
        name: id.to_string(),
        id: id.to_string(),
        api_key: None,
        api_endpoint: None,
        kind: None,
        default_large_model_id: None,
        default_small_model_id: None,
        models: vec![CatalogModel {
            id: model.to_string(),
            name: model.to_string(),
            reasoning: false,
            reasoning_options: vec![],
            attachment: false,
            context: Some(context),
        }],
    }
}

#[test]
fn the_budget_follows_the_catalog() {
    let config = ContextConfig::default();
    let entry = catalog_entry("acme", "m", 200_000);
    assert_eq!(context_budget(&config, Some(&entry), "m").unwrap().context_length, 200_000);
    assert_eq!(context_budget(&config, Some(&entry), "x").unwrap().context_length, 128_000);
    assert_eq!(context_budget(&config, None, "m").unwrap().context_length, 128_000);
    let odd = catalog_entry("acme", "m", -1);
    assert_eq!(context_budget(&config, Some(&odd), "m").unwrap().context_length, 0);
    let off = ContextConfig { disabled: true, ..ContextConfig::default() };
    assert!(context_budget(&off, None, "m").is_none());
    let sized = context_budget(&config, None, "m").unwrap().with_preamble_tokens(7);
    assert_eq!(sized.preamble_tokens, 7);
}

#[test]
fn auth_provider_login_reports_unknown_provider() {
    let connections = Connections::default();
    let Err(LoginReply::Failed { provider, error }) = login_target(&connections, "ghost") else {
        panic!("expected a failure");
    };
    assert_eq!(provider, "ghost");
    assert!(error.contains("unknown provider"), "{error}");
}

#[test]
fn a_login_is_reported_under_the_given_name() {
    let config = ProviderConfig::new("ChatGPT", "openai", Some("tok".into()), None);
    assert!(matches!(
        login_done(&config, None),
        LoginReply::Success { provider } if provider == "ChatGPT"
    ));
    assert!(matches!(
        login_done(&config, Some("no".into())),
        LoginReply::Failed { provider, error } if provider == "ChatGPT" && error == "no"
    ));
}

#[test]
fn retry_schedule_escalates_and_caps() {
    assert_eq!(RetrySchedule::delay_secs(1), 3);
    assert_eq!(RetrySchedule::delay_secs(2), 5);
    assert_eq!(RetrySchedule::delay_secs(3), 10);
    assert_eq!(RetrySchedule::delay_secs(4), 20);
    assert_eq!(RetrySchedule::delay_secs(5), 30);
    assert_eq!(RetrySchedule::delay_secs(6), 60);
    assert_eq!(RetrySchedule::delay_secs(10), 60);
}

#[test]
fn next_connection_retry_caps_at_max() {
    assert_eq!(next_connection_retry(0, 10), Some((1, 3)));
    assert_eq!(next_connection_retry(1, 10), Some((2, 5)));
    assert_eq!(next_connection_retry(4, 10), Some((5, 30)));
    assert_eq!(next_connection_retry(5, 10), Some((6, 60)));
    assert_eq!(next_connection_retry(9, 10), Some((10, 60)));
    assert_eq!(next_connection_retry(10, 10), None);
    assert_eq!(next_connection_retry(11, 10), None);
    assert_eq!(next_connection_retry(0, 0), None, "0 = no retry");
    assert_eq!(next_connection_retry(0, 1), Some((1, 3)));
    assert_eq!(next_connection_retry(1, 1), None);
}

fn message(id: u64, parent_id: Option<u64>, role: Role, content: &str) -> StoredMessage {
    StoredMessage {
        id,
        parent_id,
        role,
        content: content.to_string(),
        reasoning: Vec::new(),
        text_segments: Vec::new(),
        interrupted: false,
        seq: id,
        usage: TokenUsage::default(),
        summary: false,
        request: TokenUsage::default(),
    }
}

fn stored(leaf_id: Option<u64>, messages: Vec<StoredMessage>) -> StoredSession {
    StoredSession {
        id: 1,
        title: "fork".into(),
        leaf_id,
        scene: None,
        scroll: StoredScroll { offset: 0, follow: false },
        messages,
        tool_calls: Vec::new(),
    }
}

fn tool_call(message_id: u64) -> StoredToolCall {
    StoredToolCall {
        id: 1,
        message_id,
        seq: 0,
        name: "read_file".into(),
        args_json: "{}".into(),
        output: "out".into(),
        stderr: String::new(),
        ok: true,
        killed: false,
        worker: None,
        file_change: None,
        original_content: None,
        new_content: None,
        duration_ms: 0,
    }
}

/// One prompt and reply after the other, with the ids 1 to 4.
fn chain_session() -> StoredSession {
    stored(
        Some(4),
        vec![
            message(1, None, Role::User, "one"),
            message(2, Some(1), Role::Assistant, "r1"),
            message(3, Some(2), Role::User, "two"),
            message(4, Some(3), Role::Assistant, "r2"),
        ],
    )
}

fn moved(st: &StoredSession, node: Option<u64>, keep: bool) -> (Option<u64>, Option<String>) {
    match fork_session(st, node, false, keep, false).unwrap() {
        Some(ForkPlan::MoveLeaf { tip, recall }) => (tip, recall),
        other => panic!("unexpected plan: {other:?}"),
    }
}

#[test]
fn fork_session_undo_forks_before_the_last_user_prompt() {
    let (tip, prompt) = moved(&chain_session(), None, false);
    assert_eq!(prompt.as_deref(), Some("two"), "the prompt is recalled");
    assert_eq!(tip, Some(2), "the tip walks back to a1");
}

#[test]
fn fork_session_at_an_assistant_node_forks_before_it() {
    let (tip, prompt) = moved(&chain_session(), Some(2), false);
    assert_eq!(prompt.as_deref(), Some("r1"), "the reply is recalled");
    assert_eq!(tip, Some(1), "the tip walks back before the reply");
}

#[test]
fn fork_session_at_a_user_node_forks_before_it() {
    let (tip, prompt) = moved(&chain_session(), Some(3), false);
    assert_eq!(prompt.as_deref(), Some("two"), "the prompt is recalled");
    assert_eq!(tip, Some(2), "the tip walks back before the prompt");
}

#[test]
fn fork_session_at_the_root_prompt_starts_over() {
    let mut st = chain_session();
    let (tip, prompt) = moved(&st, Some(1), false);
    assert_eq!(prompt.as_deref(), Some("one"));
    assert_eq!(tip, None, "the active path is empty again");
    st.leaf_id = Some(EMPTY_LEAF);
    let loaded = Session::from_stored(&st);
    assert!(
        loaded.messages.is_empty(),
        "a reload of a cleared path shows an empty chat"
    );
    assert_eq!(loaded.leaf_id, None);
}

#[test]
fn fork_session_at_a_summary_node_walks_to_it() {
    let mut st = chain_session();
    let mut summary = message(5, Some(2), Role::Assistant, "the talk so far");
    summary.summary = true;
    st.messages.push(summary);
    let (tip, prompt) = moved(&st, Some(5), false);
    assert_eq!(prompt, None, "summary markers carry no recall");
    assert_eq!(tip, Some(5));
}

#[test]
fn fork_session_after_a_turn_walks_to_the_reply() {
    let mut st = chain_session();
    st.tool_calls.push(tool_call(2));
    let (tip, prompt) = moved(&st, Some(2), true);
    assert_eq!(prompt, None, "walk-to forks recall nothing");
    assert_eq!(tip, Some(2), "the tip walks to the reply itself");
    st.leaf_id = tip;
    let loaded = Session::from_stored(&st);
    assert_eq!(loaded.messages.len(), 2, "the path keeps the prompt and the reply");
    assert_eq!(
        loaded.tool_records.len(),
        1,
        "the reply's tool calls stay on the path"
    );
}

#[test]
fn fork_session_without_summarizer_errors_on_summarize() {
    let err = fork_session(&chain_session(), Some(3), true, false, false).unwrap_err();
    assert!(
        err.contains("without an active provider"),
        "unexpected error: {err}"
    );
}

#[test]
fn a_fork_may_be_summarized() {
    let Some(ForkPlan::Summarize { head_text, parent, reparent, recall }) =
        fork_session(&chain_session(), Some(3), true, false, true).unwrap()
    else {
        panic!("expected a summary");
    };
    assert!(head_text.contains("one") && head_text.contains("r1"), "{head_text}");
    assert_eq!((parent, reparent), (Some(2), Some(3)));
    assert_eq!(recall.as_deref(), Some("two"));
    assert_eq!(
        fork_session(&chain_session(), Some(99), false, false, false).unwrap_err(),
        "unknown node"
    );
}

#[test]
fn fork_session_undo_on_a_root_only_session_starts_over() {
    let mut st = stored(Some(1), vec![message(1, None, Role::User, "only")]);
    let (tip, prompt) = moved(&st, None, false);
    assert_eq!(prompt.as_deref(), Some("only"));
    assert_eq!(tip, None, "the active path is empty again");
    st.leaf_id = Some(EMPTY_LEAF);
    assert!(Session::from_stored(&st).messages.is_empty());
    assert_eq!(st.messages.len(), 1, "the root prompt survives");

    st.messages.push(message(2, None, Role::User, "again"));
    st.leaf_id = Some(2);
    let loaded = Session::from_stored(&st);
    assert_eq!(
        loaded.messages.len(),
        1,
        "a turn after the undo starts a fresh root prompt"
    );
    assert_eq!(loaded.messages[0].content, "again");
    assert_eq!(loaded.leaf_id, Some(2));
}

#[test]
fn a_parent_that_is_no_message_stays_in_the_chain() {
    let mut st = chain_session();
    st.messages[0].parent_id = Some(77);
    assert_eq!(chain_of(&st), vec![77, 1, 2, 3, 4]);
    assert_eq!(moved(&st, None, false).0, Some(2), "the last prompt is found all the same");
    assert_eq!(moved(&st, Some(1), false), (Some(77), Some("one".to_string())));

    let mut call = tool_call(2);
    call.args_json = "{\"path\": \"a.rs\"}".into();
    st.tool_calls.push(call);
    let head = |st: &StoredSession| match fork_session(st, Some(3), true, false, true).unwrap() {
        Some(ForkPlan::Summarize { head_text, .. }) => head_text,
        other => panic!("unexpected plan: {other:?}"),
    };
    assert!(!head(&st).contains("a.rs"), "the call's place lies behind the two messages");
    assert!(head(&st).contains("one") && head(&st).contains("r1"));
    st.messages[0].parent_id = None;
    assert!(head(&st).contains("a.rs"));

    st.messages[0].parent_id = Some(1);
    assert_eq!(chain_of(&st), vec![1, 2, 3, 4], "a link that leads back is not followed");
}

#[test]
fn delete_branch_refuses_the_active_leaf() {
    let st = chain_session();
    assert!(subtree_contains(&st, 1, st.leaf_id));
    assert!(!subtree_contains(&st, 4, Some(1)));
    assert!(!subtree_contains(&st, 1, None));
    assert_eq!(chain_of(&st), vec![1, 2, 3, 4]);
    assert!(matches!(branch_loaded(&st, 1)[0], Action::SessionError { .. }));
    assert!(matches!(
        &fork_done(1, Err(ForkFailure::Fork("x".into())))[..],
        [Action::SessionError { error }] if error == "fork failed: x"
    ));
    assert!(matches!(
        &fork_done(1, Err(ForkFailure::Client("x".into())))[..],
        [Action::SessionError { error }] if error == "x"
    ));
}

#[test]
fn an_interrupted_reply_gives_way_to_its_prompt() {
    assert_eq!(resume_point(&chain_session()), Some((4, Some(3))));
    let st = stored(Some(1), vec![message(1, None, Role::User, "u")]);
    assert_eq!(resume_point(&st), None);
    let session = Session::from_stored(&st);
    assert_eq!(resumed_prompt(&session), Some("u"));
    assert_eq!(resumed_prompt(&Session::new()), None);
}

fn facts(streaming: bool) -> Facts {
    Facts { streaming, session: None }
}

fn stored_facts(streaming: bool) -> Facts {
    Facts {
        streaming,
        session: Some(SessionFacts {
            id: Some(7),
            title: Some("t".into()),
            first_prompt: Some("first".into()),
            last_prompt: Some("last".into()),
        }),
    }
}

struct Loop {
    state: LoopState,
    steer: SteerSignal,
}

impl Loop {
    fn new() -> Loop {
        Loop {
            state: LoopState::new(connections_with(&[("a", "openai"), ("b", "ollama")])),
            steer: SteerSignal::default(),
        }
    }

    fn command(&mut self, facts: &Facts, command: Command) -> Vec<Action> {
        self.state.on_command(&mut self.steer, facts, &vec![], command)
    }

    fn send(&mut self, streaming: bool, content: &str) -> Vec<Action> {
        let command = Command::SendMessage { content: content.to_string(), model: None };
        self.command(&facts(streaming), command)
    }
}

#[test]
fn prompts_wait_for_the_running_turn_and_start_in_order() {
    let mut l = Loop::new();
    assert!(matches!(
        &l.send(false, "first")[..],
        [Action::StartTurn { content, steered: false, .. }] if content == "first"
    ));
    assert!(matches!(&l.send(true, "second")[..], [Action::PromptSteered { .. }]));
    assert!(matches!(&l.send(true, "third")[..], [Action::PromptSteered { .. }]));
    assert_eq!(l.steer.state, SteerState::Armed);
    let next = l.state.stream_done(&mut l.steer, StreamOutcome::Preempted, 3);
    assert!(matches!(
        &next[..],
        [Action::StartTurn { content, steered: true, .. }] if content == "second"
    ));
    let recalled = l.command(&facts(true), Command::RecallSteered { stacked: false });
    assert!(matches!(
        &recalled[..],
        [Action::SteeredRecalled { content: Some(c), .. }] if c == "third"
    ));
}

#[test]
fn a_failed_turn_is_tried_again_until_the_limit() {
    let mut l = Loop::new();
    let failure = || StreamOutcome::RetryableFailure {
        reason: "Connection error".into(),
        message: "refused".into(),
    };
    let actions = l.state.stream_done(&mut l.steer, failure(), 1);
    assert!(matches!(
        &actions[..],
        [Action::RetryScheduled { attempt: 1, max_attempts: 1, delay_ms: 3000, .. }]
    ));
    assert!(matches!(&l.state.retry_due()[..], [Action::ResumeTurn]));
    let actions = l.state.stream_done(&mut l.steer, failure(), 1);
    assert!(matches!(&actions[..], [Action::StreamError { error }] if error == "refused"));
}

#[test]
fn an_overflow_is_taken_up_again_once_it_was_summarized() {
    let mut l = Loop::new();
    let overflow = |compacted: bool| StreamOutcome::Overflowed { compacted };
    for _ in 0..3 {
        let actions = l.state.stream_done(&mut l.steer, overflow(true), 3);
        assert!(matches!(&actions[..], [Action::ResumeTurn]), "{actions:?}");
    }
    let actions = l.state.stream_done(&mut l.steer, overflow(true), 3);
    assert!(!actions.iter().any(|a| matches!(a, Action::ResumeTurn)), "{actions:?}");
}

#[test]
fn a_busy_loop_refuses_another_session() {
    let mut l = Loop::new();
    for command in [
        Command::NewSession,
        Command::LoadSession { id: 3 },
        Command::DeleteSession { id: 3 },
        Command::Replay,
    ] {
        let actions = l.command(&stored_facts(true), command);
        assert!(
            matches!(
                &actions[..],
                [Action::StreamError { error }] if error == "a reply is already streaming"
            ),
            "{actions:?}"
        );
    }
}

#[test]
fn cancelling_dispatches_the_first_waiting_prompt() {
    let mut l = Loop::new();
    l.send(true, "queued");
    let actions = l.command(&facts(true), Command::CancelStream);
    assert!(matches!(&actions[0], Action::CutStream), "{actions:?}");
    assert!(matches!(
        actions.last(),
        Some(Action::StartTurn { content, .. }) if content == "queued"
    ));
    assert!(l.command(&facts(false), Command::CancelStream).is_empty());
}

#[test]
fn a_session_that_is_held_elsewhere_is_not_entered() {
    let mut l = Loop::new();
    let actions = l.command(&facts(false), Command::LoadSession { id: 3 });
    assert!(matches!(&actions[..], [Action::AcquireLock { id: 3 }]));
    let actions = l.state.lock_answered(&mut l.steer, 3, LockAnswer::Held);
    assert!(matches!(&actions[..], [Action::SessionLocked { id: 3 }]));
    assert_eq!(l.state.locked_session, None);
    let actions = l.state.lock_answered(&mut l.steer, 3, LockAnswer::Granted);
    assert!(matches!(&actions[..], [Action::LoadSession { id: 3 }]));
    assert_eq!(l.state.locked_session, Some(3));
    let actions = l.state.lock_answered(&mut l.steer, 4, LockAnswer::Granted);
    assert!(matches!(
        &actions[..],
        [Action::ReleaseLock { id: 3 }, Action::LoadSession { id: 4 }]
    ));
}

#[test]
fn answers_are_handed_on_once() {
    let mut l = Loop::new();
    let id = l.state.question_arrived();
    let answers = Some(vec![vec!["yes".to_string()], vec![]]);
    let command = Command::AnswerQuestion { id, answers: answers.clone() };
    let actions = l.command(&facts(true), command.clone());
    assert!(matches!(
        &actions[..],
        [Action::RespondQuestion { id: to, answers: a }] if *to == id && *a == answers
    ));
    assert!(l.command(&facts(true), command).is_empty());
    let id = l.state.question_arrived();
    let actions = l.command(&facts(true), Command::AnswerQuestion { id, answers: None });
    assert!(matches!(&actions[..], [Action::RespondQuestion { answers: None, .. }]));
    for allow in [true, false] {
        let id = l.state.permission_arrived();
        let command = Command::PermissionDecide { id, allow };
        let actions = l.command(&facts(true), command.clone());
        assert!(matches!(
            &actions[..],
            [Action::RespondPermission { id: to, allow: a }] if *to == id && *a == allow
        ));
        assert!(l.command(&facts(true), command).is_empty());
    }
}

#[test]
fn reloading_takes_skills_and_custom_commands() {
    let mut l = Loop::new();
    let actions = l.command(&facts(true), Command::Reload);
    assert!(matches!(&actions[..], [Action::ReloadSkills, Action::ReloadCommands]));
}

#[test]
fn a_cut_is_claimed_once() {
    let mut signal = SteerSignal::default();
    assert!(!signal.begin_preempt(), "no cut is wanted");
    signal.arm();
    assert!(signal.begin_preempt());
    assert!(!signal.begin_preempt());
    signal.arm();
    assert!(signal.is_finalizing() && !signal.is_armed(), "arming never undoes a cut");
    assert!(!signal.begin_preempt());
    signal.disarm();
    assert!(signal.is_finalizing());
    signal.reset();
    signal.arm();
    assert!(signal.begin_preempt());
}

#[test]
fn providers_are_chosen_and_removed() {
    let mut l = Loop::new();
    assert!(l
        .command(&facts(false), Command::SetActiveProvider { name: "ghost".into() })
        .is_empty());
    l.command(&facts(false), Command::SetActiveProvider { name: "a".into() });
    l.command(&facts(false), Command::SetActiveModel { model: "m".into() });
    let active = l.state.connections.active.as_ref().unwrap();
    assert_eq!((active.provider.as_str(), active.model.as_deref()), ("a", Some("m")));
    let actions = l.command(&facts(false), Command::RemoveProvider { name: "a".into() });
    assert!(matches!(&actions[..], [Action::DropClient { .. }, Action::Persist]));
    assert!(l.state.connections.active.is_none());
}

#[test]
fn servers_report_their_status() {
    let mut l = Loop::new();
    let actions = l.command(&facts(false), Command::LspRestart { name: "go".into() });
    assert!(matches!(&actions[..], [Action::LspRestart { .. }]));
    assert!(matches!(&lsp_started(None)[..], [Action::LspStatus]));
    assert!(matches!(&lsp_started(Some("x".into()))[..], [Action::LspError { .. }]));
    assert!(matches!(
        &lsp_stopped(Some("x".into()))[..],
        [Action::LspError { .. }, Action::LspStatus]
    ));
    assert!(matches!(
        &mcp_reconnected(Some("x".into()))[..],
        [Action::McpError { .. }, Action::McpStatus]
    ));
    assert!(matches!(&mcp_reconnected(None)[..], [Action::McpStatus]));
}

#[test]
fn a_first_turn_stores_the_session_and_the_prompt() {
    let mut session: Option<Session> = None;
    assert!(ensure_session(&mut session));
    assert!(!ensure_session(&mut session));
    let mut session = session.unwrap();
    session.scene = Some("Plan".into());
    let active = Some(Active { provider: "a".into(), model: Some("m".into()), variant: None });
    let actions = begin_turn(&mut session, "do it", 40, &active, &Some("Default".into()));
    let [TurnAction::CreateSession { title, provider, model, scene }] = &actions[..] else {
        panic!("unexpected actions: {actions:?}");
    };
    assert_eq!(title, "do it");
    assert_eq!(provider.as_deref(), Some("a"));
    assert_eq!(model.as_deref(), Some("m"));
    assert_eq!(scene.as_deref(), Some("Plan"));
    assert_eq!(session.messages, vec![ChatMsg::user("do it")]);

    let mut announced: Option<String> = None;
    let made = session_made(
        &mut session,
        &mut announced,
        "do it".into(),
        Some("Plan".into()),
        Ok(9),
    );
    assert!(matches!(&made[..], [TurnAction::AcquireLock { id: 9 }]));
    assert_eq!(announced.as_deref(), Some("Plan"));
    assert_eq!(session.scene.as_deref(), Some("Plan"));

    let mut locked = None;
    let actions = lock_settled(&session, &mut locked, 9, LockAnswer::Granted, true, "do it");
    assert_eq!(locked, Some(9));
    assert!(matches!(
        &actions[..],
        [
            TurnAction::SessionCreated { .. },
            TurnAction::DraftTitle { .. },
            TurnAction::Append { id: 9, parent: None, .. },
        ]
    ));
    let actions = prompt_stored(&mut session, "do it", false, None, true, Ok(5));
    assert_eq!(session.leaf_id, Some(5));
    assert!(matches!(
        &actions[..],
        [
            TurnAction::Index { row: 5, seq: 0, .. },
            TurnAction::TurnStarted { .. },
            TurnAction::Send { .. },
        ]
    ));
    let actions = begin_turn(&mut session, "more", 40, &active, &None);
    assert!(matches!(&actions[..], [TurnAction::Append { id: 9, parent: Some(5), .. }]));
    assert_eq!(repeat_prompt(&mut session, "again"), Some((9, Some(5))));
}

#[test]
fn a_prompt_that_is_not_stored_is_not_sent() {
    let mut session = Session::new();
    let mut announced: Option<String> = None;
    begin_turn(&mut session, "do it", 40, &None, &None);
    let failed =
        session_made(&mut session, &mut announced, "t".into(), None, Err("disk".into()));
    assert!(matches!(
        &failed[..],
        [TurnAction::StreamError { error }] if error == "failed to create session: disk"
    ));
    let failed = prompt_stored(&mut session, "do it", false, None, true, Err("disk".into()));
    assert!(matches!(
        &failed[..],
        [TurnAction::StreamError { error }] if error == "failed to persist message: disk"
    ));
    assert_eq!(session.leaf_id, None);
}

fn plan_scene() -> ScenesConfig {
    let mut config = ScenesConfig::default();
    config.scenes.insert(
        "Plan".to_string(),
        SceneConfig {
            description: Some("plan first".into()),
            system_prompts: SystemPromptsConfig {
                prelude: Some("You plan.".into()),
                interlude: Some("Now plan.".into()),
                ..Default::default()
            },
            ..Default::default()
        },
    );
    config.scenes.insert("Draft".to_string(), SceneConfig::default());
    config
}

#[test]
fn a_scene_is_announced_once() {
    let mut session = Session::new();
    session.id = Some(1);
    session.scene = Some("Plan".into());
    let mut announced: Option<String> = None;
    assert_eq!(announce_scene(&session, &mut announced), (true, Some(1)));
    let error = scene_stored(&session, &mut announced, Some("disk")).unwrap();
    assert_eq!(error, "failed to persist the scene: disk");
    assert_eq!(announce_scene(&session, &mut announced), (true, Some(1)));
    assert!(scene_stored(&session, &mut announced, None).is_none());
    assert_eq!(announce_scene(&session, &mut announced), (false, None));
}

#[test]
fn a_request_carries_the_scene_and_the_context() {
    let config = plan_scene();
    let scene = Scene::resolve(&config, Some("Plan"));
    let mut session = Session::new();
    session.push_user("u1");
    session.push_assistant("a1");
    session.push_user("u2");
    let context = LoadedContext::new(vec!["AGENTS.md".into()], "rules".into());
    let request = build_request(&session, &scene, true, &Skills::default(), true, &context);
    assert!(request.preamble.starts_with("You plan."));
    assert!(request.preamble.contains("`web_search` tool"));
    assert!(request.preamble.ends_with("rules"));
    assert_eq!(
        request.history,
        vec![ChatMsg::system("Now plan."), ChatMsg::user("u1"), ChatMsg::assistant("a1")]
    );
    assert!(request.tools.iter().any(|t| t.name == "web_search"));
    assert_eq!(request.workers.len(), 3);

    let plain = build_request(
        &session,
        &Scene::default(),
        false,
        &Skills::default(),
        false,
        &LoadedContext::new(vec![], String::new()),
    );
    assert_eq!(plain.preamble, AGENT_PREAMBLE);
    assert_eq!(plain.history, vec![ChatMsg::user("u1"), ChatMsg::assistant("a1")]);
    assert!(!DEFAULT_INTERLUDE.is_empty());
}

#[test]
fn loaded_files_are_reported_once() {
    let mut announced = false;
    let none = LoadedContext::new(vec![], String::new());
    assert_eq!(context_news(&mut announced, &none), None);
    assert!(!announced);
    let some = LoadedContext::new(vec!["AGENTS.md".into()], "rules".into());
    assert_eq!(context_news(&mut announced, &some), Some(vec!["AGENTS.md".to_string()]));
    assert_eq!(context_news(&mut announced, &some), None);
}

#[test]
fn scenes_are_listed_and_switched() {
    let config = plan_scene();
    let rows = scene_list(&config);
    assert_eq!(rows.len(), 3);
    assert_eq!((rows[0].id.as_deref(), rows[0].name.as_str()), (None, DEFAULT_SCENE_NAME));
    assert_eq!((rows[1].name.as_str(), rows[1].switchable), ("Draft", false));
    assert_eq!((rows[2].name.as_str(), rows[2].switchable), ("Plan", true));

    let mut session: Option<Session> = None;
    let error = switch_scene(&mut session, &config, true, None).unwrap_err();
    assert_eq!(error, "a turn is in flight; wait for it to finish");
    let error = switch_scene(&mut session, &config, false, Some("Ghost".into())).unwrap_err();
    assert_eq!(error, "unknown scene `Ghost`");
    assert!(matches!(
        switch_scene(&mut session, &config, false, None),
        Ok(SceneSwitch::Unchanged)
    ));
    assert!(session.is_none());
    assert!(matches!(
        switch_scene(&mut session, &config, false, Some("Draft".into())),
        Ok(SceneSwitch::Started { .. })
    ));
    session.as_mut().unwrap().push_user("hi");
    assert!(matches!(
        switch_scene(&mut session, &config, false, Some("Plan".into())),
        Ok(SceneSwitch::Changed { .. })
    ));
    let error = switch_scene(&mut session, &config, false, Some("Draft".into())).unwrap_err();
    assert_eq!(
        error,
        "scene `Draft` has no interlude; it cannot be entered mid-session"
    );
    assert!(matches!(
        switch_scene(&mut session, &config, false, None),
        Ok(SceneSwitch::Changed { name: None })
    ));
    assert_eq!(session.unwrap().scene, None);
}

#[test]
fn the_startup_session_is_found_locked_and_entered() {
    assert!(matches!(begin_startup(StartupSession::Fresh), StartupStep::Done));
    assert!(matches!(
        begin_startup(StartupSession::MostRecent),
        StartupStep::FindMostRecent
    ));
    assert!(matches!(
        begin_startup(StartupSession::Session(4)),
        StartupStep::Load { id: 4 }
    ));
    assert!(matches!(startup_found(Ok(None)), StartupStep::Done));
    assert!(matches!(startup_found(Ok(Some(4))), StartupStep::AcquireLock { id: 4 }));
    assert!(matches!(startup_found(Err("x".into())), StartupStep::SessionError { .. }));
    let mut locked = None;
    assert!(matches!(
        startup_locked(&mut locked, 4, LockAnswer::Held),
        StartupStep::SessionLocked { id: 4 }
    ));
    assert!(matches!(
        startup_locked(&mut locked, 4, LockAnswer::Failed),
        StartupStep::Enter { id: 4 }
    ));
    assert_eq!(locked, None);
    startup_locked(&mut locked, 4, LockAnswer::Granted);
    assert_eq!(locked, Some(4));
}

#[test]
fn edges_answer_with_the_first_failure() {
    assert_eq!(save_failure(None, None), None);
    assert_eq!(
        save_failure(Some("a".into()), Some("b".into())).as_deref(),
        Some("a")
    );
    assert_eq!(save_failure(None, Some("b".into())).as_deref(), Some("b"));
    assert_eq!(registry_reply(None).unwrap_err(), "registry fetch timed out");
    assert!(registry_reply(Some(Ok(vec![]))).unwrap().is_empty());
}

#[test]
fn listed_models_are_enriched() {
    let mut connections = Connections::default();
    connections.providers.insert(
        "a".to_string(),
        ProviderConfig::new("a", "openai", None, None).with_catalog(Some("acme")),
    );
    let catalog = vec![catalog_entry("acme", "m", 1000)];
    let listed = || vec![ModelInfo { id: "m".into(), context_length: None }];
    let models = models_listed(&connections, &catalog, "a", listed());
    assert_eq!(models[0].context_length, Some(1000));
    let models = models_listed(&connections, &catalog, "ghost", listed());
    assert_eq!(models[0].context_length, None);
}

#[test]
fn the_older_part_of_an_overflowing_path_is_summarized() {
    let mut st = chain_session();
    st.messages.push(message(5, Some(4), Role::User, "three"));
    st.messages.push(message(6, Some(5), Role::Assistant, "r3"));
    st.messages.push(message(9, Some(2), Role::User, "elsewhere"));
    st.leaf_id = Some(6);
    let plan = plan_summary(&st, &vec![10; 7], 1).unwrap();
    assert_eq!((plan.parent, plan.reparent), (2, Some(3)), "at least four messages stay");
    assert!(plan.head_text.contains("one") && plan.head_text.contains("r1"));
    assert!(!plan.head_text.contains("two") && !plan.head_text.contains("elsewhere"));
    let plan = plan_summary(&st, &vec![10; 7], 50).unwrap();
    assert_eq!((plan.parent, plan.reparent), (1, Some(2)), "five messages take up the budget");
    assert!(plan_summary(&chain_session(), &vec![10; 4], 1).is_none());
}

#[test]
fn the_summarizer_works_between_its_two_events() {
    let plan = SummaryPlan { head_text: "talk".into(), parent: 2, reparent: Some(3) };
    let task = "Summarize the following conversation transcript. Keep it concise and \
                information-dense, following the format in your instructions.\n\n---\ntalk\n---";
    let framed = vec![
        SummaryStep::CompactionStarted,
        SummaryStep::Summarize { preamble: SUMMARY_PREAMBLE.into(), task: task.into() },
        SummaryStep::CompactionFinished,
    ];
    assert_eq!(summary_steps("talk"), framed);
    assert_eq!(
        summary_made(&plan, Ok("sum".into())),
        SummaryMade::Append { parent: 2, summary: "sum".into() }
    );
    assert_eq!(
        summary_made(&plan, Err("no".into())),
        SummaryMade::StreamError { error: "compaction failed: no".into() }
    );
    assert_eq!(summary_added(&plan, Some(9)), (true, Some((3, 9))));
    assert_eq!(summary_added(&plan, None), (false, None));
    let tail = SummaryPlan { reparent: None, ..plan };
    assert_eq!(summary_added(&tail, Some(9)), (true, None));
    assert_eq!(compaction_steps(&Some(tail)), framed);
    assert!(compaction_steps(&None).is_empty());
    assert_eq!(fork_summary(Ok("sum".into())).unwrap(), "sum");
    assert_eq!(fork_summary(Err("no".into())).unwrap_err(), "summarization failed: no");
}

#[test]
fn the_reply_gets_its_message_once() {
    let mut session = Session::new();
    let mut turn = TurnStream::new();
    assert_eq!(reply_place(&session, &turn), None, "the session is not stored");
    session.id = Some(9);
    session.leaf_id = Some(5);
    assert_eq!(reply_place(&session, &turn), Some((9, Some(5))));
    reply_row_added(&mut session, &mut turn, 6, 1);
    assert_eq!(session.leaf_id, Some(6));
    assert_eq!((turn.assistant_message_id, turn.assistant_seq), (Some(6), 1));
    assert_eq!(reply_place(&session, &turn), None);
    assert_eq!(reply_stored(&mut session, Ok(7)), None);
    assert_eq!(session.leaf_id, Some(7));
    assert_eq!(
        reply_stored(&mut session, Err("disk".into())).unwrap(),
        "failed to persist message: disk"
    );
    assert_eq!(session.leaf_id, Some(7));
    repeated_prompt_stored(&mut session, None);
    assert_eq!(session.leaf_id, Some(7));
    repeated_prompt_stored(&mut session, Some(8));
    assert_eq!(session.leaf_id, Some(8));
}

#[test]
fn failures_are_told_in_words() {
    assert!(matches!(
        &replay_forked(3, Some("x"))[..],
        [Action::SessionError { error }] if error == "replay failed: x"
    ));
    assert!(matches!(
        &replay_forked(3, None)[..],
        [Action::ReloadForked { id: 3, prompt: None }]
    ));
    assert!(matches!(
        &replay_reloaded(Some("ask".into()), Some("gone".into()))[..],
        [Action::SessionError { error }] if error == "gone"
    ));
    assert!(matches!(
        &replay_reloaded(Some("ask".into()), None)[..],
        [Action::SendAgain { content }] if content == "ask"
    ));
    assert!(replay_reloaded(None, None).is_empty());
    let connections = connections_with(&[("a", "openai")]);
    assert_eq!(
        title_drafter(&vec![], &connections, None, None).unwrap_err(),
        "no model available for title generation"
    );
    assert_eq!(
        title_drafter(&vec![], &connections, Some("a"), Some("m")).unwrap(),
        pair("a", "m")
    );
    assert_eq!(title_failure("x"), "title generation failed: x");
}
