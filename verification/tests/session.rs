use shuvarie_core::llm::{Role, TokenUsage};
use shuvarie_core::session::Session;
use shuvarie_core::stored::{
    StoredMessage, StoredScroll, StoredSession, StoredToolCall, TextSegment,
};

fn stored_message(seq: u64, role: Role, content: &str) -> StoredMessage {
    StoredMessage {
        id: seq + 1,
        parent_id: None,
        role,
        content: content.to_string(),
        reasoning: Vec::new(),
        text_segments: Vec::new(),
        interrupted: false,
        seq,
        usage: TokenUsage::default(),
        summary: false,
        request: TokenUsage::default(),
    }
}

fn stored_session(messages: Vec<StoredMessage>) -> StoredSession {
    StoredSession {
        scene: None,
        id: 1,
        title: "t".into(),
        leaf_id: None,
        messages,
        tool_calls: Vec::new(),
        scroll: StoredScroll { offset: 0, follow: false },
    }
}

fn chain(messages: &mut [StoredMessage]) {
    for i in 1..messages.len() {
        messages[i].parent_id = Some(messages[i - 1].id);
    }
}

#[test]
fn from_stored_seeds_last_usage_from_the_request_payload() {
    let mut stored = stored_session(vec![
        stored_message(0, Role::User, "hi"),
        stored_message(1, Role::Assistant, "ok"),
    ]);
    stored.messages[1].usage = TokenUsage {
        input_tokens: 12_000,
        output_tokens: 200,
        total_tokens: 12_200,
        cached_input_tokens: 11_000,
        ..TokenUsage::default()
    };
    stored.messages[1].request = TokenUsage {
        input_tokens: 20_000,
        output_tokens: 200,
        total_tokens: 20_200,
        cached_input_tokens: 19_400,
        ..TokenUsage::default()
    };
    let session = Session::from_stored(&stored);
    let last = session.last_usage.expect("request usage restored");
    assert_eq!(last.total_tokens, 20_200);
    assert_eq!(last.cached_input_tokens, 19_400);
}

#[test]
fn from_stored_falls_back_to_row_usage_without_a_request_payload() {
    let mut stored = stored_session(vec![stored_message(0, Role::Assistant, "ok")]);
    stored.messages[0].usage = TokenUsage {
        input_tokens: 500,
        output_tokens: 100,
        total_tokens: 600,
        ..TokenUsage::default()
    };
    let session = Session::from_stored(&stored);
    let last = session.last_usage.expect("row usage restored");
    assert_eq!(last.total_tokens, 600);
}

#[test]
fn from_stored_skips_zero_and_summary_rows_for_last_usage() {
    let mut stored = stored_session(vec![
        stored_message(0, Role::Assistant, "ok"),
        stored_message(1, Role::Assistant, "ok"),
        stored_message(2, Role::User, "again"),
    ]);
    chain(&mut stored.messages);
    stored.leaf_id = Some(stored.messages[2].id);
    let usage = |total_tokens: u64| TokenUsage { total_tokens, ..TokenUsage::default() };
    stored.messages[0].usage = usage(30);
    stored.messages[0].request = usage(30);
    stored.messages[1].summary = true;
    stored.messages[1].usage = usage(9_999);
    stored.messages[1].request = usage(9_999);
    let session = Session::from_stored(&stored);
    let last = session.last_usage.expect("main request restored");
    assert_eq!(last.total_tokens, 30, "summary rows are not main requests");
}

#[test]
fn from_stored_without_reported_usage_leaves_last_usage_none() {
    let stored = stored_session(vec![stored_message(0, Role::User, "hi")]);
    let session = Session::from_stored(&stored);
    assert!(session.last_usage.is_none());
}

#[test]
fn from_stored_maps_text_segments_to_dense_indices() {
    let mut stored = stored_session(vec![
        stored_message(0, Role::User, "go"),
        stored_message(7, Role::Assistant, "start\n\nresumed"),
    ]);
    chain(&mut stored.messages);
    stored.leaf_id = Some(stored.messages[1].id);
    stored.messages[1].text_segments = vec![
        TextSegment { after_tool: 0, text: "start".into() },
        TextSegment { after_tool: 1, text: "\n\nresumed".into() },
    ];
    let session = Session::from_stored(&stored);
    let runs = session.text_segments.get(&1).expect("segments keyed by dense index");
    assert_eq!(runs.len(), 2);
    assert_eq!(runs[1].after_tool, 1);
}

#[test]
fn from_stored_walks_the_active_path_from_the_leaf() {
    let mut stored = stored_session(vec![
        stored_message(0, Role::User, "one"),
        stored_message(1, Role::Assistant, "r1"),
        stored_message(2, Role::User, "two"),
        stored_message(3, Role::Assistant, "r2"),
        stored_message(3, Role::User, "fork prompt"),
        stored_message(4, Role::Assistant, "fork reply"),
    ]);
    chain(&mut stored.messages);
    stored.messages[4].parent_id = Some(stored.messages[1].id);
    stored.messages[5].parent_id = Some(stored.messages[4].id);
    stored.leaf_id = Some(stored.messages[5].id);
    let session = Session::from_stored(&stored);
    let path: Vec<&str> = session.messages.iter().map(|m| m.content.as_str()).collect();
    assert_eq!(path, vec!["one", "r1", "fork prompt", "fork reply"]);
    assert_eq!(session.nodes.iter().filter(|n| n.on_path).count(), 4);
    let on_fork = session.nodes.iter().find(|n| n.content == "r2").unwrap();
    assert!(!on_fork.on_path);
}

#[test]
fn from_stored_falls_back_to_newest_message_without_leaf() {
    let mut stored = stored_session(vec![
        stored_message(0, Role::User, "one"),
        stored_message(1, Role::Assistant, "r1"),
    ]);
    chain(&mut stored.messages);
    let session = Session::from_stored(&stored);
    assert_eq!(session.messages.len(), 2);
    assert_eq!(session.messages[1].content, "r1");
}

fn tool_call_of(message_id: u64) -> StoredToolCall {
    StoredToolCall {
        id: 9,
        message_id,
        seq: 0,
        name: "read_file".into(),
        args_json: "{}".into(),
        output: String::new(),
        stderr: String::new(),
        ok: true,
        killed: false,
        worker: None,
        file_change: None,
        original_content: None,
        new_content: None,
        duration_ms: 0,
    }
}

#[test]
fn from_stored_excludes_forked_away_usage_and_tools() {
    let mut stored = stored_session(vec![
        stored_message(0, Role::User, "one"),
        stored_message(1, Role::Assistant, "r1"),
        stored_message(2, Role::User, "fork"),
    ]);
    chain(&mut stored.messages);
    stored.messages[1].usage =
        TokenUsage { input_tokens: 100, total_tokens: 100, ..TokenUsage::default() };
    stored.messages[2].parent_id = Some(stored.messages[0].id);
    stored.leaf_id = Some(stored.messages[0].id);
    stored.tool_calls = vec![tool_call_of(stored.messages[2].id)];
    let session = Session::from_stored(&stored);
    assert_eq!(session.tokens, 0, "forked-away branch usage excluded");
    assert!(session.tool_records.is_empty());
}

fn history(session: &Session) -> Vec<String> {
    session.history_for_send().iter().map(|m| m.content.clone()).collect()
}

#[test]
fn history_for_send_stops_at_the_newest_summary() {
    let mut stored = stored_session(vec![
        stored_message(0, Role::User, "u1"),
        stored_message(1, Role::Assistant, "a1"),
        stored_message(2, Role::User, "u2"),
        stored_message(3, Role::Assistant, "summary"),
        stored_message(4, Role::User, "u3"),
        stored_message(5, Role::Assistant, "a3"),
    ]);
    chain(&mut stored.messages);
    stored.messages[3].summary = true;
    stored.leaf_id = Some(stored.messages[5].id);
    let session = Session::from_stored(&stored);
    assert_eq!(history(&session), vec!["summary", "u3"], "summary + tail, no tip");
}

#[test]
fn history_for_send_without_summary_is_full_but_pending() {
    let mut stored = stored_session(vec![
        stored_message(0, Role::User, "u1"),
        stored_message(1, Role::Assistant, "a1"),
        stored_message(2, Role::User, "pending"),
    ]);
    chain(&mut stored.messages);
    stored.leaf_id = Some(stored.messages[2].id);
    let session = Session::from_stored(&stored);
    assert_eq!(history(&session), vec!["u1", "a1"]);
    assert!(session.messages[2].content == "pending");
}

#[test]
fn the_first_prompt_is_the_users() {
    let mut stored = stored_session(vec![
        stored_message(0, Role::System, "note"),
        stored_message(1, Role::User, "first"),
        stored_message(2, Role::Assistant, "ok"),
        stored_message(3, Role::User, "second"),
    ]);
    chain(&mut stored.messages);
    assert_eq!(Session::from_stored(&stored).first_user_prompt(), Some("first"));
    assert_eq!(Session::from_stored(&stored_session(Vec::new())).first_user_prompt(), None);
}

#[test]
fn last_user_node_finds_the_active_prompt() {
    let mut stored = stored_session(vec![
        stored_message(0, Role::User, "u1"),
        stored_message(1, Role::Assistant, "a1"),
        stored_message(2, Role::User, "u2"),
    ]);
    chain(&mut stored.messages);
    stored.leaf_id = Some(stored.messages[2].id);
    let session = Session::from_stored(&stored);
    let node = session.last_user_node().expect("user node on path");
    assert_eq!(node.content, "u2");
    assert_eq!(node.parent, Some(2), "the parent is the assistant row");
}

#[test]
fn an_empty_leaf_starts_over() {
    let mut stored = stored_session(vec![stored_message(0, Role::User, "u1")]);
    stored.leaf_id = Some(shuvarie_core::stored::EMPTY_LEAF);
    let session = Session::from_stored(&stored);
    assert!(session.messages.is_empty());
    assert_eq!(session.nodes.len(), 1);
}

#[test]
fn usage_adds_up() {
    let mut session = Session::new();
    session.add_usage(TokenUsage { input_tokens: 3, total_tokens: 5, ..TokenUsage::default() });
    session.add_usage(TokenUsage { input_tokens: 4, total_tokens: 6, ..TokenUsage::default() });
    assert_eq!(session.usage().input_tokens, 7);
    assert_eq!(session.usage().total_tokens, 11);
    session.push_user("hi");
    session.push_assistant("hello");
    assert!(!session.last_assistant_interrupted());
    session.clear();
    assert_eq!(session.messages.len(), 0);
    assert_eq!(session.usage().total_tokens, 0);
}
