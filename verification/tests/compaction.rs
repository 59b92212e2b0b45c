use shuvarie_core::compaction::{
    select_plan, serialize_head, summary_task, truncate, MIN_TAIL_MESSAGES, TOOL_OUTPUT_MAX_CHARS,
};
use shuvarie_core::llm::{FileChange, Role, TokenUsage};
use shuvarie_core::stored::StoredMessage;
use shuvarie_core::tool_record::ToolRecord;

fn msg(role: Role, content: &str) -> StoredMessage {
    StoredMessage {
        id: 0,
        parent_id: None,
        role,
        content: content.to_string(),
        reasoning: Vec::new(),
        text_segments: Vec::new(),
        interrupted: false,
        seq: 0,
        usage: TokenUsage::default(),
        summary: false,
        request: TokenUsage::default(),
    }
}

fn summary_msg(content: &str) -> StoredMessage {
    let mut m = msg(Role::Assistant, content);
    m.summary = true;
    m
}

fn record(name: &str, path: &str, message_seq: u64) -> ToolRecord {
    ToolRecord {
        name: name.to_string(),
        args_json: format!("{{\"path\":\"{path}\"}}"),
        output: format!("contents of {path}"),
        stderr: String::new(),
        ok: true,
        killed: false,
        worker: None,
        message_id: 0,
        message_seq,
        file_change: None,
        original_content: None,
        new_content: None,
        duration_ms: 0,
    }
}

/// Four characters count as one token.
fn estimates(messages: &[StoredMessage]) -> Vec<u64> {
    messages.iter().map(|m| m.content.len().div_ceil(4) as u64).collect()
}

fn plan(messages: &Vec<StoredMessage>, keep: u64) -> Option<(usize, usize)> {
    select_plan(messages, &estimates(messages), keep).map(|p| (p.start, p.cut))
}

#[test]
fn select_plan_requires_more_than_min_tail() {
    let msgs: Vec<StoredMessage> =
        (0..MIN_TAIL_MESSAGES).map(|_| msg(Role::User, "hi")).collect();
    assert!(plan(&msgs, 20_000).is_none());
    let bigger: Vec<StoredMessage> =
        (0..MIN_TAIL_MESSAGES + 3).map(|_| msg(Role::User, "hi")).collect();
    assert_eq!(
        plan(&bigger, 20_000),
        Some((0, 3)),
        "small history floors at the message-count tail"
    );
}

#[test]
fn select_plan_cut_honors_token_budget() {
    let big = "x".repeat(400_000);
    let msgs: Vec<StoredMessage> = (0..8)
        .map(|i| {
            if i == 1 || i == 3 {
                msg(Role::Assistant, &big)
            } else {
                msg(Role::User, "hi")
            }
        })
        .collect();
    assert_eq!(
        plan(&msgs, 100_000),
        Some((0, 3)),
        "the walk stops once the tail budget is met"
    );
}

#[test]
fn select_plan_resumes_from_previous_summary() {
    let mut msgs: Vec<StoredMessage> = Vec::new();
    for i in 0..10 {
        if i == 2 {
            msgs.push(summary_msg("prior summary"));
        } else {
            msgs.push(msg(Role::User, &format!("m{i}")));
        }
    }
    assert_eq!(
        plan(&msgs, 20_000),
        Some((2, 6)),
        "head resumes at the previous summary, floor tail applies from the span"
    );
}

#[test]
fn select_plan_none_when_summary_is_in_the_tail() {
    let mut msgs: Vec<StoredMessage> =
        (0..8).map(|i| msg(Role::User, &format!("m{i}"))).collect();
    let len = msgs.len();
    msgs[len - 2] = summary_msg("recent summary");
    assert!(plan(&msgs, 20_000).is_none(), "nothing new to summarize before the tail");
}

#[test]
fn serialize_head_includes_tool_activity() {
    let mut messages = vec![msg(Role::User, "go"), msg(Role::Assistant, "looking")];
    messages[1].id = 7;
    let mut rec = record("read_file", "src/main.rs", 1);
    rec.worker = Some("explore".into());
    rec.output = "fn main() {}".repeat(2_000);
    let s = serialize_head(&messages, &vec![rec], 0);
    assert!(s.contains("[read_file (explore) ok]"), "{s}");
    assert!(
        s.contains(&"fn main() {}".repeat(166)),
        "output truncated to the char cap: {s}"
    );
    assert!(!s.contains(&"fn main() {}".repeat(167)), "{s}");
}

#[test]
fn serialize_head_matches_records_by_message_id() {
    let mut messages = vec![msg(Role::User, "go"), msg(Role::Assistant, "hi")];
    messages[1].id = 42;
    let mut rec = record("grep", "src", 99);
    rec.message_id = 42;
    let s = serialize_head(&messages, &vec![rec], 0);
    assert!(s.contains("[grep ok]"), "record matched by id: {s}");
}

#[test]
fn serialize_head_appends_file_lists() {
    let messages = vec![msg(Role::User, "go"), msg(Role::Assistant, "hi")];
    let mut edit = record("edit_file", "src/lib.rs", 1);
    edit.file_change = Some(FileChange::Edit {
        path: "src/lib.rs".into(),
        diff: Vec::new(),
        original: String::new(),
        new: String::new(),
    });
    let records = vec![record("read_file", "src/main.rs", 1), edit];
    let s = serialize_head(&messages, &records, 0);
    assert!(s.contains("<read-files>\nsrc/main.rs\n</read-files>"), "{s}");
    assert!(s.contains("<modified-files>\nsrc/lib.rs\n</modified-files>"), "{s}");
}

#[test]
fn file_lists_dedup_paths() {
    let mut messages = vec![msg(Role::User, "go"), msg(Role::Assistant, "hi")];
    messages[1].id = 1;
    let records = vec![
        record("read_file", "src/main.rs", 1),
        record("grep", "src/main.rs", 1),
    ];
    let s = serialize_head(&messages, &records, 0);
    let read_section = s
        .split("<read-files>\n")
        .nth(1)
        .and_then(|rest| rest.split("</read-files>").next())
        .unwrap_or_default();
    assert_eq!(
        read_section.matches("src/main.rs").count(),
        1,
        "read list deduplicated: {s}"
    );
}

#[test]
fn serialize_head_truncates_long_content() {
    let long = "x".repeat(TOOL_OUTPUT_MAX_CHARS + 100);
    let m = msg(Role::User, &long);
    let s = serialize_head(&vec![m], &vec![], 0);
    assert!(s.contains("### User"));
    assert!(s.len() < long.len() + 100);
}

#[test]
fn serialize_head_marks_prior_summary() {
    let m = summary_msg("## Objective\nDo stuff");
    let s = serialize_head(&vec![m], &vec![], 0);
    assert!(s.contains("prior summary"));
}

#[test]
fn truncation_keeps_whole_characters() {
    assert_eq!(truncate("abc", 5), "abc");
    assert_eq!(truncate("abcdef", 3), "abc");
    assert!(summary_task("text").ends_with("---\ntext\n---"));
}
