use shuvarie_core::core_task::compact::compaction_steps;
use shuvarie_core::core_task::pending::{args_command, resolve_shell_call, PendingToolCall};
use shuvarie_core::core_task::steer::SteerSignal;
use shuvarie_core::core_task::stream::{
    StreamEffect, StreamItem, StreamOutcome, StreamStop, TurnStream,
};
use shuvarie_core::core_task::turn_end::{
    close_turn, commit_turn, fail_turn, interrupt_turn, interrupted_row_added, plan_failed_turn,
    stream_outcome, Closing, RowPlan,
};
use shuvarie_core::llm::TokenUsage;
use shuvarie_core::permissions::DenyCut;
use shuvarie_core::session::Session;
use shuvarie_core::stored::TextSegment;
use shuvarie_core::tool_record::ToolRecord;

/// A turn whose rows are numbered from ten on.
struct Run {
    session: Session,
    turn: TurnStream,
    steer: SteerSignal,
    deny: DenyCut,
    worker_usage: TokenUsage,
    effects: Vec<StreamEffect>,
    closing: Vec<Closing>,
    tokens: Vec<String>,
    outcome: Option<StreamOutcome>,
}

impl Run {
    fn new(stored: bool) -> Run {
        let mut session = Session::new();
        if stored {
            session.id = Some(1);
        }
        Run {
            session,
            turn: TurnStream::new(),
            steer: SteerSignal::default(),
            deny: DenyCut::default(),
            worker_usage: TokenUsage::default(),
            effects: Vec::new(),
            closing: Vec::new(),
            tokens: Vec::new(),
            outcome: None,
        }
    }

    fn armed() -> Run {
        let mut run = Run::new(true);
        run.steer.arm();
        run
    }

    fn feed(&mut self, item: StreamItem) {
        if self.outcome.is_some() {
            return;
        }
        let step = self.turn.step(&item, 0, &mut self.steer, &mut self.deny);
        for effect in &step.effects {
            match effect {
                StreamEffect::Token => {
                    if let StreamItem::Delta { text } = &item {
                        self.tokens.push(text.clone());
                    }
                }
                StreamEffect::EnsureRow => {
                    if self.turn.assistant_message_id.is_none() && self.session.id.is_some() {
                        self.turn.set_row(10, self.session.messages.len() as u64);
                        self.session.leaf_id = Some(10);
                    }
                }
                StreamEffect::Interrupt => {
                    if let RowPlan::Append { .. } = interrupt_turn(&mut self.session, &self.turn, 0)
                    {
                        interrupted_row_added(&mut self.session, &self.turn, 11);
                    }
                }
                StreamEffect::PersistError => fail_turn(&mut self.session, &self.turn, None),
                _ => {}
            }
        }
        self.effects.extend(step.effects);
        if step.stop.is_some() {
            self.outcome = Some(stream_outcome(step.stop, false));
        }
    }

    fn run(mut self, items: Vec<StreamItem>) -> Run {
        for item in items {
            self.feed(item);
        }
        if self.outcome.is_none() {
            if let Some(commit) = commit_turn(&mut self.session, &self.turn, self.worker_usage) {
                self.closing = close_turn(commit, &self.session, None);
            }
            self.outcome = Some(stream_outcome(None, false));
        }
        self
    }

    fn saw(&self, effect: &StreamEffect) -> bool {
        self.effects.contains(effect)
    }

    fn finished_tools(&self) -> usize {
        self.effects
            .iter()
            .filter(|e| matches!(e, StreamEffect::ToolFinished { .. }))
            .count()
    }
}

fn delta(text: &str) -> StreamItem {
    StreamItem::Delta { text: text.into() }
}

fn reasoning(text: &str) -> StreamItem {
    StreamItem::Reasoning { text: text.into() }
}

fn done(text: &str) -> StreamItem {
    StreamItem::Done { text: text.into(), usage: TokenUsage::default() }
}

fn usage(input: u64, output: u64, total: u64) -> TokenUsage {
    TokenUsage {
        input_tokens: input,
        output_tokens: output,
        total_tokens: total,
        ..TokenUsage::default()
    }
}

fn tool_start(name: &str, worker: Option<&str>, call_id: &str, args: &str) -> StreamItem {
    StreamItem::ToolStart {
        name: name.into(),
        args_json: args.into(),
        worker: worker.map(|w| w.into()),
        call_id: call_id.into(),
    }
}

fn tool_result(name: &str, output: &str, ok: bool, worker: Option<&str>, call_id: &str) -> StreamItem {
    StreamItem::ToolResult {
        name: name.into(),
        output: output.into(),
        ok,
        worker: worker.map(|w| w.into()),
        file_change: None,
        original: None,
        new: None,
        streams: None,
        call_id: call_id.into(),
    }
}

fn main_tool_start(name: &str, call_id: &str) -> StreamItem {
    tool_start(name, None, call_id, "{}")
}

fn main_tool_result(name: &str, call_id: &str) -> StreamItem {
    tool_result(name, "ok", true, None, call_id)
}

fn worker_tool_result(call_id: &str) -> StreamItem {
    tool_result("grep", "found", true, Some("explore_workspace"), call_id)
}

fn worker_start(name: &str, call_id: &str) -> StreamItem {
    StreamItem::WorkerStart { name: name.into(), args_json: "{}".into(), call_id: call_id.into() }
}

fn worker_result(name: &str, output: &str, call_id: &str) -> StreamItem {
    StreamItem::WorkerResult {
        name: name.into(),
        output: output.into(),
        ok: true,
        call_id: call_id.into(),
    }
}

#[test]
fn stream_events_forward_and_accumulate_usage() {
    let run = Run::new(false).run(vec![
        delta("hello "),
        StreamItem::Usage { usage: usage(10, 20, 30), worker: None, footprint: 30 },
        delta("world"),
        StreamItem::Done { text: "hello world".into(), usage: usage(10, 20, 30) },
    ]);
    assert_eq!(run.tokens.concat(), "hello world");
    assert!(run.saw(&StreamEffect::Usage { context_tokens: Some(30) }));
    assert_eq!(
        run.closing,
        vec![
            Closing::StreamDone { text: "hello world".into(), usage: usage(10, 20, 30) },
            Closing::UsageSnapshot { usage: usage(10, 20, 30) },
        ],
        "snapshot is session-total"
    );
    assert_eq!(run.outcome, Some(StreamOutcome::Finished));
    assert_eq!(run.session.messages.len(), 1);
    assert_eq!(run.session.messages[0].content, "hello world");
    assert_eq!(run.session.tokens, 30);
    assert_eq!(run.session.input_tokens, 10);
    assert_eq!(run.session.output_tokens, 20);
}

#[test]
fn stream_error_schedules_turn_retry_and_leaves_session_clean() {
    let run = Run::new(false).run(vec![
        delta("partial"),
        StreamItem::Error { message: "boom".into(), reason: "Turn error".into() },
    ]);
    assert_eq!(
        run.outcome,
        Some(StreamOutcome::RetryableFailure {
            reason: "Turn error".into(),
            message: "boom".into(),
        })
    );
    assert!(run.session.messages.is_empty(), "no assistant message on error");
}

#[test]
fn a_failed_turn_of_a_stored_session_keeps_its_text() {
    let mut run = Run::new(true);
    run.feed(delta("partial"));
    assert!(matches!(
        plan_failed_turn(&run.session, &run.turn),
        RowPlan::Append { text, parent: None } if text == "partial"
    ));
    fail_turn(&mut run.session, &run.turn, Some(7));
    assert_eq!(run.session.leaf_id, Some(7));
    assert_eq!(run.session.messages[0].content, "partial");
    assert_eq!(run.session.interrupted.get(&0), Some(&true));
}

#[test]
fn stream_done_waits_for_queued_worker_items_to_drain() {
    let mut run = Run::new(false);
    run.worker_usage = usage(5, 7, 12);
    let run = run.run(vec![
        StreamItem::Done { text: "final".into(), usage: usage(10, 20, 30) },
        StreamItem::Usage {
            usage: usage(5, 7, 12),
            worker: Some("explore_workspace".into()),
            footprint: 12,
        },
        tool_result("grep", "found", true, Some("explore_workspace"), "w1"),
    ]);
    assert_eq!(run.finished_tools(), 1);
    assert!(run.saw(&StreamEffect::Usage { context_tokens: None }));
    assert_eq!(
        run.closing,
        vec![
            Closing::StreamDone { text: "final".into(), usage: usage(10, 20, 30) },
            Closing::UsageSnapshot { usage: usage(15, 27, 42) },
        ],
        "snapshot combines manager + worker"
    );
    assert_eq!(run.session.messages.len(), 1);
    assert_eq!(run.session.messages[0].content, "final");
    assert_eq!(run.outcome, Some(StreamOutcome::Finished));
    assert_eq!(run.session.tokens, 42, "session accumulates combined usage");
    assert_eq!(run.session.input_tokens, 15);
}

#[test]
fn a_turn_closes_with_what_went_wrong_its_reply_and_the_totals() {
    let mut run = Run::new(false);
    run.session.tokens = 100;
    run.session.cached_tokens = 4;
    run.worker_usage = usage(1, 2, 3);
    run.feed(StreamItem::Done { text: "hi".into(), usage: usage(10, 20, 30) });
    let commit = commit_turn(&mut run.session, &run.turn, run.worker_usage).unwrap();
    let closing = close_turn(commit, &run.session, Some("failed to persist message: x".into()));
    assert_eq!(
        closing,
        vec![
            Closing::StreamError { error: "failed to persist message: x".into() },
            Closing::StreamDone { text: "hi".into(), usage: usage(10, 20, 30) },
            Closing::UsageSnapshot {
                usage: TokenUsage { cached_input_tokens: 4, ..usage(11, 22, 133) },
            },
        ]
    );
}

#[test]
fn worker_events_forward_and_usage_accumulates() {
    let mut run = Run::new(false);
    run.worker_usage = usage(5, 7, 12);
    let run = run.run(vec![
        StreamItem::WorkerStart {
            name: "explore_workspace".into(),
            args_json: "{\"task\":\"find the bug\"}".into(),
            call_id: "w1".into(),
        },
        tool_start("grep", Some("explore_workspace"), "t1", "{\"pattern\":\"bug\"}"),
        worker_tool_result("t1"),
        worker_result("explore_workspace", "summary", "w1"),
        StreamItem::Usage { usage: usage(10, 20, 30), worker: None, footprint: 30 },
        StreamItem::Done { text: "done".into(), usage: usage(10, 20, 30) },
    ]);
    assert!(run.saw(&StreamEffect::WorkerStarted), "expected WorkerStarted");
    assert!(run.saw(&StreamEffect::ToolStarted), "expected nested tool event");
    assert!(run.saw(&StreamEffect::WorkerFinished { duration_ms: 0 }));
    assert!(
        run.saw(&StreamEffect::Usage { context_tokens: Some(30) }),
        "main-stream usage carries its context footprint"
    );
    assert!(
        run.closing.contains(&Closing::UsageSnapshot { usage: usage(15, 27, 42) }),
        "expected turn-end UsageSnapshot"
    );
    assert_eq!(run.session.tokens, 42, "session accumulates combined usage");
    assert_eq!(run.session.input_tokens, 15);
    assert_eq!(run.session.output_tokens, 27);
}

#[test]
fn overflow_without_plan_reports_error_without_compaction_events() {
    let run = Run::new(false).run(vec![StreamItem::Overflow]);
    assert!(
        run.saw(&StreamEffect::BudgetExceeded),
        "overflow must report the budget error"
    );
    assert!(
        compaction_steps(&None).is_empty(),
        "no compaction events without a compaction plan"
    );
    assert!(run.closing.is_empty());
    assert_eq!(run.outcome, Some(StreamOutcome::Overflowed { compacted: false }));
    assert_eq!(
        stream_outcome(Some(StreamStop::Overflow), true),
        StreamOutcome::Overflowed { compacted: true }
    );
}

#[test]
fn steered_prompt_cuts_after_text_segment_before_tools_run() {
    let run = Run::armed().run(vec![
        delta("plan"),
        main_tool_start("read_file", "c1"),
        main_tool_result("read_file", "c1"),
        done("plan"),
    ]);
    assert!(run.saw(&StreamEffect::Interrupt), "the cut is carried out");
    assert!(
        !run.saw(&StreamEffect::ToolStarted),
        "the committed tool call must never execute once steered"
    );
    assert_eq!(run.outcome, Some(StreamOutcome::Preempted));
    assert_eq!(
        run.session.messages.last().map(|m| m.content.as_str()),
        Some("plan"),
        "partial text persisted as the interrupted assistant message"
    );
    assert!(run.session.tool_records.is_empty(), "no tool ran");
}

#[test]
fn steered_prompt_cuts_after_thinking_segment() {
    let run = Run::armed().run(vec![
        reasoning("thinking it through"),
        delta("the answer"),
        done("the answer"),
    ]);
    assert!(
        run.tokens.is_empty(),
        "text following the thinking segment must never stream"
    );
    assert_eq!(run.outcome, Some(StreamOutcome::Preempted));
    assert_eq!(run.session.messages.len(), 1);
    assert_eq!(run.session.messages[0].content, "");
    assert_eq!(run.session.interrupted.get(&0), Some(&true));
    let segments = run.session.reasoning.get(&0).expect("reasoning persisted");
    assert_eq!(segments.len(), 1);
    assert_eq!(segments[0].text, "thinking it through");
}

#[test]
fn steered_prompt_waits_for_full_turn_without_boundary() {
    let run = Run::armed().run(vec![delta("hi"), done("hi")]);
    assert_eq!(
        run.outcome,
        Some(StreamOutcome::Finished),
        "armed steering must not preempt a turn that never crosses a boundary"
    );
    assert!(run.session.interrupted.is_empty(), "turn committed cleanly");
}

#[test]
fn steered_prompt_ignores_worker_activity() {
    let run = Run::armed().run(vec![
        worker_start("explore_workspace", "w1"),
        tool_start("grep", Some("explore_workspace"), "t1", "{}"),
        worker_tool_result("t1"),
        delta("straggler-era delta"),
        done("x"),
    ]);
    assert!(!run.tokens.is_empty(), "worker activity must not trigger the cut");
    assert!(!run.saw(&StreamEffect::Interrupt));
    assert_eq!(run.outcome, Some(StreamOutcome::Finished));
    assert!(run.session.interrupted.is_empty(), "the turn committed cleanly");
}

#[test]
fn steered_prompt_cuts_when_worker_batch_settles() {
    let run = Run::armed().run(vec![
        worker_start("explore_workspace", "w1"),
        tool_start("grep", Some("explore_workspace"), "t1", "{}"),
        worker_tool_result("t1"),
        worker_result("explore_workspace", "summary", "w1"),
        delta("next round"),
        done("next round"),
    ]);
    assert!(run.saw(&StreamEffect::WorkerFinished { duration_ms: 0 }));
    assert_eq!(run.outcome, Some(StreamOutcome::Preempted));
    assert_eq!(
        run.session.tool_records.len(),
        1,
        "the worker's internal tool call stays persisted"
    );
    assert_eq!(
        run.session.tool_records[0].worker.as_deref(),
        Some("explore_workspace")
    );
}

#[test]
fn steered_prompt_cuts_only_after_whole_multi_tool_batch() {
    let run = Run::armed().run(vec![
        main_tool_start("read_file", "c1"),
        main_tool_start("read_file", "c2"),
        main_tool_result("read_file", "c1"),
        main_tool_result("read_file", "c2"),
        delta("next round"),
        done("next round"),
    ]);
    assert_eq!(run.finished_tools(), 2, "both batch results surface before the cut");
    assert_eq!(run.outcome, Some(StreamOutcome::Preempted));
    assert_eq!(run.session.tool_records.len(), 2);
}

#[test]
fn permission_deny_cuts_the_turn_after_the_denied_result() {
    let mut run = Run::new(true);
    run.feed(main_tool_start("read_file", "c1"));
    assert!(run.saw(&StreamEffect::ToolStarted));
    run.deny.trigger();
    let run = run.run(vec![
        tool_result(
            "read_file",
            "permission denied: paths: deny \".env\"",
            false,
            None,
            "c1",
        ),
        done("the model keeps going"),
    ]);
    assert_eq!(run.finished_tools(), 1, "the denied call finished before the cut");
    assert_eq!(run.outcome, Some(StreamOutcome::Preempted));
    assert!(!run.deny.is_set(), "the stream consumed the signal");
    assert_eq!(run.session.interrupted.get(&0), Some(&true));
    assert_eq!(run.session.tool_records.len(), 1);
    let record = &run.session.tool_records[0];
    assert!(!record.killed, "the denied call returned, so it is not killed");
    assert!(!record.ok);
    assert!(record.output.contains("permission denied"), "{}", record.output);
}

#[test]
fn deny_after_done_cannot_discard_a_finished_turn() {
    let mut run = Run::new(true);
    for item in vec![
        main_tool_start("grep", "c1"),
        main_tool_result("grep", "c1"),
        done("the reply"),
    ] {
        run.feed(item);
    }
    run.deny.trigger();
    let run = run.run(vec![delta("")]);
    assert!(
        !run.saw(&StreamEffect::Interrupt),
        "a straggling denial cannot cut a finished turn"
    );
    assert_eq!(run.outcome, Some(StreamOutcome::Finished));
    assert!(run.session.interrupted.is_empty());
    assert_eq!(
        run.session.messages.last().map(|m| m.content.as_str()),
        Some("the reply")
    );
}

#[test]
fn steered_prompt_waits_for_thinking_to_complete() {
    let run = Run::armed().run(vec![
        reasoning("first burst"),
        reasoning(" — second burst"),
        delta("the answer"),
        done("the answer"),
    ]);
    assert_eq!(
        run.effects.iter().filter(|e| **e == StreamEffect::Reasoning).count(),
        2,
        "both thinking deltas stream before the cut"
    );
    assert!(run.tokens.is_empty(), "the text action never streams once steered");
    assert_eq!(run.outcome, Some(StreamOutcome::Preempted));
    assert_eq!(run.session.interrupted.get(&0), Some(&true));
    let segments = run.session.reasoning.get(&0).expect("reasoning persisted");
    assert_eq!(segments.len(), 1, "both bursts append into one segment");
    assert_eq!(segments[0].text, "first burst — second burst");
}

#[test]
fn steered_prompt_waits_for_text_to_complete() {
    let run = Run::armed().run(vec![delta("one"), delta(" two"), done("one two")]);
    assert_eq!(run.tokens.len(), 2, "the whole text segment streams");
    assert_eq!(run.outcome, Some(StreamOutcome::Finished));
    assert!(run.session.interrupted.is_empty(), "turn committed cleanly");
}

#[test]
fn steered_prompt_cuts_when_worker_straggler_result_lags() {
    let run = Run::armed().run(vec![
        worker_start("explore_workspace", "w1"),
        tool_start("grep", Some("explore_workspace"), "t1", "{}"),
        worker_result("explore_workspace", "summary", "w1"),
        worker_tool_result("t1"),
        delta("next round"),
        done("next round"),
    ]);
    assert_eq!(
        run.finished_tools(),
        1,
        "the lagging worker-internal result still surfaces"
    );
    assert_eq!(run.outcome, Some(StreamOutcome::Preempted));
    assert_eq!(run.session.tool_records.len(), 1);
}

#[test]
fn unarmed_signal_never_cuts() {
    let run = Run::new(true).run(vec![
        delta("a"),
        main_tool_start("read_file", "c1"),
        main_tool_result("read_file", "c1"),
        done("a"),
    ]);
    assert!(!run.saw(&StreamEffect::Interrupt));
    assert_eq!(run.outcome, Some(StreamOutcome::Finished));
    assert!(run.session.interrupted.is_empty());
}

#[test]
fn steered_prompt_cuts_mid_stream_when_armed_between_actions() {
    let mut run = Run::new(true);
    run.feed(delta("working"));
    assert_eq!(run.tokens, vec!["working"]);
    run.feed(main_tool_start("edit_file", "c1"));
    assert!(run.saw(&StreamEffect::ToolStarted));
    run.steer.arm();
    run.feed(main_tool_result("edit_file", "c1"));
    assert_eq!(run.finished_tools(), 1);
    let run = run.run(vec![delta("should never stream")]);
    assert_eq!(run.tokens, vec!["working"]);
    assert_eq!(run.outcome, Some(StreamOutcome::Preempted));
    assert_eq!(run.session.messages.len(), 1);
    assert_eq!(run.session.messages[0].content, "working");
    assert_eq!(run.session.interrupted.get(&0), Some(&true));
    assert_eq!(run.session.tool_records.len(), 1);
}

#[test]
fn interrupted_turn_persists_pending_tools_as_killed() {
    let mut session = Session::new();
    session.id = Some(1);
    session.push_user("go");
    let mut turn = TurnStream::new();
    turn.set_row(2, 1);
    turn.text_segments = vec![TextSegment { after_tool: 0, text: "partial".into() }];
    turn.tool_records = vec![ToolRecord {
        name: "read_file".into(),
        args_json: "{}".into(),
        output: "out".into(),
        stderr: String::new(),
        ok: true,
        killed: false,
        worker: None,
        message_id: 2,
        message_seq: 1,
        file_change: None,
        original_content: None,
        new_content: None,
        duration_ms: 5,
    }];
    turn.started_calls = vec![PendingToolCall {
        call_id: "c2".into(),
        name: "run_shell".into(),
        args_json: r#"{"command":"sleep 30"}"#.into(),
        command: Some("sleep 30".into()),
        worker: None,
        started: 0,
    }];
    let RowPlan::Update { row, text, killed, first_seq } = interrupt_turn(&mut session, &turn, 3)
    else {
        panic!("expected the stored reply to be updated");
    };
    assert_eq!((row, text.as_str()), (2, "partial"));
    assert_eq!(killed.len(), 1, "the pending call persists as killed");
    assert_eq!(killed[0].name, "run_shell");
    assert_eq!(first_seq, 1, "seq continues after the finished calls");
    assert!(!killed[0].ok);
    assert_eq!(killed[0].message_id, 2);
    assert_eq!(killed[0].duration_ms, 3);

    assert_eq!(session.messages.len(), 2);
    assert_eq!(session.interrupted.get(&1), Some(&true));
    assert_eq!(session.tool_records.len(), 2);
    assert!(!session.tool_records[0].killed);
    assert!(session.tool_records[1].killed);
    assert_eq!(session.tool_records[1].message_seq, 1);
    assert_eq!(session.tool_records[1].name, "run_shell");
}

#[test]
fn tool_result_clears_the_pending_call() {
    let run = Run::new(true).run(vec![
        main_tool_start("edit_file", "c1"),
        main_tool_result("edit_file", "c1"),
        done("done"),
    ]);
    assert!(run.turn.started_calls.is_empty());
    assert_eq!(run.session.tool_records.len(), 1);
    assert!(!run.session.tool_records[0].killed);
}

#[test]
fn text_runs_seal_at_tool_gaps() {
    let mut run = Run::new(true);
    run.session.push_user("go");
    let run = run.run(vec![
        delta("start"),
        main_tool_start("read_file", "c1"),
        main_tool_result("read_file", "c1"),
        delta("\n\nresumed"),
        done("start\n\nresumed"),
    ]);
    let expected = vec![
        TextSegment { after_tool: 0, text: "start".into() },
        TextSegment { after_tool: 1, text: "\n\nresumed".into() },
    ];
    assert_eq!(run.turn.text_segments, expected, "the resumed run seals at the tool gap");
    assert_eq!(run.session.messages[1].content, "start\n\nresumed");
    assert_eq!(run.session.text_segments.get(&1), Some(&expected));
}

fn shell_output(command: &str, stdout: &str) -> StreamItem {
    StreamItem::ShellOutput {
        worker: Some("run_tests".into()),
        command: command.into(),
        stdout: stdout.into(),
        stderr: String::new(),
    }
}

fn shell_start(call_id: &str, command: &str) -> StreamItem {
    tool_start(
        "run_shell",
        Some("run_tests"),
        call_id,
        &format!("{{\"command\":\"{command}\"}}"),
    )
}

fn chunk_calls(run: &Run) -> Vec<Option<String>> {
    run.effects
        .iter()
        .filter_map(|e| match e {
            StreamEffect::ToolOutput { call_id } => Some(call_id.clone()),
            _ => None,
        })
        .collect()
}

#[test]
fn shell_chunks_resolve_to_their_own_concurrent_calls() {
    let run = Run::new(true).run(vec![
        worker_start("run_tests", "w1"),
        shell_start("s1", "cargo test"),
        shell_start("s2", "cargo clippy"),
        shell_output("cargo clippy", "clippy tail"),
        shell_output("cargo test", "test tail"),
        tool_result("run_shell", "exit 0\ntest tail", true, Some("run_tests"), "s1"),
        shell_output("cargo test", "straggler"),
        worker_result("run_tests", "done", "w1"),
        done("done"),
    ]);
    assert_eq!(run.outcome, Some(StreamOutcome::Finished));
    assert_eq!(
        chunk_calls(&run),
        vec![Some("s2".to_string()), Some("s1".to_string()), None],
        "each chunk routes to its own call; the settled call's chunk is unresolved"
    );
}

#[test]
fn ambiguous_shell_chunk_stays_unresolved() {
    let run = Run::new(true).run(vec![
        worker_start("run_tests", "w1"),
        shell_start("s1", "cargo test"),
        shell_start("s2", "cargo test"),
        shell_output("cargo test", "tail"),
        done("done"),
    ]);
    assert_eq!(chunk_calls(&run), vec![None], "identical commands stay ambiguous");
}

#[test]
fn commands_are_read_from_arguments() {
    assert_eq!(args_command("{\"command\":\"ls\"}").as_deref(), Some("ls"));
    assert_eq!(args_command("{}"), None);
    assert_eq!(resolve_shell_call(&None, "ls", &vec![]), None);
}
