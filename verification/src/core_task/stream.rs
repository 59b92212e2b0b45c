//! The stream of a turn: what each item that comes in changes, and what is to
//! be done about it.

use crate::core_task::pending;
use crate::core_task::pending::{
    args_command, drop_call, elapsed_ms, find_call, resolve_shell_call, same_opt, PendingToolCall,
    PendingView,
};
use crate::core_task::steer::{SteerSignal, SteerState};
use crate::llm;
use crate::llm::{FileChange, TokenUsage};
use crate::permissions::DenyCut;
use crate::stored;
use crate::stored::{join_text_segments, ReasoningSegment, TextSegment};
use crate::text::same;
use crate::tool_record::{ToolRecord, ToolRecordView};
use crate::views;
use crate::views::{duplicate_opt, Duplicate};
use vstd::prelude::*;

verus! {

/// The two outputs of a shell command.
#[derive(Debug, Clone, PartialEq)]
pub struct ShellStreams {
    pub stdout: String,
    pub stderr: String,
}

/// What comes in on the stream of a turn. An item without a worker is the main
/// agent's. `footprint` is how much of the context a request took up.
#[derive(Debug)]
pub enum StreamItem {
    Delta { text: String },
    Reasoning { text: String },
    ToolStart { name: String, args_json: String, worker: Option<String>, call_id: String },
    ToolResult {
        name: String,
        output: String,
        ok: bool,
        worker: Option<String>,
        file_change: Option<FileChange>,
        original: Option<String>,
        new: Option<String>,
        streams: Option<ShellStreams>,
        call_id: String,
    },
    WorkerStart { name: String, args_json: String, call_id: String },
    WorkerResult { name: String, output: String, ok: bool, call_id: String },
    ShellOutput { worker: Option<String>, command: String, stdout: String, stderr: String },
    Usage { usage: TokenUsage, worker: Option<String>, footprint: u64 },
    Done { text: String, usage: TokenUsage },
    ConnectionError { message: String, reason: String },
    Error { message: String, reason: String },
    Overflow,
}

/// Which action of the turn the main agent is in.
#[derive(Debug, Clone, Copy, PartialEq, Eq, Structural)]
pub enum ActionPhase {
    /// Nothing streamed yet: the first action cannot be preempted.
    Fresh,
    /// A reasoning segment is streaming.
    Thinking,
    /// Text is streaming.
    Text,
    /// Some tool calls run.
    Tools,
    /// All tool calls have returned, and nothing came after them.
    Between,
}

/// The state of a turn that is streaming. `started_calls` are the calls
/// without a result, in the order in which they started.
#[derive(Debug)]
pub struct TurnStream {
    pub assistant_message_id: Option<u64>,
    pub assistant_seq: u64,
    pub text_segments: Vec<TextSegment>,
    pub pending_reasoning: Vec<ReasoningSegment>,
    pub reasoning_started: Option<u64>,
    pub tool_seq: u64,
    pub tool_records: Vec<ToolRecord>,
    pub main_calls: Vec<PendingToolCall>,
    pub worker_calls: Vec<PendingToolCall>,
    pub worker_runs: Vec<PendingToolCall>,
    pub started_calls: Vec<PendingToolCall>,
    pub done: Option<(String, TokenUsage)>,
    pub action: ActionPhase,
}

/// The content of a [`TurnStream`].
#[verifier::ext_equal]
pub struct TurnView {
    pub assistant_message_id: Option<u64>,
    pub assistant_seq: u64,
    pub text_segments: Seq<(u64, Seq<char>)>,
    pub pending_reasoning: Seq<(u64, Seq<char>, u64)>,
    pub reasoning_started: Option<u64>,
    pub tool_seq: u64,
    pub tool_records: Seq<ToolRecordView>,
    pub main_calls: Seq<PendingView>,
    pub worker_calls: Seq<PendingView>,
    pub worker_runs: Seq<PendingView>,
    pub started_calls: Seq<PendingView>,
    pub done: Option<(Seq<char>, TokenUsage)>,
    pub action: ActionPhase,
}

impl View for TurnStream {
    type V = TurnView;

    open spec fn view(&self) -> TurnView {
        TurnView {
            assistant_message_id: self.assistant_message_id,
            assistant_seq: self.assistant_seq,
            text_segments: views::views(self.text_segments@),
            pending_reasoning: views::views(self.pending_reasoning@),
            reasoning_started: self.reasoning_started,
            tool_seq: self.tool_seq,
            tool_records: views::views(self.tool_records@),
            main_calls: views::views(self.main_calls@),
            worker_calls: views::views(self.worker_calls@),
            worker_runs: views::views(self.worker_runs@),
            started_calls: views::views(self.started_calls@),
            done: match self.done {
                Some((text, usage)) => Some((text@, usage)),
                None => None,
            },
            action: self.action,
        }
    }
}

/// What is to be done about an item, in this order. `Token` to `Usage` report
/// the item itself, with what the effect adds.
#[derive(Debug, PartialEq)]
pub enum StreamEffect {
    /// Report text.
    Token,
    /// Report reasoning.
    Reasoning,
    /// Make sure that the reply has a stored message.
    EnsureRow,
    /// Report that a tool call started.
    ToolStarted,
    /// Store the last tool record under this number.
    PersistTool { seq: u64 },
    /// Report that a tool call returned.
    ToolFinished { duration_ms: u64 },
    /// Report that a worker started.
    WorkerStarted,
    /// Report that a worker returned.
    WorkerFinished { duration_ms: u64 },
    /// Report output of a running shell call.
    ToolOutput { call_id: Option<String> },
    /// Report the usage of a request.
    Usage { context_tokens: Option<u64> },
    /// Store what was streamed before a failure.
    PersistError,
    /// Report that the context budget is exceeded.
    BudgetExceeded,
    /// Summarize the history.
    Compact,
    /// Store the turn as interrupted and report the cancellation.
    Interrupt,
}

/// The content of a [`StreamEffect`].
#[verifier::ext_equal]
pub enum EffectView {
    Token,
    Reasoning,
    EnsureRow,
    ToolStarted,
    PersistTool { seq: u64 },
    ToolFinished { finished_ms: u64 },
    WorkerStarted,
    WorkerFinished { worker_ms: u64 },
    ToolOutput { call_id: Option<Seq<char>> },
    Usage { context_tokens: Option<u64> },
    PersistError,
    BudgetExceeded,
    Compact,
    Interrupt,
}

impl View for StreamEffect {
    type V = EffectView;

    open spec fn view(&self) -> EffectView {
        match *self {
            StreamEffect::Token => EffectView::Token,
            StreamEffect::Reasoning => EffectView::Reasoning,
            StreamEffect::EnsureRow => EffectView::EnsureRow,
            StreamEffect::ToolStarted => EffectView::ToolStarted,
            StreamEffect::PersistTool { seq } => EffectView::PersistTool { seq },
            StreamEffect::ToolFinished { duration_ms } => EffectView::ToolFinished {
                finished_ms: duration_ms,
            },
            StreamEffect::WorkerStarted => EffectView::WorkerStarted,
            StreamEffect::WorkerFinished { duration_ms } => EffectView::WorkerFinished {
                worker_ms: duration_ms,
            },
            StreamEffect::ToolOutput { call_id } => EffectView::ToolOutput {
                call_id: views::opt_view(call_id),
            },
            StreamEffect::Usage { context_tokens } => EffectView::Usage { context_tokens },
            StreamEffect::PersistError => EffectView::PersistError,
            StreamEffect::BudgetExceeded => EffectView::BudgetExceeded,
            StreamEffect::Compact => EffectView::Compact,
            StreamEffect::Interrupt => EffectView::Interrupt,
        }
    }
}

/// Why the stream is read no further.
#[derive(Debug, Clone, PartialEq)]
pub enum StreamStop {
    /// The turn was cut.
    Cut,
    /// The turn failed in a way that may pass.
    Failed { reason: String, message: String },
    /// The context budget overflowed.
    Overflow,
}

/// The content of a [`StreamStop`].
#[verifier::ext_equal]
pub enum StopView {
    Cut,
    Failed { reason: Seq<char>, message: Seq<char> },
    Overflow,
}

impl View for StreamStop {
    type V = StopView;

    open spec fn view(&self) -> StopView {
        match *self {
            StreamStop::Cut => StopView::Cut,
            StreamStop::Failed { reason, message } => StopView::Failed {
                reason: reason@,
                message: message@,
            },
            StreamStop::Overflow => StopView::Overflow,
        }
    }
}

/// What came of an item.
#[derive(Debug)]
pub struct StreamStep {
    pub effects: Vec<StreamEffect>,
    pub stop: Option<StreamStop>,
}

/// How a streamed turn ended.
#[derive(Debug, Clone, PartialEq, Eq)]
pub enum StreamOutcome {
    /// The turn completed.
    Finished,
    /// The turn was cut; its partial output is stored as interrupted.
    Preempted,
    /// The context budget overflowed; `compacted` if the history was summarized.
    Overflowed { compacted: bool },
    /// The turn failed and may be tried again.
    RetryableFailure { reason: String, message: String },
}

/// The action that an item of the main agent starts or continues.
pub open spec fn action_of(item: StreamItem) -> Option<ActionPhase> {
    match item {
        StreamItem::Delta { text } => if text@.len() > 0 {
            Some(ActionPhase::Text)
        } else {
            None
        },
        StreamItem::Reasoning { text } => if text@.len() > 0 {
            Some(ActionPhase::Thinking)
        } else {
            None
        },
        StreamItem::ToolStart { worker, .. } => if worker is None {
            Some(ActionPhase::Tools)
        } else {
            None
        },
        StreamItem::WorkerStart { .. } => Some(ActionPhase::Tools),
        _ => None,
    }
}

/// Whether the item opens the next action after one that has completed: the
/// place where a queued prompt cuts in. The first action of a turn, a segment
/// that goes on, and tool calls that still run are never cut.
pub open spec fn opens_next_action(item: StreamItem, action: ActionPhase) -> bool {
    match (action, action_of(item)) {
        (ActionPhase::Between, Some(_)) => true,
        (ActionPhase::Thinking, Some(a)) => a != ActionPhase::Thinking,
        (ActionPhase::Text, Some(a)) => a != ActionPhase::Text,
        _ => false,
    }
}

/// The text runs with more text: it goes on the last run unless a tool call
/// came in between.
pub open spec fn with_text(
    runs: Seq<(u64, Seq<char>)>,
    after_tool: u64,
    more: Seq<char>,
) -> Seq<(u64, Seq<char>)> {
    if runs.len() > 0 && runs.last().0 == after_tool {
        runs.drop_last().push((after_tool, runs.last().1 + more))
    } else {
        runs.push((after_tool, more))
    }
}

/// When the reasoning segment that is streaming started.
pub open spec fn reasoning_start(t: TurnView, now: u64) -> Option<u64> {
    let runs = t.pending_reasoning;
    if runs.len() > 0 && runs.last().0 == t.tool_records.len() as u64 {
        t.reasoning_started
    } else {
        Some(now)
    }
}

/// The reasoning segments with more text; the one that is streaming has
/// taken as long as it has streamed.
pub open spec fn with_reasoning(t: TurnView, more: Seq<char>, now: u64) -> Seq<
    (u64, Seq<char>, u64),
> {
    let runs = t.pending_reasoning;
    let after_tool = t.tool_records.len() as u64;
    let (before, content, took) = if runs.len() > 0 && runs.last().0 == after_tool {
        (runs.drop_last(), runs.last().1 + more, runs.last().2)
    } else {
        (runs, more, 0u64)
    };
    match reasoning_start(t, now) {
        Some(started) => before.push((after_tool, content, pending::elapsed(now, started))),
        None => before.push((after_tool, content, took)),
    }
}

/// The calls but for the one of the worker with the id.
pub open spec fn settled(
    s: Seq<PendingView>,
    id: Seq<char>,
    worker: Option<Seq<char>>,
) -> Seq<PendingView>
    decreases s.len(),
{
    if s.len() == 0 {
        s
    } else if s.last().call_id == id && s.last().worker == worker {
        settled(s.drop_last(), id, worker)
    } else {
        settled(s.drop_last(), id, worker).push(s.last())
    }
}

/// The phase after a result: tools still run, or all have returned.
pub open spec fn phase_after(main: Seq<PendingView>, runs: Seq<PendingView>) -> ActionPhase {
    if main.len() == 0 && runs.len() == 0 {
        ActionPhase::Between
    } else {
        ActionPhase::Tools
    }
}

/// A call that starts now.
pub open spec fn started_call(
    name: Seq<char>,
    args_json: Seq<char>,
    worker: Option<Seq<char>>,
    call_id: Seq<char>,
    now: u64,
) -> PendingView {
    PendingView {
        call_id,
        name,
        args_json,
        command: crate::json::json_string(args_json, "command"@),
        worker,
        started: now,
    }
}

/// The turn after a call started.
pub open spec fn after_start(t: TurnView, p: PendingView) -> TurnView {
    if p.worker is None {
        TurnView {
            main_calls: pending::put(t.main_calls, p),
            started_calls: t.started_calls.push(p),
            action: ActionPhase::Tools,
            ..t
        }
    } else {
        TurnView {
            worker_calls: pending::put(t.worker_calls, p),
            started_calls: t.started_calls.push(p),
            ..t
        }
    }
}

/// How long a call took.
pub open spec fn call_time(p: Option<PendingView>, now: u64) -> u64 {
    match p {
        Some(p) => pending::elapsed(now, p.started),
        None => 0,
    }
}

/// The turn after a call returned with the record.
pub open spec fn after_result(t: TurnView, r: ToolRecordView, call_id: Seq<char>) -> TurnView {
    let main = if r.worker is None {
        pending::dropped(t.main_calls, call_id)
    } else {
        t.main_calls
    };
    let of_workers = if r.worker is None {
        t.worker_calls
    } else {
        pending::dropped(t.worker_calls, call_id)
    };
    TurnView {
        tool_seq: if t.assistant_message_id is Some {
            llm::capped_sum(t.tool_seq, 1)
        } else {
            t.tool_seq
        },
        tool_records: t.tool_records.push(r),
        main_calls: main,
        worker_calls: of_workers,
        started_calls: settled(t.started_calls, call_id, r.worker),
        action: if r.worker is None {
            phase_after(main, t.worker_runs)
        } else {
            t.action
        },
        ..t
    }
}

/// What an item changes, what is to be done about it, and whether it ends the stream.
pub open spec fn handled(t: TurnView, item: StreamItem, now: u64) -> (
    TurnView,
    Seq<EffectView>,
    Option<StopView>,
) {
    match item {
        StreamItem::Delta { text } => if text@.len() == 0 {
            (t, Seq::empty(), None)
        } else {
            (
                TurnView {
                    text_segments: with_text(
                        t.text_segments,
                        t.tool_records.len() as u64,
                        text@,
                    ),
                    action: ActionPhase::Text,
                    ..t
                },
                seq![EffectView::Token],
                None,
            )
        },
        StreamItem::Reasoning { text } => if text@.len() == 0 {
            (t, Seq::empty(), None)
        } else {
            (
                TurnView {
                    pending_reasoning: with_reasoning(t, text@, now),
                    reasoning_started: reasoning_start(t, now),
                    action: ActionPhase::Thinking,
                    ..t
                },
                seq![EffectView::Reasoning],
                None,
            )
        },
        StreamItem::ToolStart { name, args_json, worker, call_id } => (
            after_start(
                t,
                started_call(name@, args_json@, views::opt_view(worker), call_id@, now),
            ),
            seq![EffectView::EnsureRow, EffectView::ToolStarted],
            None,
        ),
        StreamItem::ToolResult {
            name,
            output,
            ok,
            worker,
            file_change,
            original,
            new,
            streams,
            call_id,
        } => {
            let p = pending::pending(
                if worker is None {
                    t.main_calls
                } else {
                    t.worker_calls
                },
                call_id@,
            );
            let r = ToolRecordView {
                name: name@,
                args_json: match p {
                    Some(p) => p.args_json,
                    None => Seq::empty(),
                },
                output: match streams {
                    Some(s) => s.stdout@,
                    None => output@,
                },
                stderr: match streams {
                    Some(s) => s.stderr@,
                    None => Seq::empty(),
                },
                ok,
                killed: false,
                worker: views::opt_view(worker),
                message_id: match t.assistant_message_id {
                    Some(id) => id,
                    None => 0,
                },
                message_seq: t.assistant_seq,
                file_change: views::opt_view(file_change),
                original_content: views::opt_view(original),
                new_content: views::opt_view(new),
                duration_ms: call_time(p, now),
            };
            let finished = EffectView::ToolFinished { finished_ms: call_time(p, now) };
            (
                after_result(t, r, call_id@),
                if t.assistant_message_id is Some {
                    seq![EffectView::PersistTool { seq: t.tool_seq }, finished]
                } else {
                    seq![finished]
                },
                None,
            )
        },
        StreamItem::WorkerStart { name, args_json, call_id } => (
            TurnView {
                worker_runs: pending::put(
                    t.worker_runs,
                    PendingView {
                        call_id: call_id@,
                        name: name@,
                        args_json: args_json@,
                        command: None,
                        worker: None,
                        started: now,
                    },
                ),
                action: ActionPhase::Tools,
                ..t
            },
            seq![EffectView::WorkerStarted],
            None,
        ),
        StreamItem::WorkerResult { call_id, .. } => {
            let runs = pending::dropped(t.worker_runs, call_id@);
            (
                TurnView { worker_runs: runs, action: phase_after(t.main_calls, runs), ..t },
                seq![
                    EffectView::WorkerFinished {
                        worker_ms: call_time(pending::pending(t.worker_runs, call_id@), now),
                    },
                ],
                None,
            )
        },
        StreamItem::ShellOutput { worker, command, .. } => (
            t,
            seq![
                EffectView::ToolOutput {
                    call_id: pending::chunk_call(
                        if worker is None {
                            t.main_calls
                        } else {
                            t.worker_calls
                        },
                        views::opt_view(worker),
                        command@,
                    ),
                },
            ],
            None,
        ),
        StreamItem::Usage { worker, footprint, .. } => (
            t,
            seq![
                EffectView::Usage {
                    context_tokens: if worker is None && footprint > 0 {
                        Some(footprint)
                    } else {
                        None
                    },
                },
            ],
            None,
        ),
        StreamItem::Done { text, usage } => (
            TurnView {
                done: Some(
                    (
                        if text@.len() == 0 {
                            stored::segments_text(t.text_segments)
                        } else {
                            text@
                        },
                        usage,
                    ),
                ),
                ..t
            },
            Seq::empty(),
            None,
        ),
        StreamItem::ConnectionError { message, reason } => (
            TurnView { done: None, ..t },
            seq![EffectView::PersistError],
            Some(StopView::Failed { reason: reason@, message: message@ }),
        ),
        StreamItem::Error { message, reason } => (
            TurnView { done: None, ..t },
            seq![EffectView::PersistError],
            Some(StopView::Failed { reason: reason@, message: message@ }),
        ),
        StreamItem::Overflow => (
            TurnView { done: None, ..t },
            seq![EffectView::PersistError, EffectView::BudgetExceeded, EffectView::Compact],
            Some(StopView::Overflow),
        ),
    }
}

/// What comes of an item: the turn, the effects, why the stream ends if it
/// does, and the two signals.
#[verifier::ext_equal]
pub struct StepView {
    pub turn: TurnView,
    pub effects: Seq<EffectView>,
    pub stop: Option<StopView>,
    pub steer: SteerState,
    pub deny: bool,
}

/// What comes of an item. A wanted cut is made before an item that opens the
/// next action, or after one with which all tool calls have returned; a
/// denial cuts after the item. A turn that is done is cut by neither.
pub open spec fn step_of(
    t: TurnView,
    item: StreamItem,
    now: u64,
    steer: SteerState,
    deny: bool,
) -> StepView {
    if opens_next_action(item, t.action) && steer == SteerState::Armed {
        StepView {
            turn: TurnView { done: None, ..t },
            effects: seq![EffectView::Interrupt],
            stop: Some(StopView::Cut),
            steer: SteerState::Finalizing,
            deny,
        }
    } else {
        let (turn, effects, stop) = handled(t, item, now);
        if stop is Some {
            StepView { turn, effects, stop, steer, deny }
        } else if turn.done is None && turn.action == ActionPhase::Between
            && turn.worker_calls.len() == 0 && steer == SteerState::Armed {
            StepView {
                turn,
                effects: effects.push(EffectView::Interrupt),
                stop: Some(StopView::Cut),
                steer: SteerState::Finalizing,
                deny,
            }
        } else if turn.done is None && deny {
            StepView {
                turn,
                effects: effects.push(EffectView::Interrupt),
                stop: Some(StopView::Cut),
                steer,
                deny: false,
            }
        } else {
            StepView { turn, effects, stop: None, steer, deny }
        }
    }
}

/// The action that an item starts or continues.
fn item_action(item: &StreamItem) -> (r: Option<ActionPhase>)
    ensures
        r == action_of(*item),
{
    match item {
        StreamItem::Delta { text } => if text.as_str().is_empty() {
            None
        } else {
            Some(ActionPhase::Text)
        },
        StreamItem::Reasoning { text } => if text.as_str().is_empty() {
            None
        } else {
            Some(ActionPhase::Thinking)
        },
        StreamItem::ToolStart { worker, .. } => if worker.is_none() {
            Some(ActionPhase::Tools)
        } else {
            None
        },
        StreamItem::WorkerStart { .. } => Some(ActionPhase::Tools),
        _ => None,
    }
}

/// Whether the item opens the next action after one that has completed.
pub fn starts_action_after_boundary(item: &StreamItem, action: ActionPhase) -> (b: bool)
    ensures
        b == opens_next_action(*item, action),
{
    match (action, item_action(item)) {
        (ActionPhase::Between, Some(_)) => true,
        (ActionPhase::Thinking, Some(a)) => a != ActionPhase::Thinking,
        (ActionPhase::Text, Some(a)) => a != ActionPhase::Text,
        _ => false,
    }
}

fn settle_call(v: &Vec<PendingToolCall>, id: &str, worker: &Option<String>) -> (r: Vec<
    PendingToolCall,
>)
    ensures
        views::views(r@) == settled(views::views(v@), id@, views::opt_view(*worker)),
{
    let ghost all = views::views(v@);
    let ghost w = views::opt_view(*worker);
    let mut out: Vec<PendingToolCall> = Vec::new();
    let mut i: usize = 0;
    proof {
        assert(views::views(out@) =~= settled(all.take(0), id@, w));
    }
    while i < v.len()
        invariant
            all == views::views(v@),
            w == views::opt_view(*worker),
            i <= v@.len(),
            views::views(out@) == settled(all.take(i as int), id@, w),
        decreases v@.len() - i,
    {
        proof {
            assert(all.take(i + 1).drop_last() =~= all.take(i as int));
        }
        let ghost before = out@;
        if !(same(v[i].call_id.as_str(), id) && same_opt(&v[i].worker, worker)) {
            let p = v[i].duplicate();
            out.push(p);
            proof {
                assert(views::views(out@) =~= views::views(before).push(p@));
            }
        }
        i += 1;
    }
    proof {
        assert(all.take(i as int) =~= all);
    }
    out
}

fn put_call(v: &Vec<PendingToolCall>, p: PendingToolCall) -> (r: Vec<PendingToolCall>)
    ensures
        views::views(r@) == pending::put(views::views(v@), p@),
{
    let mut out = drop_call(v, p.call_id.as_str());
    let ghost before = out@;
    out.push(p);
    proof {
        assert(views::views(out@) =~= views::views(before).push(p@));
    }
    out
}

fn phase_now(main: &Vec<PendingToolCall>, runs: &Vec<PendingToolCall>) -> (r: ActionPhase)
    ensures
        r == phase_after(views::views(main@), views::views(runs@)),
{
    if main.len() == 0 && runs.len() == 0 {
        ActionPhase::Between
    } else {
        ActionPhase::Tools
    }
}

impl TurnStream {
    /// Nothing was streamed yet.
    pub open spec fn fresh() -> TurnView {
        TurnView {
            assistant_message_id: None,
            assistant_seq: 0,
            text_segments: Seq::empty(),
            pending_reasoning: Seq::empty(),
            reasoning_started: None,
            tool_seq: 0,
            tool_records: Seq::empty(),
            main_calls: Seq::empty(),
            worker_calls: Seq::empty(),
            worker_runs: Seq::empty(),
            started_calls: Seq::empty(),
            done: None,
            action: ActionPhase::Fresh,
        }
    }

    /// A turn of which nothing was streamed yet.
    pub fn new() -> (t: TurnStream)
        ensures
            t@ == TurnStream::fresh(),
    {
        let t = TurnStream {
            assistant_message_id: None,
            assistant_seq: 0,
            text_segments: Vec::new(),
            pending_reasoning: Vec::new(),
            reasoning_started: None,
            tool_seq: 0,
            tool_records: Vec::new(),
            main_calls: Vec::new(),
            worker_calls: Vec::new(),
            worker_runs: Vec::new(),
            started_calls: Vec::new(),
            done: None,
            action: ActionPhase::Fresh,
        };
        proof {
            assert(t@ =~= TurnStream::fresh());
        }
        t
    }

    /// Notes the stored message of the reply.
    pub fn set_row(&mut self, id: u64, seq: u64)
        ensures
            final(self)@ == (TurnView {
                assistant_message_id: Some(id),
                assistant_seq: seq,
                ..old(self)@
            }),
    {
        self.assistant_message_id = Some(id);
        self.assistant_seq = seq;
    }

    fn on_delta(&mut self, text: &str)
        ensures
            final(self)@ == (TurnView {
                text_segments: with_text(
                    old(self)@.text_segments,
                    old(self)@.tool_records.len() as u64,
                    text@,
                ),
                action: ActionPhase::Text,
                ..old(self)@
            }),
    {
        let after_tool: u64 = self.tool_records.len() as u64;
        let ghost runs = views::views(self.text_segments@);
        let n: usize = self.text_segments.len();
        if n > 0 && self.text_segments[n - 1].after_tool == after_tool {
            let mut joined: String = self.text_segments[n - 1].text.clone();
            joined.append(text);
            let run = TextSegment { after_tool, text: joined };
            self.text_segments.set(n - 1, run);
            proof {
                assert(runs.last() == old(self).text_segments@[n - 1]@);
                assert(views::views(self.text_segments@) =~= runs.drop_last().push(run@));
            }
        } else {
            let run = TextSegment { after_tool, text: text.to_owned() };
            self.text_segments.push(run);
            proof {
                if n > 0 {
                    assert(runs.last() == old(self).text_segments@[n - 1]@);
                }
                assert(views::views(self.text_segments@) =~= runs.push(run@));
            }
        }
        self.action = ActionPhase::Text;
    }

    fn on_reasoning(&mut self, text: &str, now: u64)
        ensures
            final(self)@ == (TurnView {
                pending_reasoning: with_reasoning(old(self)@, text@, now),
                reasoning_started: reasoning_start(old(self)@, now),
                action: ActionPhase::Thinking,
                ..old(self)@
            }),
    {
        let after_tool: u64 = self.tool_records.len() as u64;
        let ghost runs = views::views(self.pending_reasoning@);
        let n: usize = self.pending_reasoning.len();
        if n > 0 && self.pending_reasoning[n - 1].after_tool == after_tool {
            let mut joined: String = self.pending_reasoning[n - 1].text.clone();
            joined.append(text);
            let took: u64 = self.pending_reasoning[n - 1].duration_ms;
            let duration_ms: u64 = match self.reasoning_started {
                Some(started) => elapsed_ms(now, started),
                None => took,
            };
            let run = ReasoningSegment { after_tool, text: joined, duration_ms };
            self.pending_reasoning.set(n - 1, run);
            proof {
                assert(runs.last() == old(self).pending_reasoning@[n - 1]@);
                assert(views::views(self.pending_reasoning@) =~= runs.drop_last().push(run@));
            }
        } else {
            let run = ReasoningSegment {
                after_tool,
                text: text.to_owned(),
                duration_ms: elapsed_ms(now, now),
            };
            self.pending_reasoning.push(run);
            self.reasoning_started = Some(now);
            proof {
                if n > 0 {
                    assert(runs.last() == old(self).pending_reasoning@[n - 1]@);
                }
                assert(views::views(self.pending_reasoning@) =~= runs.push(run@));
            }
        }
        self.action = ActionPhase::Thinking;
    }

    fn on_tool_start(&mut self, name: &str, args: &str, worker: &Option<String>, id: &str, now: u64)
        ensures
            final(self)@ == after_start(
                old(self)@,
                started_call(name@, args@, views::opt_view(*worker), id@, now),
            ),
    {
        let call = PendingToolCall {
            call_id: id.to_owned(),
            name: name.to_owned(),
            args_json: args.to_owned(),
            command: args_command(args),
            worker: duplicate_opt(worker),
            started: now,
        };
        let ghost before = self.started_calls@;
        let started = call.duplicate();
        self.started_calls.push(started);
        proof {
            assert(views::views(self.started_calls@) =~= views::views(before).push(call@));
        }
        if worker.is_none() {
            self.main_calls = put_call(&self.main_calls, call);
            self.action = ActionPhase::Tools;
        } else {
            self.worker_calls = put_call(&self.worker_calls, call);
        }
    }

    fn on_tool_result(&mut self, record: ToolRecord, id: &str)
        ensures
            final(self)@ == after_result(old(self)@, record@, id@),
    {
        let ghost before = self.tool_records@;
        self.started_calls = settle_call(&self.started_calls, id, &record.worker);
        if record.worker.is_none() {
            self.main_calls = drop_call(&self.main_calls, id);
            self.action = phase_now(&self.main_calls, &self.worker_runs);
        } else {
            self.worker_calls = drop_call(&self.worker_calls, id);
        }
        if self.assistant_message_id.is_some() {
            self.tool_seq = self.tool_seq.saturating_add(1);
        }
        self.tool_records.push(record);
        proof {
            assert(views::views(self.tool_records@) =~= views::views(before).push(record@));
        }
    }

    /// What an item changes, and what is to be done about it.
    fn handle(&mut self, item: &StreamItem, now: u64) -> (r: StreamStep)
        ensures
            ({
                let (turn, effects, stop) = handled(old(self)@, *item, now);
                &&& final(self)@ == turn
                &&& views::views(r.effects@) == effects
                &&& views::opt_view(r.stop) == stop
            }),
    {
        let mut effects: Vec<StreamEffect> = Vec::new();
        let mut stop: Option<StreamStop> = None;
        match item {
            StreamItem::Delta { text } => {
                if !text.as_str().is_empty() {
                    self.on_delta(text.as_str());
                    effects.push(StreamEffect::Token);
                }
            },
            StreamItem::Reasoning { text } => {
                if !text.as_str().is_empty() {
                    self.on_reasoning(text.as_str(), now);
                    effects.push(StreamEffect::Reasoning);
                }
            },
            StreamItem::ToolStart { name, args_json, worker, call_id } => {
                self.on_tool_start(
                    name.as_str(),
                    args_json.as_str(),
                    worker,
                    call_id.as_str(),
                    now,
                );
                effects.push(StreamEffect::EnsureRow);
                effects.push(StreamEffect::ToolStarted);
            },
            StreamItem::ToolResult {
                name,
                output,
                ok,
                worker,
                file_change,
                original,
                new,
                streams,
                call_id,
            } => {
                let found = if worker.is_none() {
                    find_call(&self.main_calls, call_id.as_str())
                } else {
                    find_call(&self.worker_calls, call_id.as_str())
                };
                let (args_json, duration_ms): (String, u64) = match found {
                    Some(p) => (p.args_json.clone(), elapsed_ms(now, p.started)),
                    None => (String::new(), 0),
                };
                let (out, err) = match streams {
                    Some(s) => (s.stdout.clone(), s.stderr.clone()),
                    None => (output.clone(), String::new()),
                };
                let record = ToolRecord {
                    name: name.clone(),
                    args_json,
                    output: out,
                    stderr: err,
                    ok: *ok,
                    killed: false,
                    worker: duplicate_opt(worker),
                    message_id: match self.assistant_message_id {
                        Some(id) => id,
                        None => 0,
                    },
                    message_seq: self.assistant_seq,
                    file_change: duplicate_opt(file_change),
                    original_content: duplicate_opt(original),
                    new_content: duplicate_opt(new),
                    duration_ms,
                };
                if self.assistant_message_id.is_some() {
                    effects.push(StreamEffect::PersistTool { seq: self.tool_seq });
                }
                effects.push(StreamEffect::ToolFinished { duration_ms });
                self.on_tool_result(record, call_id.as_str());
            },
            StreamItem::WorkerStart { name, args_json, call_id } => {
                let run = PendingToolCall {
                    call_id: call_id.clone(),
                    name: name.clone(),
                    args_json: args_json.clone(),
                    command: None,
                    worker: None,
                    started: now,
                };
                self.worker_runs = put_call(&self.worker_runs, run);
                self.action = ActionPhase::Tools;
                effects.push(StreamEffect::WorkerStarted);
            },
            StreamItem::WorkerResult { call_id, .. } => {
                let duration_ms: u64 = match find_call(&self.worker_runs, call_id.as_str()) {
                    Some(p) => elapsed_ms(now, p.started),
                    None => 0,
                };
                self.worker_runs = drop_call(&self.worker_runs, call_id.as_str());
                self.action = phase_now(&self.main_calls, &self.worker_runs);
                effects.push(StreamEffect::WorkerFinished { duration_ms });
            },
            StreamItem::ShellOutput { worker, command, .. } => {
                let call_id = if worker.is_none() {
                    resolve_shell_call(worker, command.as_str(), &self.main_calls)
                } else {
                    resolve_shell_call(worker, command.as_str(), &self.worker_calls)
                };
                effects.push(StreamEffect::ToolOutput { call_id });
            },
            StreamItem::Usage { worker, footprint, .. } => {
                let context_tokens: Option<u64> = if worker.is_none() && *footprint > 0 {
                    Some(*footprint)
                } else {
                    None
                };
                effects.push(StreamEffect::Usage { context_tokens });
            },
            StreamItem::Done { text, usage } => {
                let text = if text.as_str().is_empty() {
                    join_text_segments(&self.text_segments)
                } else {
                    text.clone()
                };
                self.done = Some((text, *usage));
            },
            StreamItem::ConnectionError { message, reason } => {
                self.done = None;
                effects.push(StreamEffect::PersistError);
                stop = Some(
                    StreamStop::Failed { reason: reason.clone(), message: message.clone() },
                );
            },
            StreamItem::Error { message, reason } => {
                self.done = None;
                effects.push(StreamEffect::PersistError);
                stop = Some(
                    StreamStop::Failed { reason: reason.clone(), message: message.clone() },
                );
            },
            StreamItem::Overflow => {
                self.done = None;
                effects.push(StreamEffect::PersistError);
                effects.push(StreamEffect::BudgetExceeded);
                effects.push(StreamEffect::Compact);
                stop = Some(StreamStop::Overflow);
            },
        }
        proof {
            let (turn, fx, _) = handled(old(self)@, *item, now);
            assert(views::views(effects@) =~= fx);
            assert(self@ =~= turn);
        }
        StreamStep { effects, stop }
    }

    /// Takes an item of the stream.
    pub fn step(
        &mut self,
        item: &StreamItem,
        now: u64,
        steer: &mut SteerSignal,
        deny_cut: &mut DenyCut,
    ) -> (r: StreamStep)
        ensures
            step_of(old(self)@, *item, now, old(steer).state, old(deny_cut).set) == (StepView {
                turn: final(self)@,
                effects: views::views(r.effects@),
                stop: views::opt_view(r.stop),
                steer: final(steer).state,
                deny: final(deny_cut).set,
            }),
    {
        if starts_action_after_boundary(item, self.action) && steer.is_armed()
            && steer.begin_preempt() {
            self.done = None;
            let mut effects: Vec<StreamEffect> = Vec::new();
            effects.push(StreamEffect::Interrupt);
            proof {
                assert(views::views(effects@) =~= seq![EffectView::Interrupt]);
                assert(self@ =~= TurnView { done: None, ..old(self)@ });
            }
            return StreamStep { effects, stop: Some(StreamStop::Cut) };
        }
        let mut out = self.handle(item, now);
        if out.stop.is_some() {
            return out;
        }
        let ghost before = out.effects@;
        if self.done.is_none() && self.action == ActionPhase::Between && self.worker_calls.len()
            == 0 && steer.is_armed() && steer.begin_preempt() {
            out.effects.push(StreamEffect::Interrupt);
            out.stop = Some(StreamStop::Cut);
            proof {
                assert(views::views(out.effects@) =~= views::views(before).push(
                    EffectView::Interrupt,
                ));
            }
            return out;
        }
        if self.done.is_none() && deny_cut.is_set() {
            let _ = deny_cut.take();
            out.effects.push(StreamEffect::Interrupt);
            out.stop = Some(StreamStop::Cut);
            proof {
                assert(views::views(out.effects@) =~= views::views(before).push(
                    EffectView::Interrupt,
                ));
            }
        }
        out
    }
}

}
