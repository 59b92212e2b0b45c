//! How a turn is recorded when it ends: completed, interrupted or failed.

use crate::core_task::pending;
use crate::core_task::pending::{elapsed_ms, PendingToolCall, PendingView};
use crate::core_task::stream::{StreamOutcome, StreamStop, TurnStream, TurnView};
use crate::llm;
use crate::llm::{ChatView, Role, TokenUsage};
use crate::session::Session;
use crate::stored;
use crate::stored::{join_text_segments, ReasoningSegment, SessionId, TextSegment};
use crate::tool_record::{ToolRecord, ToolRecordView};
use crate::views;
use crate::views::{duplicate_all, duplicate_opt, Duplicate};
use vstd::prelude::*;

verus! {

/// A map with the value set under the key, where there is one.
pub open spec fn keyed<T: View>(
    before: Map<u64, Vec<T>>,
    after: Map<u64, Vec<T>>,
    key: u64,
    value: Option<Seq<<T as View>::V>>,
) -> bool {
    match value {
        Some(v) => {
            &&& after.dom() == before.dom().insert(key)
            &&& views::views(after[key]@) == v
            &&& forall|k: u64| k != key && before.contains_key(k) ==> #[trigger] after[k]
                == before[k]
        },
        None => after == before,
    }
}

/// The value, where it is not empty or wanted anyway.
pub open spec fn unless_empty<T>(s: Seq<T>, anyway: bool) -> Option<Seq<T>> {
    if s.len() > 0 || anyway {
        Some(s)
    } else {
        None
    }
}

/// What is recorded of a reply.
#[verifier::ext_equal]
pub struct ReplyView {
    pub text: Seq<char>,
    pub reasoning: Option<Seq<(u64, Seq<char>, u64)>>,
    pub segments: Option<Seq<(u64, Seq<char>)>>,
    pub interrupted: bool,
}

/// Whether the reply was added at the end of the session's messages, with its
/// reasoning, text runs and interruption under its place, and nothing else changed.
pub open spec fn reply_added(old: Session, new: Session, r: ReplyView) -> bool {
    let place = old.messages@.len() as u64;
    &&& new.messages@.len() == old.messages@.len() + 1
    &&& new.messages@.drop_last() == old.messages@
    &&& new.messages@.last()@ == (ChatView { role: Role::Assistant, content: r.text })
    &&& keyed(old.reasoning@, new.reasoning@, place, r.reasoning)
    &&& keyed(old.text_segments@, new.text_segments@, place, r.segments)
    &&& new.interrupted@ == if r.interrupted {
        old.interrupted@.insert(place, true)
    } else {
        old.interrupted@
    }
    &&& new.tool_records == old.tool_records
    &&& same_otherwise(old, new)
}

/// Whether the two sessions agree in what no reply touches.
pub open spec fn same_otherwise(old: Session, new: Session) -> bool {
    &&& new.id == old.id
    &&& new.title == old.title
    &&& new.usage_view() == old.usage_view()
    &&& new.summaries == old.summaries
    &&& new.nodes == old.nodes
    &&& new.leaf_id == old.leaf_id
    &&& new.scene == old.scene
    &&& new.last_usage == old.last_usage
    &&& new.scroll == old.scroll
}

fn add_reply(
    session: &mut Session,
    text: &str,
    reasoning: &Vec<ReasoningSegment>,
    reasoning_anyway: bool,
    segments: &Vec<TextSegment>,
    interrupted: bool,
)
    ensures
        reply_added(
            *old(session),
            *final(session),
            ReplyView {
                text: text@,
                reasoning: unless_empty(views::views(reasoning@), reasoning_anyway),
                segments: unless_empty(views::views(segments@), false),
                interrupted,
            },
        ),
{
    broadcast use vstd::std_specs::hash::group_hash_axioms;

    let place: u64 = session.messages.len() as u64;
    session.push_assistant(text);
    if reasoning.len() > 0 || reasoning_anyway {
        let copy = duplicate_all(reasoning);
        session.reasoning.insert(place, copy);
        proof {
            assert(session.reasoning@.dom() =~= old(session).reasoning@.dom().insert(place));
        }
    }
    if segments.len() > 0 {
        let copy = duplicate_all(segments);
        session.text_segments.insert(place, copy);
        proof {
            assert(session.text_segments@.dom() =~= old(session).text_segments@.dom().insert(
                place,
            ));
        }
    }
    if interrupted {
        session.interrupted.insert(place, true);
    }
}

fn append_records(session: &mut Session, records: &Vec<ToolRecord>)
    ensures
        views::views(final(session).tool_records@) == views::views(old(session).tool_records@)
            + views::views(records@),
        *final(session) == (Session { tool_records: final(session).tool_records, ..*old(session) }),
{
    let ghost start = views::views(session.tool_records@);
    let ghost all = views::views(records@);
    let mut i: usize = 0;
    proof {
        assert(start + all.take(0) =~= start);
    }
    while i < records.len()
        invariant
            all == views::views(records@),
            i <= records@.len(),
            views::views(session.tool_records@) =~= start + all.take(i as int),
            *session == (Session { tool_records: session.tool_records, ..*old(session) }),
        decreases records@.len() - i,
    {
        let ghost before = session.tool_records@;
        let record = records[i].duplicate();
        session.tool_records.push(record);
        proof {
            assert(views::views(session.tool_records@) =~= views::views(before).push(record@));
        }
        i += 1;
    }
    proof {
        assert(all.take(i as int) =~= all);
    }
}

/// Whether the session is as it was but for a reply and the tool records that came with it.
pub open spec fn turn_added(
    old: Session,
    new: Session,
    r: ReplyView,
    records: Seq<ToolRecordView>,
) -> bool {
    exists|mid: Session| #[trigger]
        reply_added(old, mid, r) && views::views(new.tool_records@) == views::views(
            old.tool_records@,
        ) + records && new == (Session { tool_records: new.tool_records, ..mid })
}

/// A completed turn, as it is to be stored: its reply, the usage of the main
/// request and of all requests, and where the reply goes.
#[derive(Debug)]
pub struct Commit {
    pub text: String,
    pub usage: TokenUsage,
    pub combined: TokenUsage,
    pub place: u64,
    pub row: Option<u64>,
    pub parent: Option<u64>,
}

/// The session with its totals set.
pub open spec fn with_usage(s: Session, u: TokenUsage) -> Session {
    Session {
        tokens: u.total_tokens,
        input_tokens: u.input_tokens,
        output_tokens: u.output_tokens,
        reasoning_tokens: u.reasoning_tokens,
        cached_tokens: u.cached_input_tokens,
        ..s
    }
}

/// Records a completed turn in the session: its reply, its usage together with
/// that of its workers, and its tool calls. A turn that did not complete is not recorded.
pub fn commit_turn(
    session: &mut Session,
    turn: &TurnStream,
    worker_usage: TokenUsage,
) -> (r: Option<Commit>)
    ensures
        match turn@.done {
            None => r is None && *final(session) == *old(session),
            Some((text, usage)) => {
                let combined = llm::usage_sum(usage, worker_usage);
                &&& r matches Some(c) && c.text@ == text && c.usage == usage && c.combined
                    == combined && c.place == old(session).messages@.len() as u64 && c.row
                    == turn.assistant_message_id && c.parent == old(session).leaf_id
                &&& turn_added(
                    with_usage(
                        *old(session),
                        llm::usage_sum(old(session).usage_view(), combined),
                    ),
                    *final(session),
                    ReplyView {
                        text,
                        reasoning: Some(turn@.pending_reasoning),
                        segments: unless_empty(turn@.text_segments, false),
                        interrupted: false,
                    },
                    turn@.tool_records,
                )
            },
        },
{
    match &turn.done {
        None => None,
        Some((text, usage)) => {
            let combined = usage.plus(worker_usage);
            let place: u64 = session.messages.len() as u64;
            let parent = session.leaf_id;
            session.add_usage(combined);
            let ghost counted = *session;
            add_reply(
                session,
                text.as_str(),
                &turn.pending_reasoning,
                true,
                &turn.text_segments,
                false,
            );
            let ghost mid = *session;
            append_records(session, &turn.tool_records);
            proof {
                let r = ReplyView {
                    text: text@,
                    reasoning: Some(turn@.pending_reasoning),
                    segments: unless_empty(turn@.text_segments, false),
                    interrupted: false,
                };
                assert(reply_added(counted, mid, r));
            }
            Some(
                Commit {
                    text: text.clone(),
                    usage: *usage,
                    combined,
                    place,
                    row: turn.assistant_message_id,
                    parent,
                },
            )
        },
    }
}

/// The record of a call that never returned.
pub open spec fn killed_record(
    p: PendingView,
    message_id: u64,
    message_seq: u64,
    now: u64,
) -> ToolRecordView {
    ToolRecordView {
        name: p.name,
        args_json: p.args_json,
        output: Seq::empty(),
        stderr: Seq::empty(),
        ok: false,
        killed: true,
        worker: p.worker,
        message_id,
        message_seq,
        file_change: None,
        original_content: None,
        new_content: None,
        duration_ms: pending::elapsed(now, p.started),
    }
}

/// The records of the calls of an interrupted turn that never returned.
pub open spec fn killed(
    s: Seq<PendingView>,
    message_id: u64,
    message_seq: u64,
    now: u64,
) -> Seq<ToolRecordView> {
    s.map_values(|p: PendingView| killed_record(p, message_id, message_seq, now))
}

/// The records of the calls of an interrupted turn that never returned.
pub fn killed_records(
    calls: &Vec<PendingToolCall>,
    message_id: u64,
    message_seq: u64,
    now: u64,
) -> (r: Vec<ToolRecord>)
    ensures
        views::views(r@) == killed(views::views(calls@), message_id, message_seq, now),
{
    let ghost all = killed(views::views(calls@), message_id, message_seq, now);
    let mut out: Vec<ToolRecord> = Vec::new();
    let mut i: usize = 0;
    while i < calls.len()
        invariant
            all == killed(views::views(calls@), message_id, message_seq, now),
            i <= calls@.len(),
            views::views(out@) =~= all.take(i as int),
        decreases calls@.len() - i,
    {
        let p = &calls[i];
        let ghost before = out@;
        let record = ToolRecord {
            name: p.name.clone(),
            args_json: p.args_json.clone(),
            output: String::new(),
            stderr: String::new(),
            ok: false,
            killed: true,
            worker: duplicate_opt(&p.worker),
            message_id,
            message_seq,
            file_change: None,
            original_content: None,
            new_content: None,
            duration_ms: elapsed_ms(now, p.started),
        };
        out.push(record);
        proof {
            assert(record@ =~= killed_record(p@, message_id, message_seq, now));
            assert(views::views(out@) =~= views::views(before).push(record@));
        }
        i += 1;
    }
    proof {
        assert(all.take(i as int) =~= all);
    }
    out
}

/// What is to be stored of a turn that ended early.
#[derive(Debug)]
pub enum RowPlan {
    /// Nothing.
    Nothing,
    /// Update the stored reply, and add the calls that were killed, the first
    /// one under the number `first_seq`.
    Update { row: u64, text: String, killed: Vec<ToolRecord>, first_seq: u64 },
    /// Add a reply.
    Append { text: String, parent: Option<u64> },
}

/// Records an interrupted turn in the session, if its reply has a stored
/// message already; else tells whether one is to be added. Once it was, the
/// turn is recorded by [`interrupted_row_added`].
pub fn interrupt_turn(session: &mut Session, turn: &TurnStream, now: u64) -> (r: RowPlan)
    ensures
        ({
            let text = stored::segments_text(turn@.text_segments);
            match (old(session).id, turn.assistant_message_id) {
                (None, _) => r is Nothing && *final(session) == *old(session),
                (Some(_), Some(row)) => {
                    let dead = killed(turn@.started_calls, row, turn.assistant_seq, now);
                    &&& r matches RowPlan::Update { row: to, text: t, killed: k, first_seq } && to
                        == row && t@ == text && views::views(k@) == dead && first_seq
                        == turn@.tool_records.len() as u64
                    &&& turn_added(
                        *old(session),
                        *final(session),
                        ReplyView {
                            text,
                            reasoning: Some(turn@.pending_reasoning),
                            segments: unless_empty(turn@.text_segments, false),
                            interrupted: true,
                        },
                        turn@.tool_records + dead,
                    )
                },
                (Some(_), None) => {
                    &&& *final(session) == *old(session)
                    &&& if text.len() > 0 || turn@.pending_reasoning.len() > 0 {
                        r matches RowPlan::Append { text: t, parent } && t@ == text && parent
                            == old(session).leaf_id
                    } else {
                        r is Nothing
                    }
                },
            }
        }),
{
    if session.id.is_none() {
        return RowPlan::Nothing;
    }
    let text = join_text_segments(&turn.text_segments);
    match turn.assistant_message_id {
        Some(row) => {
            let dead = killed_records(&turn.started_calls, row, turn.assistant_seq, now);
            add_reply(
                session,
                text.as_str(),
                &turn.pending_reasoning,
                true,
                &turn.text_segments,
                true,
            );
            let ghost mid = *session;
            append_records(session, &turn.tool_records);
            append_records(session, &dead);
            proof {
                let r = ReplyView {
                    text: text@,
                    reasoning: Some(turn@.pending_reasoning),
                    segments: unless_empty(turn@.text_segments, false),
                    interrupted: true,
                };
                assert(reply_added(*old(session), mid, r));
                assert(views::views(session.tool_records@) =~= views::views(
                    old(session).tool_records@,
                ) + (turn@.tool_records + views::views(dead@)));
            }
            let first_seq: u64 = turn.tool_records.len() as u64;
            RowPlan::Update { row, text, killed: dead, first_seq }
        },
        None => if !text.as_str().is_empty() || turn.pending_reasoning.len() > 0 {
            RowPlan::Append { text, parent: session.leaf_id }
        } else {
            RowPlan::Nothing
        },
    }
}

/// Records an interrupted turn whose reply was just stored under `row`.
pub fn interrupted_row_added(session: &mut Session, turn: &TurnStream, row: u64)
    ensures
        reply_added(
            Session { leaf_id: Some(row), ..*old(session) },
            *final(session),
            ReplyView {
                text: stored::segments_text(turn@.text_segments),
                reasoning: unless_empty(turn@.pending_reasoning, false),
                segments: unless_empty(turn@.text_segments, false),
                interrupted: true,
            },
        ),
{
    session.leaf_id = Some(row);
    let text = join_text_segments(&turn.text_segments);
    add_reply(
        session,
        text.as_str(),
        &turn.pending_reasoning,
        false,
        &turn.text_segments,
        true,
    );
}

/// What is to be stored of a turn that failed: what it streamed, as interrupted.
pub fn plan_failed_turn(session: &Session, turn: &TurnStream) -> (r: RowPlan)
    ensures
        ({
            let text = stored::segments_text(turn@.text_segments);
            if !failure_recorded(*session, *turn) {
                r is Nothing
            } else {
                match turn.assistant_message_id {
                    Some(row) => r matches RowPlan::Update { row: to, text: t, killed: k, first_seq }
                        && to == row && t@ == text && k@.len() == 0 && first_seq
                        == turn@.tool_records.len() as u64,
                    None => if text.len() > 0 {
                        r matches RowPlan::Append { text: t, parent } && t@ == text && parent
                            == session.leaf_id
                    } else {
                        r is Nothing
                    },
                }
            }
        }),
{
    let text = join_text_segments(&turn.text_segments);
    if session.id.is_none() || (text.as_str().is_empty() && turn.pending_reasoning.len() == 0) {
        return RowPlan::Nothing;
    }
    match turn.assistant_message_id {
        Some(row) => RowPlan::Update {
            row,
            text,
            killed: Vec::new(),
            first_seq: turn.tool_records.len() as u64,
        },
        None => if text.as_str().is_empty() {
            RowPlan::Nothing
        } else {
            RowPlan::Append { text, parent: session.leaf_id }
        },
    }
}

/// Whether a failed turn is recorded: in a stored session, if it streamed anything.
pub open spec fn failure_recorded(session: Session, turn: TurnStream) -> bool {
    session.id is Some && (stored::segments_text(turn@.text_segments).len() > 0
        || turn@.pending_reasoning.len() > 0)
}

/// Records a failed turn in the session; `added` is the message that was
/// stored for it, if one was.
pub fn fail_turn(session: &mut Session, turn: &TurnStream, added: Option<u64>)
    ensures
        if failure_recorded(*old(session), *turn) {
            reply_added(
                match added {
                    Some(row) => Session { leaf_id: Some(row), ..*old(session) },
                    None => *old(session),
                },
                *final(session),
                ReplyView {
                    text: stored::segments_text(turn@.text_segments),
                    reasoning: unless_empty(turn@.pending_reasoning, false),
                    segments: unless_empty(turn@.text_segments, false),
                    interrupted: true,
                },
            )
        } else {
            *final(session) == *old(session)
        },
{
    let text = join_text_segments(&turn.text_segments);
    if session.id.is_none() || (text.as_str().is_empty() && turn.pending_reasoning.len() == 0) {
        return;
    }
    if added.is_some() {
        session.leaf_id = added;
    }
    add_reply(
        session,
        text.as_str(),
        &turn.pending_reasoning,
        false,
        &turn.text_segments,
        true,
    );
}

/// Where a message for the reply is to be added: in which session, and below
/// which message. There is none to add where the reply has one, or where the
/// session is not stored.
pub fn reply_place(session: &Session, turn: &TurnStream) -> (r: Option<
    (SessionId, Option<u64>),
>)
    ensures
        r == match (turn.assistant_message_id, session.id) {
            (None, Some(id)) => Some((id, session.leaf_id)),
            _ => None,
        },
{
    match (turn.assistant_message_id, session.id) {
        (None, Some(id)) => Some((id, session.leaf_id)),
        _ => None,
    }
}

/// Notes the message that was added for the reply. What follows hangs from it.
pub fn reply_row_added(session: &mut Session, turn: &mut TurnStream, row: u64, seq: u64)
    ensures
        *final(session) == (Session { leaf_id: Some(row), ..*old(session) }),
        final(turn)@ == (TurnView {
            assistant_message_id: Some(row),
            assistant_seq: seq,
            ..old(turn)@
        }),
{
    turn.set_row(row, seq);
    session.leaf_id = Some(row);
}

/// Takes in whether the reply of a completed turn, which had no message yet, was
/// stored. Where it was not, what went wrong comes out.
pub fn reply_stored(session: &mut Session, outcome: Result<u64, String>) -> (r: Option<String>)
    ensures
        match outcome {
            Ok(row) => {
                &&& r is None
                &&& *final(session) == (Session { leaf_id: Some(row), ..*old(session) })
            },
            Err(e) => {
                &&& r matches Some(m) && m@ == "failed to persist message: "@ + e@
                &&& *final(session) == *old(session)
            },
        },
{
    match outcome {
        Ok(row) => {
            session.leaf_id = Some(row);
            None
        },
        Err(e) => {
            let mut m: String = "failed to persist message: ".to_owned();
            m.append(e.as_str());
            Some(m)
        },
    }
}

/// What the user is told once a completed turn was recorded.
#[derive(Debug, Clone, PartialEq, Eq)]
pub enum Closing {
    /// What went wrong.
    StreamError { error: String },
    /// The reply, and the usage of the main request.
    StreamDone { text: String, usage: TokenUsage },
    /// The session's totals. They take the place of those that were told before.
    UsageSnapshot { usage: TokenUsage },
}

/// The content of a [`Closing`].
#[verifier::ext_equal]
#[allow(inconsistent_fields)]
pub enum ClosingView {
    StreamError { error: Seq<char> },
    StreamDone { text: Seq<char>, usage: TokenUsage },
    UsageSnapshot { usage: TokenUsage },
}

impl View for Closing {
    type V = ClosingView;

    open spec fn view(&self) -> ClosingView {
        match self {
            Closing::StreamError { error } => ClosingView::StreamError { error: error@ },
            Closing::StreamDone { text, usage } => ClosingView::StreamDone {
                text: text@,
                usage: *usage,
            },
            Closing::UsageSnapshot { usage } => ClosingView::UsageSnapshot { usage: *usage },
        }
    }
}

/// What the user is told once a completed turn was recorded: what went wrong in
/// storing it, if anything did, then the reply, then the session's totals.
pub open spec fn closing_events(
    failure: Option<Seq<char>>,
    text: Seq<char>,
    usage: TokenUsage,
    totals: TokenUsage,
) -> Seq<ClosingView> {
    (match failure {
        Some(error) => seq![ClosingView::StreamError { error }],
        None => Seq::empty(),
    }) + seq![
        ClosingView::StreamDone { text, usage },
        ClosingView::UsageSnapshot { usage: totals },
    ]
}

/// What the user is told once a completed turn was recorded in the session;
/// `failure` is what went wrong in storing it.
pub fn close_turn(commit: Commit, session: &Session, failure: Option<String>) -> (r: Vec<Closing>)
    ensures
        views::views(r@) == closing_events(
            views::opt_view(failure),
            commit.text@,
            commit.usage,
            session.usage_view(),
        ),
{
    let ghost all = closing_events(
        views::opt_view(failure),
        commit.text@,
        commit.usage,
        session.usage_view(),
    );
    let mut out: Vec<Closing> = Vec::new();
    if let Some(error) = failure {
        out.push(Closing::StreamError { error });
    }
    out.push(Closing::StreamDone { text: commit.text, usage: commit.usage });
    out.push(Closing::UsageSnapshot { usage: session.usage() });
    proof {
        assert(views::views(out@) =~= all);
    }
    out
}

/// A completed turn that was stored closes with its reply, and then with the
/// totals that the session had before, together with the usage of the turn and of
/// its workers.
pub proof fn lemma_closing_totals(
    before: Session,
    after: Session,
    r: ReplyView,
    records: Seq<ToolRecordView>,
    usage: TokenUsage,
    worker_usage: TokenUsage,
)
    requires
        turn_added(
            with_usage(
                before,
                llm::usage_sum(before.usage_view(), llm::usage_sum(usage, worker_usage)),
            ),
            after,
            r,
            records,
        ),
    ensures
        closing_events(None, r.text, usage, after.usage_view()) == seq![
            ClosingView::StreamDone { text: r.text, usage },
            ClosingView::UsageSnapshot {
                usage: llm::usage_sum(
                    before.usage_view(),
                    llm::usage_sum(usage, worker_usage),
                ),
            },
        ],
{
    let totals = llm::usage_sum(before.usage_view(), llm::usage_sum(usage, worker_usage));
    let counted = with_usage(before, totals);
    assert(counted.usage_view() == totals);
    let mid = choose|mid: Session| #[trigger]
        reply_added(counted, mid, r) && views::views(after.tool_records@) == views::views(
            counted.tool_records@,
        ) + records && after == (Session { tool_records: after.tool_records, ..mid });
    assert(same_otherwise(counted, mid));
    assert(closing_events(None, r.text, usage, after.usage_view()) =~= seq![
        ClosingView::StreamDone { text: r.text, usage },
        ClosingView::UsageSnapshot { usage: totals },
    ]);
}

/// How the turn ended, given why its stream ended and whether an overflow was compacted.
pub fn stream_outcome(stop: Option<StreamStop>, compacted: bool) -> (r: StreamOutcome)
    ensures
        match stop {
            None => r is Finished,
            Some(StreamStop::Cut) => r is Preempted,
            Some(StreamStop::Overflow) => r == (StreamOutcome::Overflowed { compacted }),
            Some(StreamStop::Failed { reason, message }) => r == (StreamOutcome::RetryableFailure {
                reason,
                message,
            }),
        },
{
    match stop {
        None => StreamOutcome::Finished,
        Some(StreamStop::Cut) => StreamOutcome::Preempted,
        Some(StreamStop::Overflow) => StreamOutcome::Overflowed { compacted },
        Some(StreamStop::Failed { reason, message }) => StreamOutcome::RetryableFailure {
            reason,
            message,
        },
    }
}

}
