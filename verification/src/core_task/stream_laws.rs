//! What holds of every turn stream.

use crate::core_task::pending;
use crate::core_task::pending::{PendingToolCall, PendingView};
use crate::core_task::steer::SteerState;
use crate::core_task::stream;
use crate::core_task::stream::{
    ActionPhase, EffectView, StopView, StreamEffect, StreamItem, StreamStop, TurnStream, TurnView,
};
use crate::stored;
use crate::views;
use vstd::prelude::*;

verus! {

/// The first action of a turn, a segment that goes on and tool calls that
/// still run are never cut before an item.
pub proof fn lemma_running_action_is_not_cut(item: StreamItem, action: ActionPhase)
    requires
        action == ActionPhase::Fresh || action == ActionPhase::Tools || stream::action_of(item)
            == Some(action) && action != ActionPhase::Between,
    ensures
        !stream::opens_next_action(item, action),
{
}

/// A cut before an item leaves the item out: nothing of it is streamed, run or
/// recorded, and the cut is all that is done.
pub proof fn lemma_cut_leaves_the_item_out(
    t: TurnView,
    item: StreamItem,
    now: u64,
    deny: bool,
)
    requires
        stream::opens_next_action(item, t.action),
    ensures
        ({
            let s = stream::step_of(t, item, now, SteerState::Armed, deny);
            &&& s.effects == seq![EffectView::Interrupt]
            &&& s.stop == Some(StopView::Cut)
            &&& s.turn == (TurnView { done: None, ..t })
        }),
{
}

/// Without a wanted cut or a denial no turn is cut.
pub proof fn lemma_no_cut_unasked(
    t: TurnView,
    item: StreamItem,
    now: u64,
    steer: SteerState,
)
    requires
        steer != SteerState::Armed,
    ensures
        stream::step_of(t, item, now, steer, false).stop != Some(StopView::Cut),
{
}

/// The cut is claimed at most once: only a wanted one is, and a claimed one stays claimed.
pub proof fn lemma_cut_is_claimed_once(
    t: TurnView,
    item: StreamItem,
    now: u64,
    steer: SteerState,
    deny: bool,
)
    ensures
        ({
            let s = stream::step_of(t, item, now, steer, deny);
            &&& s.steer == steer || steer == SteerState::Armed && s.steer == SteerState::Finalizing
            &&& s.steer != steer ==> s.stop == Some(StopView::Cut)
        }),
{
}

/// A denial ends a turn whose reply is not complete, but only after the item:
/// what the item brings, such as the result of the call that was denied, is
/// stored and reported first. The signal is used up.
pub proof fn lemma_denial_ends_the_turn(
    t: TurnView,
    item: StreamItem,
    now: u64,
    steer: SteerState,
)
    requires
        t.done is None,
        steer != SteerState::Armed,
        !(item is Done || item is Error || item is ConnectionError || item is Overflow),
    ensures
        ({
            let s = stream::step_of(t, item, now, steer, true);
            let (turn, effects, stop) = stream::handled(t, item, now);
            &&& s.turn == turn
            &&& s.effects == effects.push(EffectView::Interrupt)
            &&& s.stop == Some(StopView::Cut)
            &&& !s.deny
        }),
{
}

/// Once the reply is complete, what still drains in cannot discard it: neither
/// a denial nor a wanted cut ends the turn, unless the model goes on.
pub proof fn lemma_finished_turn_is_kept(
    t: TurnView,
    item: StreamItem,
    now: u64,
    steer: SteerState,
    deny: bool,
)
    requires
        t.done is Some,
        !stream::opens_next_action(item, t.action),
        !(item is Error || item is ConnectionError || item is Overflow),
    ensures
        ({
            let s = stream::step_of(t, item, now, steer, deny);
            &&& s.stop is None
            &&& s.turn.done is Some
        }),
{
}

/// While the main agent or a worker still runs a tool call, a wanted cut waits.
pub proof fn lemma_running_tools_are_not_cut(
    t: TurnView,
    item: StreamItem,
    now: u64,
    steer: SteerState,
)
    requires
        t.action == ActionPhase::Tools,
        ({
            let turn = stream::handled(t, item, now).0;
            turn.action == ActionPhase::Tools || turn.worker_calls.len() > 0
        }),
    ensures
        stream::step_of(t, item, now, steer, false).stop != Some(StopView::Cut),
{
}

/// The text that an item streams.
pub open spec fn streamed_text(item: StreamItem) -> Seq<char> {
    match item {
        StreamItem::Delta { text } => text@,
        _ => Seq::empty(),
    }
}

/// The runs always hold exactly the text that was streamed: an item that is
/// taken adds its text, and nothing else changes it.
pub proof fn lemma_runs_hold_the_text(t: TurnView, item: StreamItem, now: u64)
    ensures
        stored::segments_text(stream::handled(t, item, now).0.text_segments)
            == stored::segments_text(t.text_segments) + streamed_text(item),
{
    let before = t.text_segments;
    let after = stream::handled(t, item, now).0.text_segments;
    let more = streamed_text(item);
    if after == before {
        assert(stored::segments_text(before) + more =~= stored::segments_text(before)) by {
            if item is Delta {
                if more.len() > 0 {
                    lemma_with_text(before, t.tool_records.len() as u64, more);
                }
            }
        }
        if more.len() > 0 {
            lemma_with_text(before, t.tool_records.len() as u64, more);
        }
    } else {
        lemma_with_text(before, t.tool_records.len() as u64, more);
    }
}

proof fn lemma_with_text(runs: Seq<(u64, Seq<char>)>, after_tool: u64, more: Seq<char>)
    ensures
        stored::segments_text(stream::with_text(runs, after_tool, more)) == stored::segments_text(
            runs,
        ) + more,
        more.len() > 0 ==> stream::with_text(runs, after_tool, more) != runs,
{
    let w = stream::with_text(runs, after_tool, more);
    if runs.len() > 0 && runs.last().0 == after_tool {
        assert(w.drop_last() =~= runs.drop_last());
        assert(stored::segments_text(w) =~= stored::segments_text(runs) + more);
        if more.len() > 0 {
            assert(w.last().1.len() > runs.last().1.len());
        }
    } else {
        assert(w.drop_last() =~= runs);
        assert(w.len() == runs.len() + 1);
    }
}

/// Whether the text runs are sealed at tool calls: each run comes after more
/// tool calls than the one before it, and none after calls yet to come.
pub open spec fn sealed(t: TurnView) -> bool {
    &&& forall|i: int, j: int|
        0 <= i < j < t.text_segments.len() ==> (#[trigger] t.text_segments[i]).0 < (
        #[trigger] t.text_segments[j]).0
    &&& forall|i: int|
        0 <= i < t.text_segments.len() ==> (#[trigger] t.text_segments[i]).0
            <= t.tool_records.len()
}

/// Text that resumes after a tool call starts a run of its own, so the runs stay sealed.
pub proof fn lemma_runs_stay_sealed(
    t: TurnView,
    item: StreamItem,
    now: u64,
    steer: SteerState,
    deny: bool,
)
    requires
        sealed(t),
        t.tool_records.len() < u64::MAX,
    ensures
        sealed(stream::step_of(t, item, now, steer, deny).turn),
        sealed(stream::TurnStream::fresh()),
{
    let s = stream::step_of(t, item, now, steer, deny);
    let runs = t.text_segments;
    let w = s.turn.text_segments;
    if w != runs {
        assert(s.turn.tool_records == t.tool_records);
        let n = t.tool_records.len() as u64;
        if runs.len() > 0 && runs.last().0 == n {
            assert(forall|i: int| 0 <= i < w.len() ==> (#[trigger] w[i]).0 == runs[i].0);
        } else {
            assert(forall|i: int| 0 <= i < runs.len() ==> #[trigger] w[i] == runs[i]);
            if runs.len() > 0 {
                assert(runs[runs.len() - 1].0 < n);
                assert(forall|i: int| 0 <= i < runs.len() ==> (#[trigger] runs[i]).0 < n);
            }
        }
    }
}

/// A result settles its call: it is pending no more, and will not be recorded as killed.
pub proof fn lemma_result_settles_the_call(t: TurnView, item: StreamItem, now: u64)
    requires
        item is ToolResult,
    ensures
        ({
            let turn = stream::handled(t, item, now).0;
            let id = item->ToolResult_call_id@;
            let worker = views::opt_view(item->ToolResult_worker);
            &&& pending::pending(
                if worker is None {
                    turn.main_calls
                } else {
                    turn.worker_calls
                },
                id,
            ) is None
            &&& forall|i: int|
                0 <= i < turn.started_calls.len() ==> !((#[trigger] turn.started_calls[i]).call_id
                    == id && turn.started_calls[i].worker == worker)
            &&& turn.tool_records.len() == t.tool_records.len() + 1
        }),
{
    let id = item->ToolResult_call_id@;
    let worker = views::opt_view(item->ToolResult_worker);
    pending::lemma_dropped(t.main_calls, id, id);
    pending::lemma_dropped(t.worker_calls, id, id);
    lemma_settled(t.started_calls, id, worker);
}

proof fn lemma_settled(s: Seq<PendingView>, id: Seq<char>, worker: Option<Seq<char>>)
    ensures
        forall|i: int|
            0 <= i < stream::settled(s, id, worker).len() ==> !((#[trigger] stream::settled(
                s,
                id,
                worker,
            )[i]).call_id == id && stream::settled(s, id, worker)[i].worker == worker),
    decreases s.len(),
{
    if s.len() > 0 {
        lemma_settled(s.drop_last(), id, worker);
    }
}

/// Whether the call is the last one in the list with the id.
pub open spec fn latest_of_id(calls: Seq<PendingView>, id: Seq<char>, k: int) -> bool {
    &&& 0 <= k < calls.len() && calls[k].call_id == id
    &&& forall|j: int| k < j < calls.len() ==> (#[trigger] calls[j]).call_id != id
}

proof fn lemma_pending_is_latest(calls: Seq<PendingView>, id: Seq<char>)
    ensures
        forall|k: int| #[trigger]
            latest_of_id(calls, id, k) ==> pending::pending(calls, id) == Some(calls[k]),
        pending::pending(calls, id) is Some ==> exists|k: int| #[trigger]
            latest_of_id(calls, id, k) && pending::pending(calls, id) == Some(calls[k]),
        pending::pending(calls, id) is None ==> forall|k: int|
            0 <= k < calls.len() ==> (#[trigger] calls[k]).call_id != id,
    decreases calls.len(),
{
    if calls.len() > 0 {
        let d = calls.drop_last();
        let n = calls.len() - 1;
        lemma_pending_is_latest(d, id);
        assert(calls.last() == calls[n]);
        if calls[n].call_id == id {
            assert(latest_of_id(calls, id, n));
            assert forall|k: int| #[trigger] latest_of_id(calls, id, k) implies k == n by {
                if k < n {
                    assert(calls[n].call_id != id);
                }
            }
        } else {
            assert forall|k: int| #[trigger] latest_of_id(calls, id, k) implies latest_of_id(
                d,
                id,
                k,
            ) by {
                assert(forall|j: int| 0 <= j < d.len() ==> d[j] == calls[j]);
            }
            assert forall|k: int| #[trigger] latest_of_id(d, id, k) implies latest_of_id(
                calls,
                id,
                k,
            ) by {
                assert forall|j: int| k < j < calls.len() implies (#[trigger] calls[j]).call_id
                    != id by {
                    if j < n {
                        assert(d[j] == calls[j]);
                    }
                }
            }
            assert forall|k: int|
                pending::pending(calls, id) is None && 0 <= k < calls.len() implies (
            #[trigger] calls[k]).call_id != id by {
                if k < n {
                    assert(d[k] == calls[k]);
                }
            }
        }
    }
}

/// The result of a call is recorded as it came: the two outputs of a shell
/// command each in its place, else the one output and no error output; whether
/// it went well, who made the call, and what it did to files. The record comes
/// after those that there were, and belongs to the reply that is streaming.
pub proof fn lemma_result_is_recorded(
    before: TurnStream,
    after: TurnStream,
    item: StreamItem,
    now: u64,
)
    requires
        item is ToolResult,
        after@ == stream::handled(before@, item, now).0,
    ensures
        after.tool_records@.len() == before.tool_records@.len() + 1,
        forall|i: int|
            0 <= i < before.tool_records@.len() ==> (#[trigger] after.tool_records@[i])@
                == before.tool_records@[i]@,
        ({
            let r = after.tool_records@.last();
            &&& r.name@ == item->ToolResult_name@
            &&& item->ToolResult_streams matches Some(s) ==> r.output@ == s.stdout@ && r.stderr@
                == s.stderr@
            &&& item->ToolResult_streams is None ==> r.output@ == item->ToolResult_output@
                && r.stderr@.len() == 0
            &&& r.ok == item->ToolResult_ok
            &&& !r.killed
            &&& r.worker is Some == item->ToolResult_worker is Some
            &&& r.worker matches Some(w) ==> w@ == item->ToolResult_worker->0@
            &&& views::opt_view(r.file_change) == views::opt_view(item->ToolResult_file_change)
            &&& r.original_content is Some == item->ToolResult_original is Some
            &&& r.original_content matches Some(c) ==> c@ == item->ToolResult_original->0@
            &&& r.new_content is Some == item->ToolResult_new is Some
            &&& r.new_content matches Some(c) ==> c@ == item->ToolResult_new->0@
            &&& before.assistant_message_id matches Some(id) ==> r.message_id == id
            &&& r.message_seq == before.assistant_seq
        }),
{
    assert(after@.tool_records.len() == after.tool_records@.len());
    assert(before@.tool_records.len() == before.tool_records@.len());
    let n = before.tool_records@.len() as int;
    assert(after.tool_records@[n]@ == after@.tool_records[n]);
    assert forall|i: int| 0 <= i < before.tool_records@.len() implies (
    #[trigger] after.tool_records@[i])@ == before.tool_records@[i]@ by {
        assert(after@.tool_records[i] == before@.tool_records[i]);
    }
}

/// Whether the call is the last one in the list with the id.
pub open spec fn latest_call(calls: Seq<PendingToolCall>, id: Seq<char>, k: int) -> bool {
    &&& 0 <= k < calls.len() && calls[k].call_id@ == id
    &&& forall|j: int| k < j < calls.len() ==> (#[trigger] calls[j]).call_id@ != id
}

/// The record of a result has the arguments of the call with its id, and the
/// time since that call started.
pub proof fn lemma_record_has_the_arguments_of_its_call(
    before: TurnStream,
    after: TurnStream,
    item: StreamItem,
    now: u64,
    k: int,
)
    requires
        item is ToolResult,
        after@ == stream::handled(before@, item, now).0,
        ({
            let calls = if item->ToolResult_worker is None {
                before.main_calls@
            } else {
                before.worker_calls@
            };
            latest_call(calls, item->ToolResult_call_id@, k)
        }),
    ensures
        ({
            let call = if item->ToolResult_worker is None {
                before.main_calls@[k]
            } else {
                before.worker_calls@[k]
            };
            let r = after.tool_records@.last();
            &&& r.args_json@ == call.args_json@
            &&& now >= call.started ==> r.duration_ms == now - call.started
            &&& now < call.started ==> r.duration_ms == 0
        }),
{
    let id = item->ToolResult_call_id@;
    let calls = if item->ToolResult_worker is None {
        before.main_calls@
    } else {
        before.worker_calls@
    };
    let vs = views::views(calls);
    lemma_pending_is_latest(vs, id);
    assert(vs[k] == calls[k]@);
    assert forall|j: int| k < j < vs.len() implies (#[trigger] vs[j]).call_id != id by {
        assert(vs[j] == calls[j]@);
        assert(calls[j].call_id@ != id);
    }
    assert(latest_of_id(vs, id, k));
    assert(after@.tool_records.len() == after.tool_records@.len());
    let n = before@.tool_records.len() as int;
    assert(after.tool_records@[n]@ == after@.tool_records[n]);
}

/// A call that starts and returns leaves a record with the arguments that it
/// started with and the time in between.
pub proof fn lemma_started_call_is_recorded(
    first: TurnStream,
    second: TurnStream,
    third: TurnStream,
    start: StreamItem,
    result: StreamItem,
    started: u64,
    now: u64,
)
    requires
        start is ToolStart,
        result is ToolResult,
        start->ToolStart_call_id@ == result->ToolResult_call_id@,
        start->ToolStart_worker is None == result->ToolResult_worker is None,
        started <= now,
        second@ == stream::handled(first@, start, started).0,
        third@ == stream::handled(second@, result, now).0,
    ensures
        third.tool_records@.len() == first.tool_records@.len() + 1,
        third.tool_records@.last().args_json@ == start->ToolStart_args_json@,
        third.tool_records@.last().duration_ms == now - started,
{
    let calls = if result->ToolResult_worker is None {
        second.main_calls@
    } else {
        second.worker_calls@
    };
    let vs = views::views(calls);
    let k = calls.len() - 1;
    assert(vs.len() == calls.len());
    assert(vs[k] == calls[k]@);
    lemma_record_has_the_arguments_of_its_call(second, third, result, now, k);
    lemma_result_is_recorded(second, third, result, now);
    assert(first@.tool_records.len() == first.tool_records@.len());
    assert(second@.tool_records.len() == second.tool_records@.len());
}

/// Whether the item starts or ends a call of the main agent with the id.
pub open spec fn is_about(item: StreamItem, id: Seq<char>) -> bool {
    match item {
        StreamItem::ToolStart { worker, call_id, .. } => worker is None && call_id@ == id,
        StreamItem::ToolResult { worker, call_id, .. } => worker is None && call_id@ == id,
        _ => false,
    }
}

/// A call of the main agent that runs keeps its arguments and its start until an
/// item about it comes in.
pub proof fn lemma_running_call_is_left_alone(
    t: TurnView,
    item: StreamItem,
    now: u64,
    steer: SteerState,
    deny: bool,
    id: Seq<char>,
)
    requires
        !is_about(item, id),
    ensures
        pending::pending(stream::step_of(t, item, now, steer, deny).turn.main_calls, id)
            == pending::pending(t.main_calls, id),
{
    match item {
        StreamItem::ToolStart { name, args_json, worker, call_id } => {
            pending::lemma_dropped(t.main_calls, call_id@, id);
            let d = pending::dropped(t.main_calls, call_id@);
            let p = stream::started_call(
                name@,
                args_json@,
                views::opt_view(worker),
                call_id@,
                now,
            );
            assert(d.push(p).drop_last() =~= d);
        },
        StreamItem::ToolResult { call_id, .. } => {
            pending::lemma_dropped(t.main_calls, call_id@, id);
        },
        _ => {},
    }
}

/// Nothing but the result of a call adds a record, and none is ever taken back.
pub proof fn lemma_only_results_are_recorded(
    t: TurnView,
    item: StreamItem,
    now: u64,
    steer: SteerState,
    deny: bool,
)
    requires
        !(item is ToolResult),
    ensures
        stream::step_of(t, item, now, steer, deny).turn.tool_records == t.tool_records,
{
}

/// An item before which no cut is made is handled, and what handling it asks for
/// is done first.
pub proof fn lemma_items_are_handled(
    t: TurnView,
    item: StreamItem,
    now: u64,
    steer: SteerState,
    deny: bool,
)
    requires
        steer != SteerState::Armed || stream::action_of(item) is None,
    ensures
        ({
            let s = stream::step_of(t, item, now, steer, deny);
            let (turn, effects, stop) = stream::handled(t, item, now);
            &&& s.turn == turn
            &&& s.effects == effects || s.effects == effects.push(EffectView::Interrupt)
                && s.stop == Some(StopView::Cut)
            &&& stop is Some ==> s.stop == stop && s.effects == effects
        }),
{
}

/// A result of the reply's own message is stored under the next number and then
/// reported, with the time that the record has.
pub proof fn lemma_result_is_stored_and_reported(
    before: TurnStream,
    after: TurnStream,
    item: StreamItem,
    now: u64,
    effects: Seq<StreamEffect>,
)
    requires
        item is ToolResult,
        after@ == stream::handled(before@, item, now).0,
        views::views(effects) == stream::handled(before@, item, now).1,
    ensures
        effects.len() > 0,
        effects.last() == (StreamEffect::ToolFinished {
            duration_ms: after.tool_records@.last().duration_ms,
        }),
        before.assistant_message_id is Some ==> {
            &&& effects.len() == 2
            &&& effects[0] == (StreamEffect::PersistTool { seq: before.tool_seq })
            &&& before.tool_seq < u64::MAX ==> after.tool_seq == before.tool_seq + 1
        },
        before.assistant_message_id is None ==> effects.len() == 1 && after.tool_seq
            == before.tool_seq,
{
    let vs = views::views(effects);
    assert(vs.len() == effects.len());
    assert(vs[0] == effects[0]@);
    assert(vs[vs.len() - 1] == effects[effects.len() - 1]@);
    assert(after@.tool_records.len() == after.tool_records@.len());
    let n = before@.tool_records.len() as int;
    assert(after.tool_records@[n]@ == after@.tool_records[n]);
}

/// After a result the main agent is between two actions exactly if it runs no
/// other call and no worker; a worker's own result changes nothing of that.
pub proof fn lemma_phase_after_a_result(t: TurnView, item: StreamItem, now: u64)
    requires
        item is ToolResult,
    ensures
        ({
            let turn = stream::handled(t, item, now).0;
            let id = item->ToolResult_call_id@;
            let none_left = t.worker_runs.len() == 0 && forall|i: int|
                0 <= i < t.main_calls.len() ==> (#[trigger] t.main_calls[i]).call_id == id;
            if item->ToolResult_worker is Some {
                turn.action == t.action && turn.main_calls == t.main_calls
            } else if none_left {
                turn.action == ActionPhase::Between && turn.worker_calls == t.worker_calls
            } else {
                turn.action == ActionPhase::Tools && turn.worker_calls == t.worker_calls
            }
        }),
{
    lemma_nothing_else_left(t.main_calls, item->ToolResult_call_id@);
}

proof fn lemma_nothing_else_left(calls: Seq<PendingView>, id: Seq<char>)
    ensures
        pending::dropped(calls, id).len() == 0 <==> forall|i: int|
            0 <= i < calls.len() ==> (#[trigger] calls[i]).call_id == id,
    decreases calls.len(),
{
    if calls.len() > 0 {
        let d = calls.drop_last();
        lemma_nothing_else_left(d, id);
        assert(calls.last() == calls[calls.len() - 1]);
        assert(forall|i: int| 0 <= i < d.len() ==> d[i] == calls[i]);
        if pending::dropped(calls, id).len() == 0 {
            assert forall|i: int| 0 <= i < calls.len() implies (#[trigger] calls[i]).call_id
                == id by {
                if i < d.len() {
                    assert(d[i].call_id == id);
                }
            }
        }
    }
}

/// Text goes on the run that streams after the calls so far, or starts it; the
/// runs before it stay.
pub proof fn lemma_text_follows_the_calls(
    before: TurnStream,
    after: TurnStream,
    item: StreamItem,
    now: u64,
)
    requires
        item is Delta,
        item->Delta_text@.len() > 0,
        before.tool_records@.len() <= u64::MAX,
        after@ == stream::handled(before@, item, now).0,
    ensures
        ({
            let more = item->Delta_text@;
            let n = before.text_segments@.len();
            let last = after.text_segments@.last();
            &&& after.action == ActionPhase::Text
            &&& last.after_tool == before.tool_records@.len()
            &&& if n > 0 && before.text_segments@.last().after_tool
                == before.tool_records@.len() {
                after.text_segments@.len() == n && last.text@ == before.text_segments@.last().text@
                    + more
            } else {
                after.text_segments@.len() == n + 1 && last.text@ == more
            }
            &&& forall|i: int|
                0 <= i < after.text_segments@.len() - 1 ==> (#[trigger] after.text_segments@[i])@
                    == before.text_segments@[i]@
        }),
{
    let (x, y) = (before@.text_segments, after@.text_segments);
    assert(x.len() == before.text_segments@.len() && y.len() == after.text_segments@.len());
    assert(before@.tool_records.len() == before.tool_records@.len());
    assert(y[y.len() - 1] == after.text_segments@[y.len() - 1]@);
    if x.len() > 0 {
        assert(x[x.len() - 1] == before.text_segments@[x.len() - 1]@);
    }
    assert forall|i: int| 0 <= i < after.text_segments@.len() - 1 implies (
    #[trigger] after.text_segments@[i])@ == before.text_segments@[i]@ by {
        assert(y[i] == x[i]);
    }
}

/// Reasoning goes on the segment that streams after the calls so far, or starts
/// one; a segment takes the time since its first piece came in.
pub proof fn lemma_reasoning_is_timed(
    before: TurnStream,
    after: TurnStream,
    item: StreamItem,
    now: u64,
)
    requires
        item is Reasoning,
        item->Reasoning_text@.len() > 0,
        before.tool_records@.len() <= u64::MAX,
        after@ == stream::handled(before@, item, now).0,
    ensures
        ({
            let more = item->Reasoning_text@;
            let n = before.pending_reasoning@.len();
            let last = after.pending_reasoning@.last();
            &&& after.action == ActionPhase::Thinking
            &&& last.after_tool == before.tool_records@.len()
            &&& if n > 0 && before.pending_reasoning@.last().after_tool
                == before.tool_records@.len() {
                &&& after.pending_reasoning@.len() == n
                &&& last.text@ == before.pending_reasoning@.last().text@ + more
                &&& after.reasoning_started == before.reasoning_started
                &&& before.reasoning_started is Some && before.reasoning_started->0 <= now
                    ==> last.duration_ms == now - before.reasoning_started->0
            } else {
                &&& after.pending_reasoning@.len() == n + 1
                &&& last.text@ == more
                &&& after.reasoning_started == Some(now)
                &&& last.duration_ms == 0
            }
            &&& forall|i: int|
                0 <= i < after.pending_reasoning@.len() - 1 ==> (
                #[trigger] after.pending_reasoning@[i])@ == before.pending_reasoning@[i]@
        }),
{
    let (x, y) = (before@.pending_reasoning, after@.pending_reasoning);
    assert(x.len() == before.pending_reasoning@.len() && y.len()
        == after.pending_reasoning@.len());
    assert(before@.tool_records.len() == before.tool_records@.len());
    assert(y[y.len() - 1] == after.pending_reasoning@[y.len() - 1]@);
    if x.len() > 0 {
        assert(x[x.len() - 1] == before.pending_reasoning@[x.len() - 1]@);
    }
    assert forall|i: int| 0 <= i < after.pending_reasoning@.len() - 1 implies (
    #[trigger] after.pending_reasoning@[i])@ == before.pending_reasoning@[i]@ by {
        assert(y[i] == x[i]);
    }
}

/// A complete reply is the text that came with its end, or where none did the
/// text that was streamed; its usage is the one that came with it.
pub proof fn lemma_reply_is_complete(
    before: TurnStream,
    after: TurnStream,
    item: StreamItem,
    now: u64,
)
    requires
        item is Done,
        after@ == stream::handled(before@, item, now).0,
    ensures
        match after.done {
            Some((reply, usage)) => {
                &&& usage == item->Done_usage
                &&& item->Done_text@.len() > 0 ==> reply@ == item->Done_text@
                &&& item->Done_text@.len() == 0 ==> reply@ == stored::segments_text(
                    views::views(before.text_segments@),
                )
            },
            None => false,
        },
{
}

/// A failure ends the stream with its reason and its message, whatever was said
/// of the reply before; what was streamed is stored first.
pub proof fn lemma_failure_ends_the_stream(
    t: TurnView,
    item: StreamItem,
    now: u64,
    steer: SteerState,
    deny: bool,
    effects: Seq<StreamEffect>,
    stop: Option<StreamStop>,
)
    requires
        item is Error || item is ConnectionError || item is Overflow,
        views::views(effects) == stream::step_of(t, item, now, steer, deny).effects,
        views::opt_view(stop) == stream::step_of(t, item, now, steer, deny).stop,
    ensures
        stream::step_of(t, item, now, steer, deny).turn.done is None,
        stream::step_of(t, item, now, steer, deny).steer == steer,
        stream::step_of(t, item, now, steer, deny).deny == deny,
        effects.len() > 0 && effects[0] == StreamEffect::PersistError,
        match item {
            StreamItem::Error { message, reason } => {
                &&& effects.len() == 1
                &&& stop matches Some(StreamStop::Failed { reason: r, message: m }) && r@ == reason@
                    && m@ == message@
            },
            StreamItem::ConnectionError { message, reason } => {
                &&& effects.len() == 1
                &&& stop matches Some(StreamStop::Failed { reason: r, message: m }) && r@ == reason@
                    && m@ == message@
            },
            _ => {
                &&& effects.len() == 3
                &&& effects[1] == StreamEffect::BudgetExceeded
                &&& effects[2] == StreamEffect::Compact
                &&& stop == Some(StreamStop::Overflow)
            },
        },
{
    let vs = views::views(effects);
    assert(vs.len() == effects.len());
    assert(vs[0] == effects[0]@);
    if vs.len() == 3 {
        assert(vs[1] == effects[1]@);
        assert(vs[2] == effects[2]@);
    }
}

/// The usage of the main agent's request is reported with how much of the context
/// it took up, where that is known; a worker's never is.
pub proof fn lemma_usage_is_reported(
    t: TurnView,
    item: StreamItem,
    now: u64,
    effects: Seq<StreamEffect>,
)
    requires
        item is Usage,
        views::views(effects) == stream::handled(t, item, now).1,
    ensures
        stream::handled(t, item, now).0 == t,
        effects.len() == 1,
        effects[0] is Usage,
        item->Usage_worker is None && item->Usage_footprint > 0
            ==> effects[0]->Usage_context_tokens == Some(item->Usage_footprint),
        item->Usage_worker is Some || item->Usage_footprint == 0
            ==> effects[0]->Usage_context_tokens is None,
{
    assert(views::views(effects).len() == effects.len());
    assert(views::views(effects)[0] == effects[0]@);
}

/// A call that starts is reported only once the reply has a stored message, and
/// text and reasoning are reported as they come in.
pub proof fn lemma_items_are_reported(
    t: TurnView,
    item: StreamItem,
    now: u64,
    effects: Seq<StreamEffect>,
)
    requires
        views::views(effects) == stream::handled(t, item, now).1,
    ensures
        item is ToolStart ==> effects.len() == 2 && effects[0] == StreamEffect::EnsureRow
            && effects[1] == StreamEffect::ToolStarted,
        item is WorkerStart ==> effects.len() == 1 && effects[0] == StreamEffect::WorkerStarted,
        item is Delta && item->Delta_text@.len() > 0 ==> effects.len() == 1 && effects[0]
            == StreamEffect::Token,
        item is Reasoning && item->Reasoning_text@.len() > 0 ==> effects.len() == 1 && effects[0]
            == StreamEffect::Reasoning,
{
    let vs = views::views(effects);
    assert(vs.len() == effects.len());
    if vs.len() > 0 {
        assert(vs[0] == effects[0]@);
    }
    if vs.len() > 1 {
        assert(vs[1] == effects[1]@);
    }
}

/// A worker that starts and returns is reported with the time in between, and
/// runs no more.
pub proof fn lemma_worker_is_timed(
    t: TurnView,
    start: StreamItem,
    result: StreamItem,
    started: u64,
    now: u64,
    effects: Seq<StreamEffect>,
)
    requires
        start is WorkerStart,
        result is WorkerResult,
        start->WorkerStart_call_id@ == result->WorkerResult_call_id@,
        started <= now,
        views::views(effects) == stream::handled(
            stream::handled(t, start, started).0,
            result,
            now,
        ).1,
    ensures
        effects.len() == 1,
        effects[0] == (StreamEffect::WorkerFinished { duration_ms: (now - started) as u64 }),
        pending::pending(
            stream::handled(stream::handled(t, start, started).0, result, now).0.worker_runs,
            result->WorkerResult_call_id@,
        ) is None,
        stream::handled(t, start, started).0.action == ActionPhase::Tools,
{
    assert(views::views(effects).len() == effects.len());
    assert(views::views(effects)[0] == effects[0]@);
    let running = stream::handled(t, start, started).0.worker_runs;
    pending::lemma_dropped(running, result->WorkerResult_call_id@, seq![]);
}

/// Output of a shell command goes to the call that runs it where one call of the
/// agent does; where none or several do, there is no telling.
pub proof fn lemma_output_goes_to_its_call(
    calls: Seq<PendingView>,
    worker: Option<Seq<char>>,
    command: Seq<char>,
)
    ensures
        ({
            let runs = |i: int|
                0 <= i < calls.len() && calls[i].worker == worker && calls[i].name == "run_shell"@
                    && calls[i].command == Some(command);
            &&& pending::chunk_call(calls, worker, command) matches Some(id) ==> exists|i: int| #[trigger]
                runs(i) && calls[i].call_id == id
            &&& forall|i: int| #[trigger]
                runs(i) && (forall|j: int| #[trigger] runs(j) ==> j == i) ==> pending::chunk_call(
                    calls,
                    worker,
                    command,
                ) == Some(calls[i].call_id)
            &&& forall|i: int, j: int|
                #[trigger] runs(i) && #[trigger] runs(j) && i != j ==> pending::chunk_call(
                    calls,
                    worker,
                    command,
                ) is None
        }),
{
    lemma_shell_calls(calls, worker, command);
    let found = pending::shell_calls(calls, worker, command);
    let runs = |i: int|
        0 <= i < calls.len() && calls[i].worker == worker && calls[i].name == "run_shell"@
            && calls[i].command == Some(command);
    assert forall|i: int| #[trigger] runs(i) implies runs_command(calls, worker, command, i) by {}
    assert forall|i: int| #[trigger] runs_command(calls, worker, command, i) implies runs(i) by {}
    assert forall|i: int| #[trigger]
        runs(i) && (forall|j: int| #[trigger] runs(j) ==> j == i) implies pending::chunk_call(
        calls,
        worker,
        command,
    ) == Some(calls[i].call_id) by {
        assert(runs_command(calls, worker, command, i));
    }
    assert forall|i: int, j: int| #[trigger]
        runs(i) && #[trigger] runs(j) && i != j implies pending::chunk_call(
        calls,
        worker,
        command,
    ) is None by {
        assert(runs_command(calls, worker, command, i));
        assert(runs_command(calls, worker, command, j));
    }
    if pending::chunk_call(calls, worker, command) is Some {
        assert(found.len() == 1);
        let i = choose|i: int| #[trigger]
            runs_command(calls, worker, command, i) && calls[i] == found[0];
        assert(runs(i));
    }
}

spec fn runs_command(
    calls: Seq<PendingView>,
    worker: Option<Seq<char>>,
    command: Seq<char>,
    i: int,
) -> bool {
    0 <= i < calls.len() && calls[i].worker == worker && calls[i].name == "run_shell"@
        && calls[i].command == Some(command)
}

proof fn lemma_shell_calls(
    calls: Seq<PendingView>,
    worker: Option<Seq<char>>,
    command: Seq<char>,
)
    ensures
        ({
            let found = pending::shell_calls(calls, worker, command);
            &&& found.len() == 0 <==> forall|i: int| !(#[trigger] runs_command(calls, worker, command, i))
            &&& found.len() > 0 ==> exists|i: int| #[trigger]
                runs_command(calls, worker, command, i) && calls[i] == found[0]
            &&& found.len() == 1 ==> forall|i: int, j: int| #[trigger]
                runs_command(calls, worker, command, i) && #[trigger] runs_command(
                    calls,
                    worker,
                    command,
                    j,
                ) ==> i == j
            &&& found.len() > 1 ==> exists|i: int, j: int| i != j && #[trigger]
                runs_command(calls, worker, command, i) && #[trigger] runs_command(
                    calls,
                    worker,
                    command,
                    j,
                )
        }),
    decreases calls.len(),
{
    if calls.len() > 0 {
        let d = calls.drop_last();
        let n = calls.len() - 1;
        lemma_shell_calls(d, worker, command);
        assert forall|i: int| 0 <= i < n implies #[trigger] runs_command(calls, worker, command, i)
            == runs_command(d, worker, command, i) by {
            assert(d[i] == calls[i]);
        }
        let before = pending::shell_calls(d, worker, command);
        if before.len() > 0 {
            let i = choose|i: int| #[trigger]
                runs_command(d, worker, command, i) && d[i] == before[0];
            assert(runs_command(calls, worker, command, i) && calls[i] == before[0]);
            if runs_command(calls, worker, command, n) {
                assert(i != n);
            }
            if before.len() > 1 {
                let (a, b) = choose|a: int, b: int| a != b && #[trigger]
                    runs_command(d, worker, command, a) && #[trigger] runs_command(
                        d,
                        worker,
                        command,
                        b,
                    );
                assert(runs_command(calls, worker, command, a));
                assert(runs_command(calls, worker, command, b));
            }
        } else {
            assert forall|i: int| 0 <= i < n implies !(#[trigger] runs_command(
                calls,
                worker,
                command,
                i,
            )) by {
                assert(!runs_command(d, worker, command, i));
            }
        }
        assert(calls.last() == calls[n]);
        if runs_command(calls, worker, command, n) {
        } else {
            assert forall|i: int| #[trigger] runs_command(calls, worker, command, i) implies i
                < n by {}
        }
    }
}

/// Taking in an item by itself never cuts a turn.
pub proof fn lemma_handling_never_cuts(t: TurnView, item: StreamItem, now: u64)
    ensures
        stream::handled(t, item, now).2 != Some(StopView::Cut),
{
}

/// Once a worker has returned, and neither another worker nor a call of the main agent
/// runs, the turn is between two actions; else calls still run.
pub proof fn lemma_phase_after_a_worker(t: TurnView, item: StreamItem, now: u64)
    requires
        item is WorkerResult,
    ensures
        ({
            let turn = stream::handled(t, item, now).0;
            let id = item->WorkerResult_call_id@;
            let none_left = t.main_calls.len() == 0 && forall|i: int|
                0 <= i < t.worker_runs.len() ==> (#[trigger] t.worker_runs[i]).call_id == id;
            &&& none_left ==> turn.action == ActionPhase::Between
            &&& !none_left ==> turn.action == ActionPhase::Tools
            &&& turn.main_calls == t.main_calls && turn.worker_calls == t.worker_calls
            &&& turn.tool_records == t.tool_records && turn.text_segments == t.text_segments
        }),
{
    lemma_nothing_else_left(t.worker_runs, item->WorkerResult_call_id@);
}

}
