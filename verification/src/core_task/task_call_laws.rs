//! What calls of the core task give, whatever they are called with.

use crate::apply_patch::plan;
use crate::apply_patch::plan::{plan_hunk, HunkFacts, Planned};
use crate::apply_patch::Hunk;
use crate::catalog::CatalogProvider;
use crate::compaction;
use crate::core_task::compact;
use crate::core_task::compact::{
    fork_summary, plan_summary, summary_added, summary_made, SummaryMade, SummaryPlan,
};
use crate::core_task::loop_laws;
use crate::core_task::run::{Action, LockAnswer, LoopState};
use crate::core_task::services::{
    begin_startup, registry_reply, resumed_prompt, startup_found, startup_locked, StartupSession,
    StartupStep,
};
use crate::core_task::session_task_laws;
use crate::core_task::steer::{SteerSignal, SteerState};
use crate::core_task::stream::{StreamItem, StreamOutcome, StreamStep, StreamStop, TurnStream};
use crate::core_task::stream_laws;
use crate::core_task::target::Budget;
use crate::core_task::tree::resume_point;
use crate::core_task::turn_end::{reply_place, reply_row_added, reply_stored, stream_outcome};
use crate::core_task::turn_start::{ensure_session, repeat_prompt, repeated_prompt_stored};
use crate::llm;
use crate::llm::{PatchFileChange, Role};
use crate::permissions::DenyCut;
use crate::question::AnswerResponse;
use crate::session;
use crate::session::Session;
use crate::stored;
use crate::stored::{SessionId, StoredSession};
use crate::text;
use crate::tools;
use crate::views;
use vstd::prelude::*;

verus! {

/// Every result of a tool that a step takes in is recorded last, with its two streams
/// where it has them and with what it made of a file, and those before it stay.
pub proof fn lemma_step_records_the_result(
    turn: &mut TurnStream,
    item: &StreamItem,
    now: u64,
    steer: &mut SteerSignal,
    cut: &mut DenyCut,
    r: StreamStep,
)
    requires
        item is ToolResult,
        call_ensures(TurnStream::step, (turn, item, now, steer, cut), r),
    ensures
        final(turn).tool_records@.len() == old(turn).tool_records@.len() + 1,
        forall|i: int|
            0 <= i < old(turn).tool_records@.len() ==> (#[trigger] final(turn).tool_records@[i])@
                == old(turn).tool_records@[i]@,
        ({
            let t = final(turn).tool_records@.last();
            &&& t.name@ == item->ToolResult_name@
            &&& t.ok == item->ToolResult_ok
            &&& !t.killed
            &&& item->ToolResult_streams matches Some(s) ==> t.output@ == s.stdout@ && t.stderr@
                == s.stderr@
            &&& item->ToolResult_streams is None ==> t.output@ == item->ToolResult_output@
                && t.stderr@.len() == 0
            &&& views::opt_view(t.worker) == views::opt_view(item->ToolResult_worker)
            &&& views::opt_view(t.file_change) == views::opt_view(item->ToolResult_file_change)
            &&& views::opt_view(t.original_content) == views::opt_view(item->ToolResult_original)
            &&& views::opt_view(t.new_content) == views::opt_view(item->ToolResult_new)
        }),
{
    stream_laws::lemma_items_are_handled(
        old(turn)@,
        *item,
        now,
        old(steer).state,
        old(cut).set,
    );
    stream_laws::lemma_result_is_recorded(*old(turn), *final(turn), *item, now);
}

/// A turn that is cut by a step ends there, and only where a cut was wanted or a call was
/// refused; the wish is then used up.
pub proof fn lemma_step_is_cut_where_wanted(
    turn: &mut TurnStream,
    item: &StreamItem,
    now: u64,
    steer: &mut SteerSignal,
    cut: &mut DenyCut,
    r: StreamStep,
)
    requires
        call_ensures(TurnStream::step, (turn, item, now, steer, cut), r),
        r.stop is Some,
        r.stop->0 is Cut,
    ensures
        old(steer).state == SteerState::Armed || old(cut).set,
        old(steer).state != SteerState::Armed ==> !final(cut).set,
        final(steer).state != SteerState::Armed || !final(cut).set,
        r.effects@.len() > 0,
{
    assert(views::views(r.effects@).len() == r.effects@.len());
    crate::core_task::stream_laws::lemma_handling_never_cuts(old(turn)@, *item, now);
}

/// What is planned for a part of a patch shows the change from the text before it to the
/// text after it, where a file that is not there has none.
pub proof fn lemma_diff_goes_from_before_to_after(
    hunk: &Hunk,
    facts: &HunkFacts,
    r: Result<(PatchFileChange, Planned), String>,
)
    requires
        call_ensures(plan_hunk, (hunk, facts), r),
        r is Ok,
    ensures
        ({
            let c = r->Ok_0.0;
            tools::is_diff(
                llm::diff_views(c.diff@),
                if c.original is Some {
                    c.original->0@
                } else {
                    Seq::empty()
                },
                if c.new is Some {
                    c.new->0@
                } else {
                    Seq::empty()
                },
            )
        }),
        (hunk is Add) ==> r->Ok_0.0.original is None && r->Ok_0.0.new is Some,
        (hunk is Delete) ==> r->Ok_0.0.original is Some && r->Ok_0.0.new is None,
        (hunk is Update) ==> r->Ok_0.0.original is Some && r->Ok_0.0.new is Some,
{
}

/// A summary comes below the last of the messages that it stands for, and what it leaves
/// comes below it. A summary that failed changes nothing, and says why.
pub proof fn lemma_summary_takes_its_place(
    plan: &SummaryPlan,
    answer: Result<String, String>,
    made: SummaryMade,
    row: Option<u64>,
    added: (bool, Option<(u64, u64)>),
)
    requires
        call_ensures(summary_made, (plan, answer), made),
        call_ensures(summary_added, (plan, row), added),
    ensures
        answer is Ok <==> made is Append,
        made matches SummaryMade::Append { parent, summary } ==> parent == plan.parent && summary
            == answer->Ok_0,
        made matches SummaryMade::StreamError { error } ==> text::has_suffix(
            error@,
            answer->Err_0@,
        ),
        added.0 <==> row is Some,
        added.1 is Some <==> row is Some && plan.reparent is Some,
        added.1 matches Some((child, parent)) ==> Some(child) == plan.reparent && Some(parent)
            == row,
{
    if let SummaryMade::StreamError { error } = made {
        let e = answer->Err_0@;
        assert(error@.skip(error@.len() - e.len()) =~= e);
    }
}

/// Making room for a session summarizes a stretch of its active path, and there is
/// nothing to do exactly if there is no such stretch.
pub proof fn lemma_room_is_made_by_a_plan(
    st: &StoredSession,
    estimates: &Vec<u64>,
    keep: u64,
    r: Option<SummaryPlan>,
)
    requires
        estimates@.len() == st.messages@.len(),
        call_ensures(plan_summary, (st, estimates, keep), r),
    ensures
        r matches Some(p) ==> exists|start: int, cut: int| #[trigger]
            session_task_laws::is_plan(p, *st, estimates@, keep, start, cut),
        stored::active_path(st.messages@, st.leaf_id).len() <= 4 ==> r is None,
{
    let path = stored::active_path(st.messages@, st.leaf_id);
    let ms = session::path_messages(st.messages@, path);
    let es = compact::estimates_on(st.messages@, estimates@, path);
    compaction::lemma_compaction_span(ms, es, keep);
    if r is Some {
        let (start, cut) = compaction::compaction_span(ms, es, keep)->0;
        assert(session_task_laws::is_plan(r->0, *st, estimates@, keep, start, cut));
    }
}

/// A fork has the summary that was made for it, and without one it fails and says why.
pub proof fn lemma_fork_needs_its_summary(
    answer: Result<String, String>,
    r: Result<String, String>,
)
    requires
        call_ensures(fork_summary, (answer,), r),
    ensures
        r is Ok <==> answer is Ok,
        r is Ok ==> r->Ok_0 == answer->Ok_0,
        r is Err ==> text::has_suffix(r->Err_0@, answer->Err_0@),
{
    if r is Err {
        let (m, e) = (r->Err_0@, answer->Err_0@);
        assert(m.skip(m.len() - e.len()) =~= e);
    }
}

/// The session that is asked for is loaded, the most recent one is looked for and locked
/// before it is entered, and a fresh start looks for none.
pub proof fn lemma_startup_finds_its_session(
    startup: StartupSession,
    first: StartupStep,
    found: Result<Option<SessionId>, String>,
    second: StartupStep,
)
    requires
        call_ensures(begin_startup, (startup,), first),
        call_ensures(startup_found, (found,), second),
    ensures
        startup is Fresh <==> first is Done,
        startup is MostRecent <==> first is FindMostRecent,
        startup matches StartupSession::Session(id) ==> first is Load && first->Load_id == id,
        found is Ok && found->Ok_0 is Some <==> second is AcquireLock,
        second matches StartupStep::AcquireLock { id } ==> found->Ok_0 == Some(id),
        found is Ok && found->Ok_0 is None <==> second is Done,
        found is Err <==> second is SessionError,
{
}

/// A session is entered unless another client holds it, and counts as locked here only
/// where the lock was granted.
pub proof fn lemma_held_session_is_not_entered(
    locked: &mut Option<SessionId>,
    id: SessionId,
    answer: LockAnswer,
    r: StartupStep,
)
    requires
        call_ensures(startup_locked, (locked, id, answer), r),
    ensures
        answer is Held <==> r is SessionLocked,
        answer is Held || r is Enter && r->Enter_id == id,
        answer is Granted ==> *final(locked) == Some(id),
        !(answer is Granted) ==> *final(locked) == *old(locked),
{
}

/// The prompt of a turn that is resumed is the last message of the session.
pub proof fn lemma_resumed_prompt_is_the_last(session: &Session, r: Option<&str>)
    requires
        call_ensures(resumed_prompt, (session,), r),
    ensures
        r is Some <==> session.messages@.len() > 0,
        r is Some ==> r->0@ == session.messages@.last().content@,
{
}

/// What a fetch brought in time is handed on as it is, and one that took too long failed.
pub proof fn lemma_late_fetch_failed(
    fetched: Option<Result<Vec<CatalogProvider>, String>>,
    r: Result<Vec<CatalogProvider>, String>,
)
    requires
        call_ensures(registry_reply, (fetched,), r),
    ensures
        fetched is Some ==> r == fetched->0,
        fetched is None ==> r is Err,
{
}

/// How a turn ended follows from why its stream stopped, and from nothing else.
pub proof fn lemma_outcome_follows_the_stop(
    stop: Option<StreamStop>,
    compacted: bool,
    r: StreamOutcome,
)
    requires
        call_ensures(stream_outcome, (stop, compacted), r),
    ensures
        stop is None <==> r is Finished,
        stop is Some && stop->0 is Cut <==> r is Preempted,
        stop is Some && stop->0 is Overflow <==> r is Overflowed,
        r matches StreamOutcome::Overflowed { compacted: c } ==> c == compacted,
        stop is Some && stop->0 is Failed <==> r is RetryableFailure,
        r matches StreamOutcome::RetryableFailure { reason, message } ==> stop->0
            == (StreamStop::Failed { reason, message }),
{
}

/// A reply gets a message exactly if it has none and its session is stored; the message
/// comes below the tip, becomes the tip, and is the reply's from then on.
pub proof fn lemma_reply_comes_below_the_tip(
    session: &Session,
    turn: &TurnStream,
    place: Option<(SessionId, Option<u64>)>,
    later: &mut Session,
    stream: &mut TurnStream,
    row: u64,
    seq: u64,
)
    requires
        call_ensures(reply_place, (session, turn), place),
        call_ensures(reply_row_added, (later, stream, row, seq), ()),
    ensures
        place is Some <==> turn.assistant_message_id is None && session.id is Some,
        place matches Some((id, parent)) ==> session.id == Some(id) && parent == session.leaf_id,
        final(later).leaf_id == Some(row),
        final(later).id == old(later).id && final(later).messages == old(later).messages,
        final(stream).assistant_message_id == Some(row),
        final(stream).assistant_seq == seq,
{
}

/// A reply that was stored becomes the tip. One that could not be stored leaves the
/// session as it was, and says why.
pub proof fn lemma_failed_reply_leaves_the_session(
    session: &mut Session,
    outcome: Result<u64, String>,
    r: Option<String>,
)
    requires
        call_ensures(reply_stored, (session, outcome), r),
    ensures
        r is Some <==> outcome is Err,
        outcome is Ok ==> final(session).leaf_id == Some(outcome->Ok_0) && final(session).messages
            == old(session).messages,
        outcome is Err ==> *final(session) == *old(session) && text::has_suffix(
            r->0@,
            outcome->Err_0@,
        ),
{
    if outcome is Err {
        let (m, e) = (r->0@, outcome->Err_0@);
        assert(m.skip(m.len() - e.len()) =~= e);
    }
}

/// A turn goes on in the session that there is, and in a new one without messages where
/// there is none.
pub proof fn lemma_turn_has_a_session(session: &mut Option<Session>, started: bool)
    requires
        call_ensures(ensure_session, (session,), started),
    ensures
        *final(session) is Some,
        started <==> *old(session) is None,
        !started ==> *final(session) == *old(session),
        started ==> (*final(session))->0.messages@.len() == 0 && (*final(session))->0.id is None
            && (*final(session))->0.leaf_id is None,
{
}

/// A prompt that is repeated comes last, as the user's, and is stored below the tip; once
/// it is, it is the tip.
pub proof fn lemma_repeated_prompt_comes_last(
    session: &mut Session,
    content: &str,
    place: Option<(SessionId, Option<u64>)>,
    later: &mut Session,
    row: Option<u64>,
)
    requires
        call_ensures(repeat_prompt, (session, content), place),
        call_ensures(repeated_prompt_stored, (later, row), ()),
    ensures
        final(session).messages@.len() == old(session).messages@.len() + 1,
        final(session).messages@.last().role == Role::User,
        final(session).messages@.last().content@ == content@,
        final(session).messages@.drop_last() == old(session).messages@,
        place is Some <==> old(session).id is Some,
        place matches Some((id, parent)) ==> old(session).id == Some(id) && parent
            == old(session).leaf_id,
        row is Some ==> final(later).leaf_id == row,
        row is None ==> final(later).leaf_id == old(later).leaf_id,
        final(later).messages == old(later).messages,
{
}

/// An interrupted reply gives way exactly if it is what the path ends with, and the path
/// then ends with what it answers.
pub proof fn lemma_interrupted_reply_gives_way(
    st: &StoredSession,
    r: Option<(u64, Option<u64>)>,
)
    requires
        call_ensures(resume_point, (st,), r),
    ensures
        r is Some <==> st.leaf_id is Some && stored::index_of(
            st.messages@,
            st.leaf_id->0,
        ) is Some && st.messages@[stored::index_of(st.messages@, st.leaf_id->0)->0].role
            == Role::Assistant,
        r matches Some((id, leaf)) ==> st.leaf_id == Some(id) && leaf
            == st.messages@[stored::index_of(st.messages@, id)->0].parent_id,
{
}

/// A wish for a cut is taken up once, and a wish that was given up is not taken up.
pub proof fn lemma_wish_is_taken_up_once(
    a: &mut SteerSignal,
    b: &mut SteerSignal,
    c: &mut SteerSignal,
    claimed: bool,
)
    requires
        call_ensures(SteerSignal::arm, (a,), ()),
        call_ensures(SteerSignal::disarm, (b,), ()),
        call_ensures(SteerSignal::begin_preempt, (c,), claimed),
    ensures
        old(a).state == SteerState::Idle ==> final(a).state == SteerState::Armed,
        final(b).state != SteerState::Armed,
        claimed <==> old(c).state == SteerState::Armed,
        claimed ==> final(c).state == SteerState::Finalizing,
        !claimed ==> final(c).state == old(c).state,
{
}

/// What the preamble takes up is set, and the rest of a budget stays.
pub proof fn lemma_budget_keeps_the_rest(b: Budget, tokens: u64, again: u64, r: Budget, s: Budget)
    requires
        call_ensures(Budget::with_preamble_tokens, (b, tokens), r),
        call_ensures(Budget::with_preamble_tokens, (r, again), s),
    ensures
        r.preamble_tokens == tokens,
        tokens == b.preamble_tokens ==> r == b,
        again == b.preamble_tokens ==> s == b,
{
}

/// A prompt that is sent starts a turn exactly if none runs and none waits to be tried
/// again; else it is put behind those that wait.
pub proof fn lemma_sent_prompt_starts_or_waits(
    s: &mut LoopState,
    steer: &mut SteerSignal,
    streaming: bool,
    content: String,
    model: Option<String>,
    r: Vec<Action>,
)
    requires
        call_ensures(LoopState::send_message, (s, steer, streaming, content, model), r),
    ensures
        r@.len() == 1,
        streaming || old(s).pending_retry is Some ==> {
            &&& r@[0] is PromptSteered
            &&& final(s).steered@.len() == old(s).steered@.len() + 1
            &&& final(s).steered@.last().content@ == content@
        },
        !streaming && old(s).pending_retry is None ==> {
            &&& loop_laws::starts(r@[0], content@, views::opt_view(model), false)
            &&& final(s).steered@.len() == old(s).steered@.len()
            &&& final(steer).state == SteerState::Idle
        },
{
    loop_laws::lemma_prompt_starts_or_waits(
        *old(s),
        old(steer).state,
        streaming,
        content@,
        views::opt_view(model),
        *final(s),
        final(steer).state,
        r@,
    );
}

/// A turn whose connection failed is tried again as often as is allowed, and its error is
/// told after that; the prompts that wait stay.
pub proof fn lemma_failed_turn_is_tried_again(
    s: &mut LoopState,
    steer: &mut SteerSignal,
    reason: String,
    message: String,
    max_retries: usize,
    r: Vec<Action>,
)
    requires
        call_ensures(
            LoopState::stream_done,
            (s, steer, StreamOutcome::RetryableFailure { reason, message }, max_retries),
            r,
        ),
    ensures
        r@.len() == 1,
        old(s).conn_retries < max_retries ==> r@[0] is RetryScheduled && final(s).conn_retries
            == old(s).conn_retries + 1 && final(s).pending_retry is Some,
        old(s).conn_retries >= max_retries ==> r@[0] is StreamError && final(s).conn_retries == 0
            && final(steer).state == SteerState::Idle,
        final(s)@.steered == old(s)@.steered,
{
    loop_laws::lemma_failure_is_tried_again(
        *old(s),
        old(steer).state,
        reason,
        message,
        max_retries,
        *final(s),
        final(steer).state,
        r@,
    );
}

/// An answer or a decision is handed on where it was asked for, and only once.
pub proof fn lemma_asked_for_answers_are_handed_on(
    s: &mut LoopState,
    id: u64,
    answers: AnswerResponse,
    a: Vec<Action>,
    t: &mut LoopState,
    allow: bool,
    b: Vec<Action>,
)
    requires
        call_ensures(LoopState::answer_question, (s, id, answers), a),
        call_ensures(LoopState::decide_permission, (t, id, allow), b),
    ensures
        a@.len() == 1 <==> old(s)@.pending_questions.contains(id),
        a@.len() <= 1,
        !final(s)@.pending_questions.contains(id),
        b@.len() == 1 <==> old(t)@.pending_permissions.contains(id),
        b@.len() <= 1,
        !final(t)@.pending_permissions.contains(id),
        b@.len() == 1 ==> (b@[0] matches Action::RespondPermission { id: i, allow: x } && i == id
            && x == allow),
{
    assert(views::views(a@).len() == a@.len());
    assert(views::views(b@).len() == b@.len());
    if b@.len() == 1 {
        assert(views::views(b@)[0] == b@[0]@);
    }
}

}
