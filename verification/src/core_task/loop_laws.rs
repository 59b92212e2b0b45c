//! What holds of every step of the run loop.

use crate::command::Command;
use crate::core_task::dispatch;
use crate::core_task::retry;
use crate::core_task::run;
use crate::core_task::run::{Action, Facts, LockAnswer, LoopState, Step};
use crate::core_task::steer::SteerState;
use crate::core_task::stream::StreamOutcome;
use crate::catalog::CatalogProvider;
use crate::stored::SessionId;
use crate::text;
use crate::text_map;
use crate::views;
use vstd::prelude::*;

verus! {

/// Whether the step leads to the state, the signal and the actions.
pub open spec fn leads_to(
    step: Step,
    after: LoopState,
    steer: SteerState,
    actions: Seq<Action>,
) -> bool {
    step == (Step { state: after@, steer, actions: views::views(actions) })
}

proof fn lemma_actions(step: Step, after: LoopState, steer: SteerState, actions: Seq<Action>)
    requires
        leads_to(step, after, steer, actions),
    ensures
        step.actions.len() == actions.len(),
        forall|i: int| 0 <= i < actions.len() ==> (#[trigger] actions[i])@ == step.actions[i],
        step.state.steered.len() == after.steered@.len(),
        forall|i: int|
            0 <= i < after.steered@.len() ==> (#[trigger] after.steered@[i])@
                == step.state.steered[i],
{
    assert forall|i: int| 0 <= i < actions.len() implies (#[trigger] actions[i])@
        == step.actions[i] by {
        assert(views::views(actions)[i] == actions[i]@);
    }
    assert forall|i: int| 0 <= i < after.steered@.len() implies (#[trigger] after.steered@[i])@
        == step.state.steered[i] by {
        assert(after@.steered[i] == after.steered@[i]@);
    }
}

/// Whether the text is the one that may be wanted.
pub open spec fn is_that(o: Option<String>, wanted: Option<Seq<char>>) -> bool {
    match wanted {
        Some(t) => o is Some && o->0@ == t,
        None => o is None,
    }
}

/// Whether the action starts a turn with the prompt and the model it asks for.
pub open spec fn starts(
    a: Action,
    content: Seq<char>,
    model: Option<Seq<char>>,
    waited: bool,
) -> bool {
    a matches Action::StartTurn { content: c, steered, model: m } && c@ == content && steered
        == waited && is_that(m, model)
}

/// A prompt that is sent while nothing runs starts a turn with it; one that is
/// sent while a turn streams, or waits to be tried again, is put behind those that
/// wait already, and a cut is wanted for it.
pub proof fn lemma_prompt_starts_or_waits(
    before: LoopState,
    steer: SteerState,
    streaming: bool,
    content: Seq<char>,
    model: Option<Seq<char>>,
    after: LoopState,
    next: SteerState,
    actions: Seq<Action>,
)
    requires
        leads_to(
            run::message_sent(before@, steer, streaming, content, model),
            after,
            next,
            actions,
        ),
    ensures
        actions.len() == 1,
        streaming || before.pending_retry is Some ==> {
            &&& actions[0] matches Action::PromptSteered { content: c } && c@ == content
            &&& after.steered@.len() == before.steered@.len() + 1
            &&& after.steered@.last().content@ == content
            &&& is_that(after.steered@.last().model, model)
            &&& forall|i: int|
                0 <= i < before.steered@.len() ==> (#[trigger] after.steered@[i])@
                    == before.steered@[i]@
            &&& next == if steer == SteerState::Finalizing {
                SteerState::Finalizing
            } else {
                SteerState::Armed
            }
        },
        !streaming && before.pending_retry is None ==> {
            &&& starts(actions[0], content, model, false)
            &&& after.steered@.len() == before.steered@.len()
            &&& after.conn_retries == 0
            &&& after.overflow_retries == 0
            &&& next == SteerState::Idle
        },
{
    let step = run::message_sent(before@, steer, streaming, content, model);
    lemma_actions(step, after, next, actions);
    assert(before@.steered.len() == before.steered@.len());
    assert(actions[0]@ == step.actions[0]);
    if streaming || before.pending_retry is Some {
        let n = before.steered@.len() as int;
        assert(after.steered@[n]@ == step.state.steered[n]);
        assert forall|i: int| 0 <= i < before.steered@.len() implies (
        #[trigger] after.steered@[i])@ == before.steered@[i]@ by {
            assert(before@.steered[i] == before.steered@[i]@);
        }
    }
}

/// When a turn is finished or was cut the prompt that waited longest takes over,
/// with the model it asks for; the others go on waiting in their order, and a cut
/// is wanted again where there are any. Nothing is asked of the user any more.
pub proof fn lemma_waiting_prompt_takes_over(
    before: LoopState,
    steer: SteerState,
    outcome: StreamOutcome,
    max_retries: usize,
    after: LoopState,
    next: SteerState,
    actions: Seq<Action>,
)
    requires
        outcome is Finished || outcome is Preempted,
        leads_to(
            run::stream_ended(before@, steer, outcome, max_retries),
            after,
            next,
            actions,
        ),
    ensures
        after.pending_questions@.len() == 0,
        after.pending_permissions@.len() == 0,
        after.conn_retries == 0,
        after.overflow_retries == 0,
        before.steered@.len() == 0 ==> actions.len() == 0 && next == SteerState::Idle,
        before.steered@.len() > 0 ==> {
            &&& actions.len() == 1
            &&& starts(
                actions[0],
                before.steered@[0].content@,
                views::opt_view(before.steered@[0].model),
                true,
            )
            &&& after.steered@.len() == before.steered@.len() - 1
            &&& forall|i: int|
                0 <= i < after.steered@.len() ==> (#[trigger] after.steered@[i])@
                    == before.steered@[i + 1]@
            &&& next == if before.steered@.len() > 1 {
                SteerState::Armed
            } else {
                SteerState::Idle
            }
        },
{
    let step = run::stream_ended(before@, steer, outcome, max_retries);
    lemma_actions(step, after, next, actions);
    assert(before@.steered.len() == before.steered@.len());
    assert(after@.pending_questions == Set::<u64>::empty());
    assert(after@.pending_permissions == Set::<u64>::empty());
    if before.steered@.len() > 0 {
        assert(actions[0]@ == step.actions[0]);
        assert(before@.steered[0] == before.steered@[0]@);
        assert forall|i: int| 0 <= i < after.steered@.len() implies (
        #[trigger] after.steered@[i])@ == before.steered@[i + 1]@ by {
            assert(before@.steered[i + 1] == before.steered@[i + 1]@);
        }
    }
}

/// A turn whose history was summarized is taken up again, three times at most;
/// then, or where it could not be summarized, the user is told.
pub proof fn lemma_overflow_is_resumed_three_times(
    before: LoopState,
    steer: SteerState,
    compacted: bool,
    max_retries: usize,
    after: LoopState,
    next: SteerState,
    actions: Seq<Action>,
)
    requires
        leads_to(
            run::stream_ended(
                before@,
                steer,
                StreamOutcome::Overflowed { compacted },
                max_retries,
            ),
            after,
            next,
            actions,
        ),
    ensures
        actions.len() == 1,
        compacted && before.overflow_retries < 3 ==> actions[0] is ResumeTurn
            && after.overflow_retries == before.overflow_retries + 1 && next == steer,
        !compacted || before.overflow_retries >= 3 ==> actions[0] is StreamError
            && after.overflow_retries == 0 && next == SteerState::Idle,
        after@.steered == before@.steered,
{
    let step = run::stream_ended(
        before@,
        steer,
        StreamOutcome::Overflowed { compacted },
        max_retries,
    );
    lemma_actions(step, after, next, actions);
    assert(actions[0]@ == step.actions[0]);
}

/// A failed connection is tried again as often as is allowed, each time with the
/// next number and a longer wait; the failure is kept until then. After the last
/// try the user is told of it. The prompts that wait stay.
pub proof fn lemma_failure_is_tried_again(
    before: LoopState,
    steer: SteerState,
    reason: String,
    message: String,
    max_retries: usize,
    after: LoopState,
    next: SteerState,
    actions: Seq<Action>,
)
    requires
        leads_to(
            run::stream_ended(
                before@,
                steer,
                StreamOutcome::RetryableFailure { reason, message },
                max_retries,
            ),
            after,
            next,
            actions,
        ),
    ensures
        actions.len() == 1,
        after@.steered == before@.steered,
        before.conn_retries < max_retries ==> {
            &&& actions[0] matches Action::RetryScheduled {
                reason: r,
                message: m,
                attempt,
                max_attempts,
                delay_ms,
            }
            &&& r@ == reason@
            &&& m@ == message@
            &&& attempt == before.conn_retries + 1
            &&& max_attempts == max_retries
            &&& delay_ms == (if attempt == 1 {
                3_000int
            } else if attempt == 2 {
                5_000
            } else if attempt == 3 {
                10_000
            } else if attempt == 4 {
                20_000
            } else if attempt == 5 {
                30_000
            } else {
                60_000
            })
            &&& after.conn_retries == before.conn_retries + 1
            &&& after.pending_retry is Some && after.pending_retry->0@ == message@
            &&& next == steer
        },
        before.conn_retries >= max_retries ==> {
            &&& actions[0] matches Action::StreamError { error } && error@ == message@
            &&& after.conn_retries == 0
            &&& after@.pending_retry == before@.pending_retry
            &&& next == SteerState::Idle
        },
{
    let step = run::stream_ended(
        before@,
        steer,
        StreamOutcome::RetryableFailure { reason, message },
        max_retries,
    );
    lemma_actions(step, after, next, actions);
    assert(actions[0]@ == step.actions[0]);
}

/// Stopping cuts a running turn, unless it is being cut already; where a failed
/// turn waits to be tried again, the wait ends with the failure. The prompt that
/// waited longest takes over.
pub proof fn lemma_stopping_cuts_the_turn(
    before: LoopState,
    steer: SteerState,
    streaming: bool,
    after: LoopState,
    next: SteerState,
    actions: Seq<Action>,
)
    requires
        leads_to(run::stream_cancelled(before@, steer, streaming), after, next, actions),
    ensures
        ({
            let cut = streaming && steer != SteerState::Finalizing;
            if !cut && before.pending_retry is None {
                actions.len() == 0 && next == steer && after@ == before@
            } else {
                &&& next == SteerState::Idle
                &&& cut ==> actions.len() > 0 && actions[0] is CutStream
                    && after.pending_questions@.len() == 0 && after.pending_permissions@.len() == 0
                &&& !cut ==> actions.len() > 0 && (actions[0] matches Action::StreamError { error }
                    && error@ == before.pending_retry->0@) && after.pending_retry is None
                    && after.conn_retries == 0
                &&& if before.steered@.len() > 0 {
                    &&& actions.len() == 2
                    &&& starts(
                        actions[1],
                        before.steered@[0].content@,
                        views::opt_view(before.steered@[0].model),
                        true,
                    )
                    &&& after.steered@.len() == before.steered@.len() - 1
                } else {
                    actions.len() == 1 && after.steered@.len() == 0
                }
            }
        }),
{
    let step = run::stream_cancelled(before@, steer, streaming);
    lemma_actions(step, after, next, actions);
    assert(before@.steered.len() == before.steered@.len());
    let cut = streaming && steer != SteerState::Finalizing;
    if cut || before.pending_retry is Some {
        assert(actions[0]@ == step.actions[0]);
        if before.steered@.len() > 0 {
            assert(actions[1]@ == step.actions[1]);
            assert(before@.steered[0] == before.steered@[0]@);
        }
        if cut {
            assert(after@.pending_questions == Set::<u64>::empty());
            assert(after@.pending_permissions == Set::<u64>::empty());
        }
    }
}

/// The prompt that was sent last is the one that is given back, and the others
/// stay; once none is left no cut is wanted.
pub proof fn lemma_last_prompt_is_given_back(
    before: LoopState,
    steer: SteerState,
    stacked: bool,
    after: LoopState,
    next: SteerState,
    actions: Seq<Action>,
)
    requires
        leads_to(run::steered_recalled(before@, steer, stacked), after, next, actions),
    ensures
        actions.len() == 1,
        actions[0] matches Action::SteeredRecalled { stacked: s, content } && s == stacked && (
        before.steered@.len() == 0 ==> content is None) && (before.steered@.len() > 0
            ==> content is Some && content->0@ == before.steered@.last().content@),
        before.steered@.len() > 0 ==> after.steered@.len() == before.steered@.len() - 1,
        forall|i: int|
            0 <= i < after.steered@.len() ==> (#[trigger] after.steered@[i])@
                == before.steered@[i]@,
        after.steered@.len() == 0 ==> next != SteerState::Armed,
        after.steered@.len() > 0 ==> next == steer,
{
    let step = run::steered_recalled(before@, steer, stacked);
    lemma_actions(step, after, next, actions);
    assert(before@.steered.len() == before.steered@.len());
    assert(actions[0]@ == step.actions[0]);
    if before.steered@.len() > 0 {
        let n = before.steered@.len() - 1;
        assert(before@.steered[n] == before.steered@[n]@);
    }
    assert forall|i: int| 0 <= i < after.steered@.len() implies (#[trigger] after.steered@[i])@
        == before.steered@[i]@ by {
        assert(before@.steered[i] == before.steered@[i]@);
    }
}

/// A new session is not begun while a reply streams. It starts with nothing of the
/// one before: its lock is given up, nothing waits, is asked or is tried again.
pub proof fn lemma_new_session_starts_clean(
    before: LoopState,
    steer: SteerState,
    streaming: bool,
    after: LoopState,
    next: SteerState,
    actions: Seq<Action>,
)
    requires
        leads_to(run::session_begun(before@, steer, streaming), after, next, actions),
    ensures
        streaming ==> actions.len() == 1 && actions[0] is StreamError && after@ == before@ && next
            == steer,
        !streaming ==> {
            let n = actions.len() as int;
            &&& n >= 2 && actions[n - 2] is FreshSession && actions[n - 1] is SessionStarted
            &&& before.locked_session matches Some(id) ==> actions[0] == (Action::ReleaseLock {
                id,
            })
            &&& before.steered@.len() > 0 ==> actions[n - 3] is SteeredCleared
            &&& n == 2 + (if before.locked_session is Some {
                1int
            } else {
                0
            }) + (if before.steered@.len() > 0 {
                1int
            } else {
                0
            })
            &&& after.locked_session is None
            &&& after.steered@.len() == 0
            &&& after.pending_retry is None
            &&& after.conn_retries == 0
            &&& after.overflow_retries == 0
            &&& after.pending_questions@ == Set::<u64>::empty()
            &&& after.pending_permissions@ == Set::<u64>::empty()
            &&& !after.context_announced
            &&& next != SteerState::Armed
        },
{
    let step = run::session_begun(before@, steer, streaming);
    lemma_actions(step, after, next, actions);
    assert(before@.steered.len() == before.steered@.len());
    let n = actions.len() as int;
    assert forall|i: int| 0 <= i < n implies (#[trigger] actions[i])@ == step.actions[i] by {}
    assert(actions[0]@ == step.actions[0]);
    if !streaming {
        assert(actions[n - 2]@ == step.actions[n - 2]);
        assert(actions[n - 1]@ == step.actions[n - 1]);
        if before.steered@.len() > 0 {
            assert(actions[n - 3]@ == step.actions[n - 3]);
        }
    }
}

/// A session is entered with its lock, and the lock of the one before is given up;
/// one that another client holds is left alone. What waited is dropped.
pub proof fn lemma_session_is_entered_with_its_lock(
    before: LoopState,
    steer: SteerState,
    id: SessionId,
    answer: LockAnswer,
    after: LoopState,
    next: SteerState,
    actions: Seq<Action>,
)
    requires
        leads_to(run::session_entered(before@, steer, id, answer), after, next, actions),
    ensures
        answer == LockAnswer::Held ==> actions.len() == 1 && actions[0] == (Action::SessionLocked {
            id,
        }) && after@ == before@ && next == steer,
        answer != LockAnswer::Held ==> {
            let n = actions.len() as int;
            &&& n > 0 && actions[n - 1] == (Action::LoadSession { id })
            &&& answer == LockAnswer::Granted ==> after.locked_session == Some(id)
            &&& answer == LockAnswer::Failed ==> after.locked_session == before.locked_session
            &&& answer == LockAnswer::Granted && before.locked_session is Some
                && before.locked_session != Some(id) ==> actions[0] == (Action::ReleaseLock {
                id: before.locked_session->0,
            })
            &&& before.locked_session == Some(id) ==> !(actions[0] is ReleaseLock)
            &&& after.steered@.len() == 0
            &&& after.pending_questions@ == Set::<u64>::empty()
            &&& after.pending_permissions@ == Set::<u64>::empty()
            &&& next != SteerState::Armed
        },
{
    let step = run::session_entered(before@, steer, id, answer);
    lemma_actions(step, after, next, actions);
    assert(before@.steered.len() == before.steered@.len());
    let n = actions.len() as int;
    assert(n > 0);
    assert(actions[0]@ == step.actions[0]);
    assert(actions[n - 1]@ == step.actions[n - 1]);
}

/// A session that is in use elsewhere is not deleted; another one is, and what
/// waited is dropped.
pub proof fn lemma_session_in_use_is_not_deleted(
    before: LoopState,
    steer: SteerState,
    id: SessionId,
    in_use: bool,
    after: LoopState,
    next: SteerState,
    actions: Seq<Action>,
)
    requires
        leads_to(run::deletion_begun(before@, steer, id, in_use), after, next, actions),
    ensures
        in_use ==> actions.len() == 1 && actions[0] == (Action::SessionLocked { id }) && after@
            == before@ && next == steer,
        !in_use ==> actions.len() > 0 && actions.last() == (Action::DeleteSession { id })
            && after.steered@.len() == 0 && after.pending_retry is None && next
            != SteerState::Armed,
        !in_use && before.steered@.len() > 0 ==> actions.len() == 2 && actions[0] is SteeredCleared,
        !in_use && before.steered@.len() == 0 ==> actions.len() == 1,
{
    let step = run::deletion_begun(before@, steer, id, in_use);
    lemma_actions(step, after, next, actions);
    assert(before@.steered.len() == before.steered@.len());
    let n = actions.len() as int;
    assert(actions[0]@ == step.actions[0]);
    assert(actions[n - 1]@ == step.actions[n - 1]);
}

/// A fork cuts a running turn and drops what waits, and then goes back to the node
/// that was asked for; it is summarized only on demand, and by the model in use.
pub proof fn lemma_fork_cuts_the_turn_first(
    before: LoopState,
    steer: SteerState,
    streaming: bool,
    id: SessionId,
    node: Option<u64>,
    summarize: bool,
    after: LoopState,
    next: SteerState,
    actions: Seq<Action>,
)
    requires
        leads_to(
            run::fork_begun(before@, steer, streaming, Some(id), node, summarize),
            after,
            next,
            actions,
        ),
    ensures
        actions.len() > 0,
        streaming && steer != SteerState::Finalizing ==> actions[0] is CutStream && next
            == SteerState::Idle,
        !streaming || steer == SteerState::Finalizing ==> !(actions[0] is CutStream) && next
            != SteerState::Armed,
        after.steered@.len() == 0,
        after.pending_retry is None,
        match actions.last() {
            Action::Fork { id: i, node: n, summarizer } => {
                &&& i == id && n == node
                &&& summarizer is Some == summarize
                &&& summarizer matches Some((p, m)) ==> before.connections.active matches Some(a)
                    && p@ == a.provider@ && a.model is Some && m@ == a.model->0@
            },
            Action::SessionError { error } => summarize && (before.connections.active is None
                || before.connections.active->0.model is None),
            _ => false,
        },
{
    let step = run::fork_begun(before@, steer, streaming, Some(id), node, summarize);
    lemma_actions(step, after, next, actions);
    assert(before@.steered.len() == before.steered@.len());
    let n = actions.len() as int;
    assert(actions[0]@ == step.actions[0]);
    assert(actions[n - 1]@ == step.actions[n - 1]);
    assert(step.actions[n - 1] == run::fork_action(before@, id, node, summarize));
}

/// A decision of the user is handed on as it was made, to the question that it
/// answers, once: only while the question stands, and then it stands no more.
/// Other questions stay.
pub proof fn lemma_decision_is_handed_on_once(
    before: LoopState,
    steer: SteerState,
    facts: Facts,
    catalog: Seq<CatalogProvider>,
    id: u64,
    allow: bool,
    after: LoopState,
    next: SteerState,
    actions: Seq<Action>,
)
    requires
        leads_to(
            dispatch::commanded(
                before@,
                steer,
                facts,
                catalog,
                Command::PermissionDecide { id, allow },
            ),
            after,
            next,
            actions,
        ),
    ensures
        before.pending_permissions@.contains(id) ==> actions.len() == 1 && actions[0] == (
        Action::RespondPermission { id, allow }),
        !before.pending_permissions@.contains(id) ==> actions.len() == 0,
        !after.pending_permissions@.contains(id),
        forall|other: u64|
            other != id ==> after.pending_permissions@.contains(other)
                == #[trigger] before.pending_permissions@.contains(other),
        after@.pending_questions == before@.pending_questions,
        next == steer,
{
    let step = dispatch::commanded(
        before@,
        steer,
        facts,
        catalog,
        Command::PermissionDecide { id, allow },
    );
    lemma_actions(step, after, next, actions);
    assert(after@.pending_permissions == after.pending_permissions@);
    assert(before@.pending_permissions == before.pending_permissions@);
    if actions.len() > 0 {
        assert(actions[0]@ == step.actions[0]);
    }
}

/// The same of answers to a question.
pub proof fn lemma_answers_are_handed_on_once(
    before: LoopState,
    steer: SteerState,
    facts: Facts,
    catalog: Seq<CatalogProvider>,
    id: u64,
    answers: crate::question::AnswerResponse,
    after: LoopState,
    next: SteerState,
    actions: Seq<Action>,
)
    requires
        leads_to(
            dispatch::commanded(
                before@,
                steer,
                facts,
                catalog,
                Command::AnswerQuestion { id, answers },
            ),
            after,
            next,
            actions,
        ),
    ensures
        before.pending_questions@.contains(id) ==> actions.len() == 1 && (
        actions[0] matches Action::RespondQuestion { id: i, answers: a } && i == id
            && crate::question::answers_view(a) == crate::question::answers_view(answers)),
        !before.pending_questions@.contains(id) ==> actions.len() == 0,
        !after.pending_questions@.contains(id),
        forall|other: u64|
            other != id ==> after.pending_questions@.contains(other)
                == #[trigger] before.pending_questions@.contains(other),
        after@.pending_permissions == before@.pending_permissions,
        next == steer,
{
    let step = dispatch::commanded(
        before@,
        steer,
        facts,
        catalog,
        Command::AnswerQuestion { id, answers },
    );
    lemma_actions(step, after, next, actions);
    assert(after@.pending_questions == after.pending_questions@);
    assert(before@.pending_questions == before.pending_questions@);
    if actions.len() > 0 {
        assert(actions[0]@ == step.actions[0]);
    }
}

/// The user's own commands are numbered one after the other, and each is run under
/// the number that it was reported with.
pub proof fn lemma_own_commands_are_numbered(
    before: LoopState,
    steer: SteerState,
    facts: Facts,
    catalog: Seq<CatalogProvider>,
    command: String,
    after: LoopState,
    next: SteerState,
    actions: Seq<Action>,
)
    requires
        before.next_bash_id < u64::MAX,
        leads_to(
            dispatch::commanded(before@, steer, facts, catalog, Command::RunBash { command }),
            after,
            next,
            actions,
        ),
    ensures
        actions.len() == 2,
        actions[0] matches Action::BashStarted { id, command: c } && id == before.next_bash_id && c@
            == command@,
        actions[1] matches Action::RunBash { id, command: c } && id == before.next_bash_id && c@
            == command@,
        after.next_bash_id == before.next_bash_id + 1,
{
    let step = dispatch::commanded(before@, steer, facts, catalog, Command::RunBash { command });
    lemma_actions(step, after, next, actions);
    assert(actions[0]@ == step.actions[0]);
    assert(actions[1]@ == step.actions[1]);
}

/// A provider that is set up can be put in use, and keeps the model and the effort
/// that were chosen; another one changes nothing.
pub proof fn lemma_known_providers_are_put_in_use(
    before: LoopState,
    steer: SteerState,
    facts: Facts,
    catalog: Seq<CatalogProvider>,
    name: String,
    after: LoopState,
    next: SteerState,
    actions: Seq<Action>,
)
    requires
        leads_to(
            dispatch::commanded(
                before@,
                steer,
                facts,
                catalog,
                Command::SetActiveProvider { name },
            ),
            after,
            next,
            actions,
        ),
    ensures
        text_map::lookup(before@.providers, name@) is None ==> after@ == before@ && actions.len()
            == 0,
        text_map::lookup(before@.providers, name@) is Some ==> {
            &&& actions.len() == 2
            &&& actions[0] matches Action::EnsureClient { name: n } && n@ == name@
            &&& actions[1] is Persist
            &&& after@.providers == before@.providers
            &&& after.connections.active matches Some(a) && a.provider@ == name@ && (
            match before.connections.active {
                Some(b) => views::opt_view(a.model) == views::opt_view(b.model) && views::opt_view(
                    a.variant,
                ) == views::opt_view(b.variant),
                None => a.model is None && a.variant is None,
            })
        },
{
    let step = dispatch::commanded(
        before@,
        steer,
        facts,
        catalog,
        Command::SetActiveProvider { name },
    );
    lemma_actions(step, after, next, actions);
    if actions.len() > 0 {
        assert(actions[0]@ == step.actions[0]);
        assert(actions[1]@ == step.actions[1]);
    }
}

/// A model that is chosen is used with the default effort, by the provider in use.
pub proof fn lemma_chosen_model_has_the_default_effort(
    before: LoopState,
    steer: SteerState,
    facts: Facts,
    catalog: Seq<CatalogProvider>,
    model: String,
    after: LoopState,
    next: SteerState,
    actions: Seq<Action>,
)
    requires
        leads_to(
            dispatch::commanded(before@, steer, facts, catalog, Command::SetActiveModel { model }),
            after,
            next,
            actions,
        ),
    ensures
        before.connections.active matches Some(b) ==> after.connections.active is Some
            && after.connections.active->0.provider@ == b.provider@
            && after.connections.active->0.model is Some
            && after.connections.active->0.model->0@ == model@
            && after.connections.active->0.variant is None,
        before.connections.active is None ==> after.connections.active is None,
        actions.len() == 1 && actions[0] is Persist,
{
    let step = dispatch::commanded(
        before@,
        steer,
        facts,
        catalog,
        Command::SetActiveModel { model },
    );
    lemma_actions(step, after, next, actions);
    assert(actions[0]@ == step.actions[0]);
}

/// The effort that is chosen is used from then on, by the same model.
pub proof fn lemma_chosen_effort_is_used(
    before: LoopState,
    steer: SteerState,
    facts: Facts,
    catalog: Seq<CatalogProvider>,
    variant: Option<String>,
    after: LoopState,
    next: SteerState,
    actions: Seq<Action>,
)
    requires
        leads_to(
            dispatch::commanded(
                before@,
                steer,
                facts,
                catalog,
                Command::SelectVariant { variant },
            ),
            after,
            next,
            actions,
        ),
    ensures
        before.connections.active matches Some(b) ==> after.connections.active is Some
            && after.connections.active->0.provider@ == b.provider@ && views::opt_view(
            after.connections.active->0.model,
        ) == views::opt_view(b.model) && views::opt_view(after.connections.active->0.variant)
            == views::opt_view(variant) && actions.len() == 1 && actions[0] is Persist,
        before.connections.active is None ==> after@ == before@ && actions.len() == 0,
{
    let step = dispatch::commanded(
        before@,
        steer,
        facts,
        catalog,
        Command::SelectVariant { variant },
    );
    lemma_actions(step, after, next, actions);
    if actions.len() > 0 {
        assert(actions[0]@ == step.actions[0]);
    }
}

/// A provider that is removed is set up no more; where it was in use none is
/// afterwards, and else the one in use stays. Its client is dropped.
pub proof fn lemma_removed_provider_is_gone(
    before: LoopState,
    steer: SteerState,
    facts: Facts,
    catalog: Seq<CatalogProvider>,
    name: String,
    after: LoopState,
    next: SteerState,
    actions: Seq<Action>,
)
    requires
        leads_to(
            dispatch::commanded(before@, steer, facts, catalog, Command::RemoveProvider { name }),
            after,
            next,
            actions,
        ),
    ensures
        after@.providers == text_map::without(before@.providers, name@),
        before.connections.active matches Some(b) ==> if b.provider@ == name@ {
            after.connections.active is None
        } else {
            views::opt_view(after.connections.active) == Some(b@)
        },
        actions.len() == 2,
        actions[0] matches Action::DropClient { name: n } && n@ == name@,
        actions[1] is Persist,
{
    let step = dispatch::commanded(
        before@,
        steer,
        facts,
        catalog,
        Command::RemoveProvider { name },
    );
    lemma_actions(step, after, next, actions);
    assert(actions[0]@ == step.actions[0]);
    assert(actions[1]@ == step.actions[1]);
}

/// A provider that is set up has the settings that were given, and its old client
/// is dropped; the one in use stays.
pub proof fn lemma_added_provider_is_set_up(
    before: LoopState,
    steer: SteerState,
    facts: Facts,
    catalog: Seq<CatalogProvider>,
    id: String,
    config: crate::settings::ProviderConfig,
    after: LoopState,
    next: SteerState,
    actions: Seq<Action>,
)
    requires
        text_map::ordered(before@.providers),
        leads_to(
            dispatch::commanded(before@, steer, facts, catalog, Command::AddProvider { id, config }),
            after,
            next,
            actions,
        ),
    ensures
        text_map::lookup(after@.providers, id@) == Some(config@),
        forall|other: Seq<char>|
            other != id@ ==> #[trigger] text_map::lookup(after@.providers, other)
                == text_map::lookup(before@.providers, other),
        after@.active == before@.active,
        actions.len() == 2,
        actions[0] matches Action::DropClient { name: n } && n@ == id@,
        actions[1] is Persist,
{
    let step = dispatch::commanded(
        before@,
        steer,
        facts,
        catalog,
        Command::AddProvider { id, config },
    );
    lemma_actions(step, after, next, actions);
    assert(actions[0]@ == step.actions[0]);
    assert(actions[1]@ == step.actions[1]);
    assert forall|other: Seq<char>| #[trigger]
        text_map::lookup(after@.providers, other) == (if other == id@ {
            Some(config@)
        } else {
            text_map::lookup(before@.providers, other)
        }) by {
        text_map::lemma_lookup_with(before@.providers, id@, config@, other);
    }
}

/// A title is given without the white space around it, unless it is blank or the
/// one that the session has; one is drafted from the first prompt.
pub proof fn lemma_titles_are_given_and_drafted(
    before: LoopState,
    steer: SteerState,
    facts: Facts,
    title: String,
    given: Seq<Action>,
    drafted: Seq<Action>,
    catalog: Seq<CatalogProvider>,
)
    requires
        facts.session is Some,
        facts.session->0.id is Some,
        facts.session->0.title is Some,
        views::views(given) == dispatch::commanded(
            before@,
            steer,
            facts,
            catalog,
            Command::SetTitle { title },
        ).actions,
        views::views(drafted) == dispatch::commanded(
            before@,
            steer,
            facts,
            catalog,
            Command::GenTitle,
        ).actions,
    ensures
        ({
            let f = facts.session->0;
            let t = text::trimmed(title@);
            &&& t.len() == 0 || f.title->0@ == t ==> given.len() == 0
            &&& t.len() > 0 && f.title->0@ != t ==> given.len() == 1 && (
            given[0] matches Action::SetTitle { id, title: shown } && id == f.id->0 && shown@ == t)
            &&& drafted.len() == 1
            &&& f.first_prompt matches Some(p) ==> (drafted[0] matches Action::DraftTitle {
                id,
                expected,
                prompt,
            } && id == f.id->0 && expected@ == f.title->0@ && prompt@ == p@)
            &&& f.first_prompt is None ==> drafted[0] is SessionError
        }),
{
    assert(views::views(given).len() == given.len());
    assert(views::views(drafted).len() == drafted.len());
    assert(views::views(drafted)[0] == drafted[0]@);
    if given.len() > 0 {
        assert(views::views(given)[0] == given[0]@);
    }
}

/// A search looks for the words without the white space around them; a blank one
/// finds nothing.
pub proof fn lemma_search_is_for_the_words(
    before: LoopState,
    steer: SteerState,
    facts: Facts,
    catalog: Seq<CatalogProvider>,
    query: String,
    actions: Seq<Action>,
)
    requires
        views::views(actions) == dispatch::commanded(
            before@,
            steer,
            facts,
            catalog,
            Command::SearchHistory { query },
        ).actions,
    ensures
        actions.len() == 1,
        text::trimmed(query@).len() == 0 ==> actions[0] is NoHits,
        text::trimmed(query@).len() > 0 ==> (actions[0] matches Action::Search { query: q } && q@
            == text::trimmed(query@)),
{
    assert(views::views(actions).len() == actions.len());
    assert(views::views(actions)[0] == actions[0]@);
}

/// The last prompt is sent again as it was, in the session that is in hand, but not
/// while a reply streams.
pub proof fn lemma_last_prompt_is_sent_again(
    before: LoopState,
    steer: SteerState,
    facts: Facts,
    catalog: Seq<CatalogProvider>,
    after: LoopState,
    next: SteerState,
    actions: Seq<Action>,
)
    requires
        facts.session is Some,
        facts.session->0.id is Some,
        leads_to(
            dispatch::commanded(before@, steer, facts, catalog, Command::Replay),
            after,
            next,
            actions,
        ),
    ensures
        actions.len() == 1,
        facts.streaming ==> actions[0] is StreamError && after@ == before@,
        !facts.streaming ==> {
            &&& actions[0] matches Action::Replay { id, content }
            &&& id == facts.session->0.id->0
            &&& is_that(content, views::opt_view(facts.session->0.last_prompt))
            &&& after.pending_retry is None
            &&& next == SteerState::Idle
        },
{
    let step = dispatch::commanded(before@, steer, facts, catalog, Command::Replay);
    lemma_actions(step, after, next, actions);
    assert(actions[0]@ == step.actions[0]);
}

/// Commands on the session in hand name that session and what was asked of it; the
/// others name what they were given.
pub proof fn lemma_commands_name_what_they_are_about(
    before: LoopState,
    steer: SteerState,
    facts: Facts,
    catalog: Seq<CatalogProvider>,
    command: Command,
    actions: Seq<Action>,
)
    requires
        views::views(actions) == dispatch::commanded(before@, steer, facts, catalog, command).actions,
    ensures
        match command {
            Command::ListModels { provider_name } => actions.len() == 1 && (
            actions[0] matches Action::ListModels { provider } && provider@ == provider_name@),
            Command::AuthProviderLogin { name } => actions.len() == 1 && (
            actions[0] matches Action::Login { name: n } && n@ == name@),
            Command::SaveScroll { id, scroll } => actions.len() == 1 && actions[0] == (
            Action::SaveScroll { id, scroll }),
            Command::LoadSession { id } => actions.len() == 1 && if facts.streaming {
                actions[0] is StreamError
            } else {
                actions[0] == (Action::AcquireLock { id })
            },
            Command::DeleteSession { id } => actions.len() == 1 && if facts.streaming {
                actions[0] is StreamError
            } else {
                actions[0] == (Action::CheckLock { id })
            },
            Command::DeleteBranch { node } => if facts.streaming {
                actions.len() == 1 && actions[0] is StreamError
            } else {
                match facts.session_id() {
                    Some(id) => actions.len() == 1 && actions[0] == (Action::LoadBranch {
                        id,
                        node,
                    }),
                    None => actions.len() == 0,
                }
            },
            Command::OpenTree => match facts.session_id() {
                Some(id) => actions.len() == 1 && actions[0] == (Action::OpenTree { id }),
                None => actions.len() == 0,
            },
            Command::ExportSession { path } => match facts.session_id() {
                Some(id) => actions.len() == 1 && (actions[0] matches Action::Export {
                    id: i,
                    path: p,
                } && i == id && is_that(p, views::opt_view(path))),
                None => actions.len() == 0,
            },
            Command::SwitchScene { name } => actions.len() == 1 && (
            actions[0] matches Action::SwitchScene { name: n, busy } && is_that(
                n,
                views::opt_view(name),
            ) && busy == (facts.streaming || before.pending_retry is Some)),
            Command::LspStart { name } => actions.len() == 1 && (
            actions[0] matches Action::LspStart { name: n } && n@ == name@),
            Command::LspStop { name } => actions.len() == 1 && (
            actions[0] matches Action::LspStop { name: n } && n@ == name@),
            Command::LspRestart { name } => actions.len() == 1 && (
            actions[0] matches Action::LspRestart { name: n } && n@ == name@),
            Command::McpReconnect { name } => actions.len() == 1 && (
            actions[0] matches Action::McpReconnect { name: n } && n@ == name@),
            Command::Reload => actions.len() == 2 && actions[0] is ReloadSkills && actions[1]
                is ReloadCommands,
            Command::SaveConfig => actions.len() == 1 && actions[0] is Persist,
            _ => true,
        },
        facts.session is None ==> facts.session_id() is None,
        facts.session is Some ==> facts.session_id() == facts.session->0.id,
{
    assert(views::views(actions).len() == actions.len());
    if actions.len() > 0 {
        assert(views::views(actions)[0] == actions[0]@);
    }
    if actions.len() > 1 {
        assert(views::views(actions)[1] == actions[1]@);
    }
}

/// The waits between tries grow from three seconds to a minute.
pub proof fn lemma_waits_grow_to_a_minute(attempt: int)
    requires
        attempt >= 1,
    ensures
        attempt == 1 ==> retry::delay_of(attempt) == 3,
        attempt == 2 ==> retry::delay_of(attempt) == 5,
        attempt == 3 ==> retry::delay_of(attempt) == 10,
        attempt == 4 ==> retry::delay_of(attempt) == 20,
        attempt == 5 ==> retry::delay_of(attempt) == 30,
        attempt >= 6 ==> retry::delay_of(attempt) == 60,
{
}

}
