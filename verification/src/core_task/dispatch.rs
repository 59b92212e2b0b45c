//! Commands: which of the run loop's steps each one leads to.

use crate::catalog::CatalogProvider;
use crate::command::Command;
use crate::core_task::run;
use crate::core_task::run::{
    gen_title, none, one, reload, search_history, set_title, Action, ActionView, Facts,
    LockAnswer, LoopState, LoopView, Step,
};
use crate::core_task::steer::{SteerSignal, SteerState};
use crate::question;
use crate::settings::ActiveView;
use crate::stored::SessionId;
use crate::text;
use crate::text_map;
use crate::views;
use vstd::prelude::*;

verus! {

/// The step that changes the provider in use.
pub open spec fn provider_chosen(s: LoopView, steer: SteerState, name: Seq<char>) -> Step {
    if text_map::lookup(s.providers, name) is Some {
        Step {
            state: LoopView {
                active: Some(
                    match s.active {
                        Some(a) => ActiveView { provider: name, ..a },
                        None => ActiveView { provider: name, model: None, variant: None },
                    },
                ),
                ..s
            },
            steer,
            actions: seq![ActionView::EnsureClient { name }, ActionView::Persist],
        }
    } else {
        run::stay(s, steer)
    }
}

/// The step that removes a provider.
pub open spec fn provider_removed(s: LoopView, steer: SteerState, name: Seq<char>) -> Step {
    Step {
        state: LoopView {
            providers: text_map::without(s.providers, name),
            active: match s.active {
                Some(a) => if a.provider == name {
                    None
                } else {
                    Some(a)
                },
                None => None,
            },
            ..s
        },
        steer,
        actions: seq![ActionView::DropClient { name }, ActionView::Persist],
    }
}

/// The step that changes the effort of the model in use.
pub open spec fn variant_selected(
    s: LoopView,
    steer: SteerState,
    variant: Option<Seq<char>>,
) -> Step {
    match s.active {
        Some(a) => run::only(
            LoopView { active: Some(ActiveView { variant, ..a }), ..s },
            steer,
            ActionView::Persist,
        ),
        None => run::stay(s, steer),
    }
}

/// The step that changes the title of the session.
pub open spec fn title_given(
    s: LoopView,
    steer: SteerState,
    facts: Facts,
    title: Seq<char>,
) -> Step {
    let t = text::trimmed(title);
    match facts.session {
        Some(f) => match f.id {
            Some(id) => if t.len() > 0 && views::opt_view(f.title) != Some(t) {
                run::only(s, steer, ActionView::SetTitle { id, title: t })
            } else {
                run::stay(s, steer)
            },
            None => run::stay(s, steer),
        },
        None => run::stay(s, steer),
    }
}

/// The step that has a title drafted.
pub open spec fn title_wanted(s: LoopView, steer: SteerState, facts: Facts) -> Step {
    run::only(
        s,
        steer,
        match facts.session {
            None => ActionView::SessionError { error: "no active session"@ },
            Some(f) => match (f.id, f.title, f.first_prompt) {
                (Some(id), Some(t), Some(p)) => ActionView::DraftTitle {
                    id,
                    expected: t@,
                    prompt: p@,
                },
                _ => ActionView::SessionError { error: "no user prompt yet"@ },
            },
        },
    )
}

/// The step that does something with the stored session, if there is one.
pub open spec fn with_session(
    s: LoopView,
    steer: SteerState,
    action: Option<ActionView>,
) -> Step {
    match action {
        Some(a) => run::only(s, steer, a),
        None => run::stay(s, steer),
    }
}

/// The step that sends the last prompt again.
pub open spec fn replayed(s: LoopView, steer: SteerState, facts: Facts) -> Step {
    if facts.streaming {
        run::only(s, steer, run::busy_error())
    } else {
        with_session(
            run::without_retry(s),
            SteerState::Idle,
            match facts.session {
                Some(f) => match f.id {
                    Some(id) => Some(
                        ActionView::Replay { id, content: views::opt_view(f.last_prompt) },
                    ),
                    None => None,
                },
                None => None,
            },
        )
    }
}

/// The step that looks at a branch to delete.
pub open spec fn branch_chosen(s: LoopView, steer: SteerState, facts: Facts, node: u64) -> Step {
    if facts.streaming {
        run::only(s, steer, run::busy_error())
    } else {
        with_session(
            run::without_retry(s),
            steer,
            match facts.session_id() {
                Some(id) => Some(ActionView::LoadBranch { id, node }),
                None => None,
            },
        )
    }
}

/// The step that each command leads to.
pub open spec fn commanded(
    s: LoopView,
    steer: SteerState,
    facts: Facts,
    catalog: Seq<CatalogProvider>,
    command: Command,
) -> Step {
    match command {
        Command::Ping => run::only(s, steer, ActionView::Pong),
        Command::FetchRegistry => run::only(s, steer, ActionView::FetchRegistry),
        Command::ListModels { provider_name } => run::only(
            s,
            steer,
            ActionView::ListModels { provider: provider_name@ },
        ),
        Command::AddProvider { id, config } => Step {
            state: LoopView { providers: text_map::with(s.providers, id@, config@), ..s },
            steer,
            actions: seq![ActionView::DropClient { name: id@ }, ActionView::Persist],
        },
        Command::AuthProviderLogin { name } => run::only(
            s,
            steer,
            ActionView::Login { name: name@ },
        ),
        Command::RemoveProvider { name } => provider_removed(s, steer, name@),
        Command::SetActiveProvider { name } => provider_chosen(s, steer, name@),
        Command::SetActiveModel { model } => run::only(
            LoopView {
                active: match s.active {
                    Some(a) => Some(ActiveView { model: Some(model@), variant: None, ..a }),
                    None => None,
                },
                ..s
            },
            steer,
            ActionView::Persist,
        ),
        Command::CycleVariant => match run::next_in_use(s, catalog) {
            Some(v) => variant_selected(s, steer, v),
            None => run::stay(s, steer),
        },
        Command::SelectVariant { variant } => variant_selected(
            s,
            steer,
            views::opt_view(variant),
        ),
        Command::SaveConfig => run::only(s, steer, ActionView::Persist),
        Command::NewSession => run::session_begun(s, steer, facts.streaming),
        Command::SendMessage { content, model } => run::message_sent(
            s,
            steer,
            facts.streaming,
            content@,
            views::opt_view(model),
        ),
        Command::RunBash { command } => Step {
            state: LoopView { next_bash_id: (s.next_bash_id + 1) as u64, ..s },
            steer,
            actions: seq![
                ActionView::BashStarted { id: s.next_bash_id, command: command@ },
                ActionView::RunBash { id: s.next_bash_id, command: command@ },
            ],
        },
        Command::CancelStream => run::stream_cancelled(s, steer, facts.streaming),
        Command::ListSessions => run::only(s, steer, ActionView::ListSessions),
        Command::LoadSession { id } => if facts.streaming {
            run::only(s, steer, run::busy_error())
        } else {
            run::only(run::without_retry(s), steer, ActionView::AcquireLock { id })
        },
        Command::SaveScroll { id, scroll } => run::only(
            s,
            steer,
            ActionView::SaveScroll { id, scroll },
        ),
        Command::SetTitle { title } => title_given(s, steer, facts, title@),
        Command::GenTitle => title_wanted(s, steer, facts),
        Command::DeleteSession { id } => run::only(
            s,
            steer,
            if facts.streaming {
                run::busy_error()
            } else {
                ActionView::CheckLock { id }
            },
        ),
        Command::SearchHistory { query } => run::only(
            s,
            steer,
            if text::trimmed(query@).len() == 0 {
                ActionView::NoHits
            } else {
                ActionView::Search { query: text::trimmed(query@) }
            },
        ),
        Command::AnswerQuestion { id, answers } => Step {
            state: LoopView { pending_questions: s.pending_questions.remove(id), ..s },
            steer,
            actions: if s.pending_questions.contains(id) {
                seq![
                    ActionView::RespondQuestion { id, answers: question::answers_view(answers) },
                ]
            } else {
                Seq::empty()
            },
        },
        Command::PermissionDecide { id, allow } => Step {
            state: LoopView { pending_permissions: s.pending_permissions.remove(id), ..s },
            steer,
            actions: if s.pending_permissions.contains(id) {
                seq![ActionView::RespondPermission { id, allow }]
            } else {
                Seq::empty()
            },
        },
        Command::ForkSession { node, summarize } => run::fork_begun(
            s,
            steer,
            facts.streaming,
            facts.session_id(),
            node,
            summarize,
        ),
        Command::DeleteBranch { node } => branch_chosen(s, steer, facts, node),
        Command::OpenTree => with_session(
            s,
            steer,
            match facts.session_id() {
                Some(id) => Some(ActionView::OpenTree { id }),
                None => None,
            },
        ),
        Command::ExportSession { path } => with_session(
            s,
            steer,
            match facts.session_id() {
                Some(id) => Some(ActionView::Export { id, path: views::opt_view(path) }),
                None => None,
            },
        ),
        Command::Replay => replayed(s, steer, facts),
        Command::Reload => Step {
            state: s,
            steer,
            actions: seq![ActionView::ReloadSkills, ActionView::ReloadCommands],
        },
        Command::RecallSteered { stacked } => run::steered_recalled(s, steer, stacked),
        Command::SwitchScene { name } => run::only(
            s,
            steer,
            ActionView::SwitchScene {
                name: views::opt_view(name),
                busy: run::is_busy(s, facts.streaming),
            },
        ),
        Command::LspStart { name } => run::only(s, steer, ActionView::LspStart { name: name@ }),
        Command::LspStop { name } => run::only(s, steer, ActionView::LspStop { name: name@ }),
        Command::LspRestart { name } => run::only(
            s,
            steer,
            ActionView::LspRestart { name: name@ },
        ),
        Command::LspList { .. } => run::only(s, steer, ActionView::LspStatus),
        Command::McpList => run::only(s, steer, ActionView::McpStatus),
        Command::McpReconnect { name } => run::only(
            s,
            steer,
            ActionView::McpReconnect { name: name@ },
        ),
    }
}

impl LoopState {
    /// Carries a command out, as far as that is the loop's: the state changes,
    /// and what is left to do comes out.
    pub fn on_command(
        &mut self,
        steer: &mut SteerSignal,
        facts: &Facts,
        catalog: &Vec<CatalogProvider>,
        command: Command,
    ) -> (r: Vec<Action>)
        requires
            command is RunBash ==> old(self)@.next_bash_id < u64::MAX,
        ensures
            (Step {
                state: final(self)@,
                steer: final(steer).state,
                actions: views::views(r@),
            }) == commanded(old(self)@, old(steer).state, *facts, catalog@, command),
    {
        let ghost whole = command;
        let out = match command {
            Command::Ping => one(Action::Pong),
            Command::FetchRegistry => one(Action::FetchRegistry),
            Command::ListModels { provider_name } => one(
                Action::ListModels { provider: provider_name },
            ),
            Command::AddProvider { id, config } => self.add_provider(id.as_str(), config),
            Command::AuthProviderLogin { name } => one(Action::Login { name }),
            Command::RemoveProvider { name } => self.remove_provider(name.as_str()),
            Command::SetActiveProvider { name } => self.set_active_provider(name.as_str()),
            Command::SetActiveModel { model } => self.set_active_model(model.as_str()),
            Command::CycleVariant => self.cycle_variant(catalog),
            Command::SelectVariant { variant } => self.select_variant(variant),
            Command::SaveConfig => one(Action::Persist),
            Command::NewSession => self.new_session(steer, facts.streaming),
            Command::SendMessage { content, model } => self.send_message(
                steer,
                facts.streaming,
                content,
                model,
            ),
            Command::RunBash { command } => self.run_bash(command.as_str()),
            Command::CancelStream => self.cancel_stream(steer, facts.streaming),
            Command::ListSessions => one(Action::ListSessions),
            Command::LoadSession { id } => self.load_session(facts.streaming, id),
            Command::SaveScroll { id, scroll } => one(Action::SaveScroll { id, scroll }),
            Command::SetTitle { title } => set_title(facts, title.as_str()),
            Command::GenTitle => gen_title(facts),
            Command::DeleteSession { id } => self.delete_session(facts.streaming, id),
            Command::SearchHistory { query } => search_history(query.as_str()),
            Command::AnswerQuestion { id, answers } => self.answer_question(id, answers),
            Command::PermissionDecide { id, allow } => self.decide_permission(id, allow),
            Command::ForkSession { node, summarize } => self.fork(steer, facts, node, summarize),
            Command::DeleteBranch { node } => self.delete_branch(facts, node),
            Command::OpenTree => match facts.stored_id() {
                Some(id) => one(Action::OpenTree { id }),
                None => none(),
            },
            Command::ExportSession { path } => match facts.stored_id() {
                Some(id) => one(Action::Export { id, path }),
                None => none(),
            },
            Command::Replay => self.replay(steer, facts),
            Command::Reload => reload(),
            Command::RecallSteered { stacked } => self.recall_steered(steer, stacked),
            Command::SwitchScene { name } => one(
                Action::SwitchScene {
                    name,
                    busy: facts.streaming || self.pending_retry.is_some(),
                },
            ),
            Command::LspStart { name } => one(Action::LspStart { name }),
            Command::LspStop { name } => one(Action::LspStop { name }),
            Command::LspRestart { name } => one(Action::LspRestart { name }),
            Command::LspList { all: _, filter: _ } => one(Action::LspStatus),
            Command::McpList => one(Action::McpStatus),
            Command::McpReconnect { name } => one(Action::McpReconnect { name }),
        };
        proof {
            assert((Step {
                state: self@,
                steer: steer.state,
                actions: views::views(out@),
            }) =~= commanded(old(self)@, old(steer).state, *facts, catalog@, whole));
        }
        out
    }
}

/// Whether a state of the loop can come about: a cut is wanted only while a
/// prompt waits, and nothing was tried more often than is allowed.
pub open spec fn sound(s: LoopView, steer: SteerState, max_retries: usize) -> bool {
    &&& steer == SteerState::Armed ==> s.steered.len() > 0
    &&& s.overflow_retries <= run::MAX_OVERFLOW_RETRIES
    &&& s.conn_retries <= max_retries
}

/// Every command keeps the state sound: no cut is wanted without a prompt that
/// waits for it.
pub proof fn lemma_commands_keep_sound(
    s: LoopView,
    steer: SteerState,
    facts: Facts,
    catalog: Seq<CatalogProvider>,
    command: Command,
    max_retries: usize,
)
    requires
        sound(s, steer, max_retries),
    ensures
        ({
            let next = commanded(s, steer, facts, catalog, command);
            sound(next.state, next.steer, max_retries)
        }),
{
}

/// The end of a turn keeps the state sound: what is tried again is bounded.
pub proof fn lemma_outcomes_keep_sound(
    s: LoopView,
    steer: SteerState,
    outcome: crate::core_task::stream::StreamOutcome,
    max_retries: usize,
)
    requires
        sound(s, steer, max_retries),
    ensures
        ({
            let next = run::stream_ended(s, steer, outcome, max_retries);
            sound(next.state, next.steer, max_retries)
        }),
{
}

/// No command starts a turn while a reply streams, but for stopping that reply.
pub proof fn lemma_no_turn_starts_beside_another(
    s: LoopView,
    steer: SteerState,
    facts: Facts,
    catalog: Seq<CatalogProvider>,
    command: Command,
)
    requires
        facts.streaming,
    ensures
        ({
            let next = commanded(s, steer, facts, catalog, command);
            forall|i: int|
                0 <= i < next.actions.len() && (#[trigger] next.actions[i]) is StartTurn ==> {
                    &&& command is CancelStream
                    &&& next.actions[0] is CutStream || s.pending_retry is Some
                }
        }),
{
}

/// A prompt that waits is neither lost nor overtaken: sending puts it last, and
/// the end of the turn starts the one that was sent first.
pub proof fn lemma_prompts_start_in_order(
    s: LoopView,
    steer: SteerState,
    streaming: bool,
    content: Seq<char>,
    model: Option<Seq<char>>,
    outcome: crate::core_task::stream::StreamOutcome,
    max_retries: usize,
)
    requires
        run::is_busy(s, streaming),
        outcome is Finished || outcome is Preempted,
    ensures
        ({
            let sent = run::message_sent(s, steer, streaming, content, model);
            let ended = run::stream_ended(sent.state, sent.steer, outcome, max_retries);
            let queue = s.steered.push((content, model));
            &&& sent.state.steered == queue
            &&& ended.state.steered == queue.skip(1)
            &&& ended.actions == seq![
                ActionView::StartTurn { content: queue[0].0, steered: true, model: queue[0].1 },
            ]
        }),
{
}

/// A cut that is being carried out is not cut again: stopping the turn then
/// changes nothing, unless a try of a failed connection is due.
pub proof fn lemma_running_cut_is_left_alone(s: LoopView, streaming: bool)
    requires
        s.pending_retry is None,
    ensures
        run::stream_cancelled(s, SteerState::Finalizing, streaming) == run::stay(
            s,
            SteerState::Finalizing,
        ),
{
}

/// A session that another client holds is neither entered nor deleted: the lock
/// is looked at first, and where it is held nothing changes.
pub proof fn lemma_held_session_is_left_alone(
    s: LoopView,
    steer: SteerState,
    facts: Facts,
    catalog: Seq<CatalogProvider>,
    id: SessionId,
)
    ensures
        ({
            let load = commanded(s, steer, facts, catalog, Command::LoadSession { id });
            let delete = commanded(s, steer, facts, catalog, Command::DeleteSession { id });
            &&& !facts.streaming ==> load.actions == seq![ActionView::AcquireLock { id }]
            &&& !facts.streaming ==> delete.actions == seq![ActionView::CheckLock { id }]
            &&& facts.streaming ==> load.state == s && load.actions == delete.actions
                && load.actions[0] is StreamError && load.actions.len() == 1
            &&& run::session_entered(s, steer, id, LockAnswer::Held) == run::only(
                s,
                steer,
                ActionView::SessionLocked { id },
            )
            &&& run::deletion_begun(s, steer, id, true) == run::only(
                s,
                steer,
                ActionView::SessionLocked { id },
            )
        }),
{
}

}
