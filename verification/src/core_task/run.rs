//! The run loop: what each command and each outcome changes, and what is done
//! about it.

use crate::catalog;
use crate::catalog::{next_variant, CatalogProvider, NextVariant};
use crate::core_task::retry;
use crate::core_task::retry::next_connection_retry;
use crate::core_task::steer::{SteerSignal, SteerState};
use crate::core_task::stream::StreamOutcome;
use crate::core_task::tree;
use crate::core_task::tree::subtree_contains;
use crate::question;
use crate::question::AnswerResponse;
use crate::settings::{Active, ActiveView, Connections, ProviderConfig, ProviderConfigView};
use crate::stored::{SessionId, StoredScroll, StoredSession};
use crate::text;
use crate::text::{same, trim};
use crate::text_map;
use crate::views;
use std::collections::HashSet;
use vstd::prelude::*;

verus! {

/// How often a turn is taken up again after its history was summarized.
pub const MAX_OVERFLOW_RETRIES: usize = 3;

/// A prompt that waits for the running turn to give way, and the model it asks for.
#[derive(Debug)]
pub struct QueuedPrompt {
    pub content: String,
    pub model: Option<String>,
}

impl View for QueuedPrompt {
    type V = (Seq<char>, Option<Seq<char>>);

    open spec fn view(&self) -> (Seq<char>, Option<Seq<char>>) {
        (self.content@, views::opt_view(self.model))
    }
}

/// The state of the run loop. A failed connection that is to be tried again
/// leaves its message in `pending_retry` until then.
#[derive(Debug)]
pub struct LoopState {
    pub overflow_retries: usize,
    pub conn_retries: usize,
    pub pending_retry: Option<String>,
    pub steered: Vec<QueuedPrompt>,
    pub pending_questions: HashSet<u64>,
    pub next_question_id: u64,
    pub pending_permissions: HashSet<u64>,
    pub next_permission_id: u64,
    pub next_bash_id: u64,
    pub context_announced: bool,
    pub locked_session: Option<SessionId>,
    pub connections: Connections,
}

/// The content of a [`LoopState`].
#[verifier::ext_equal]
pub struct LoopView {
    pub overflow_retries: usize,
    pub conn_retries: usize,
    pub pending_retry: Option<Seq<char>>,
    pub steered: Seq<(Seq<char>, Option<Seq<char>>)>,
    pub pending_questions: Set<u64>,
    pub next_question_id: u64,
    pub pending_permissions: Set<u64>,
    pub next_permission_id: u64,
    pub next_bash_id: u64,
    pub context_announced: bool,
    pub locked_session: Option<SessionId>,
    pub providers: Seq<(Seq<char>, ProviderConfigView)>,
    pub active: Option<ActiveView>,
}

impl View for LoopState {
    type V = LoopView;

    open spec fn view(&self) -> LoopView {
        LoopView {
            overflow_retries: self.overflow_retries,
            conn_retries: self.conn_retries,
            pending_retry: views::opt_view(self.pending_retry),
            steered: views::views(self.steered@),
            pending_questions: self.pending_questions@,
            next_question_id: self.next_question_id,
            pending_permissions: self.pending_permissions@,
            next_permission_id: self.next_permission_id,
            next_bash_id: self.next_bash_id,
            context_announced: self.context_announced,
            locked_session: self.locked_session,
            providers: text_map::viewed(self.connections.providers@),
            active: views::opt_view(self.connections.active),
        }
    }
}

/// What is known of the session in hand: its id once it is stored, its title,
/// its first prompt, and the prompt that its path last asked.
#[derive(Debug)]
pub struct SessionFacts {
    pub id: Option<SessionId>,
    pub title: Option<String>,
    pub first_prompt: Option<String>,
    pub last_prompt: Option<String>,
}

/// What is known besides the state: whether a turn streams, and the session.
#[derive(Debug)]
pub struct Facts {
    pub streaming: bool,
    pub session: Option<SessionFacts>,
}

impl Facts {
    /// The id of the session, once it is stored.
    pub open spec fn session_id(&self) -> Option<SessionId> {
        match self.session {
            Some(s) => s.id,
            None => None,
        }
    }

    /// The id of the session, once it is stored.
    pub fn stored_id(&self) -> (r: Option<SessionId>)
        ensures
            r == self.session_id(),
    {
        match &self.session {
            Some(s) => s.id,
            None => None,
        }
    }
}

/// The content of a pair of texts.
pub open spec fn pair_view(o: Option<(String, String)>) -> Option<(Seq<char>, Seq<char>)> {
    match o {
        Some((a, b)) => Some((a@, b@)),
        None => None,
    }
}

/// What the run loop does next. Each is carried out before the one after it.
#[derive(Debug)]
#[allow(inconsistent_fields)]
pub enum Action {
    Pong,
    FetchRegistry,
    ListModels { provider: String },
    Login { name: String },
    DropClient { name: String },
    EnsureClient { name: String },
    Persist,
    StreamError { error: String },
    SessionError { error: String },
    ReleaseLock { id: SessionId },
    FreshSession,
    SessionStarted,
    SteeredCleared,
    PromptSteered { content: String },
    StartTurn { content: String, steered: bool, model: Option<String> },
    BashStarted { id: u64, command: String },
    RunBash { id: u64, command: String },
    CutStream,
    ListSessions,
    AcquireLock { id: SessionId },
    SessionLocked { id: SessionId },
    LoadSession { id: SessionId },
    SessionLoaded { id: SessionId },
    SaveScroll { id: SessionId, scroll: StoredScroll },
    SetTitle { id: SessionId, title: String },
    TitleChanged { id: SessionId, title: String },
    DraftTitle { id: SessionId, expected: String, prompt: String },
    CheckLock { id: SessionId },
    DeleteSession { id: SessionId },
    SessionDeleted { id: SessionId },
    NoHits,
    Search { query: String },
    RespondQuestion { id: u64, answers: AnswerResponse },
    RespondPermission { id: u64, allow: bool },
    Fork { id: SessionId, node: Option<u64>, summarizer: Option<(String, String)> },
    ReloadForked { id: SessionId, prompt: Option<String> },
    LoadBranch { id: SessionId, node: u64 },
    DeleteBranch { id: SessionId, node: u64 },
    OpenTree { id: SessionId },
    Export { id: SessionId, path: Option<String> },
    Replay { id: SessionId, content: Option<String> },
    SendAgain { content: String },
    ReloadSkills,
    ReloadCommands,
    SteeredRecalled { stacked: bool, content: Option<String> },
    ResumeTurn,
    RetryScheduled { reason: String, message: String, attempt: usize, max_attempts: usize, delay_ms: u64 },
    TouchLock { id: SessionId },
    SwitchScene { name: Option<String>, busy: bool },
    LspStart { name: String },
    LspStop { name: String },
    LspRestart { name: String },
    LspStatus,
    LspError { error: String },
    McpReconnect { name: String },
    McpStatus,
    McpError { error: String },
}

/// The content of an [`Action`].
#[verifier::ext_equal]
#[allow(inconsistent_fields)]
pub enum ActionView {
    Pong,
    FetchRegistry,
    ListModels { provider: Seq<char> },
    Login { name: Seq<char> },
    DropClient { name: Seq<char> },
    EnsureClient { name: Seq<char> },
    Persist,
    StreamError { error: Seq<char> },
    SessionError { error: Seq<char> },
    ReleaseLock { id: SessionId },
    FreshSession,
    SessionStarted,
    SteeredCleared,
    PromptSteered { content: Seq<char> },
    StartTurn { content: Seq<char>, steered: bool, model: Option<Seq<char>> },
    BashStarted { id: u64, command: Seq<char> },
    RunBash { id: u64, command: Seq<char> },
    CutStream,
    ListSessions,
    AcquireLock { id: SessionId },
    SessionLocked { id: SessionId },
    LoadSession { id: SessionId },
    SessionLoaded { id: SessionId },
    SaveScroll { id: SessionId, scroll: StoredScroll },
    SetTitle { id: SessionId, title: Seq<char> },
    TitleChanged { id: SessionId, title: Seq<char> },
    DraftTitle { id: SessionId, expected: Seq<char>, prompt: Seq<char> },
    CheckLock { id: SessionId },
    DeleteSession { id: SessionId },
    SessionDeleted { id: SessionId },
    NoHits,
    Search { query: Seq<char> },
    RespondQuestion { id: u64, answers: Option<Seq<Seq<Seq<char>>>> },
    RespondPermission { id: u64, allow: bool },
    Fork { id: SessionId, node: Option<u64>, summarizer: Option<(Seq<char>, Seq<char>)> },
    ReloadForked { id: SessionId, prompt: Option<Seq<char>> },
    LoadBranch { id: SessionId, node: u64 },
    DeleteBranch { id: SessionId, node: u64 },
    OpenTree { id: SessionId },
    Export { id: SessionId, path: Option<Seq<char>> },
    Replay { id: SessionId, content: Option<Seq<char>> },
    SendAgain { content: Seq<char> },
    ReloadSkills,
    ReloadCommands,
    SteeredRecalled { stacked: bool, content: Option<Seq<char>> },
    ResumeTurn,
    RetryScheduled { reason: Seq<char>, message: Seq<char>, attempt: usize, max_attempts: usize, delay_ms: u64 },
    TouchLock { id: SessionId },
    SwitchScene { name: Option<Seq<char>>, busy: bool },
    LspStart { name: Seq<char> },
    LspStop { name: Seq<char> },
    LspRestart { name: Seq<char> },
    LspStatus,
    LspError { error: Seq<char> },
    McpReconnect { name: Seq<char> },
    McpStatus,
    McpError { error: Seq<char> },
}

impl View for Action {
    type V = ActionView;

    open spec fn view(&self) -> ActionView {
        match self {
            Action::Pong => ActionView::Pong,
            Action::FetchRegistry => ActionView::FetchRegistry,
            Action::ListModels { provider } => ActionView::ListModels {
                provider: provider@,
            },
            Action::Login { name } => ActionView::Login {
                name: name@,
            },
            Action::DropClient { name } => ActionView::DropClient {
                name: name@,
            },
            Action::EnsureClient { name } => ActionView::EnsureClient {
                name: name@,
            },
            Action::Persist => ActionView::Persist,
            Action::StreamError { error } => ActionView::StreamError {
                error: error@,
            },
            Action::SessionError { error } => ActionView::SessionError {
                error: error@,
            },
            Action::ReleaseLock { id } => ActionView::ReleaseLock {
                id: *id,
            },
            Action::FreshSession => ActionView::FreshSession,
            Action::SessionStarted => ActionView::SessionStarted,
            Action::SteeredCleared => ActionView::SteeredCleared,
            Action::PromptSteered { content } => ActionView::PromptSteered {
                content: content@,
            },
            Action::StartTurn { content, steered, model } => ActionView::StartTurn {
                content: content@,
                steered: *steered,
                model: views::opt_view(*model),
            },
            Action::BashStarted { id, command } => ActionView::BashStarted {
                id: *id,
                command: command@,
            },
            Action::RunBash { id, command } => ActionView::RunBash {
                id: *id,
                command: command@,
            },
            Action::CutStream => ActionView::CutStream,
            Action::ListSessions => ActionView::ListSessions,
            Action::AcquireLock { id } => ActionView::AcquireLock {
                id: *id,
            },
            Action::SessionLocked { id } => ActionView::SessionLocked {
                id: *id,
            },
            Action::LoadSession { id } => ActionView::LoadSession {
                id: *id,
            },
            Action::SessionLoaded { id } => ActionView::SessionLoaded {
                id: *id,
            },
            Action::SaveScroll { id, scroll } => ActionView::SaveScroll {
                id: *id,
                scroll: *scroll,
            },
            Action::SetTitle { id, title } => ActionView::SetTitle {
                id: *id,
                title: title@,
            },
            Action::TitleChanged { id, title } => ActionView::TitleChanged {
                id: *id,
                title: title@,
            },
            Action::DraftTitle { id, expected, prompt } => ActionView::DraftTitle {
                id: *id,
                expected: expected@,
                prompt: prompt@,
            },
            Action::CheckLock { id } => ActionView::CheckLock {
                id: *id,
            },
            Action::DeleteSession { id } => ActionView::DeleteSession {
                id: *id,
            },
            Action::SessionDeleted { id } => ActionView::SessionDeleted {
                id: *id,
            },
            Action::NoHits => ActionView::NoHits,
            Action::Search { query } => ActionView::Search {
                query: query@,
            },
            Action::RespondQuestion { id, answers } => ActionView::RespondQuestion {
                id: *id,
                answers: question::answers_view(*answers),
            },
            Action::RespondPermission { id, allow } => ActionView::RespondPermission {
                id: *id,
                allow: *allow,
            },
            Action::Fork { id, node, summarizer } => ActionView::Fork {
                id: *id,
                node: *node,
                summarizer: pair_view(*summarizer),
            },
            Action::ReloadForked { id, prompt } => ActionView::ReloadForked {
                id: *id,
                prompt: views::opt_view(*prompt),
            },
            Action::LoadBranch { id, node } => ActionView::LoadBranch {
                id: *id,
                node: *node,
            },
            Action::DeleteBranch { id, node } => ActionView::DeleteBranch {
                id: *id,
                node: *node,
            },
            Action::OpenTree { id } => ActionView::OpenTree {
                id: *id,
            },
            Action::Export { id, path } => ActionView::Export {
                id: *id,
                path: views::opt_view(*path),
            },
            Action::Replay { id, content } => ActionView::Replay {
                id: *id,
                content: views::opt_view(*content),
            },
            Action::SendAgain { content } => ActionView::SendAgain { content: content@ },
            Action::ReloadSkills => ActionView::ReloadSkills,
            Action::ReloadCommands => ActionView::ReloadCommands,
            Action::SteeredRecalled { stacked, content } => ActionView::SteeredRecalled {
                stacked: *stacked,
                content: views::opt_view(*content),
            },
            Action::ResumeTurn => ActionView::ResumeTurn,
            Action::RetryScheduled { reason, message, attempt, max_attempts, delay_ms } => ActionView::RetryScheduled {
                reason: reason@,
                message: message@,
                attempt: *attempt,
                max_attempts: *max_attempts,
                delay_ms: *delay_ms,
            },
            Action::TouchLock { id } => ActionView::TouchLock {
                id: *id,
            },
            Action::SwitchScene { name, busy } => ActionView::SwitchScene {
                name: views::opt_view(*name),
                busy: *busy,
            },
            Action::LspStart { name } => ActionView::LspStart { name: name@ },
            Action::LspStop { name } => ActionView::LspStop { name: name@ },
            Action::LspRestart { name } => ActionView::LspRestart { name: name@ },
            Action::LspStatus => ActionView::LspStatus,
            Action::LspError { error } => ActionView::LspError { error: error@ },
            Action::McpReconnect { name } => ActionView::McpReconnect { name: name@ },
            Action::McpStatus => ActionView::McpStatus,
            Action::McpError { error } => ActionView::McpError { error: error@ },
        }
    }
}

/// What a command or an outcome leads to.
#[verifier::ext_equal]
pub struct Step {
    pub state: LoopView,
    pub steer: SteerState,
    pub actions: Seq<ActionView>,
}

/// The step that changes nothing and does nothing.
pub open spec fn stay(s: LoopView, steer: SteerState) -> Step {
    Step { state: s, steer, actions: Seq::empty() }
}

/// The step that only does something.
pub open spec fn only(s: LoopView, steer: SteerState, action: ActionView) -> Step {
    Step { state: s, steer, actions: seq![action] }
}

/// The refusal while a reply streams.
pub open spec fn busy_error() -> ActionView {
    ActionView::StreamError { error: "a reply is already streaming"@ }
}

/// Whether a prompt has to wait: a turn streams, or one is to be tried again.
pub open spec fn is_busy(s: LoopView, streaming: bool) -> bool {
    streaming || s.pending_retry is Some
}

/// The state with no try of a failed connection left.
pub open spec fn without_retry(s: LoopView) -> LoopView {
    LoopView { pending_retry: None, conn_retries: 0, ..s }
}

/// The state with nothing asked of the user.
pub open spec fn without_asks(s: LoopView) -> LoopView {
    LoopView { pending_questions: Set::empty(), pending_permissions: Set::empty(), ..s }
}

/// The signal with no cut wanted.
pub open spec fn disarmed(steer: SteerState) -> SteerState {
    if steer == SteerState::Finalizing {
        SteerState::Finalizing
    } else {
        SteerState::Idle
    }
}

/// The signal with a cut wanted.
pub open spec fn armed(steer: SteerState) -> SteerState {
    if steer == SteerState::Finalizing {
        SteerState::Finalizing
    } else {
        SteerState::Armed
    }
}

/// What is done about the waiting prompts when they are dropped.
pub open spec fn dropping_steered(s: LoopView) -> Seq<ActionView> {
    if s.steered.len() > 0 {
        seq![ActionView::SteeredCleared]
    } else {
        Seq::empty()
    }
}

/// What is done about the lock that is held.
pub open spec fn releasing(s: LoopView) -> Seq<ActionView> {
    match s.locked_session {
        Some(id) => seq![ActionView::ReleaseLock { id }],
        None => Seq::empty(),
    }
}

/// The start of a turn with the first waiting prompt.
pub open spec fn start_first(s: LoopView) -> ActionView {
    ActionView::StartTurn { content: s.steered[0].0, steered: true, model: s.steered[0].1 }
}

pub(crate) fn one(action: Action) -> (r: Vec<Action>)
    ensures
        views::views(r@) == seq![action@],
{
    let mut out: Vec<Action> = Vec::new();
    out.push(action);
    proof {
        assert(views::views(out@) =~= seq![action@]);
    }
    out
}

pub(crate) fn none() -> (r: Vec<Action>)
    ensures
        views::views(r@) == Seq::<ActionView>::empty(),
{
    let out: Vec<Action> = Vec::new();
    proof {
        assert(views::views(out@) =~= Seq::<ActionView>::empty());
    }
    out
}

fn push(out: &mut Vec<Action>, action: Action)
    ensures
        views::views(final(out)@) == views::views(old(out)@).push(action@),
{
    let ghost before = out@;
    out.push(action);
    proof {
        assert(views::views(out@) =~= views::views(before).push(action@));
    }
}

fn session_error(error: &str) -> (r: Vec<Action>)
    ensures
        views::views(r@) == seq![ActionView::SessionError { error: error@ }],
{
    one(Action::SessionError { error: error.to_owned() })
}

fn session_error_with(start: &str, error: &str) -> (r: Vec<Action>)
    ensures
        views::views(r@) == seq![ActionView::SessionError { error: start@ + error@ }],
{
    let mut s: String = start.to_owned();
    s.append(error);
    one(Action::SessionError { error: s })
}

fn busy() -> (r: Vec<Action>)
    ensures
        views::views(r@) == seq![busy_error()],
{
    one(Action::StreamError { error: "a reply is already streaming".to_owned() })
}

impl LoopState {
    /// The state at the start.
    pub fn new(connections: Connections) -> (r: Self)
        ensures
            r@ == (LoopView {
                overflow_retries: 0,
                conn_retries: 0,
                pending_retry: None,
                steered: Seq::empty(),
                pending_questions: Set::empty(),
                next_question_id: 0,
                pending_permissions: Set::empty(),
                next_permission_id: 0,
                next_bash_id: 0,
                context_announced: false,
                locked_session: None,
                providers: text_map::viewed(connections.providers@),
                active: views::opt_view(connections.active),
            }),
    {
        broadcast use vstd::std_specs::hash::group_hash_axioms;

        let r = LoopState {
            overflow_retries: 0,
            conn_retries: 0,
            pending_retry: None,
            steered: Vec::new(),
            pending_questions: HashSet::new(),
            next_question_id: 0,
            pending_permissions: HashSet::new(),
            next_permission_id: 0,
            next_bash_id: 0,
            context_announced: false,
            locked_session: None,
            connections,
        };
        proof {
            assert(r@.steered =~= Seq::empty());
            assert(r@.pending_questions =~= Set::empty());
            assert(r@.pending_permissions =~= Set::empty());
        }
        r
    }

    fn forget_retry(&mut self)
        ensures
            final(self)@ == without_retry(old(self)@),
    {
        self.pending_retry = None;
        self.conn_retries = 0;
    }

    fn forget_asks(&mut self)
        ensures
            final(self)@ == without_asks(old(self)@),
    {
        broadcast use vstd::std_specs::hash::group_hash_axioms;

        self.pending_questions = HashSet::new();
        self.pending_permissions = HashSet::new();
        proof {
            assert(self@ =~= without_asks(old(self)@));
        }
    }

    fn drop_steered(&mut self, steer: &mut SteerSignal, out: &mut Vec<Action>)
        ensures
            final(self)@ == (LoopView { steered: Seq::empty(), ..old(self)@ }),
            final(steer).state == disarmed(old(steer).state),
            views::views(final(out)@) == views::views(old(out)@) + dropping_steered(old(self)@),
    {
        let ghost acts = views::views(out@);
        steer.disarm();
        if self.steered.len() > 0 {
            self.steered = Vec::new();
            push(out, Action::SteeredCleared);
            proof {
                assert(views::views(out@) =~= acts + seq![ActionView::SteeredCleared]);
            }
        } else {
            proof {
                assert(views::views(out@) =~= acts + Seq::<ActionView>::empty());
            }
        }
        proof {
            assert(views::views(self.steered@) =~= Seq::empty());
            assert(self@ =~= (LoopView { steered: Seq::empty(), ..old(self)@ }));
        }
    }

    fn release_lock(&mut self, out: &mut Vec<Action>)
        ensures
            final(self)@ == (LoopView { locked_session: None, ..old(self)@ }),
            views::views(final(out)@) == views::views(old(out)@) + releasing(old(self)@),
    {
        let ghost acts = views::views(out@);
        if let Some(id) = self.locked_session {
            self.locked_session = None;
            push(out, Action::ReleaseLock { id });
            proof {
                assert(views::views(out@) =~= acts + seq![ActionView::ReleaseLock { id }]);
            }
        } else {
            proof {
                assert(views::views(out@) =~= acts + Seq::<ActionView>::empty());
            }
        }
    }

    fn start_steered(&mut self, out: &mut Vec<Action>)
        requires
            old(self)@.steered.len() > 0,
        ensures
            final(self)@ == (LoopView { steered: old(self)@.steered.skip(1), ..old(self)@ }),
            views::views(final(out)@) == views::views(old(out)@).push(start_first(old(self)@)),
    {
        let ghost before = self.steered@;
        let prompt = self.steered.remove(0);
        proof {
            assert(views::views(before)[0] == before[0]@);
            assert(views::views(self.steered@) =~= views::views(before).skip(1));
            assert(self@ =~= (LoopView { steered: old(self)@.steered.skip(1), ..old(self)@ }));
        }
        push(
            out,
            Action::StartTurn { content: prompt.content, steered: true, model: prompt.model },
        );
    }

    /// Begins a new session.
    pub fn new_session(&mut self, steer: &mut SteerSignal, streaming: bool) -> (r: Vec<Action>)
        ensures
            (Step {
                state: final(self)@,
                steer: final(steer).state,
                actions: views::views(r@),
            }) == session_begun(old(self)@, old(steer).state, streaming),
    {
        if streaming {
            return busy();
        }
        let mut out = none();
        self.overflow_retries = 0;
        self.forget_retry();
        self.context_announced = false;
        self.release_lock(&mut out);
        self.drop_steered(steer, &mut out);
        self.forget_asks();
        push(&mut out, Action::FreshSession);
        push(&mut out, Action::SessionStarted);
        proof {
            assert((Step {
                state: self@,
                steer: steer.state,
                actions: views::views(out@),
            }) =~= session_begun(old(self)@, old(steer).state, streaming));
        }
        out
    }

    /// Takes a prompt: it starts a turn, or waits for the running one to give way.
    pub fn send_message(
        &mut self,
        steer: &mut SteerSignal,
        streaming: bool,
        content: String,
        model: Option<String>,
    ) -> (r: Vec<Action>)
        ensures
            (Step {
                state: final(self)@,
                steer: final(steer).state,
                actions: views::views(r@),
            }) == message_sent(
                old(self)@,
                old(steer).state,
                streaming,
                content@,
                views::opt_view(model),
            ),
    {
        if streaming || self.pending_retry.is_some() {
            let ghost before = self.steered@;
            let shown = content.clone();
            let prompt = QueuedPrompt { content, model };
            self.steered.push(prompt);
            steer.arm();
            proof {
                assert(views::views(self.steered@) =~= views::views(before).push(prompt@));
            }
            return one(Action::PromptSteered { content: shown });
        }
        self.overflow_retries = 0;
        self.forget_retry();
        steer.reset();
        one(Action::StartTurn { content, steered: false, model })
    }

    /// Stops the running turn, or the wait for the next try of a failed one. The
    /// first waiting prompt takes over.
    pub fn cancel_stream(&mut self, steer: &mut SteerSignal, streaming: bool) -> (r: Vec<Action>)
        ensures
            (Step {
                state: final(self)@,
                steer: final(steer).state,
                actions: views::views(r@),
            }) == stream_cancelled(old(self)@, old(steer).state, streaming),
    {
        let mut out = none();
        if streaming && !steer.is_finalizing() {
            self.forget_asks();
            push(&mut out, Action::CutStream);
        } else {
            match self.pending_retry.take() {
                Some(message) => {
                    self.conn_retries = 0;
                    push(&mut out, Action::StreamError { error: message });
                },
                None => {
                    proof {
                        assert((Step {
                            state: self@,
                            steer: steer.state,
                            actions: views::views(out@),
                        }) =~= stream_cancelled(old(self)@, old(steer).state, streaming));
                    }
                    return out;
                },
            }
        }
        steer.reset();
        if self.steered.len() > 0 {
            self.start_steered(&mut out);
        }
        proof {
            assert((Step {
                state: self@,
                steer: steer.state,
                actions: views::views(out@),
            }) =~= stream_cancelled(old(self)@, old(steer).state, streaming));
        }
        out
    }

    /// Gives the last waiting prompt back to the user.
    pub fn recall_steered(&mut self, steer: &mut SteerSignal, stacked: bool) -> (r: Vec<Action>)
        ensures
            (Step {
                state: final(self)@,
                steer: final(steer).state,
                actions: views::views(r@),
            }) == steered_recalled(old(self)@, old(steer).state, stacked),
    {
        let ghost before = self.steered@;
        let content = match self.steered.pop() {
            Some(prompt) => {
                proof {
                    assert(views::views(before).last() == before.last()@);
                    assert(views::views(self.steered@) =~= views::views(before).drop_last());
                }
                Some(prompt.content)
            },
            None => None,
        };
        if self.steered.len() == 0 {
            steer.disarm();
        }
        let out = one(Action::SteeredRecalled { stacked, content });
        proof {
            assert((Step {
                state: self@,
                steer: steer.state,
                actions: views::views(out@),
            }) =~= steered_recalled(old(self)@, old(steer).state, stacked));
        }
        out
    }

    /// What follows when a streamed turn has ended.
    pub fn stream_done(
        &mut self,
        steer: &mut SteerSignal,
        outcome: StreamOutcome,
        max_retries: usize,
    ) -> (r: Vec<Action>)
        ensures
            (Step {
                state: final(self)@,
                steer: final(steer).state,
                actions: views::views(r@),
            }) == stream_ended(old(self)@, old(steer).state, outcome, max_retries),
    {
        let mut out = none();
        match &outcome {
            StreamOutcome::Overflowed { compacted } => {
                if *compacted && self.overflow_retries < MAX_OVERFLOW_RETRIES {
                    self.overflow_retries = self.overflow_retries + 1;
                    push(&mut out, Action::ResumeTurn);
                } else {
                    self.overflow_retries = 0;
                    steer.reset();
                    push(
                        &mut out,
                        Action::StreamError {
                            error:
                                "context budget exceeded and compaction could not keep up; start a new message to continue".to_owned(),
                        },
                    );
                }
            },
            StreamOutcome::RetryableFailure { reason, message } => {
                match next_connection_retry(self.conn_retries, max_retries) {
                    Some((attempt, delay_secs)) => {
                        self.conn_retries = attempt;
                        self.pending_retry = Some(message.clone());
                        proof {
                            retry::lemma_delays_escalate(attempt as int, attempt as int);
                        }
                        push(
                            &mut out,
                            Action::RetryScheduled {
                                reason: reason.clone(),
                                message: message.clone(),
                                attempt,
                                max_attempts: max_retries,
                                delay_ms: delay_secs * 1000,
                            },
                        );
                    },
                    None => {
                        self.conn_retries = 0;
                        steer.reset();
                        push(&mut out, Action::StreamError { error: message.clone() });
                    },
                }
            },
            _ => {
                self.overflow_retries = 0;
                self.conn_retries = 0;
                self.forget_asks();
                steer.reset();
                if self.steered.len() > 0 {
                    self.start_steered(&mut out);
                    proof {
                        assert(self@.steered.len() == self.steered@.len());
                    }
                    if self.steered.len() > 0 {
                        steer.arm();
                    }
                }
            },
        }
        proof {
            assert((Step {
                state: self@,
                steer: steer.state,
                actions: views::views(out@),
            }) =~= stream_ended(old(self)@, old(steer).state, outcome, max_retries));
        }
        out
    }

    /// Takes the failed turn up again, once the wait is over.
    pub fn retry_due(&mut self) -> (r: Vec<Action>)
        ensures
            final(self)@ == (LoopView { pending_retry: None, ..old(self)@ }),
            views::views(r@) == seq![ActionView::ResumeTurn],
    {
        self.pending_retry = None;
        one(Action::ResumeTurn)
    }

    /// Asks for the lock of a session that is to be loaded.
    pub fn load_session(&mut self, streaming: bool, id: SessionId) -> (r: Vec<Action>)
        ensures
            final(self)@ == (if streaming {
                old(self)@
            } else {
                without_retry(old(self)@)
            }),
            views::views(r@) == seq![
                if streaming {
                    busy_error()
                } else {
                    ActionView::AcquireLock { id }
                },
            ],
    {
        if streaming {
            return busy();
        }
        self.forget_retry();
        one(Action::AcquireLock { id })
    }

    /// Loads the session, unless another client holds its lock. The lock of the
    /// session before is given up.
    pub fn lock_answered(
        &mut self,
        steer: &mut SteerSignal,
        id: SessionId,
        answer: LockAnswer,
    ) -> (r: Vec<Action>)
        ensures
            (Step {
                state: final(self)@,
                steer: final(steer).state,
                actions: views::views(r@),
            }) == session_entered(old(self)@, old(steer).state, id, answer),
    {
        let mut out = none();
        match answer {
            LockAnswer::Held => {
                push(&mut out, Action::SessionLocked { id });
                proof {
                    assert((Step {
                        state: self@,
                        steer: steer.state,
                        actions: views::views(out@),
                    }) =~= session_entered(old(self)@, old(steer).state, id, answer));
                }
                return out;
            },
            LockAnswer::Granted => {
                let other = match self.locked_session {
                    Some(held) => held != id,
                    None => true,
                };
                if other {
                    self.release_lock(&mut out);
                    self.locked_session = Some(id);
                }
            },
            LockAnswer::Failed => {},
        }
        self.drop_steered(steer, &mut out);
        self.forget_asks();
        push(&mut out, Action::LoadSession { id });
        proof {
            assert((Step {
                state: self@,
                steer: steer.state,
                actions: views::views(out@),
            }) =~= session_entered(old(self)@, old(steer).state, id, answer));
        }
        out
    }

    /// What follows when a session was loaded, or could not be.
    pub fn session_loaded(&mut self, id: SessionId, failure: Option<String>) -> (r: Vec<Action>)
        ensures
            final(self)@ == (LoopView {
                context_announced: old(self)@.context_announced && failure is Some,
                ..old(self)@
            }),
            views::views(r@) == seq![
                match failure {
                    Some(e) => ActionView::SessionError { error: e@ },
                    None => ActionView::SessionLoaded { id },
                },
            ],
    {
        match failure {
            Some(e) => session_error(e.as_str()),
            None => {
                self.context_announced = false;
                one(Action::SessionLoaded { id })
            },
        }
    }

    /// Asks whether a session that is to be deleted is in use elsewhere.
    pub fn delete_session(&self, streaming: bool, id: SessionId) -> (r: Vec<Action>)
        ensures
            views::views(r@) == seq![
                if streaming {
                    busy_error()
                } else {
                    ActionView::CheckLock { id }
                },
            ],
    {
        if streaming {
            return busy();
        }
        one(Action::CheckLock { id })
    }

    /// Deletes the session, unless it is in use elsewhere.
    pub fn lock_checked(
        &mut self,
        steer: &mut SteerSignal,
        id: SessionId,
        in_use: bool,
    ) -> (r: Vec<Action>)
        ensures
            (Step {
                state: final(self)@,
                steer: final(steer).state,
                actions: views::views(r@),
            }) == deletion_begun(old(self)@, old(steer).state, id, in_use),
    {
        if in_use {
            return one(Action::SessionLocked { id });
        }
        let mut out = none();
        self.forget_retry();
        self.drop_steered(steer, &mut out);
        push(&mut out, Action::DeleteSession { id });
        proof {
            assert((Step {
                state: self@,
                steer: steer.state,
                actions: views::views(out@),
            }) =~= deletion_begun(old(self)@, old(steer).state, id, in_use));
        }
        out
    }

    /// What follows when a session was deleted, or could not be. The session in
    /// hand is begun anew where it was the one.
    pub fn session_deleted(&mut self, facts: &Facts, id: SessionId, failure: Option<String>) -> (r:
        Vec<Action>)
        ensures
            match failure {
                Some(e) => {
                    &&& final(self)@ == old(self)@
                    &&& views::views(r@) == seq![ActionView::SessionError { error: e@ }]
                },
                None => {
                    let own = facts.session_id() == Some(id);
                    &&& final(self)@ == (LoopView {
                        locked_session: if old(self)@.locked_session == Some(id) {
                            None
                        } else {
                            old(self)@.locked_session
                        },
                        context_announced: old(self)@.context_announced && !own,
                        ..old(self)@
                    })
                    &&& views::views(r@) == if own {
                        seq![ActionView::FreshSession, ActionView::SessionDeleted { id }]
                    } else {
                        seq![ActionView::SessionDeleted { id }]
                    }
                },
            },
    {
        if let Some(e) = failure {
            return session_error(e.as_str());
        }
        let mut out = none();
        let held = match self.locked_session {
            Some(locked) => locked == id,
            None => false,
        };
        if held {
            self.locked_session = None;
        }
        let own = match facts.stored_id() {
            Some(current) => current == id,
            None => false,
        };
        if own {
            self.context_announced = false;
            push(&mut out, Action::FreshSession);
        }
        push(&mut out, Action::SessionDeleted { id });
        proof {
            if own {
                assert(views::views(out@) =~= seq![
                    ActionView::FreshSession,
                    ActionView::SessionDeleted { id },
                ]);
            } else {
                assert(views::views(out@) =~= seq![ActionView::SessionDeleted { id }]);
            }
        }
        out
    }

    /// Keeps the lock alive, if one is held.
    pub fn lock_beat(&self) -> (r: Vec<Action>)
        ensures
            views::views(r@) == match self@.locked_session {
                Some(id) => seq![ActionView::TouchLock { id }],
                None => Seq::empty(),
            },
    {
        match self.locked_session {
            Some(id) => one(Action::TouchLock { id }),
            None => none(),
        }
    }

    /// What follows when the lock was kept alive, or was lost.
    pub fn lock_touched(&mut self, id: SessionId, lost: bool) -> (r: Vec<Action>)
        ensures
            final(self)@ == (if lost {
                LoopView { locked_session: None, ..old(self)@ }
            } else {
                old(self)@
            }),
            views::views(r@) == if lost {
                seq![ActionView::SessionLocked { id }]
            } else {
                Seq::empty()
            },
    {
        if lost {
            self.locked_session = None;
            one(Action::SessionLocked { id })
        } else {
            none()
        }
    }

    /// Gives a question to the user a number.
    pub fn question_arrived(&mut self) -> (id: u64)
        ensures
            id == old(self)@.next_question_id,
            final(self)@ == (LoopView {
                next_question_id: old(self)@.next_question_id.wrapping_add(1),
                pending_questions: old(self)@.pending_questions.insert(id),
                ..old(self)@
            }),
    {
        broadcast use vstd::std_specs::hash::group_hash_axioms;

        let id = self.next_question_id;
        self.next_question_id = self.next_question_id.wrapping_add(1);
        self.pending_questions.insert(id);
        id
    }

    /// Gives a question of permission a number.
    pub fn permission_arrived(&mut self) -> (id: u64)
        ensures
            id == old(self)@.next_permission_id,
            final(self)@ == (LoopView {
                next_permission_id: old(self)@.next_permission_id.wrapping_add(1),
                pending_permissions: old(self)@.pending_permissions.insert(id),
                ..old(self)@
            }),
    {
        broadcast use vstd::std_specs::hash::group_hash_axioms;

        let id = self.next_permission_id;
        self.next_permission_id = self.next_permission_id.wrapping_add(1);
        self.pending_permissions.insert(id);
        id
    }

    /// Hands the answers on, if the question still stands.
    pub fn answer_question(&mut self, id: u64, answers: AnswerResponse) -> (r: Vec<Action>)
        ensures
            final(self)@ == (LoopView {
                pending_questions: old(self)@.pending_questions.remove(id),
                ..old(self)@
            }),
            views::views(r@) == if old(self)@.pending_questions.contains(id) {
                seq![
                    ActionView::RespondQuestion { id, answers: question::answers_view(answers) },
                ]
            } else {
                Seq::empty()
            },
    {
        broadcast use vstd::std_specs::hash::group_hash_axioms;

        if self.pending_questions.remove(&id) {
            one(Action::RespondQuestion { id, answers })
        } else {
            proof {
                assert(self@ =~= (LoopView {
                    pending_questions: old(self)@.pending_questions.remove(id),
                    ..old(self)@
                }));
            }
            none()
        }
    }

    /// Hands the decision on, if the question still stands.
    pub fn decide_permission(&mut self, id: u64, allow: bool) -> (r: Vec<Action>)
        ensures
            final(self)@ == (LoopView {
                pending_permissions: old(self)@.pending_permissions.remove(id),
                ..old(self)@
            }),
            views::views(r@) == if old(self)@.pending_permissions.contains(id) {
                seq![ActionView::RespondPermission { id, allow }]
            } else {
                Seq::empty()
            },
    {
        broadcast use vstd::std_specs::hash::group_hash_axioms;

        if self.pending_permissions.remove(&id) {
            one(Action::RespondPermission { id, allow })
        } else {
            proof {
                assert(self@ =~= (LoopView {
                    pending_permissions: old(self)@.pending_permissions.remove(id),
                    ..old(self)@
                }));
            }
            none()
        }
    }

    /// Runs a command of the user's own.
    pub fn run_bash(&mut self, command: &str) -> (r: Vec<Action>)
        requires
            old(self)@.next_bash_id < u64::MAX,
        ensures
            final(self)@ == (LoopView {
                next_bash_id: (old(self)@.next_bash_id + 1) as u64,
                ..old(self)@
            }),
            views::views(r@) == seq![
                ActionView::BashStarted { id: old(self)@.next_bash_id, command: command@ },
                ActionView::RunBash { id: old(self)@.next_bash_id, command: command@ },
            ],
    {
        let id = self.next_bash_id;
        self.next_bash_id = id + 1;
        let mut out = one(Action::BashStarted { id, command: command.to_owned() });
        push(&mut out, Action::RunBash { id, command: command.to_owned() });
        proof {
            assert(views::views(out@) =~= seq![
                ActionView::BashStarted { id, command: command@ },
                ActionView::RunBash { id, command: command@ },
            ]);
        }
        out
    }

    /// Goes back to an earlier point of the session. A running turn is cut, and
    /// the waiting prompts are dropped.
    pub fn fork(
        &mut self,
        steer: &mut SteerSignal,
        facts: &Facts,
        node: Option<u64>,
        summarize: bool,
    ) -> (r: Vec<Action>)
        ensures
            (Step {
                state: final(self)@,
                steer: final(steer).state,
                actions: views::views(r@),
            }) == fork_begun(
                old(self)@,
                old(steer).state,
                facts.streaming,
                facts.session_id(),
                node,
                summarize,
            ),
    {
        let mut out = none();
        if facts.streaming && !steer.is_finalizing() {
            self.forget_asks();
            push(&mut out, Action::CutStream);
            steer.reset();
        }
        self.drop_steered(steer, &mut out);
        self.forget_retry();
        let ghost s = self@;
        if let Some(id) = facts.stored_id() {
            if !summarize {
                push(&mut out, Action::Fork { id, node, summarizer: None });
            } else {
                match &self.connections.active {
                    None => push(
                        &mut out,
                        Action::SessionError { error: "no active provider to summarize".to_owned() },
                    ),
                    Some(active) => match &active.model {
                        None => push(
                            &mut out,
                            Action::SessionError {
                                error: "no active model to summarize".to_owned(),
                            },
                        ),
                        Some(model) => push(
                            &mut out,
                            Action::Fork {
                                id,
                                node,
                                summarizer: Some((active.provider.clone(), model.clone())),
                            },
                        ),
                    },
                }
            }
        }
        proof {
            assert((Step {
                state: self@,
                steer: steer.state,
                actions: views::views(out@),
            }) =~= fork_begun(
                old(self)@,
                old(steer).state,
                facts.streaming,
                facts.session_id(),
                node,
                summarize,
            ));
        }
        out
    }

    /// Sends the last prompt of the path again.
    pub fn replay(&mut self, steer: &mut SteerSignal, facts: &Facts) -> (r: Vec<Action>)
        ensures
            if facts.streaming {
                &&& final(self)@ == old(self)@
                &&& final(steer).state == old(steer).state
                &&& views::views(r@) == seq![busy_error()]
            } else {
                &&& final(self)@ == without_retry(old(self)@)
                &&& final(steer).state == SteerState::Idle
                &&& views::views(r@) == match facts.session {
                    Some(f) => match f.id {
                        Some(id) => seq![
                            ActionView::Replay { id, content: views::opt_view(f.last_prompt) },
                        ],
                        None => Seq::empty(),
                    },
                    None => Seq::empty(),
                }
            },
    {
        if facts.streaming {
            return busy();
        }
        self.forget_retry();
        steer.reset();
        match &facts.session {
            Some(f) => match f.id {
                Some(id) => {
                    let content = match &f.last_prompt {
                        Some(c) => Some(c.clone()),
                        None => None,
                    };
                    one(Action::Replay { id, content })
                },
                None => none(),
            },
            None => none(),
        }
    }

    /// Looks at the branch that is to be deleted.
    pub fn delete_branch(&mut self, facts: &Facts, node: u64) -> (r: Vec<Action>)
        ensures
            final(self)@ == (if facts.streaming {
                old(self)@
            } else {
                without_retry(old(self)@)
            }),
            views::views(r@) == (if facts.streaming {
                seq![busy_error()]
            } else {
                match facts.session_id() {
                    Some(id) => seq![ActionView::LoadBranch { id, node }],
                    None => Seq::empty(),
                }
            }),
    {
        if facts.streaming {
            return busy();
        }
        self.forget_retry();
        match facts.stored_id() {
            Some(id) => one(Action::LoadBranch { id, node }),
            None => none(),
        }
    }

    /// Changes the provider in use. A provider that is not set up changes nothing.
    pub fn set_active_provider(&mut self, name: &str) -> (r: Vec<Action>)
        ensures
            ({
                let known = text_map::lookup(old(self)@.providers, name@) is Some;
                &&& final(self)@ == (if known {
                    LoopView {
                        active: Some(
                            match old(self)@.active {
                                Some(a) => ActiveView { provider: name@, ..a },
                                None => ActiveView { provider: name@, model: None, variant: None },
                            },
                        ),
                        ..old(self)@
                    }
                } else {
                    old(self)@
                })
                &&& views::views(r@) == if known {
                    seq![ActionView::EnsureClient { name: name@ }, ActionView::Persist]
                } else {
                    Seq::empty()
                }
            }),
    {
        proof {
            text_map::lemma_viewed_lookup(self.connections.providers@, name@);
        }
        if self.connections.providers.get(name).is_none() {
            return none();
        }
        let active = match self.connections.active.take() {
            Some(a) => Active { provider: name.to_owned(), model: a.model, variant: a.variant },
            None => Active { provider: name.to_owned(), model: None, variant: None },
        };
        self.connections.active = Some(active);
        let mut out = one(Action::EnsureClient { name: name.to_owned() });
        push(&mut out, Action::Persist);
        proof {
            assert(views::views(out@) =~= seq![
                ActionView::EnsureClient { name: name@ },
                ActionView::Persist,
            ]);
        }
        out
    }

    /// Changes the model in use. The effort goes back to the default.
    pub fn set_active_model(&mut self, model: &str) -> (r: Vec<Action>)
        ensures
            final(self)@ == (LoopView {
                active: match old(self)@.active {
                    Some(a) => Some(
                        ActiveView { model: Some(model@), variant: None, ..a },
                    ),
                    None => None,
                },
                ..old(self)@
            }),
            views::views(r@) == seq![ActionView::Persist],
    {
        if let Some(a) = self.connections.active.take() {
            self.connections.active = Some(
                Active { provider: a.provider, model: Some(model.to_owned()), variant: None },
            );
        }
        one(Action::Persist)
    }

    /// Changes the effort of the model in use.
    pub fn select_variant(&mut self, variant: Option<String>) -> (r: Vec<Action>)
        ensures
            final(self)@ == (LoopView {
                active: match old(self)@.active {
                    Some(a) => Some(ActiveView { variant: views::opt_view(variant), ..a }),
                    None => None,
                },
                ..old(self)@
            }),
            views::views(r@) == if old(self)@.active is Some {
                seq![ActionView::Persist]
            } else {
                Seq::empty()
            },
    {
        match self.connections.active.take() {
            Some(a) => {
                self.connections.active = Some(
                    Active { provider: a.provider, model: a.model, variant },
                );
                one(Action::Persist)
            },
            None => none(),
        }
    }

    /// Goes on to the next effort of the model in use.
    pub fn cycle_variant(&mut self, catalog: &Vec<CatalogProvider>) -> (r: Vec<Action>)
        ensures
            ({
                let next = next_in_use(old(self)@, catalog@);
                &&& final(self)@ == (match (next, old(self)@.active) {
                    (Some(v), Some(a)) => LoopView {
                        active: Some(ActiveView { variant: v, ..a }),
                        ..old(self)@
                    },
                    _ => old(self)@,
                })
                &&& views::views(r@) == if next is Some {
                    seq![ActionView::Persist]
                } else {
                    Seq::empty()
                }
            }),
    {
        let next = match &self.connections.active {
            None => return none(),
            Some(a) => {
                proof {
                    text_map::lemma_viewed_lookup(self.connections.providers@, a.provider@);
                }
                match (self.connections.providers.get(a.provider.as_str()), &a.model) {
                    (Some(pc), Some(model)) => {
                        let current = match &a.variant {
                            Some(v) => Some(v.as_str()),
                            None => None,
                        };
                        next_variant(catalog, pc, model.as_str(), current)
                    },
                    _ => None,
                }
            },
        };
        match next {
            Some(NextVariant::Chosen(v)) => self.select_variant(Some(v)),
            Some(NextVariant::Default) => self.select_variant(None),
            None => none(),
        }
    }

    /// Sets a provider up.
    pub fn add_provider(&mut self, id: &str, config: ProviderConfig) -> (r: Vec<Action>)
        ensures
            final(self)@ == (LoopView {
                providers: text_map::with(old(self)@.providers, id@, config@),
                ..old(self)@
            }),
            views::views(r@) == seq![
                ActionView::DropClient { name: id@ },
                ActionView::Persist,
            ],
    {
        proof {
            text_map::lemma_viewed_with(self.connections.providers@, id@, config);
        }
        self.connections.providers.insert(id.to_owned(), config);
        let mut out = one(Action::DropClient { name: id.to_owned() });
        push(&mut out, Action::Persist);
        proof {
            assert(views::views(out@) =~= seq![
                ActionView::DropClient { name: id@ },
                ActionView::Persist,
            ]);
        }
        out
    }

    /// Removes a provider. None is in use afterwards, where it was the one.
    pub fn remove_provider(&mut self, name: &str) -> (r: Vec<Action>)
        ensures
            final(self)@ == (LoopView {
                providers: text_map::without(old(self)@.providers, name@),
                active: match old(self)@.active {
                    Some(a) => if a.provider == name@ {
                        None
                    } else {
                        Some(a)
                    },
                    None => None,
                },
                ..old(self)@
            }),
            views::views(r@) == seq![
                ActionView::DropClient { name: name@ },
                ActionView::Persist,
            ],
    {
        proof {
            text_map::lemma_viewed_without(self.connections.providers@, name@);
        }
        let _ = self.connections.providers.remove(name);
        let in_use = match &self.connections.active {
            Some(a) => same(a.provider.as_str(), name),
            None => false,
        };
        if in_use {
            self.connections.active = None;
        }
        let mut out = one(Action::DropClient { name: name.to_owned() });
        push(&mut out, Action::Persist);
        proof {
            assert(views::views(out@) =~= seq![
                ActionView::DropClient { name: name@ },
                ActionView::Persist,
            ]);
        }
        out
    }
}

/// What came of asking for a session's lock.
#[derive(Debug, Clone, Copy, PartialEq, Eq, Structural)]
pub enum LockAnswer {
    Granted,
    Held,
    Failed,
}

/// A new session begins: everything that belongs to the one before is dropped.
pub open spec fn session_begun(s: LoopView, steer: SteerState, streaming: bool) -> Step {
    if streaming {
        only(s, steer, busy_error())
    } else {
        Step {
            state: LoopView {
                overflow_retries: 0,
                context_announced: false,
                locked_session: None,
                steered: Seq::empty(),
                ..without_asks(without_retry(s))
            },
            steer: disarmed(steer),
            actions: releasing(s) + dropping_steered(s) + seq![
                ActionView::FreshSession,
                ActionView::SessionStarted,
            ],
        }
    }
}

/// A prompt is sent: it waits while the loop is busy, and else starts a turn.
pub open spec fn message_sent(
    s: LoopView,
    steer: SteerState,
    streaming: bool,
    content: Seq<char>,
    model: Option<Seq<char>>,
) -> Step {
    if is_busy(s, streaming) {
        Step {
            state: LoopView { steered: s.steered.push((content, model)), ..s },
            steer: armed(steer),
            actions: seq![ActionView::PromptSteered { content }],
        }
    } else {
        Step {
            state: LoopView { overflow_retries: 0, ..without_retry(s) },
            steer: SteerState::Idle,
            actions: seq![ActionView::StartTurn { content, steered: false, model }],
        }
    }
}

/// A turn is stopped: the running one is cut, unless it is being cut already;
/// else a wait for the next try ends with its error.
pub open spec fn stream_cancelled(s: LoopView, steer: SteerState, streaming: bool) -> Step {
    let cut = streaming && steer != SteerState::Finalizing;
    if !cut && s.pending_retry is None {
        stay(s, steer)
    } else {
        let settled = if cut {
            without_asks(s)
        } else {
            without_retry(s)
        };
        let first = if cut {
            ActionView::CutStream
        } else {
            ActionView::StreamError { error: s.pending_retry->0 }
        };
        if s.steered.len() > 0 {
            Step {
                state: LoopView { steered: s.steered.skip(1), ..settled },
                steer: SteerState::Idle,
                actions: seq![first, start_first(s)],
            }
        } else {
            Step { state: settled, steer: SteerState::Idle, actions: seq![first] }
        }
    }
}

/// The last waiting prompt is given back. No cut is wanted when none is left.
pub open spec fn steered_recalled(s: LoopView, steer: SteerState, stacked: bool) -> Step {
    let rest = if s.steered.len() > 0 {
        s.steered.drop_last()
    } else {
        s.steered
    };
    Step {
        state: LoopView { steered: rest, ..s },
        steer: if rest.len() == 0 {
            disarmed(steer)
        } else {
            steer
        },
        actions: seq![
            ActionView::SteeredRecalled {
                stacked,
                content: if s.steered.len() > 0 {
                    Some(s.steered.last().0)
                } else {
                    None
                },
            },
        ],
    }
}

/// A streamed turn has ended. After a turn that was finished or cut the first
/// waiting prompt takes over, and a cut is wanted where more wait. A turn whose
/// history was summarized is taken up again, a few times. A failed connection
/// is tried again, as often as is allowed.
pub open spec fn stream_ended(
    s: LoopView,
    steer: SteerState,
    outcome: StreamOutcome,
    max_retries: usize,
) -> Step {
    match outcome {
        StreamOutcome::Overflowed { compacted } => if compacted && s.overflow_retries
            < MAX_OVERFLOW_RETRIES {
            only(
                LoopView { overflow_retries: (s.overflow_retries + 1) as usize, ..s },
                steer,
                ActionView::ResumeTurn,
            )
        } else {
            only(
                LoopView { overflow_retries: 0, ..s },
                SteerState::Idle,
                ActionView::StreamError {
                    error:
                        "context budget exceeded and compaction could not keep up; start a new message to continue"@,
                },
            )
        },
        StreamOutcome::RetryableFailure { reason, message } => if s.conn_retries < max_retries {
            only(
                LoopView {
                    conn_retries: (s.conn_retries + 1) as usize,
                    pending_retry: Some(message@),
                    ..s
                },
                steer,
                ActionView::RetryScheduled {
                    reason: reason@,
                    message: message@,
                    attempt: (s.conn_retries + 1) as usize,
                    max_attempts: max_retries,
                    delay_ms: (retry::delay_of(s.conn_retries + 1) * 1000) as u64,
                },
            )
        } else {
            only(
                LoopView { conn_retries: 0, ..s },
                SteerState::Idle,
                ActionView::StreamError { error: message@ },
            )
        },
        _ => {
            let settled = LoopView { overflow_retries: 0, conn_retries: 0, ..without_asks(s) };
            if s.steered.len() > 0 {
                Step {
                    state: LoopView { steered: s.steered.skip(1), ..settled },
                    steer: if s.steered.len() > 1 {
                        SteerState::Armed
                    } else {
                        SteerState::Idle
                    },
                    actions: seq![start_first(s)],
                }
            } else {
                stay(settled, SteerState::Idle)
            }
        },
    }
}

/// A session is entered, unless another client holds its lock.
pub open spec fn session_entered(
    s: LoopView,
    steer: SteerState,
    id: SessionId,
    answer: LockAnswer,
) -> Step {
    if answer == LockAnswer::Held {
        only(s, steer, ActionView::SessionLocked { id })
    } else {
        let moved = answer == LockAnswer::Granted && s.locked_session != Some(id);
        Step {
            state: LoopView {
                locked_session: if moved {
                    Some(id)
                } else {
                    s.locked_session
                },
                steered: Seq::empty(),
                ..without_asks(s)
            },
            steer: disarmed(steer),
            actions: (if moved {
                releasing(s)
            } else {
                Seq::empty()
            }) + dropping_steered(s) + seq![ActionView::LoadSession { id }],
        }
    }
}

/// A session is deleted, unless it is in use elsewhere.
pub open spec fn deletion_begun(
    s: LoopView,
    steer: SteerState,
    id: SessionId,
    in_use: bool,
) -> Step {
    if in_use {
        only(s, steer, ActionView::SessionLocked { id })
    } else {
        Step {
            state: LoopView { steered: Seq::empty(), ..without_retry(s) },
            steer: disarmed(steer),
            actions: dropping_steered(s) + seq![ActionView::DeleteSession { id }],
        }
    }
}

/// What a fork asks for, once the running turn is out of the way.
pub open spec fn fork_action(
    s: LoopView,
    id: SessionId,
    node: Option<u64>,
    summarize: bool,
) -> ActionView {
    if !summarize {
        ActionView::Fork { id, node, summarizer: None }
    } else {
        match s.active {
            None => ActionView::SessionError { error: "no active provider to summarize"@ },
            Some(a) => match a.model {
                None => ActionView::SessionError { error: "no active model to summarize"@ },
                Some(m) => ActionView::Fork { id, node, summarizer: Some((a.provider, m)) },
            },
        }
    }
}

/// A fork begins: a running turn is cut and waiting prompts are dropped.
pub open spec fn fork_begun(
    s: LoopView,
    steer: SteerState,
    streaming: bool,
    id: Option<SessionId>,
    node: Option<u64>,
    summarize: bool,
) -> Step {
    let cut = streaming && steer != SteerState::Finalizing;
    Step {
        state: LoopView {
            steered: Seq::empty(),
            ..without_retry(
                if cut {
                    without_asks(s)
                } else {
                    s
                },
            )
        },
        steer: if cut {
            SteerState::Idle
        } else {
            disarmed(steer)
        },
        actions: (if cut {
            seq![ActionView::CutStream]
        } else {
            Seq::empty()
        }) + dropping_steered(s) + (match id {
            Some(i) => seq![fork_action(s, i, node, summarize)],
            None => Seq::empty(),
        }),
    }
}

/// The effort that follows for the model in use, if the catalog knows one.
pub open spec fn next_in_use(s: LoopView, catalog: Seq<CatalogProvider>) -> Option<
    Option<Seq<char>>,
> {
    match s.active {
        None => None,
        Some(a) => match (text_map::lookup(s.providers, a.provider), a.model) {
            (Some(pc), Some(model)) => catalog::next_effort(
                catalog,
                pc.catalog_id(),
                model,
                a.variant,
            ),
            _ => None,
        },
    }
}

/// Changes the title of the session. A blank title, or the one it has, changes
/// nothing.
pub fn set_title(facts: &Facts, title: &str) -> (r: Vec<Action>)
    ensures
        views::views(r@) == ({
            let t = text::trimmed(title@);
            match facts.session {
                Some(f) => match f.id {
                    Some(id) => if t.len() > 0 && views::opt_view(f.title) != Some(t) {
                        seq![ActionView::SetTitle { id, title: t }]
                    } else {
                        Seq::empty()
                    },
                    None => Seq::empty(),
                },
                None => Seq::empty(),
            }
        }),
{
    let t = trim(title);
    if t.is_empty() {
        return none();
    }
    match &facts.session {
        Some(f) => match f.id {
            Some(id) => {
                let unchanged = match &f.title {
                    Some(current) => same(current.as_str(), t),
                    None => false,
                };
                if unchanged {
                    none()
                } else {
                    one(Action::SetTitle { id, title: t.to_owned() })
                }
            },
            None => none(),
        },
        None => none(),
    }
}

/// What follows when a title was stored, or could not be.
pub fn title_set(id: SessionId, title: &str, failure: Option<&str>) -> (r: Vec<Action>)
    ensures
        views::views(r@) == seq![
            match failure {
                Some(e) => ActionView::SessionError { error: "failed to set title: "@ + e@ },
                None => ActionView::TitleChanged { id, title: title@ },
            },
        ],
{
    match failure {
        Some(e) => session_error_with("failed to set title: ", e),
        None => one(Action::TitleChanged { id, title: title.to_owned() }),
    }
}

/// Has a title drafted for the session, from its first prompt.
pub fn gen_title(facts: &Facts) -> (r: Vec<Action>)
    ensures
        views::views(r@) == seq![
            match facts.session {
                None => ActionView::SessionError { error: "no active session"@ },
                Some(f) => match (f.id, f.title, f.first_prompt) {
                    (Some(id), Some(t), Some(p)) => ActionView::DraftTitle {
                        id,
                        expected: t@,
                        prompt: p@,
                    },
                    _ => ActionView::SessionError { error: "no user prompt yet"@ },
                },
            },
        ],
{
    match &facts.session {
        None => session_error("no active session"),
        Some(f) => match (&f.id, &f.title, &f.first_prompt) {
            (Some(id), Some(t), Some(p)) => one(
                Action::DraftTitle { id: *id, expected: t.clone(), prompt: p.clone() },
            ),
            _ => session_error("no user prompt yet"),
        },
    }
}

/// Searches the history, unless the query is blank.
pub fn search_history(query: &str) -> (r: Vec<Action>)
    ensures
        views::views(r@) == seq![
            if text::trimmed(query@).len() == 0 {
                ActionView::NoHits
            } else {
                ActionView::Search { query: text::trimmed(query@) }
            },
        ],
{
    let q = trim(query);
    if q.is_empty() {
        one(Action::NoHits)
    } else {
        one(Action::Search { query: q.to_owned() })
    }
}

/// Why a fork was not made: there is no client to summarize with, or the fork
/// itself failed.
#[derive(Debug, Clone, PartialEq, Eq)]
pub enum ForkFailure {
    Client(String),
    Fork(String),
}

/// What follows when a fork was made, or failed.
pub fn fork_done(id: SessionId, outcome: Result<Option<String>, ForkFailure>) -> (r: Vec<Action>)
    ensures
        views::views(r@) == seq![
            match outcome {
                Ok(prompt) => ActionView::ReloadForked { id, prompt: views::opt_view(prompt) },
                Err(ForkFailure::Client(e)) => ActionView::SessionError { error: e@ },
                Err(ForkFailure::Fork(e)) => ActionView::SessionError {
                    error: "fork failed: "@ + e@,
                },
            },
        ],
{
    match outcome {
        Ok(prompt) => one(Action::ReloadForked { id, prompt }),
        Err(ForkFailure::Client(error)) => one(Action::SessionError { error }),
        Err(ForkFailure::Fork(e)) => session_error_with("fork failed: ", e.as_str()),
    }
}

/// What follows when the path was walked back for its last prompt to be sent
/// again, or could not be.
pub fn replay_forked(id: SessionId, failure: Option<&str>) -> (r: Vec<Action>)
    ensures
        views::views(r@) == seq![
            match failure {
                Some(e) => ActionView::SessionError { error: "replay failed: "@ + e@ },
                None => ActionView::ReloadForked { id, prompt: None },
            },
        ],
{
    match failure {
        Some(e) => session_error_with("replay failed: ", e),
        None => one(Action::ReloadForked { id, prompt: None }),
    }
}

/// Loads the skills and the custom commands again.
pub fn reload() -> (r: Vec<Action>)
    ensures
        views::views(r@) == seq![ActionView::ReloadSkills, ActionView::ReloadCommands],
{
    let mut out = one(Action::ReloadSkills);
    push(&mut out, Action::ReloadCommands);
    proof {
        assert(views::views(out@) =~= seq![ActionView::ReloadSkills, ActionView::ReloadCommands]);
    }
    out
}

/// What follows when the session was loaded again for its last prompt to be sent
/// again, or could not be: without the session nothing is sent.
pub fn replay_reloaded(content: Option<String>, failure: Option<String>) -> (r: Vec<Action>)
    ensures
        views::views(r@) == match (failure, content) {
            (Some(e), _) => seq![ActionView::SessionError { error: e@ }],
            (None, Some(c)) => seq![ActionView::SendAgain { content: c@ }],
            (None, None) => Seq::empty(),
        },
{
    match (failure, content) {
        (Some(error), _) => one(Action::SessionError { error }),
        (None, Some(content)) => one(Action::SendAgain { content }),
        (None, None) => none(),
    }
}

/// Deletes the branch, unless the session's active tip lies in it.
pub fn branch_loaded(stored: &StoredSession, node: u64) -> (r: Vec<Action>)
    ensures
        views::views(r@) == seq![
            if stored.leaf_id matches Some(leaf) && tree::in_subtree(stored.messages@, node, leaf) {
                ActionView::SessionError { error: "cannot delete the active branch"@ }
            } else {
                ActionView::DeleteBranch { id: stored.id, node }
            },
        ],
{
    if subtree_contains(stored, node, stored.leaf_id) {
        session_error("cannot delete the active branch")
    } else {
        one(Action::DeleteBranch { id: stored.id, node })
    }
}

/// What follows when a branch was deleted, or could not be.
pub fn branch_deleted(id: SessionId, failure: Option<&str>) -> (r: Vec<Action>)
    ensures
        views::views(r@) == seq![
            match failure {
                Some(e) => ActionView::SessionError { error: "branch delete failed: "@ + e@ },
                None => ActionView::OpenTree { id },
            },
        ],
{
    match failure {
        Some(e) => session_error_with("branch delete failed: ", e),
        None => one(Action::OpenTree { id }),
    }
}

/// What follows when a language server was started again or for the first time.
pub fn lsp_started(failure: Option<String>) -> (r: Vec<Action>)
    ensures
        views::views(r@) == seq![
            match failure {
                Some(e) => ActionView::LspError { error: e@ },
                None => ActionView::LspStatus,
            },
        ],
{
    match failure {
        Some(error) => one(Action::LspError { error }),
        None => one(Action::LspStatus),
    }
}

/// What follows when a language server was stopped: the status is shown in any case.
pub fn lsp_stopped(failure: Option<String>) -> (r: Vec<Action>)
    ensures
        views::views(r@) == (match failure {
            Some(e) => seq![ActionView::LspError { error: e@ }],
            None => Seq::empty(),
        }).push(ActionView::LspStatus),
{
    let mut out = match failure {
        Some(error) => one(Action::LspError { error }),
        None => none(),
    };
    push(&mut out, Action::LspStatus);
    out
}

/// What follows when a tool server was connected anew: the status is shown in any case.
pub fn mcp_reconnected(failure: Option<String>) -> (r: Vec<Action>)
    ensures
        views::views(r@) == (match failure {
            Some(e) => seq![ActionView::McpError { error: e@ }],
            None => Seq::empty(),
        }).push(ActionView::McpStatus),
{
    let mut out = match failure {
        Some(error) => one(Action::McpError { error }),
        None => none(),
    };
    push(&mut out, Action::McpStatus);
    out
}

}
