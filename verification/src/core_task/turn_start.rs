//! The start of a turn: what is stored of a prompt before it is sent.

use crate::core_task::run::LockAnswer;
use crate::llm::{ChatView, Role};
use crate::session::Session;
use crate::settings::{Active, ActiveView};
use crate::stored::SessionId;
use crate::text;
use crate::title;
use crate::title::title_for;
use crate::views;
use crate::views::duplicate_opt;
use vstd::prelude::*;

verus! {

/// What the start of a turn does next. Each is carried out before the one after it.
#[derive(Debug)]
#[allow(inconsistent_fields)]
pub enum TurnAction {
    CreateSession {
        title: String,
        provider: Option<String>,
        model: Option<String>,
        scene: Option<String>,
    },
    AcquireLock { id: SessionId },
    SessionCreated { id: SessionId, title: Option<String>, scene: Option<String> },
    DraftTitle { id: SessionId, expected: Option<String>, prompt: String },
    Append { id: SessionId, parent: Option<u64>, content: String },
    Index { row: u64, id: Option<SessionId>, seq: u64, content: String },
    StreamError { error: String },
    TurnStarted { content: String, steered: bool },
    Send { content: String, model: Option<String> },
}

/// The content of a [`TurnAction`].
#[verifier::ext_equal]
#[allow(inconsistent_fields)]
pub enum TurnActionView {
    CreateSession {
        title: Seq<char>,
        provider: Option<Seq<char>>,
        model: Option<Seq<char>>,
        scene: Option<Seq<char>>,
    },
    AcquireLock { id: SessionId },
    SessionCreated { id: SessionId, title: Option<Seq<char>>, scene: Option<Seq<char>> },
    DraftTitle { id: SessionId, expected: Option<Seq<char>>, prompt: Seq<char> },
    Append { id: SessionId, parent: Option<u64>, content: Seq<char> },
    Index { row: u64, id: Option<SessionId>, seq: u64, content: Seq<char> },
    StreamError { error: Seq<char> },
    TurnStarted { content: Seq<char>, steered: bool },
    Send { content: Seq<char>, model: Option<Seq<char>> },
}

impl View for TurnAction {
    type V = TurnActionView;

    open spec fn view(&self) -> TurnActionView {
        match self {
            TurnAction::CreateSession {
                title,
                provider,
                model,
                scene,
            } => TurnActionView::CreateSession {
                title: title@,
                provider: views::opt_view(*provider),
                model: views::opt_view(*model),
                scene: views::opt_view(*scene),
            },
            TurnAction::AcquireLock { id } => TurnActionView::AcquireLock { id: *id },
            TurnAction::SessionCreated { id, title, scene } => TurnActionView::SessionCreated {
                id: *id,
                title: views::opt_view(*title),
                scene: views::opt_view(*scene),
            },
            TurnAction::DraftTitle { id, expected, prompt } => TurnActionView::DraftTitle {
                id: *id,
                expected: views::opt_view(*expected),
                prompt: prompt@,
            },
            TurnAction::Append { id, parent, content } => TurnActionView::Append {
                id: *id,
                parent: *parent,
                content: content@,
            },
            TurnAction::Index { row, id, seq, content } => TurnActionView::Index {
                row: *row,
                id: *id,
                seq: *seq,
                content: content@,
            },
            TurnAction::StreamError { error } => TurnActionView::StreamError { error: error@ },
            TurnAction::TurnStarted { content, steered } => TurnActionView::TurnStarted {
                content: content@,
                steered: *steered,
            },
            TurnAction::Send { content, model } => TurnActionView::Send {
                content: content@,
                model: views::opt_view(*model),
            },
        }
    }
}

fn push(out: &mut Vec<TurnAction>, action: TurnAction)
    ensures
        views::views(final(out)@) == views::views(old(out)@).push(action@),
{
    let ghost before = out@;
    out.push(action);
    proof {
        assert(views::views(out@) =~= views::views(before).push(action@));
    }
}

fn one(action: TurnAction) -> (r: Vec<TurnAction>)
    ensures
        views::views(r@) == seq![action@],
{
    let mut out: Vec<TurnAction> = Vec::new();
    out.push(action);
    proof {
        assert(views::views(out@) =~= seq![action@]);
    }
    out
}

/// Makes a session where there is none; says whether one was made.
pub fn ensure_session(session: &mut Option<Session>) -> (started: bool)
    ensures
        started == (*old(session) is None),
        match *old(session) {
            Some(s) => *final(session) == Some(s),
            None => *final(session) matches Some(s) && s.blank(),
        },
{
    if session.is_none() {
        *session = Some(Session::new());
        true
    } else {
        false
    }
}

/// The session with the prompt at its tip. Until the session is stored, the
/// scene that was picked for it goes along with the request to store it.
pub open spec fn prompted(before: Session, after: Session, content: Seq<char>) -> bool {
    &&& after == (Session {
        messages: after.messages,
        scene: if before.id is Some {
            before.scene
        } else {
            None
        },
        ..before
    })
    &&& after.messages@.len() == before.messages@.len() + 1
    &&& after.messages@.drop_last() == before.messages@
    &&& after.messages@.last()@ == (ChatView { role: Role::User, content })
}

/// The title that stands until one is drafted.
pub open spec fn first_title(content: Seq<char>, max_chars: nat) -> Seq<char> {
    if text::trimmed(content).len() == 0 {
        "Untitled session"@
    } else {
        title::start_of(content, max_chars)
    }
}

/// What is done first: a session that is not stored is, else the prompt is.
pub open spec fn begun(
    session: Session,
    content: Seq<char>,
    max_chars: nat,
    active: Option<ActiveView>,
    default_scene: Option<Seq<char>>,
) -> TurnActionView {
    match session.id {
        Some(id) => TurnActionView::Append { id, parent: session.leaf_id, content },
        None => TurnActionView::CreateSession {
            title: first_title(content, max_chars),
            provider: match active {
                Some(a) => Some(a.provider),
                None => None,
            },
            model: match active {
                Some(a) => a.model,
                None => None,
            },
            scene: match session.scene {
                Some(s) => Some(s@),
                None => default_scene,
            },
        },
    }
}

/// Takes a prompt into the session.
pub fn begin_turn(
    session: &mut Session,
    content: &str,
    max_chars: usize,
    active: &Option<Active>,
    default_scene: &Option<String>,
) -> (r: Vec<TurnAction>)
    ensures
        prompted(*old(session), *final(session), content@),
        views::views(r@) == seq![
            begun(
                *old(session),
                content@,
                max_chars as nat,
                views::opt_view(*active),
                views::opt_view(*default_scene),
            ),
        ],
{
    session.push_user(content);
    if let Some(id) = session.id {
        return one(
            TurnAction::Append { id, parent: session.leaf_id, content: content.to_owned() },
        );
    }
    let title = title_for(content, max_chars);
    let scene = match session.scene.take() {
        Some(s) => Some(s),
        None => duplicate_opt(default_scene),
    };
    let (provider, model) = match active {
        Some(a) => (Some(a.provider.clone()), duplicate_opt(&a.model)),
        None => (None, None),
    };
    one(TurnAction::CreateSession { title, provider, model, scene })
}

/// Takes in whether the session was stored. It starts under its scene, so that
/// scene counts as announced.
pub fn session_made(
    session: &mut Session,
    announced: &mut Option<String>,
    title: String,
    scene: Option<String>,
    outcome: Result<SessionId, String>,
) -> (r: Vec<TurnAction>)
    ensures
        match outcome {
            Ok(id) => {
                &&& *final(session) == (Session {
                    id: Some(id),
                    title: Some(title),
                    scene: final(session).scene,
                    ..*old(session)
                })
                &&& views::opt_view(final(session).scene) == views::opt_view(scene)
                &&& views::opt_view(*final(announced)) == views::opt_view(scene)
                &&& views::views(r@) == seq![TurnActionView::AcquireLock { id }]
            },
            Err(e) => {
                &&& *final(session) == *old(session)
                &&& *final(announced) == *old(announced)
                &&& views::views(r@) == seq![
                    TurnActionView::StreamError { error: "failed to create session: "@ + e@ },
                ]
            },
        },
{
    match outcome {
        Ok(id) => {
            session.id = Some(id);
            session.title = Some(title);
            session.scene = duplicate_opt(&scene);
            *announced = scene;
            one(TurnAction::AcquireLock { id })
        },
        Err(e) => {
            let mut error: String = "failed to create session: ".to_owned();
            error.append(e.as_str());
            one(TurnAction::StreamError { error })
        },
    }
}

/// What follows when the new session's lock was asked for: whatever came back,
/// the session is reported, a title is drafted where that is wanted, and the
/// prompt is stored.
pub open spec fn after_lock(
    session: Session,
    id: SessionId,
    auto_gen: bool,
    content: Seq<char>,
) -> Seq<TurnActionView> {
    let created = seq![
        TurnActionView::SessionCreated {
            id,
            title: views::opt_view(session.title),
            scene: views::opt_view(session.scene),
        },
    ];
    let drafted = if auto_gen {
        created.push(
            TurnActionView::DraftTitle {
                id,
                expected: views::opt_view(session.title),
                prompt: content,
            },
        )
    } else {
        created
    };
    drafted.push(TurnActionView::Append { id, parent: session.leaf_id, content })
}

/// Takes in what became of the new session's lock.
pub fn lock_settled(
    session: &Session,
    locked: &mut Option<SessionId>,
    id: SessionId,
    answer: LockAnswer,
    auto_gen: bool,
    content: &str,
) -> (r: Vec<TurnAction>)
    ensures
        *final(locked) == if answer == LockAnswer::Granted {
            Some(id)
        } else {
            *old(locked)
        },
        views::views(r@) == after_lock(*session, id, auto_gen, content@),
{
    match answer {
        LockAnswer::Granted => {
            *locked = Some(id);
        },
        LockAnswer::Held => {},
        LockAnswer::Failed => {},
    }
    let mut out = one(
        TurnAction::SessionCreated {
            id,
            title: duplicate_opt(&session.title),
            scene: duplicate_opt(&session.scene),
        },
    );
    if auto_gen {
        push(
            &mut out,
            TurnAction::DraftTitle {
                id,
                expected: duplicate_opt(&session.title),
                prompt: content.to_owned(),
            },
        );
    }
    push(
        &mut out,
        TurnAction::Append { id, parent: session.leaf_id, content: content.to_owned() },
    );
    out
}

/// What follows when the prompt was stored, or could not be.
pub open spec fn after_append(
    session: Session,
    content: Seq<char>,
    steered: bool,
    model: Option<Seq<char>>,
    indexed: bool,
    outcome: Result<u64, Seq<char>>,
) -> Seq<TurnActionView> {
    match outcome {
        Err(e) => seq![TurnActionView::StreamError { error: "failed to persist message: "@ + e }],
        Ok(row) => (if indexed {
            seq![
                TurnActionView::Index {
                    row,
                    id: session.id,
                    seq: (session.messages@.len() - 1) as u64,
                    content,
                },
            ]
        } else {
            Seq::empty()
        }).push(TurnActionView::TurnStarted { content, steered }).push(
            TurnActionView::Send { content, model },
        ),
    }
}

/// Takes in whether the prompt was stored. Only then is it sent.
pub fn prompt_stored(
    session: &mut Session,
    content: &str,
    steered: bool,
    model: Option<String>,
    indexed: bool,
    outcome: Result<u64, String>,
) -> (r: Vec<TurnAction>)
    requires
        old(session).messages@.len() > 0,
    ensures
        *final(session) == (Session {
            leaf_id: match outcome {
                Ok(row) => Some(row),
                Err(_) => old(session).leaf_id,
            },
            ..*old(session)
        }),
        views::views(r@) == after_append(
            *old(session),
            content@,
            steered,
            views::opt_view(model),
            indexed,
            match outcome {
                Ok(row) => Ok(row),
                Err(e) => Err(e@),
            },
        ),
{
    match outcome {
        Ok(row) => {
            session.leaf_id = Some(row);
            let mut out: Vec<TurnAction> = Vec::new();
            proof {
                assert(views::views(out@) =~= Seq::empty());
            }
            if indexed {
                let seq: u64 = (session.messages.len() - 1) as u64;
                push(
                    &mut out,
                    TurnAction::Index { row, id: session.id, seq, content: content.to_owned() },
                );
                proof {
                    assert(views::views(out@) =~= seq![
                        TurnActionView::Index { row, id: session.id, seq, content: content@ },
                    ]);
                }
            }
            push(&mut out, TurnAction::TurnStarted { content: content.to_owned(), steered });
            push(&mut out, TurnAction::Send { content: content.to_owned(), model });
            out
        },
        Err(e) => {
            let mut error: String = "failed to persist message: ".to_owned();
            error.append(e.as_str());
            one(TurnAction::StreamError { error })
        },
    }
}

/// Takes a prompt into the session that is asked once more, and says where it
/// is stored: in which session, and below which message.
pub fn repeat_prompt(session: &mut Session, content: &str) -> (r: Option<
    (SessionId, Option<u64>),
>)
    ensures
        *final(session) == (Session { messages: final(session).messages, ..*old(session) }),
        final(session).messages@.len() == old(session).messages@.len() + 1,
        final(session).messages@.drop_last() == old(session).messages@,
        final(session).messages@.last()@ == (ChatView { role: Role::User, content: content@ }),
        r == match old(session).id {
            Some(id) => Some((id, old(session).leaf_id)),
            None => None,
        },
{
    session.push_user(content);
    match session.id {
        Some(id) => Some((id, session.leaf_id)),
        None => None,
    }
}

/// Takes in whether a prompt that is asked once more was stored. It is sent in
/// any case.
pub fn repeated_prompt_stored(session: &mut Session, row: Option<u64>)
    ensures
        *final(session) == (Session {
            leaf_id: match row {
                Some(id) => Some(id),
                None => old(session).leaf_id,
            },
            ..*old(session)
        }),
{
    if row.is_some() {
        session.leaf_id = row;
    }
}

/// A prompt that is not stored is never sent, and a prompt that is sent was
/// reported just before.
pub proof fn lemma_only_stored_prompts_are_sent(
    session: Session,
    content: Seq<char>,
    steered: bool,
    model: Option<Seq<char>>,
    indexed: bool,
    outcome: Result<u64, Seq<char>>,
)
    ensures
        ({
            let actions = after_append(session, content, steered, model, indexed, outcome);
            &&& outcome is Ok <==> actions.last() is Send
            &&& forall|i: int|
                0 <= i < actions.len() && (#[trigger] actions[i]) is Send ==> i == actions.len() - 1
                    && i > 0 && actions[i - 1] == (TurnActionView::TurnStarted {
                    content,
                    steered,
                })
        }),
{
}

/// The scene that a session was started under is the one it is stored with:
/// the one that was picked before the first turn, else the default.
pub proof fn lemma_picked_scene_is_stored(
    session: Session,
    content: Seq<char>,
    max_chars: nat,
    active: Option<ActiveView>,
    default_scene: Option<Seq<char>>,
)
    requires
        session.id is None,
    ensures
        begun(session, content, max_chars, active, default_scene) matches TurnActionView::CreateSession { scene, .. }
            && scene == (if session.scene is Some {
            views::opt_view(session.scene)
        } else {
            default_scene
        }),
{
}

}
