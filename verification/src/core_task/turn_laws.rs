//! What holds of every turn: how it starts, what it sends and where, and how it is
//! recorded.

use crate::core_task::pending::PendingToolCall;
use crate::core_task::request;
use crate::core_task::stream::TurnStream;
use crate::core_task::target;
use crate::core_task::turn_end;
use crate::core_task::turn_end::{Closing, ReplyView};
use crate::core_task::turn_start;
use crate::core_task::turn_start::TurnAction;
use crate::catalog;
use crate::catalog::{CatalogProvider, Transport};
use crate::llm;
use crate::llm::{ChatView, Role, TokenUsage};
use crate::scenes;
use crate::scenes::Scene;
use crate::session;
use crate::session::Session;
use crate::settings::{Active, Connections, ProviderConfigView};
use crate::stored;
use crate::stored::SessionId;
use crate::text;
use crate::text_map;
use crate::tool_record::{ToolRecord, ToolRecordView};
use crate::views;
use vstd::prelude::*;

verus! {

/// Whether the reply was put behind the messages that there were, under its place
/// with what was reasoned and streamed for it, and its records behind those that
/// there were; nothing else of the session is another.
pub open spec fn recorded(
    before: Session,
    after: Session,
    turn: TurnStream,
    reply: Seq<char>,
) -> bool {
    let n = before.messages@.len() as int;
    let key = n as u64;
    &&& after.messages@.len() == n + 1
    &&& after.messages@[n].role == Role::Assistant
    &&& after.messages@[n].content@ == reply
    &&& forall|i: int| 0 <= i < n ==> #[trigger] after.messages@[i] == before.messages@[i]
    &&& after.reasoning@.contains_key(key) && views::views(after.reasoning@[key]@) == views::views(
        turn.pending_reasoning@,
    )
    &&& turn.text_segments@.len() > 0 ==> after.text_segments@.contains_key(key) && views::views(
        after.text_segments@[key]@,
    ) == views::views(turn.text_segments@)
    &&& forall|i: int|
        0 <= i < before.tool_records@.len() ==> (#[trigger] after.tool_records@[i])@
            == before.tool_records@[i]@
    &&& after.tool_records@.len() >= before.tool_records@.len() + turn.tool_records@.len()
    &&& forall|i: int|
        0 <= i < turn.tool_records@.len() ==> (#[trigger] turn.tool_records@[i])@
            == after.tool_records@[before.tool_records@.len() + i]@
    &&& after.id == before.id
    &&& after.title == before.title
    &&& after.leaf_id == before.leaf_id
    &&& after.scene == before.scene
    &&& after.nodes == before.nodes
    &&& after.summaries == before.summaries
}

proof fn lemma_recorded(
    before: Session,
    after: Session,
    turn: TurnStream,
    r: ReplyView,
    records: Seq<ToolRecordView>,
    more: Seq<ToolRecordView>,
)
    requires
        turn_end::turn_added(before, after, r, records),
        r.reasoning == Some(turn@.pending_reasoning),
        r.segments == turn_end::unless_empty(turn@.text_segments, false),
        records == turn@.tool_records + more,
    ensures
        recorded(before, after, turn, r.text),
        after.tool_records@.len() == before.tool_records@.len() + turn.tool_records@.len()
            + more.len(),
        forall|i: int|
            0 <= i < more.len() ==> #[trigger] more[i] == after.tool_records@[before.tool_records@.len()
                + turn.tool_records@.len() + i]@,
        after.usage_view() == before.usage_view(),
        after.interrupted@ == if r.interrupted {
            before.interrupted@.insert(before.messages@.len() as u64, true)
        } else {
            before.interrupted@
        },
{
    let mid = choose|mid: Session| #[trigger]
        turn_end::reply_added(before, mid, r) && views::views(after.tool_records@)
            == views::views(before.tool_records@) + records && after == (Session {
            tool_records: after.tool_records,
            ..mid
        });
    let n = before.messages@.len() as int;
    assert forall|i: int| 0 <= i < n implies #[trigger] after.messages@[i]
        == before.messages@[i] by {
        assert(mid.messages@.drop_last()[i] == mid.messages@[i]);
    }
    assert(mid.messages@[n] == mid.messages@.last());
    let all = views::views(after.tool_records@);
    let x = views::views(before.tool_records@);
    let y = turn@.tool_records;
    assert(all.len() == after.tool_records@.len());
    assert(x.len() == before.tool_records@.len());
    assert(y.len() == turn.tool_records@.len());
    assert forall|i: int| 0 <= i < before.tool_records@.len() implies (
    #[trigger] after.tool_records@[i])@ == before.tool_records@[i]@ by {
        assert(all[i] == after.tool_records@[i]@);
        assert(x[i] == before.tool_records@[i]@);
    }
    assert forall|i: int| 0 <= i < turn.tool_records@.len() implies (
    #[trigger] turn.tool_records@[i])@ == after.tool_records@[before.tool_records@.len()
        + i]@ by {
        assert(all[x.len() + i] == after.tool_records@[x.len() + i]@);
        assert(y[i] == turn.tool_records@[i]@);
    }
    assert forall|i: int| 0 <= i < more.len() implies #[trigger] more[i]
        == after.tool_records@[before.tool_records@.len() + turn.tool_records@.len() + i]@ by {
        let k = x.len() + y.len() + i;
        assert(all[k] == after.tool_records@[k]@);
    }
}

/// A completed turn is recorded whole: its reply, its reasoning, its text and its
/// tool calls, and its usage together with that of its workers.
pub proof fn lemma_completed_turn_is_recorded(
    before: Session,
    after: Session,
    turn: TurnStream,
    reply: Seq<char>,
    usage: TokenUsage,
    worker_usage: TokenUsage,
)
    requires
        turn_end::turn_added(
            turn_end::with_usage(
                before,
                llm::usage_sum(before.usage_view(), llm::usage_sum(usage, worker_usage)),
            ),
            after,
            ReplyView {
                text: reply,
                reasoning: Some(turn@.pending_reasoning),
                segments: turn_end::unless_empty(turn@.text_segments, false),
                interrupted: false,
            },
            turn@.tool_records,
        ),
    ensures
        recorded(before, after, turn, reply),
        after.tool_records@.len() == before.tool_records@.len() + turn.tool_records@.len(),
        after.interrupted@ == before.interrupted@,
        before.tokens + usage.total_tokens + worker_usage.total_tokens <= u64::MAX ==> after.tokens
            == before.tokens + usage.total_tokens + worker_usage.total_tokens,
        before.input_tokens + usage.input_tokens + worker_usage.input_tokens <= u64::MAX
            ==> after.input_tokens == before.input_tokens + usage.input_tokens
            + worker_usage.input_tokens,
        before.output_tokens + usage.output_tokens + worker_usage.output_tokens <= u64::MAX
            ==> after.output_tokens == before.output_tokens + usage.output_tokens
            + worker_usage.output_tokens,
        before.reasoning_tokens + usage.reasoning_tokens + worker_usage.reasoning_tokens
            <= u64::MAX ==> after.reasoning_tokens == before.reasoning_tokens
            + usage.reasoning_tokens + worker_usage.reasoning_tokens,
        before.cached_tokens + usage.cached_input_tokens + worker_usage.cached_input_tokens
            <= u64::MAX ==> after.cached_tokens == before.cached_tokens
            + usage.cached_input_tokens + worker_usage.cached_input_tokens,
{
    let counted = turn_end::with_usage(
        before,
        llm::usage_sum(before.usage_view(), llm::usage_sum(usage, worker_usage)),
    );
    let r = ReplyView {
        text: reply,
        reasoning: Some(turn@.pending_reasoning),
        segments: turn_end::unless_empty(turn@.text_segments, false),
        interrupted: false,
    };
    let none = Seq::<ToolRecordView>::empty();
    assert(turn@.tool_records + none =~= turn@.tool_records);
    lemma_recorded(counted, after, turn, r, turn@.tool_records, none);
    assert(counted.messages == before.messages && counted.tool_records == before.tool_records);
    assert(recorded(before, after, turn, reply));
}

/// Whether the record is that of a call that was killed.
pub open spec fn is_killed(
    r: ToolRecord,
    call: PendingToolCall,
    row: u64,
    seq: u64,
    now: u64,
) -> bool {
    &&& r.killed && !r.ok
    &&& r.name@ == call.name@
    &&& r.args_json@ == call.args_json@
    &&& views::opt_view(r.worker) == views::opt_view(call.worker)
    &&& r.output@.len() == 0 && r.stderr@.len() == 0
    &&& r.message_id == row && r.message_seq == seq
    &&& r.file_change is None && r.original_content is None && r.new_content is None
    &&& call.started <= now ==> r.duration_ms == now - call.started
}

/// An interrupted turn is recorded with what it streamed, as interrupted, and its
/// calls that never returned follow those that did: as killed, with their
/// arguments and the time they ran.
pub proof fn lemma_interrupted_turn_is_recorded(
    before: Session,
    after: Session,
    turn: TurnStream,
    row: u64,
    now: u64,
)
    requires
        turn_end::turn_added(
            before,
            after,
            ReplyView {
                text: stored::segments_text(turn@.text_segments),
                reasoning: Some(turn@.pending_reasoning),
                segments: turn_end::unless_empty(turn@.text_segments, false),
                interrupted: true,
            },
            turn@.tool_records + turn_end::killed(
                turn@.started_calls,
                row,
                turn.assistant_seq,
                now,
            ),
        ),
    ensures
        recorded(before, after, turn, stored::segments_text(turn@.text_segments)),
        after.interrupted@.contains_key(before.messages@.len() as u64)
            && after.interrupted@[before.messages@.len() as u64],
        after.tool_records@.len() == before.tool_records@.len() + turn.tool_records@.len()
            + turn.started_calls@.len(),
        forall|i: int|
            0 <= i < turn.started_calls@.len() ==> is_killed(
                after.tool_records@[before.tool_records@.len() + turn.tool_records@.len() + i],
                #[trigger] turn.started_calls@[i],
                row,
                turn.assistant_seq,
                now,
            ),
        after.usage_view() == before.usage_view(),
{
    let r = ReplyView {
        text: stored::segments_text(turn@.text_segments),
        reasoning: Some(turn@.pending_reasoning),
        segments: turn_end::unless_empty(turn@.text_segments, false),
        interrupted: true,
    };
    let dead = turn_end::killed(turn@.started_calls, row, turn.assistant_seq, now);
    lemma_recorded(before, after, turn, r, turn@.tool_records + dead, dead);
    assert(turn@.started_calls.len() == turn.started_calls@.len());
    assert forall|i: int| 0 <= i < turn.started_calls@.len() implies is_killed(
        after.tool_records@[before.tool_records@.len() + turn.tool_records@.len() + i],
        #[trigger] turn.started_calls@[i],
        row,
        turn.assistant_seq,
        now,
    ) by {
        assert(turn@.started_calls[i] == turn.started_calls@[i]@);
        assert(dead[i] == after.tool_records@[before.tool_records@.len()
            + turn.tool_records@.len() + i]@);
    }
}

/// A turn that was cut off before its reply had a stored message is recorded the
/// same way, and what follows hangs from the message that it got.
pub proof fn lemma_cut_reply_is_recorded(
    before: Session,
    after: Session,
    turn: TurnStream,
    row: u64,
)
    requires
        turn_end::reply_added(
            Session { leaf_id: Some(row), ..before },
            after,
            ReplyView {
                text: stored::segments_text(turn@.text_segments),
                reasoning: turn_end::unless_empty(turn@.pending_reasoning, false),
                segments: turn_end::unless_empty(turn@.text_segments, false),
                interrupted: true,
            },
        ),
    ensures
        after.messages@.len() == before.messages@.len() + 1,
        after.messages@.last().role == Role::Assistant,
        after.messages@.last().content@ == stored::segments_text(turn@.text_segments),
        after.leaf_id == Some(row),
        after.interrupted@.contains_key(before.messages@.len() as u64)
            && after.interrupted@[before.messages@.len() as u64],
        turn.pending_reasoning@.len() > 0 ==> after.reasoning@.contains_key(
            before.messages@.len() as u64,
        ) && views::views(after.reasoning@[before.messages@.len() as u64]@) == views::views(
            turn.pending_reasoning@,
        ),
        after.tool_records == before.tool_records,
        after.usage_view() == before.usage_view(),
{
    assert(turn@.pending_reasoning.len() == turn.pending_reasoning@.len());
}

/// A failed turn is recorded exactly if the session is stored and anything was
/// streamed for it.
pub proof fn lemma_failures_that_streamed_are_recorded(session: Session, turn: TurnStream)
    ensures
        session.id is None ==> !turn_end::failure_recorded(session, turn),
        session.id is Some && turn.pending_reasoning@.len() > 0 ==> turn_end::failure_recorded(
            session,
            turn,
        ),
        session.id is Some && stored::segments_text(views::views(turn.text_segments@)).len() > 0
            ==> turn_end::failure_recorded(session, turn),
        turn.pending_reasoning@.len() == 0 && turn.text_segments@.len() == 0
            ==> !turn_end::failure_recorded(session, turn),
{
    assert(turn@.pending_reasoning.len() == turn.pending_reasoning@.len());
    assert(turn@.text_segments.len() == turn.text_segments@.len());
    if turn.text_segments@.len() == 0 {
        assert(stored::segments_text(turn@.text_segments).len() == 0);
    }
}

/// The user is told of the reply and then of the session's totals; before them
/// comes what went wrong in storing the turn, where anything did.
pub proof fn lemma_reply_is_told_before_the_totals(
    told: Seq<Closing>,
    failure: Option<String>,
    reply: Seq<char>,
    usage: TokenUsage,
    totals: TokenUsage,
)
    requires
        views::views(told) == turn_end::closing_events(
            views::opt_view(failure),
            reply,
            usage,
            totals,
        ),
    ensures
        ({
            let n = told.len() as int;
            &&& n == if failure is Some {
                3int
            } else {
                2
            }
            &&& told[n - 2] matches Closing::StreamDone { text, usage: u } && text@ == reply && u
                == usage
            &&& told[n - 1] == (Closing::UsageSnapshot { usage: totals })
            &&& failure is Some ==> (told[0] matches Closing::StreamError { error } && error@
                == failure->0@)
        }),
{
    let vs = views::views(told);
    let n = told.len() as int;
    assert(vs.len() == n);
    assert(vs[0] == told[0]@);
    assert(vs[n - 2] == told[n - 2]@);
    assert(vs[n - 1] == told[n - 1]@);
}

/// A prompt is put behind the messages that there are, as the user's.
pub proof fn lemma_prompt_comes_last(before: Session, after: Session, content: Seq<char>)
    requires
        turn_start::prompted(before, after, content),
    ensures
        after.messages@.len() == before.messages@.len() + 1,
        after.messages@.last().role == Role::User,
        after.messages@.last().content@ == content,
        forall|i: int|
            0 <= i < before.messages@.len() ==> #[trigger] after.messages@[i] == before.messages@[i],
        after.leaf_id == before.leaf_id,
        after.tool_records == before.tool_records,
        after.id == before.id,
{
    assert forall|i: int| 0 <= i < before.messages@.len() implies #[trigger] after.messages@[i]
        == before.messages@[i] by {
        assert(after.messages@.drop_last()[i] == after.messages@[i]);
    }
}

/// A prompt in a stored session is stored below its tip. For a session that is not
/// stored one is made first, for the provider and the model in use, under the scene
/// that was picked for it or else the default one.
pub proof fn lemma_prompt_is_stored_below_the_tip(
    session: Session,
    content: Seq<char>,
    max_chars: nat,
    active: Option<Active>,
    default_scene: Option<String>,
    a: TurnAction,
)
    requires
        a@ == turn_start::begun(
            session,
            content,
            max_chars,
            views::opt_view(active),
            views::opt_view(default_scene),
        ),
    ensures
        session.id matches Some(i) ==> (a matches TurnAction::Append { id, parent, content: c } && id
            == i && parent == session.leaf_id && c@ == content),
        session.id is None ==> {
            &&& a matches TurnAction::CreateSession { title, provider, model, scene }
            &&& text::trimmed(content).len() == 0 ==> title@ == "Untitled session"@
            &&& active is None ==> provider is None && model is None
            &&& active matches Some(x) ==> provider is Some && provider->0@ == x.provider@
                && views::opt_view(model) == views::opt_view(x.model)
            &&& session.scene is Some ==> scene is Some && scene->0@ == session.scene->0@
            &&& session.scene is None ==> views::opt_view(scene) == views::opt_view(default_scene)
        },
{
}

/// Once a new session is made it is reported with its title and scene, a title is
/// drafted from the prompt where that is wanted, and the prompt is stored in it.
pub proof fn lemma_new_session_takes_the_prompt(
    session: Session,
    id: SessionId,
    auto_gen: bool,
    content: Seq<char>,
    actions: Seq<TurnAction>,
)
    requires
        views::views(actions) == turn_start::after_lock(session, id, auto_gen, content),
    ensures
        actions.len() == if auto_gen {
            3int
        } else {
            2
        },
        actions[0] matches TurnAction::SessionCreated { id: i, title, scene } && i == id
            && views::opt_view(title) == views::opt_view(session.title) && views::opt_view(scene)
            == views::opt_view(session.scene),
        auto_gen ==> (actions[1] matches TurnAction::DraftTitle { id: i, expected, prompt } && i
            == id && views::opt_view(expected) == views::opt_view(session.title) && prompt@
            == content),
        actions.last() matches TurnAction::Append { id: i, parent, content: c } && i == id && parent
            == session.leaf_id && c@ == content,
{
    let vs = views::views(actions);
    assert(vs.len() == actions.len());
    assert(vs[0] == actions[0]@);
    assert(vs[1] == actions[1]@);
    assert(vs[vs.len() - 1] == actions[actions.len() - 1]@);
}

/// A prompt that was stored is indexed where that is on, reported and then sent
/// with the model it asks for; one that could not be stored is not.
pub proof fn lemma_stored_prompt_is_sent(
    session: Session,
    content: Seq<char>,
    steered: bool,
    model: Option<Seq<char>>,
    indexed: bool,
    outcome: Result<u64, Seq<char>>,
    actions: Seq<TurnAction>,
)
    requires
        0 < session.messages@.len() <= u64::MAX,
        views::views(actions) == turn_start::after_append(
            session,
            content,
            steered,
            model,
            indexed,
            outcome,
        ),
    ensures
        outcome is Err ==> actions.len() == 1 && (actions[0] matches TurnAction::StreamError {
            error,
        } && error@ == "failed to persist message: "@ + outcome->Err_0),
        outcome is Ok ==> {
            let n = actions.len() as int;
            &&& n == if indexed {
                3int
            } else {
                2
            }
            &&& indexed ==> (actions[0] matches TurnAction::Index { row, id, seq, content: c } && row
                == outcome->Ok_0 && id == session.id && seq == session.messages@.len() - 1 && c@
                == content)
            &&& actions[n - 2] matches TurnAction::TurnStarted { content: c, steered: s } && c@
                == content && s == steered
            &&& actions[n - 1] matches TurnAction::Send { content: c, model: m } && c@ == content
                && views::opt_view(m) == model
        },
{
    let vs = views::views(actions);
    let n = actions.len() as int;
    assert(vs.len() == n);
    assert(vs[0] == actions[0]@);
    if outcome is Ok {
        assert(vs[n - 2] == actions[n - 2]@);
        assert(vs[n - 1] == actions[n - 1]@);
    }
}

/// The preamble begins with the scene's own text where it has one, and else with
/// the built-in one; the skills come behind it, and the note on searching ends it
/// where there is a search tool.
pub proof fn lemma_preamble_tells_of_the_scene(
    prelude: Option<Seq<char>>,
    section: Option<Seq<char>>,
    web_search: bool,
)
    ensures
        ({
            let told = request::base_text(prelude, section, web_search);
            &&& prelude matches Some(p) ==> text::has_prefix(told, p)
            &&& prelude is None ==> text::has_prefix(told, request::AGENT_PREAMBLE@)
            &&& section matches Some(s) ==> text::occurs(told, "\n\n"@ + s)
            &&& web_search ==> text::has_suffix(told, request::WEB_SEARCH_NOTE@)
            &&& !web_search && section is None && prelude is Some ==> told == prelude->0
            &&& !web_search && section is Some ==> text::has_suffix(told, section->0)
        }),
{
    let told = request::base_text(prelude, section, web_search);
    let start = match prelude {
        Some(p) => p,
        None => request::AGENT_PREAMBLE@,
    };
    let note = if web_search {
        request::WEB_SEARCH_NOTE@
    } else {
        Seq::empty()
    };
    assert(told.take(start.len() as int) =~= start);
    if section is Some {
        let part = "\n\n"@ + section->0;
        let i = start.len() as int;
        assert(told.subrange(i, i + part.len()) =~= part);
        assert(text::occurs_at(told, part, i));
        if !web_search {
            assert(told.skip(told.len() - section->0.len()) =~= section->0);
        }
    }
    if web_search {
        assert(told.skip(told.len() - note.len()) =~= note);
    }
}

/// The context files end the preamble where there are any, and else nothing is
/// added to it.
pub proof fn lemma_preamble_ends_with_the_context(
    base: Seq<char>,
    context: crate::context::ContextView,
)
    ensures
        ({
            let sent = request::preamble_sent(base, context);
            &&& text::has_prefix(sent, base)
            &&& context.files.len() == 0 ==> sent == base
            &&& context.files.len() > 0 ==> text::has_suffix(sent, context.content) && sent.len()
                > base.len() + context.content.len()
        }),
{
    let sent = request::preamble_sent(base, context);
    assert(sent.take(base.len() as int) =~= base);
    reveal_strlit(
        "\n\nProject context files are loaded from the workspace. Read them carefully and follow their instructions; they describe the project's structure, conventions, and workflows.\n\n",
    );
    if context.files.len() > 0 {
        assert(sent.skip(sent.len() - context.content.len()) =~= context.content);
    }
}

/// What the user and the model said is sent as it was said, in its order, whatever
/// the scene adds; the scene comes first where the model is told of it.
pub proof fn lemma_conversation_is_sent_as_it_was(
    scene: Scene,
    prior: Seq<ChatView>,
    announce: bool,
)
    ensures
        scenes::conversation(request::history_sent(scene, prior, announce))
            == scenes::conversation(prior),
        announce && scene.interlude_text() is Some ==> {
            let sent = request::history_sent(scene, prior, announce);
            sent.len() > 0 && sent[0].role == Role::System && sent[0].content
                == scene.interlude_text()->0
        },
{
    let said = scenes::wrapped_all(prior, scene.before(), scene.after());
    scenes::lemma_injection_keeps_conversation(prior, scene.before(), scene.after());
    let top = if announce {
        scenes::announcement(scene)
    } else {
        Seq::empty()
    };
    let end = scenes::opening(scene.before());
    scenes::lemma_conversation_of_prompts(top);
    scenes::lemma_conversation_of_prompts(end);
    scenes::lemma_conversation_concat(said, end);
    scenes::lemma_conversation_concat(top, said + end);
    assert(request::history_sent(scene, prior, announce) =~= top + (said + end));
    assert(scenes::conversation(said) + scenes::conversation(end) =~= scenes::conversation(said));
    assert(scenes::conversation(top) + scenes::conversation(said + end) =~= scenes::conversation(
        said + end,
    ));
}

/// The conversation before the prompt: all of it from the newest summary on, or
/// nothing where the prompt is the first message.
pub proof fn lemma_prompt_is_no_part_of_the_history(session: Session)
    requires
        session.summaries@.len() == 0,
    ensures
        session.messages@.len() <= 1 ==> request::prior_of(session).len() == 0,
        session.messages@.len() > 1 ==> request::prior_of(session).len()
            == session.messages@.len() - 1 && forall|i: int|
            0 <= i < session.messages@.len() - 1 ==> (#[trigger] request::prior_of(session)[i])
                == session.messages@[i]@,
{
    let all = views::views(session.messages@);
    assert(all.len() == session.messages@.len());
    assert(session.send_start() == 0);
    if session.messages@.len() > 1 {
        assert forall|i: int| 0 <= i < session.messages@.len() - 1 implies (
        #[trigger] request::prior_of(session)[i]) == session.messages@[i]@ by {
            assert(all[i] == session.messages@[i]@);
        }
    }
}

/// Another scene cannot be entered while a turn runs, nor one that is not there;
/// once there are messages only one that says how to go on. The built-in scene,
/// and the one that the session is under, always can.
pub proof fn lemma_scenes_that_can_be_entered(
    all: Seq<(Seq<char>, scenes::SceneConfig)>,
    busy: bool,
    session: Option<(Option<Seq<char>>, bool)>,
    name: Option<Seq<char>>,
)
    ensures
        busy ==> request::switch_fault(all, busy, session, name) is Some,
        !busy && name is None ==> request::switch_fault(all, busy, session, name) is None,
        !busy && name is Some && text_map::lookup(all, name->0) is None ==> request::switch_fault(
            all,
            busy,
            session,
            name,
        ) == Some("unknown scene `"@ + name->0 + "`"@),
        !busy && name is Some && text_map::lookup(all, name->0) is Some ==> {
            let c = text_map::lookup(all, name->0)->0;
            let says = c.system_prompts.interlude is Some && text::trimmed(
                c.system_prompts.interlude->0@,
            ).len() > 0;
            let amid = session matches Some((current, talked)) && talked && current != name;
            request::switch_fault(all, busy, session, name) is Some <==> amid && !says
        },
{
}

/// Of the preferred providers that speak the transport the last one is taken, and
/// without one the first of all that do.
pub proof fn lemma_last_preferred_provider_is_taken(
    ids: Seq<Seq<char>>,
    providers: Seq<(Seq<char>, ProviderConfigView)>,
    known: Seq<CatalogProvider>,
    transport: Transport,
)
    ensures
        forall|k: int|
            0 <= k < ids.len() && target::speaks(providers, known, #[trigger] ids[k], transport)
                && (forall|j: int|
                k < j < ids.len() ==> !target::speaks(
                    providers,
                    known,
                    #[trigger] ids[j],
                    transport,
                )) ==> target::provider_for(ids, providers, known, transport) == Some(ids[k]),
        (forall|j: int|
            0 <= j < ids.len() ==> !target::speaks(providers, known, #[trigger] ids[j], transport))
            ==> forall|k: int|
            0 <= k < providers.len() && catalog::transport_for(
                known,
                (#[trigger] providers[k]).1.kind,
            ) == transport && (forall|j: int|
                0 <= j < k ==> catalog::transport_for(known, (#[trigger] providers[j]).1.kind)
                    != transport) ==> target::provider_for(ids, providers, known, transport)
                == Some(providers[k].0),
{
    lemma_preferred(ids, providers, known, transport);
    lemma_first(providers, known, transport, 0);
}

proof fn lemma_preferred(
    ids: Seq<Seq<char>>,
    providers: Seq<(Seq<char>, ProviderConfigView)>,
    known: Seq<CatalogProvider>,
    transport: Transport,
)
    ensures
        match target::preferred(ids, providers, known, transport) {
            Some(id) => exists|k: int|
                0 <= k < ids.len() && #[trigger] ids[k] == id && target::speaks(
                    providers,
                    known,
                    id,
                    transport,
                ) && forall|j: int|
                    k < j < ids.len() ==> !target::speaks(
                        providers,
                        known,
                        #[trigger] ids[j],
                        transport,
                    ),
            None => forall|j: int|
                0 <= j < ids.len() ==> !target::speaks(
                    providers,
                    known,
                    #[trigger] ids[j],
                    transport,
                ),
        },
    decreases ids.len(),
{
    if ids.len() > 0 {
        let d = ids.drop_last();
        let n = ids.len() - 1;
        assert(ids.last() == ids[n]);
        lemma_preferred(d, providers, known, transport);
        assert(forall|j: int| 0 <= j < d.len() ==> d[j] == ids[j]);
        if !target::speaks(providers, known, ids[n], transport) {
            if let Some(id) = target::preferred(d, providers, known, transport) {
                let k = choose|k: int|
                    0 <= k < d.len() && #[trigger] d[k] == id && target::speaks(
                        providers,
                        known,
                        id,
                        transport,
                    ) && forall|j: int|
                        k < j < d.len() ==> !target::speaks(
                            providers,
                            known,
                            #[trigger] d[j],
                            transport,
                        );
                assert(ids[k] == id);
                assert forall|j: int| k < j < ids.len() implies !target::speaks(
                    providers,
                    known,
                    #[trigger] ids[j],
                    transport,
                ) by {
                    if j < n {
                        assert(d[j] == ids[j]);
                    }
                }
            }
        }
    }
}

proof fn lemma_first(
    providers: Seq<(Seq<char>, ProviderConfigView)>,
    known: Seq<CatalogProvider>,
    transport: Transport,
    i: int,
)
    requires
        0 <= i,
    ensures
        forall|k: int|
            i <= k < providers.len() && catalog::transport_for(
                known,
                (#[trigger] providers[k]).1.kind,
            ) == transport && (forall|j: int|
                i <= j < k ==> catalog::transport_for(known, (#[trigger] providers[j]).1.kind)
                    != transport) ==> target::first_of(providers, known, transport, i)
                == Some(providers[k].0),
    decreases providers.len() - i,
{
    if i < providers.len() {
        if catalog::transport_for(known, providers[i].1.kind) != transport {
            lemma_first(providers, known, transport, i + 1);
        } else {
            assert forall|k: int|
                i <= k < providers.len() && catalog::transport_for(
                    known,
                    (#[trigger] providers[k]).1.kind,
                ) == transport && (forall|j: int|
                    i <= j < k ==> catalog::transport_for(
                        known,
                        (#[trigger] providers[j]).1.kind,
                    ) != transport) implies k == i by {
                if k > i {
                    assert(catalog::transport_for(known, providers[i].1.kind) != transport);
                }
            }
        }
    }
}

/// A turn without a model of its own goes to the provider and the model in use, and
/// nowhere where one of them is not chosen.
pub proof fn lemma_turn_goes_to_the_model_in_use(
    connections: Connections,
    ids: Seq<Seq<char>>,
    known: Seq<CatalogProvider>,
)
    ensures
        match connections.active {
            Some(a) => match a.model {
                Some(m) => target::turn_target(connections, ids, known, None) == Ok::<
                    (Seq<char>, Seq<char>),
                    Seq<char>,
                >((a.provider@, m@)),
                None => target::turn_target(connections, ids, known, None) is Err,
            },
            None => target::turn_target(connections, ids, known, None) is Err,
        },
{
}

/// The model's own context length counts where the catalog knows one, and else the
/// fallback.
pub proof fn lemma_known_length_counts(
    config: crate::config::ContextConfig,
    provider: CatalogProvider,
    model: Seq<char>,
)
    ensures
        catalog::context_of(provider, model) matches Some(n) ==> n >= 0 ==> target::length_for(
            config,
            Some(&provider),
            model,
        ) == n,
        catalog::context_of(provider, model) is None ==> target::length_for(
            config,
            Some(&provider),
            model,
        ) == config.fallback_context_length,
        target::length_for(config, None, model) == config.fallback_context_length,
{
}

/// The history goes from the newest summary before the prompt up to the prompt: the
/// summary comes first, and nothing that it stands for goes along.
pub proof fn lemma_history_begins_with_the_newest_summary(session: Session, k: int)
    requires
        session.messages@.len() > 1,
        0 <= k < session.messages@.len() - 1,
        k > 0 ==> exists|i: int|
            0 <= i < session.summaries@.len() && #[trigger] session.summaries@[i] == k,
        forall|i: int|
            0 <= i < session.summaries@.len() && session.summaries@[i] < session.messages@.len() - 1
                ==> #[trigger] session.summaries@[i] <= k,
    ensures
        request::prior_of(session).len() == session.messages@.len() - 1 - k,
        forall|i: int|
            0 <= i < request::prior_of(session).len() ==> (#[trigger] request::prior_of(
                session,
            )[i]) == session.messages@[k + i]@,
{
    let all = views::views(session.messages@);
    let end = session.messages@.len() - 1;
    let start = session.send_start();
    session::lemma_newest_before(session.summaries@, end);
    assert(all.len() == session.messages@.len());
    assert(start == k) by {
        if k > 0 {
            let i = choose|i: int|
                0 <= i < session.summaries@.len() && #[trigger] session.summaries@[i] == k;
            assert(session.summaries@[i] <= start);
        }
        if start > 0 {
            let i = choose|i: int|
                0 <= i < session.summaries@.len() && session.summaries@[i] == start;
            assert(session.summaries@[i] <= k);
        }
    }
    assert forall|i: int| 0 <= i < request::prior_of(session).len() implies (
    #[trigger] request::prior_of(session)[i]) == session.messages@[k + i]@ by {
        assert(all[k + i] == session.messages@[k + i]@);
    }
}

/// A length below nothing that the catalog knows counts as none at all, and is not
/// replaced by the fallback.
pub proof fn lemma_negative_length_counts_as_none(
    config: crate::config::ContextConfig,
    provider: CatalogProvider,
    model: Seq<char>,
)
    ensures
        catalog::context_of(provider, model) matches Some(n) ==> n < 0 ==> target::length_for(
            config,
            Some(&provider),
            model,
        ) == 0,
{
}

}
