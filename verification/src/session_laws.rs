//! What holds of every session that is stored, reopened, forked and undone.

use crate::core_task::tree;
use crate::core_task::tree::ForkPlan;
use crate::llm;
use crate::llm::{ChatMsg, Role, TokenUsage};
use crate::session;
use crate::session::{Session, TreeNode};
use crate::stored;
use crate::stored::{StoredMessage, StoredSession, StoredToolCall};
use crate::text;
use crate::tool_record;
use crate::tool_record::{ToolRecord, ToolRecordView};
use crate::views;
use vstd::prelude::*;

verus! {

/// Whether two optional texts are the same.
pub open spec fn same_text(a: Option<String>, b: Option<String>) -> bool {
    match (a, b) {
        (Some(x), Some(y)) => x@ == y@,
        (None, None) => true,
        _ => false,
    }
}

/// Whether the record holds what was stored of the call.
pub open spec fn records(r: ToolRecord, tc: StoredToolCall) -> bool {
    &&& r.name@ == tc.name@
    &&& r.args_json@ == tc.args_json@
    &&& r.output@ == tc.output@
    &&& r.stderr@ == tc.stderr@
    &&& r.ok == tc.ok
    &&& r.killed == tc.killed
    &&& same_text(r.worker, tc.worker)
    &&& r.message_id == tc.message_id
    &&& views::opt_view(r.file_change) == views::opt_view(tc.file_change)
    &&& same_text(r.original_content, tc.original_content)
    &&& same_text(r.new_content, tc.new_content)
    &&& r.duration_ms == tc.duration_ms
}

/// The record of a stored call holds everything that was stored of it.
pub proof fn lemma_record_holds_the_stored_call(r: ToolRecord, tc: StoredToolCall)
    requires
        r@ == tool_record::record_of(tc),
    ensures
        records(r, tc),
        r.message_seq == tc.seq,
{
}

proof fn lemma_place_of(ids: Seq<u64>, id: u64)
    ensures
        match tool_record::place_of(ids, id) {
            Some(i) => 0 <= i < ids.len() && ids[i] == id && forall|j: int|
                i < j < ids.len() ==> #[trigger] ids[j] != id,
            None => !ids.contains(id),
        },
    decreases ids.len(),
{
    if ids.len() > 0 {
        let d = ids.drop_last();
        lemma_place_of(d, id);
        assert(forall|j: int| 0 <= j < d.len() ==> d[j] == ids[j]);
        if ids.last() != id && ids.contains(id) {
            let j = choose|j: int| 0 <= j < ids.len() && ids[j] == id;
            assert(d[j] == id);
        }
    }
}

proof fn lemma_call_is_recorded(
    calls: Seq<StoredToolCall>,
    ids: Seq<u64>,
    from: int,
    to: int,
    c: int,
)
    requires
        0 <= c < calls.len(),
        tool_record::place_of(ids, calls[c].message_id) is Some,
        from <= tool_record::place_of(ids, calls[c].message_id)->0 < to,
    ensures
        exists|j: int|
            0 <= j < tool_record::records_on(calls, ids, from, to).len() && (
            #[trigger] tool_record::records_on(calls, ids, from, to)[j]) == (ToolRecordView {
                message_seq: tool_record::place_of(ids, calls[c].message_id)->0 as u64,
                ..tool_record::record_of(calls[c])
            }),
    decreases calls.len(),
{
    let all = tool_record::records_on(calls, ids, from, to);
    let d = calls.drop_last();
    let before = tool_record::records_on(d, ids, from, to);
    if c == calls.len() - 1 {
        assert(all[before.len() as int] == (ToolRecordView {
            message_seq: tool_record::place_of(ids, calls[c].message_id)->0 as u64,
            ..tool_record::record_of(calls[c])
        }));
    } else {
        assert(d[c] == calls[c]);
        lemma_call_is_recorded(d, ids, from, to, c);
        let j = choose|j: int|
            0 <= j < before.len() && (#[trigger] before[j]) == (ToolRecordView {
                message_seq: tool_record::place_of(ids, calls[c].message_id)->0 as u64,
                ..tool_record::record_of(calls[c])
            });
        assert(all[j] == before[j]);
    }
}

proof fn lemma_record_is_of_a_call(
    calls: Seq<StoredToolCall>,
    ids: Seq<u64>,
    from: int,
    to: int,
    j: int,
)
    requires
        0 <= j < tool_record::records_on(calls, ids, from, to).len(),
    ensures
        exists|c: int|
            0 <= c < calls.len() && tool_record::place_of(ids, (#[trigger] calls[c]).message_id)
                is Some && from <= tool_record::place_of(ids, calls[c].message_id)->0 < to
                && tool_record::records_on(calls, ids, from, to)[j] == (ToolRecordView {
                message_seq: tool_record::place_of(ids, calls[c].message_id)->0 as u64,
                ..tool_record::record_of(calls[c])
            }),
        tool_record::records_on(calls, ids, from, to).len() <= calls.len(),
    decreases calls.len(),
{
    let all = tool_record::records_on(calls, ids, from, to);
    if calls.len() > 0 {
        let d = calls.drop_last();
        let before = tool_record::records_on(d, ids, from, to);
        if j < before.len() {
            lemma_record_is_of_a_call(d, ids, from, to, j);
            let c = choose|c: int|
                0 <= c < d.len() && tool_record::place_of(ids, (#[trigger] d[c]).message_id)
                    is Some && from <= tool_record::place_of(ids, d[c].message_id)->0 < to
                    && before[j] == (ToolRecordView {
                    message_seq: tool_record::place_of(ids, d[c].message_id)->0 as u64,
                    ..tool_record::record_of(d[c])
                });
            assert(calls[c] == d[c]);
            assert(all[j] == before[j]);
        } else {
            if before.len() > 0 {
                lemma_record_is_of_a_call(d, ids, from, to, before.len() - 1);
            }
            assert(calls.last() == calls[calls.len() - 1]);
        }
    }
}

/// A tool call survives being stored and reopened: each call of a message on the
/// active path has a record with all that was stored of it, at the place of its
/// message on the path.
pub proof fn lemma_calls_survive_reopening(s: Session, st: StoredSession, c: int, k: int)
    requires
        session::restored(s, st),
        0 <= c < st.tool_calls@.len(),
        0 <= k < stored::active_path(st.messages@, st.leaf_id).len(),
        k <= u64::MAX,
        stored::active_path(st.messages@, st.leaf_id)[k] == st.tool_calls@[c].message_id,
    ensures
        exists|j: int|
            0 <= j < s.tool_records@.len() && records(
                #[trigger] s.tool_records@[j],
                st.tool_calls@[c],
            ) && s.tool_records@[j].message_seq == k,
{
    let path = stored::active_path(st.messages@, st.leaf_id);
    stored::lemma_active_path(st.messages@, st.leaf_id);
    let tc = st.tool_calls@[c];
    lemma_place_of(path, tc.message_id);
    assert(path.contains(path[k]));
    let at = tool_record::place_of(path, tc.message_id)->0;
    assert(at == k);
    lemma_call_is_recorded(st.tool_calls@, path, 0, path.len() as int, c);
    let rs = tool_record::records_on(st.tool_calls@, path, 0, path.len() as int);
    let j = choose|j: int|
        0 <= j < rs.len() && (#[trigger] rs[j]) == (ToolRecordView {
            message_seq: at as u64,
            ..tool_record::record_of(tc)
        });
    assert(views::views(s.tool_records@)[j] == s.tool_records@[j]@);
    assert(records(s.tool_records@[j], tc));
}

/// A reopened session has no tool record but of a stored call of a message on the
/// active path.
pub proof fn lemma_no_call_is_made_up(s: Session, st: StoredSession, j: int)
    requires
        session::restored(s, st),
        0 <= j < s.tool_records@.len(),
    ensures
        exists|c: int|
            0 <= c < st.tool_calls@.len() && records(
                s.tool_records@[j],
                #[trigger] st.tool_calls@[c],
            ) && stored::active_path(st.messages@, st.leaf_id).contains(
                st.tool_calls@[c].message_id,
            ),
        s.tool_records@.len() <= st.tool_calls@.len(),
{
    let path = stored::active_path(st.messages@, st.leaf_id);
    let n = path.len() as int;
    let rs = tool_record::records_on(st.tool_calls@, path, 0, n);
    assert(rs.len() == s.tool_records@.len());
    assert(rs[j] == s.tool_records@[j]@) by {
        assert(views::views(s.tool_records@)[j] == s.tool_records@[j]@);
    }
    lemma_record_is_of_a_call(st.tool_calls@, path, 0, n, j);
    let c = choose|c: int|
        0 <= c < st.tool_calls@.len() && tool_record::place_of(
            path,
            (#[trigger] st.tool_calls@[c]).message_id,
        ) is Some && 0 <= tool_record::place_of(path, st.tool_calls@[c].message_id)->0 < n && rs[j]
            == (ToolRecordView {
            message_seq: tool_record::place_of(path, st.tool_calls@[c].message_id)->0 as u64,
            ..tool_record::record_of(st.tool_calls@[c])
        });
    lemma_place_of(path, st.tool_calls@[c].message_id);
    assert(records(s.tool_records@[j], st.tool_calls@[c]));
}

/// A reopened session says what was stored: each message of the active path with
/// its role, its content, what was reasoned and streamed for it, and whether it
/// was interrupted.
pub proof fn lemma_messages_survive_reopening(s: Session, st: StoredSession, k: int)
    requires
        session::restored(s, st),
        0 <= k < stored::active_path(st.messages@, st.leaf_id).len(),
        stored::active_path(st.messages@, st.leaf_id).len() <= u64::MAX,
    ensures
        ({
            let id = stored::active_path(st.messages@, st.leaf_id)[k];
            let m = st.messages@[stored::index_of(st.messages@, id)->0];
            let key = k as u64;
            &&& s.messages@.len() == stored::active_path(st.messages@, st.leaf_id).len()
            &&& m.id == id
            &&& s.messages@[k].role == m.role
            &&& s.messages@[k].content@ == m.content@
            &&& m.reasoning@.len() > 0 ==> s.reasoning@.contains_key(key) && views::views(
                s.reasoning@[key]@,
            ) == views::views(m.reasoning@)
            &&& m.reasoning@.len() == 0 ==> !s.reasoning@.contains_key(key)
            &&& m.text_segments@.len() > 0 ==> s.text_segments@.contains_key(key) && views::views(
                s.text_segments@[key]@,
            ) == views::views(m.text_segments@)
            &&& m.text_segments@.len() == 0 ==> !s.text_segments@.contains_key(key)
            &&& m.interrupted == (s.interrupted@.contains_key(key) && s.interrupted@[key])
            &&& m.summary == s.summaries@.contains(key)
        }),
{
    let path = stored::active_path(st.messages@, st.leaf_id);
    let ms = session::path_messages(st.messages@, path);
    let key = k as u64;
    assert(stored::index_of(st.messages@, path[k]) is Some) by {
        stored::lemma_active_path(st.messages@, st.leaf_id);
    }
    assert(ms[k].id == path[k]) by {
        stored::lemma_index_of(st.messages@, path[k]);
    }
    assert(views::views(s.messages@).len() == s.messages@.len());
    assert(views::views(s.messages@)[k] == s.messages@[k]@);
    lemma_keyed(s, ms, key);
    lemma_summary_places(ms, key);
}

proof fn lemma_keyed(s: Session, ms: Seq<StoredMessage>, key: u64)
    requires
        session::keyed_by_path(s, ms),
        key < ms.len(),
    ensures
        ({
            let m = ms[key as int];
            &&& m.reasoning@.len() > 0 ==> s.reasoning@.contains_key(key) && views::views(
                s.reasoning@[key]@,
            ) == views::views(m.reasoning@)
            &&& m.reasoning@.len() == 0 ==> !s.reasoning@.contains_key(key)
            &&& m.text_segments@.len() > 0 ==> s.text_segments@.contains_key(key) && views::views(
                s.text_segments@[key]@,
            ) == views::views(m.text_segments@)
            &&& m.text_segments@.len() == 0 ==> !s.text_segments@.contains_key(key)
            &&& m.interrupted == (s.interrupted@.contains_key(key) && s.interrupted@[key])
        }),
{
}

proof fn lemma_summary_places(ms: Seq<StoredMessage>, key: u64)
    ensures
        session::summary_places(ms).contains(key) ==> key < ms.len() && ms[key as int].summary
            || ms.len() > u64::MAX,
        key < ms.len() && ms[key as int].summary ==> session::summary_places(ms).contains(key),
    decreases ms.len(),
{
    let all = session::summary_places(ms);
    if ms.len() > 0 {
        let d = ms.drop_last();
        let before = session::summary_places(d);
        lemma_summary_places(d, key);
        if before.contains(key) {
            let i = choose|i: int| 0 <= i < before.len() && before[i] == key;
            assert(all[i] == key);
        }
        if key == ms.len() - 1 && ms.last().summary {
            assert(all[before.len() as int] == key);
        }
        if all.contains(key) && !before.contains(key) {
            let i = choose|i: int| 0 <= i < all.len() && all[i] == key;
            if i < before.len() {
                assert(before[i] == key);
            }
        }
    } else {
        assert(all =~= Seq::empty());
    }
}

/// A reopened session keeps its id, title, scene and scroll position, and hangs new
/// messages from where it was left; an emptied path hangs them from nowhere.
pub proof fn lemma_session_keeps_its_place(s: Session, st: StoredSession)
    requires
        session::restored(s, st),
    ensures
        s.id == Some(st.id),
        s.title matches Some(t) && t@ == st.title@,
        same_text(s.scene, st.scene),
        s.scroll.offset == st.scroll.offset,
        s.scroll.follow == st.scroll.follow,
        st.leaf_id == Some(0u64) ==> s.leaf_id is None,
        st.leaf_id != Some(0u64) ==> s.leaf_id == st.leaf_id,
{
}

/// The tree of a reopened session has a node for every stored message, also off
/// the active path, with what was stored of it and the calls that it made.
pub proof fn lemma_tree_holds_every_message(s: Session, st: StoredSession, i: int)
    requires
        session::restored(s, st),
        0 <= i < st.messages@.len(),
        forall|j: int|
            0 <= j < st.messages@.len() && j != i ==> (#[trigger] st.messages@[j]).id
                != st.messages@[i].id,
    ensures
        ({
            let (n, m) = (s.nodes@[i], st.messages@[i]);
            &&& s.nodes@.len() == st.messages@.len()
            &&& n.id == m.id
            &&& n.parent == m.parent_id
            &&& n.role == m.role
            &&& n.seq == m.seq
            &&& n.content@ == m.content@
            &&& n.summary == m.summary
            &&& n.interrupted == m.interrupted
            &&& n.on_path == stored::active_path(st.messages@, st.leaf_id).contains(m.id)
            &&& forall|c: int|
                0 <= c < st.tool_calls@.len() && (#[trigger] st.tool_calls@[c]).message_id == m.id
                    ==> exists|t: int|
                    0 <= t < n.tools@.len() && (#[trigger] n.tools@[t]).name@
                        == st.tool_calls@[c].name@ && n.tools@[t].ok == st.tool_calls@[c].ok
                        && n.tools@[t].killed == st.tool_calls@[c].killed && same_text(
                        n.tools@[t].worker,
                        st.tool_calls@[c].worker,
                    )
        }),
{
    let path = stored::active_path(st.messages@, st.leaf_id);
    let (n, m) = (s.nodes@[i], st.messages@[i]);
    assert(n@ == session::node_of(st, path, i));
    stored::lemma_index_of(st.messages@, m.id);
    match stored::index_of(st.messages@, m.id) {
        Some(x) => {
            if x != i {
                assert(st.messages@[x].id != m.id);
            }
        },
        None => {
            assert(st.messages@[i].id != m.id);
        },
    }
    assert(session::first_of_id(st.messages@, i));
    let tools = session::calls_of(st.tool_calls@, m.id);
    assert(views::views(n.tools@) == tools);
    assert forall|c: int|
        0 <= c < st.tool_calls@.len() && (#[trigger] st.tool_calls@[c]).message_id
            == m.id implies exists|t: int|
        0 <= t < n.tools@.len() && (#[trigger] n.tools@[t]).name@ == st.tool_calls@[c].name@
            && n.tools@[t].ok == st.tool_calls@[c].ok && n.tools@[t].killed
            == st.tool_calls@[c].killed && same_text(
            n.tools@[t].worker,
            st.tool_calls@[c].worker,
        ) by {
        lemma_call_of_node(st.tool_calls@, m.id, c);
        let tc = st.tool_calls@[c];
        let t = choose|t: int|
            0 <= t < tools.len() && (#[trigger] tools[t]).name == tc.name@ && tools[t].ok == tc.ok
                && tools[t].killed == tc.killed && tools[t].worker == views::opt_view(tc.worker);
        assert(views::views(n.tools@)[t] == n.tools@[t]@);
        assert(n.tools@[t].name@ == tc.name@);
    }
}

proof fn lemma_call_of_node(calls: Seq<StoredToolCall>, id: u64, c: int)
    requires
        0 <= c < calls.len(),
        calls[c].message_id == id,
    ensures
        ({
            let tools = session::calls_of(calls, id);
            exists|t: int|
                0 <= t < tools.len() && (#[trigger] tools[t]).name == calls[c].name@ && tools[t].ok
                    == calls[c].ok && tools[t].killed == calls[c].killed && tools[t].worker
                    == views::opt_view(calls[c].worker)
        }),
    decreases calls.len(),
{
    let d = calls.drop_last();
    let before = session::calls_of(d, id);
    let tools = session::calls_of(calls, id);
    if c == calls.len() - 1 {
        assert(tools[before.len() as int].name == calls[c].name@);
    } else {
        assert(d[c] == calls[c]);
        lemma_call_of_node(d, id, c);
        let t = choose|t: int|
            0 <= t < before.len() && (#[trigger] before[t]).name == d[c].name@ && before[t].ok
                == d[c].ok && before[t].killed == d[c].killed && before[t].worker
                == views::opt_view(d[c].worker);
        assert(tools[t] == before[t]);
    }
}

/// Usage adds up count by count, and stops at the largest number.
pub proof fn lemma_usage_adds_up(a: TokenUsage, b: TokenUsage)
    ensures
        ({
            let sum = llm::usage_sum(a, b);
            &&& a.input_tokens + b.input_tokens <= u64::MAX ==> sum.input_tokens == a.input_tokens
                + b.input_tokens
            &&& a.output_tokens + b.output_tokens <= u64::MAX ==> sum.output_tokens
                == a.output_tokens + b.output_tokens
            &&& a.total_tokens + b.total_tokens <= u64::MAX ==> sum.total_tokens == a.total_tokens
                + b.total_tokens
            &&& a.cached_input_tokens + b.cached_input_tokens <= u64::MAX
                ==> sum.cached_input_tokens == a.cached_input_tokens + b.cached_input_tokens
            &&& a.reasoning_tokens + b.reasoning_tokens <= u64::MAX ==> sum.reasoning_tokens
                == a.reasoning_tokens + b.reasoning_tokens
            &&& a.input_tokens + b.input_tokens > u64::MAX ==> sum.input_tokens == u64::MAX
            &&& a.output_tokens + b.output_tokens > u64::MAX ==> sum.output_tokens == u64::MAX
            &&& a.total_tokens + b.total_tokens > u64::MAX ==> sum.total_tokens == u64::MAX
        }),
        llm::usage_sum(a, b) == llm::usage_sum(b, a),
        llm::usage_sum(a, llm::no_usage()) == a,
{
}

/// The sum of one count over the messages.
pub open spec fn summed(ms: Seq<StoredMessage>, count: spec_fn(TokenUsage) -> u64) -> int
    decreases ms.len(),
{
    if ms.len() == 0 {
        0
    } else {
        summed(ms.drop_last(), count) + count(ms.last().usage)
    }
}

proof fn lemma_totals(ms: Seq<StoredMessage>)
    ensures
        ({
            let total = session::total_usage(ms);
            let all = summed(ms, |u: TokenUsage| u.total_tokens);
            let input = summed(ms, |u: TokenUsage| u.input_tokens);
            let output = summed(ms, |u: TokenUsage| u.output_tokens);
            &&& all <= u64::MAX ==> total.total_tokens == all
            &&& input <= u64::MAX ==> total.input_tokens == input
            &&& output <= u64::MAX ==> total.output_tokens == output
            &&& all >= 0 && input >= 0 && output >= 0
        }),
    decreases ms.len(),
{
    if ms.len() > 0 {
        lemma_totals(ms.drop_last());
    }
}

/// The totals of a reopened session are those of the messages on its active path,
/// and of no others.
pub proof fn lemma_totals_are_those_of_the_path(s: Session, st: StoredSession)
    requires
        session::restored(s, st),
    ensures
        ({
            let ms = session::path_messages(
                st.messages@,
                stored::active_path(st.messages@, st.leaf_id),
            );
            let all = summed(ms, |u: TokenUsage| u.total_tokens);
            let input = summed(ms, |u: TokenUsage| u.input_tokens);
            let output = summed(ms, |u: TokenUsage| u.output_tokens);
            &&& all <= u64::MAX ==> s.tokens == all
            &&& input <= u64::MAX ==> s.input_tokens == input
            &&& output <= u64::MAX ==> s.output_tokens == output
        }),
{
    lemma_totals(
        session::path_messages(st.messages@, stored::active_path(st.messages@, st.leaf_id)),
    );
}

/// The context that a reopened session takes up is what the newest reply that is
/// no summary reported of its request, else of itself.
pub proof fn lemma_last_usage_is_of_the_newest_reply(ms: Seq<StoredMessage>, k: int)
    requires
        0 <= k < ms.len(),
        !ms[k].summary,
        ms[k].request.total_tokens > 0 || ms[k].usage.total_tokens > 0,
        forall|j: int|
            k < j < ms.len() ==> (#[trigger] ms[j]).summary || ms[j].request.total_tokens == 0
                && ms[j].usage.total_tokens == 0,
    ensures
        session::last_request(ms) == Some(
            if ms[k].request.total_tokens > 0 {
                ms[k].request
            } else {
                ms[k].usage
            },
        ),
    decreases ms.len(),
{
    let n = ms.len() - 1;
    assert(ms.last() == ms[n]);
    if k < n {
        let d = ms.drop_last();
        assert(forall|j: int| 0 <= j < d.len() ==> d[j] == ms[j]);
        lemma_last_usage_is_of_the_newest_reply(d, k);
    }
}

/// The tip of the active path is the stored leaf while that is a message; without
/// it, the newest message by its number; none for an emptied path.
pub proof fn lemma_tip_is_the_leaf(ms: Seq<StoredMessage>, leaf: Option<u64>)
    ensures
        stored::tip(ms, Some(0u64)) is None,
        forall|i: int|
            0 <= i < ms.len() && leaf == Some((#[trigger] ms[i]).id) && ms[i].id != 0
                ==> stored::tip(ms, leaf) == leaf,
        leaf is None || leaf->0 != 0 && (forall|i: int|
            0 <= i < ms.len() ==> (#[trigger] ms[i]).id != leaf->0) ==> {
            &&& ms.len() == 0 ==> stored::tip(ms, leaf) is None
            &&& ms.len() > 0 ==> exists|i: int|
                0 <= i < ms.len() && stored::tip(ms, leaf) == Some((#[trigger] ms[i]).id)
                    && forall|j: int| 0 <= j < ms.len() ==> (#[trigger] ms[j]).seq <= ms[i].seq
        },
{
    lemma_newest(ms);
    if leaf is Some {
        stored::lemma_index_of(ms, leaf->0);
        if let Some(i) = stored::index_of(ms, leaf->0) {
            assert(ms[i].id == leaf->0);
        }
    }
    if let Some(i) = stored::newest(ms) {
        assert(ms[i].id == ms[i].id);
    }
}

proof fn lemma_newest(ms: Seq<StoredMessage>)
    ensures
        match stored::newest(ms) {
            None => ms.len() == 0,
            Some(i) => 0 <= i < ms.len() && forall|j: int|
                0 <= j < ms.len() ==> (#[trigger] ms[j]).seq <= ms[i].seq,
        },
    decreases ms.len(),
{
    if ms.len() > 0 {
        let d = ms.drop_last();
        lemma_newest(d);
        assert(forall|j: int| 0 <= j < d.len() ==> d[j] == ms[j]);
        let i = stored::newest(ms)->0;
        assert forall|j: int| 0 <= j < ms.len() implies (#[trigger] ms[j]).seq <= ms[i].seq by {
            if j < d.len() {
                assert(d[j].seq <= d[stored::newest(d)->0].seq);
            }
        }
    }
}

/// The active path leads to its tip, and from a message without a parent among
/// the stored ones.
pub proof fn lemma_path_leads_to_the_tip(ms: Seq<StoredMessage>, leaf: Option<u64>)
    requires
        stored::ends_at_root(ms, stored::tip(ms, leaf), Set::empty()),
        stored::tip(ms, leaf) is Some,
    ensures
        stored::active_path(ms, leaf).len() > 0,
        stored::active_path(ms, leaf).last() == stored::tip(ms, leaf)->0,
        ({
            let root = ms[stored::index_of(ms, stored::active_path(ms, leaf)[0])->0];
            root.parent_id matches Some(p) ==> forall|i: int|
                0 <= i < ms.len() ==> (#[trigger] ms[i]).id != p
        }),
{
    let from = stored::tip(ms, leaf);
    let w = stored::climb(ms, from, Set::empty());
    let path = stored::active_path(ms, leaf);
    lemma_newest(ms);
    stored::lemma_index_of(ms, from->0);
    if let Some(i) = stored::newest(ms) {
        stored::lemma_index_of(ms, ms[i].id);
    }
    assert(w.len() > 0 && w[0] == from->0);
    assert(path.last() == w[0]);
    assert(path[0] == w.last());
    let root = ms[stored::index_of(ms, path[0])->0];
    if root.parent_id is Some {
        stored::lemma_index_of(ms, root.parent_id->0);
    }
}

/// The history that is sent for a new turn is what comes before the prompt at the
/// tip, from the newest summary before it on: nothing older, and not the prompt.
pub proof fn lemma_history_begins_at_the_newest_summary(
    s: Session,
    sent: Seq<ChatMsg>,
    k: int,
)
    requires
        s.messages@.len() > 1,
        views::views(sent) == views::views(s.messages@).subrange(
            s.send_start(),
            s.messages@.len() - 1,
        ),
        0 <= k < s.messages@.len() - 1,
        k == 0 || exists|i: int| 0 <= i < s.summaries@.len() && #[trigger] s.summaries@[i] == k,
        forall|i: int|
            0 <= i < s.summaries@.len() && (#[trigger] s.summaries@[i]) < s.messages@.len() - 1
                ==> s.summaries@[i] <= k,
    ensures
        sent.len() == s.messages@.len() - 1 - k,
        forall|i: int|
            0 <= i < sent.len() ==> (#[trigger] sent[i]).role == s.messages@[k + i].role
                && sent[i].content@ == s.messages@[k + i].content@,
{
    let end = s.messages@.len() - 1;
    session::lemma_newest_before(s.summaries@, end);
    let start = s.send_start();
    assert(start == k) by {
        if k > 0 {
            let i = choose|i: int| 0 <= i < s.summaries@.len() && #[trigger] s.summaries@[i] == k;
            assert(s.summaries@[i] <= start);
        }
        if start > 0 {
            let i = choose|i: int|
                0 <= i < s.summaries@.len() && s.summaries@[i] == start;
            assert(s.summaries@[i] <= k);
        }
    }
    let all = views::views(s.messages@);
    assert(all.len() == s.messages@.len());
    assert(views::views(sent).len() == sent.len());
    assert forall|i: int| 0 <= i < sent.len() implies (#[trigger] sent[i]).role
        == s.messages@[k + i].role && sent[i].content@ == s.messages@[k + i].content@ by {
        assert(views::views(sent)[i] == sent[i]@);
        assert(all.subrange(start, end)[i] == all[k + i]);
        assert(all[k + i] == s.messages@[k + i]@);
    }
}

/// The last prompt is the last node on the path that is the user's.
pub proof fn lemma_last_prompt_is_on_the_path(nodes: Seq<TreeNode>)
    ensures
        match session::last_prompt_among(nodes) {
            Some(i) => 0 <= i < nodes.len() && nodes[i].on_path && nodes[i].role == Role::User
                && forall|j: int|
                i < j < nodes.len() ==> !((#[trigger] nodes[j]).on_path && nodes[j].role
                    == Role::User),
            None => forall|j: int|
                0 <= j < nodes.len() ==> !((#[trigger] nodes[j]).on_path && nodes[j].role
                    == Role::User),
        },
    decreases nodes.len(),
{
    if nodes.len() > 0 {
        let d = nodes.drop_last();
        lemma_last_prompt_is_on_the_path(d);
        assert(forall|j: int| 0 <= j < d.len() ==> d[j] == nodes[j]);
        assert(nodes.last() == nodes[nodes.len() - 1]);
    }
}

/// The first prompt is the first message that is the user's.
pub proof fn lemma_first_prompt_is_the_users(ms: Seq<ChatMsg>, k: int)
    requires
        0 <= k < ms.len(),
        ms[k].role == Role::User,
        forall|j: int| 0 <= j < k ==> (#[trigger] ms[j]).role != Role::User,
    ensures
        session::first_prompt(views::views(ms)) == Some(ms[k].content@),
    decreases k,
{
    let all = views::views(ms);
    assert(all[0] == ms[0]@);
    if k > 0 {
        let rest = ms.skip(1);
        assert(ms[0].role != Role::User);
        assert(rest[k - 1] == ms[k]);
        assert forall|j: int| 0 <= j < k - 1 implies (#[trigger] rest[j]).role != Role::User by {
            assert(rest[j] == ms[j + 1]);
        }
        lemma_first_prompt_is_the_users(rest, k - 1);
        assert(all.skip(1) =~= views::views(rest));
    }
}

/// The last reply is the last message that is the model's.
pub proof fn lemma_last_reply_is_the_models(ms: Seq<ChatMsg>)
    ensures
        match session::last_reply(views::views(ms)) {
            Some(i) => 0 <= i < ms.len() && ms[i].role == Role::Assistant && forall|j: int|
                i < j < ms.len() ==> (#[trigger] ms[j]).role != Role::Assistant,
            None => forall|j: int| 0 <= j < ms.len() ==> (#[trigger] ms[j]).role != Role::Assistant,
        },
    decreases ms.len(),
{
    let all = views::views(ms);
    if ms.len() > 0 {
        let d = ms.drop_last();
        lemma_last_reply_is_the_models(d);
        assert(all.drop_last() =~= views::views(d));
        assert(all.last() == ms[ms.len() - 1]@);
        assert(forall|j: int| 0 <= j < d.len() ==> d[j] == ms[j]);
    }
}

/// Undoing a turn goes back to before its prompt and hands the prompt back; a
/// summary or a note is gone back to itself, and so is any message that the fork
/// is to keep, with nothing handed back.
pub proof fn lemma_fork_goes_back_before_the_turn(
    st: StoredSession,
    i: int,
    keep: bool,
    r: Result<Option<ForkPlan>, String>,
)
    requires
        0 <= i < st.messages@.len(),
        forall|j: int|
            0 <= j < st.messages@.len() && j != i ==> (#[trigger] st.messages@[j]).id
                != st.messages@[i].id,
        tree::forked(r, st, Some(st.messages@[i].id), false, keep, false),
    ensures
        ({
            let m = st.messages@[i];
            match r {
                Ok(Some(ForkPlan::MoveLeaf { tip, recall })) => if keep || m.summary || m.role
                    == Role::System {
                    tip == Some(m.id) && recall is None
                } else {
                    &&& tip == m.parent_id
                    &&& text::trimmed(m.content@).len() > 0 ==> recall is Some && recall->0@
                        == m.content@
                    &&& text::trimmed(m.content@).len() == 0 ==> recall is None
                },
                _ => false,
            }
        }),
{
    let m = st.messages@[i];
    stored::lemma_index_of(st.messages@, m.id);
    if let Some(x) = stored::index_of(st.messages@, m.id) {
        if x != i {
            assert(st.messages@[x].id != m.id);
        }
    }
}

/// A fork that is to be summarized puts the summary where the message hung, and
/// the message under it; a summary or a note gives its place up, and a message
/// that is kept stays where it is. Without a summarizer it fails, and before the
/// first message there is nothing to summarize.
pub proof fn lemma_summary_takes_the_place_of_the_turn(
    st: StoredSession,
    i: int,
    keep: bool,
    summarizer: bool,
    r: Result<Option<ForkPlan>, String>,
)
    requires
        0 <= i < st.messages@.len(),
        forall|j: int|
            0 <= j < st.messages@.len() && j != i ==> (#[trigger] st.messages@[j]).id
                != st.messages@[i].id,
        tree::forked(r, st, Some(st.messages@[i].id), true, keep, summarizer),
    ensures
        ({
            let m = st.messages@[i];
            let marker = m.summary || m.role == Role::System;
            let nothing_before = !marker && !keep && m.parent_id is None;
            match r {
                Err(e) => !summarizer && !nothing_before,
                Ok(Some(ForkPlan::MoveLeaf { tip, .. })) => nothing_before && tip is None,
                Ok(Some(ForkPlan::Summarize { parent, reparent, recall, .. })) => {
                    &&& summarizer && !nothing_before
                    &&& marker ==> parent == m.parent_id && reparent is None && recall is None
                    &&& !marker && keep ==> parent == Some(m.id) && reparent is None && recall
                        is None
                    &&& !marker && !keep ==> parent == m.parent_id && reparent == Some(m.id)
                },
                Ok(None) => false,
            }
        }),
{
    let m = st.messages@[i];
    stored::lemma_index_of(st.messages@, m.id);
    if let Some(x) = stored::index_of(st.messages@, m.id) {
        if x != i {
            assert(st.messages@[x].id != m.id);
        }
    }
}

proof fn lemma_last_user_on(ms: Seq<StoredMessage>, path: Seq<u64>)
    ensures
        match tree::last_user_on(ms, path) {
            Some(id) => exists|k: int|
                0 <= k < path.len() && #[trigger] path[k] == id && is_prompt(ms, id)
                    && forall|j: int| k < j < path.len() ==> !is_prompt(ms, #[trigger] path[j]),
            None => forall|j: int| 0 <= j < path.len() ==> !is_prompt(ms, #[trigger] path[j]),
        },
    decreases path.len(),
{
    if path.len() > 0 {
        let d = path.drop_last();
        let n = path.len() - 1;
        lemma_last_user_on(ms, d);
        stored::lemma_index_of(ms, path.last());
        assert(path.last() == path[n]);
        assert(forall|j: int| 0 <= j < d.len() ==> d[j] == path[j]);
        if !is_prompt(ms, path[n]) {
            if let Some(id) = tree::last_user_on(ms, d) {
                let k = choose|k: int|
                    0 <= k < d.len() && #[trigger] d[k] == id && is_prompt(ms, id) && forall|
                        j: int,
                    | k < j < d.len() ==> !is_prompt(ms, #[trigger] d[j]);
                assert(path[k] == id);
                assert forall|j: int| k < j < path.len() implies !is_prompt(
                    ms,
                    #[trigger] path[j],
                ) by {
                    if j < n {
                        assert(d[j] == path[j]);
                    }
                }
            }
        }
    }
}

/// Whether the id is that of a stored prompt.
pub open spec fn is_prompt(ms: Seq<StoredMessage>, id: u64) -> bool {
    stored::index_of(ms, id) matches Some(i) && ms[i].role == Role::User
}

/// Without a node a fork is made at the last prompt of the active path; where the
/// path has none nothing is done.
pub proof fn lemma_undo_takes_the_last_prompt(st: StoredSession)
    ensures
        ({
            let path = stored::chain(st.messages@, stored::tip(st.messages@, st.leaf_id));
            match tree::fork_target(st, None) {
                Some(id) => exists|k: int|
                    0 <= k < path.len() && #[trigger] path[k] == id && is_prompt(st.messages@, id)
                        && forall|j: int|
                        k < j < path.len() ==> !is_prompt(st.messages@, #[trigger] path[j]),
                None => forall|j: int|
                    0 <= j < path.len() ==> !is_prompt(st.messages@, #[trigger] path[j]),
            }
        }),
        forall|id: u64| tree::fork_target(st, Some(id)) == Some(id),
{
    lemma_last_user_on(
        st.messages@,
        stored::chain(st.messages@, stored::tip(st.messages@, st.leaf_id)),
    );
}

/// Of messages with the same number the one that was stored last is the newest.
pub proof fn lemma_last_of_equals_is_the_newest(ms: Seq<StoredMessage>, k: int)
    requires
        0 <= k < ms.len(),
        forall|j: int| 0 <= j < k ==> (#[trigger] ms[j]).seq <= ms[k].seq,
        forall|j: int| k < j < ms.len() ==> (#[trigger] ms[j]).seq < ms[k].seq,
    ensures
        stored::newest(ms) == Some(k),
        stored::tip(ms, None) == Some(ms[k].id),
    decreases ms.len(),
{
    let d = ms.drop_last();
    assert(ms.last() == ms[ms.len() - 1]);
    assert(forall|j: int| 0 <= j < d.len() ==> d[j] == ms[j]);
    if k < d.len() {
        lemma_last_of_equals_is_the_newest(d, k);
    } else {
        lemma_newest(d);
        if let Some(i) = stored::newest(d) {
            assert(d[i].seq == ms[i].seq);
        }
    }
}

}
