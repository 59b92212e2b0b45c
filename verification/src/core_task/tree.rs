//! Operations on the session tree: forking it, and what a branch holds.

use crate::compaction;
use crate::compaction::serialize_head;
use crate::llm::Role;
use crate::stored;
use crate::stored::{
    ancestors, chain_ids, find_message, find_tip, holds_id, StoredMessage, StoredSession,
    EMPTY_LEAF,
};
use crate::text;
use crate::text::trim;
use crate::tool_record;
use crate::tool_record::span_tool_records;
use crate::views;
use crate::views::Duplicate;
use vstd::prelude::*;

verus! {

/// The active path's message ids, from the root to the tip: the chain of parent
/// links. A first link that names no message is kept.
pub fn chain_of(st: &StoredSession) -> (r: Vec<u64>)
    ensures
        r@ == stored::chain(st.messages@, stored::tip(st.messages@, st.leaf_id)),
{
    chain_ids(&st.messages, find_tip(&st.messages, st.leaf_id))
}

/// Whether some message with the id `child` has `parent` as its parent.
pub open spec fn is_child(ms: Seq<StoredMessage>, parent: u64, child: u64) -> bool {
    exists|i: int|
        0 <= i < ms.len() && (#[trigger] ms[i]).id == child && ms[i].parent_id == Some(parent)
}

/// Whether `id` is reached from `root` in `steps` steps from parent to child.
pub open spec fn descends(ms: Seq<StoredMessage>, root: u64, id: u64, steps: nat) -> bool
    decreases steps,
{
    if steps == 0 {
        id == root
    } else {
        exists|mid: u64|
            descends(ms, root, mid, (steps - 1) as nat) && #[trigger] is_child(ms, mid, id)
    }
}

/// Whether `id` lies in the subtree under `root`.
pub open spec fn in_subtree(ms: Seq<StoredMessage>, root: u64, id: u64) -> bool {
    exists|steps: nat| descends(ms, root, id, steps)
}

/// Whether the ids hold every child of those before `upto`.
pub open spec fn closed_upto(ms: Seq<StoredMessage>, ids: Seq<u64>, upto: int) -> bool {
    forall|k: int, i: int|
        0 <= k < upto && 0 <= i < ms.len() && (#[trigger] ms[i]).parent_id == Some(
            #[trigger] ids[k],
        ) ==> ids.contains(ms[i].id)
}

proof fn lemma_closed_holds_subtree(
    ms: Seq<StoredMessage>,
    ids: Seq<u64>,
    root: u64,
    id: u64,
    steps: nat,
)
    requires
        ids.contains(root),
        closed_upto(ms, ids, ids.len() as int),
        descends(ms, root, id, steps),
    ensures
        ids.contains(id),
    decreases steps,
{
    if steps > 0 {
        let mid = choose|mid: u64|
            descends(ms, root, mid, (steps - 1) as nat) && #[trigger] is_child(ms, mid, id);
        lemma_closed_holds_subtree(ms, ids, root, mid, (steps - 1) as nat);
        let k = choose|k: int| 0 <= k < ids.len() && ids[k] == mid;
        let i = choose|i: int|
            0 <= i < ms.len() && (#[trigger] ms[i]).id == id && ms[i].parent_id == Some(mid);
        assert(ms[i].parent_id == Some(ids[k]));
    }
}

/// How many of the messages' ids are not in the list.
pub open spec fn left_out(ms: Seq<StoredMessage>, ids: Seq<u64>) -> nat {
    stored::ids(ms).to_set().difference(ids.to_set()).len()
}

proof fn lemma_reaching_one_more(ms: Seq<StoredMessage>, ids: Seq<u64>, i: int)
    requires
        0 <= i < ms.len(),
        !ids.contains(ms[i].id),
    ensures
        left_out(ms, ids.push(ms[i].id)) < left_out(ms, ids),
{
    let id = ms[i].id;
    let all = stored::ids(ms).to_set();
    let more = ids.push(id);
    assert(stored::ids(ms)[i] == id);
    assert(all.contains(id));
    vstd::seq_lib::seq_to_set_is_finite(stored::ids(ms));
    assert(more.to_set() =~= ids.to_set().insert(id)) by {
        assert forall|x: u64| more.to_set().contains(x) == ids.to_set().insert(id).contains(x) by {
            if ids.contains(x) {
                let k = choose|k: int| 0 <= k < ids.len() && ids[k] == x;
                assert(more[k] == x);
            }
            assert(more[ids.len() as int] == id);
            if more.contains(x) {
                let k = choose|k: int| 0 <= k < more.len() && more[k] == x;
                if k < ids.len() {
                    assert(ids[k] == x);
                }
            }
        }
    }
    let left = all.difference(ids.to_set());
    assert(left.finite());
    assert(left.contains(id));
    assert(all.difference(more.to_set()) =~= left.remove(id));
}

/// Whether `needle` (usually the active leaf) lies in the subtree under `root_id`.
pub fn subtree_contains(st: &StoredSession, root_id: u64, needle: Option<u64>) -> (b: bool)
    ensures
        b == (needle matches Some(id) && in_subtree(st.messages@, root_id, id)),
{
    let wanted: u64 = match needle {
        Some(id) => id,
        None => return false,
    };
    let ghost ms = st.messages@;
    let mut reached: Vec<u64> = Vec::new();
    reached.push(root_id);
    let mut at: usize = 0;
    proof {
        assert(reached@[0] == root_id);
        assert(descends(ms, root_id, root_id, 0));
    }
    while at < reached.len()
        invariant
            ms == st.messages@,
            at <= reached@.len(),
            reached@.contains(root_id),
            closed_upto(ms, reached@, at as int),
            forall|k: int| 0 <= k < reached@.len() ==> in_subtree(ms, root_id, #[trigger] reached@[k]),
        decreases left_out(ms, reached@), reached@.len() - at,
    {
        let parent: u64 = reached[at];
        let ghost before = reached@;
        let ghost steps = choose|steps: nat| descends(ms, root_id, parent, steps);
        let mut i: usize = 0;
        while i < st.messages.len()
            invariant
                ms == st.messages@,
                i <= ms.len(),
                at < before.len() <= reached@.len(),
                parent == before[at as int],
                descends(ms, root_id, parent, steps),
                forall|k: int| 0 <= k < before.len() ==> reached@[k] == before[k],
                reached@.contains(root_id),
                forall|k: int|
                    0 <= k < reached@.len() ==> in_subtree(ms, root_id, #[trigger] reached@[k]),
                forall|j: int|
                    0 <= j < i && (#[trigger] ms[j]).parent_id == Some(parent) ==> reached@.contains(
                        ms[j].id,
                    ),
                forall|x: u64| before.contains(x) ==> reached@.contains(x),
                left_out(ms, reached@) <= left_out(ms, before),
                reached@.len() > before.len() ==> left_out(ms, reached@) < left_out(ms, before),
                reached@.len() == before.len() ==> reached@ == before,
            decreases ms.len() - i,
        {
            let child: u64 = st.messages[i].id;
            let follows = match st.messages[i].parent_id {
                Some(p) => p == parent,
                None => false,
            };
            if follows && !holds_id(&reached, child) {
                let ghost so_far = reached@;
                proof {
                    lemma_reaching_one_more(ms, so_far, i as int);
                    assert(is_child(ms, parent, child));
                    assert(descends(ms, root_id, parent, (steps + 1 - 1) as nat));
                    assert(descends(ms, root_id, child, steps + 1));
                }
                reached.push(child);
                proof {
                    assert(reached@[so_far.len() as int] == child);
                    assert forall|x: u64| so_far.contains(x) implies reached@.contains(x) by {
                        let k = choose|k: int| 0 <= k < so_far.len() && so_far[k] == x;
                        assert(reached@[k] == x);
                    }
                }
            }
            i += 1;
        }
        proof {
            assert(closed_upto(ms, reached@, at + 1)) by {
                assert forall|k: int, i: int|
                    0 <= k < at + 1 && 0 <= i < ms.len() && (#[trigger] ms[i]).parent_id == Some(
                        #[trigger] reached@[k],
                    ) implies reached@.contains(ms[i].id) by {
                    if k < at {
                        assert(reached@[k] == before[k]);
                        assert(before.contains(ms[i].id));
                    }
                }
            }
        }
        at += 1;
    }
    proof {
        if in_subtree(ms, root_id, wanted) {
            let steps = choose|steps: nat| descends(ms, root_id, wanted, steps);
            lemma_closed_holds_subtree(ms, reached@, root_id, wanted, steps);
        }
        if reached@.contains(wanted) {
            let k = choose|k: int| 0 <= k < reached@.len() && reached@[k] == wanted;
            assert(in_subtree(ms, root_id, reached@[k]));
        }
    }
    holds_id(&reached, wanted)
}

/// The root of a branch lies in it, and so does every child of what lies in it.
pub proof fn lemma_subtree(ms: Seq<StoredMessage>, root: u64, parent: u64, child: u64)
    ensures
        in_subtree(ms, root, root),
        in_subtree(ms, root, parent) && is_child(ms, parent, child) ==> in_subtree(
            ms,
            root,
            child,
        ),
{
    assert(descends(ms, root, root, 0));
    if in_subtree(ms, root, parent) && is_child(ms, parent, child) {
        let steps = choose|steps: nat| descends(ms, root, parent, steps);
        assert(descends(ms, root, parent, (steps + 1 - 1) as nat));
        assert(descends(ms, root, child, steps + 1));
    }
}

/// What a fork does to the stored tree. `recall` is the content of the message
/// that was forked away from, for the input.
#[derive(Debug)]
pub enum ForkPlan {
    /// Make `tip` the active leaf; without one the active path is emptied.
    MoveLeaf { tip: Option<u64>, recall: Option<String> },
    /// Summarize the transcript, add the summary under `parent`, and make it
    /// the parent of `reparent`.
    Summarize {
        head_text: String,
        parent: Option<u64>,
        reparent: Option<u64>,
        recall: Option<String>,
    },
}

/// The last user prompt on a path.
pub open spec fn last_user_on(ms: Seq<StoredMessage>, path: Seq<u64>) -> Option<u64>
    decreases path.len(),
{
    if path.len() == 0 {
        None
    } else {
        match stored::index_of(ms, path.last()) {
            Some(i) => if ms[i].role == Role::User {
                Some(ms[i].id)
            } else {
                last_user_on(ms, path.drop_last())
            },
            None => last_user_on(ms, path.drop_last()),
        }
    }
}

/// The message that a fork is made at: the given one, or the last prompt on the active path.
pub open spec fn fork_target(st: StoredSession, node: Option<u64>) -> Option<u64> {
    match node {
        Some(id) => Some(id),
        None => last_user_on(
            st.messages@,
            stored::chain(st.messages@, stored::tip(st.messages@, st.leaf_id)),
        ),
    }
}

/// Whether the message is a marker rather than part of a turn.
pub open spec fn is_marker(m: StoredMessage) -> bool {
    m.summary || m.role == Role::System
}

/// Where the active path ends after a fork at the message: at the message
/// itself for a marker or when the fork is to keep it, else before it.
pub open spec fn fork_tip(m: StoredMessage, keep: bool) -> Option<u64> {
    if is_marker(m) || keep {
        Some(m.id)
    } else {
        m.parent_id
    }
}

/// What a fork at the message recalls: its content, unless the path keeps it
/// or it is blank.
pub open spec fn fork_recall(m: StoredMessage, keep: bool) -> Option<Seq<char>> {
    if is_marker(m) || keep || text::trimmed(m.content@).len() == 0 {
        None
    } else {
        Some(m.content@)
    }
}

/// The messages of a path.
pub open spec fn prefix_views(ms: Seq<StoredMessage>, path: Seq<u64>) -> Seq<
    stored::StoredMessageView,
> {
    Seq::new(path.len(), |i: int| ms[stored::index_of(ms, path[i])->0]@)
}

/// Whether `head` is the transcript of the messages up to the tip, with their tool
/// calls, each at the place of its message in the chain.
pub open spec fn is_head_text(head: Seq<char>, st: StoredSession, tip: u64) -> bool {
    let path = stored::climb(st.messages@, Some(tip), Set::empty()).reverse();
    exists|ms: Seq<StoredMessage>, rs: Seq<tool_record::ToolRecord>| #[trigger]
        views::views(ms) == prefix_views(st.messages@, path) && #[trigger] views::views(rs)
            == tool_record::records_on(
            st.tool_calls@,
            stored::chain(st.messages@, Some(tip)),
            0,
            path.len() as int,
        ) && head
            == compaction::transcript(ms, rs, compaction::argument_paths(rs), 0)
}

/// Whether the result is what a fork comes to.
pub open spec fn forked(
    r: Result<Option<ForkPlan>, String>,
    st: StoredSession,
    node: Option<u64>,
    summarize: bool,
    keep: bool,
    summarizer: bool,
) -> bool {
    match fork_target(st, node) {
        None => r matches Ok(None),
        Some(target) => match stored::index_of(st.messages@, target) {
            None => r matches Err(e) && e@ == "unknown node"@,
            Some(i) => {
                let m = st.messages@[i];
                let tip = fork_tip(m, keep);
                if !summarize || tip is None {
                    r matches Ok(Some(ForkPlan::MoveLeaf { tip: t, recall })) && t == tip
                        && views::opt_view(recall) == fork_recall(m, keep)
                } else if !summarizer {
                    r matches Err(e) && e@ == "summarization requested without an active provider"@
                } else {
                    r matches Ok(Some(ForkPlan::Summarize { head_text, parent, reparent, recall }))
                        && views::opt_view(recall) == fork_recall(m, keep) && is_head_text(
                        head_text@,
                        st,
                        tip->0,
                    ) && parent == (if is_marker(m) {
                        m.parent_id
                    } else {
                        tip
                    }) && reparent == (if is_marker(m) || keep {
                        None
                    } else {
                        Some(target)
                    })
                }
            },
        },
    }
}

fn find_last_user(ms: &Vec<StoredMessage>, path: &Vec<u64>) -> (r: Option<u64>)
    ensures
        r == last_user_on(ms@, path@),
{
    let mut i: usize = path.len();
    proof {
        assert(path@.take(i as int) =~= path@);
    }
    while i > 0
        invariant
            i <= path@.len(),
            last_user_on(ms@, path@) == last_user_on(ms@, path@.take(i as int)),
        decreases i,
    {
        proof {
            assert(path@.take(i as int).drop_last() =~= path@.take(i - 1));
        }
        if let Some(k) = find_message(ms, path[i - 1]) {
            if ms[k].role == Role::User {
                return Some(ms[k].id);
            }
        }
        i -= 1;
    }
    None
}

/// Copies of the messages of a path.
pub(crate) fn messages_of(ms: &Vec<StoredMessage>, path: &Vec<u64>) -> (r: Vec<StoredMessage>)
    requires
        forall|k: int|
            0 <= k < path@.len() ==> stored::index_of(ms@, #[trigger] path@[k]) is Some,
    ensures
        r@.len() == path@.len(),
        views::views(r@) == prefix_views(ms@, path@),
{
    let mut out: Vec<StoredMessage> = Vec::new();
    let mut i: usize = 0;
    while i < path.len()
        invariant
            i <= path@.len(),
            forall|k: int|
                0 <= k < path@.len() ==> stored::index_of(ms@, #[trigger] path@[k]) is Some,
            out@.len() == i,
            views::views(out@) =~= prefix_views(ms@, path@).take(i as int),
        decreases path@.len() - i,
    {
        let ghost before = out@;
        proof {
            assert(stored::index_of(ms@, path@[i as int]) is Some);
        }
        if let Some(k) = find_message(ms, path[i]) {
            let m = ms[k].duplicate();
            out.push(m);
            proof {
                assert(views::views(out@) =~= views::views(before).push(m@));
            }
        }
        i += 1;
    }
    out
}

/// The transcript of the messages up to the tip.
fn head_text_for(st: &StoredSession, tip: u64) -> (r: String)
    ensures
        is_head_text(r@, *st, tip),
{
    let path = ancestors(&st.messages, Some(tip));
    proof {
        stored::lemma_climb(st.messages@, Some(tip), Set::empty());
        let w = stored::climb(st.messages@, Some(tip), Set::empty());
        assert forall|k: int| 0 <= k < path@.len() implies stored::index_of(
            st.messages@,
            #[trigger] path@[k],
        ) is Some by {
            assert(path@[k] == w[w.len() - 1 - k]);
        }
    }
    let prefix = messages_of(&st.messages, &path);
    let chain = chain_ids(&st.messages, Some(tip));
    let records = span_tool_records(&st.tool_calls, &chain, 0, path.len());
    serialize_head(&prefix, &records, 0)
}

/// Decides what a fork at the node does. Without a node it is made at the last
/// prompt of the active path; with `keep` the path goes up to the node itself.
pub fn fork_session(
    st: &StoredSession,
    node_id: Option<u64>,
    summarize: bool,
    keep: bool,
    summarizer: bool,
) -> (r: Result<Option<ForkPlan>, String>)
    ensures
        forked(r, *st, node_id, summarize, keep, summarizer),
{
    let target: u64 = match node_id {
        Some(id) => id,
        None => match find_last_user(&st.messages, &chain_of(st)) {
            Some(id) => id,
            None => return Ok(None),
        },
    };
    let at: usize = match find_message(&st.messages, target) {
        Some(i) => i,
        None => return Err("unknown node".to_owned()),
    };
    let m = &st.messages[at];
    proof {
        stored::lemma_index_of(st.messages@, target);
    }
    let marker = m.summary || m.role == Role::System;
    let tip: Option<u64> = if marker || keep {
        Some(m.id)
    } else {
        m.parent_id
    };
    let recall: Option<String> = if marker || keep || trim(m.content.as_str()).is_empty() {
        None
    } else {
        Some(m.content.clone())
    };
    let tip_id: u64 = match tip {
        Some(id) => id,
        None => return Ok(Some(ForkPlan::MoveLeaf { tip: None, recall })),
    };
    if !summarize {
        return Ok(Some(ForkPlan::MoveLeaf { tip, recall }));
    }
    if !summarizer {
        return Err("summarization requested without an active provider".to_owned());
    }
    let head_text = head_text_for(st, tip_id);
    let parent: Option<u64> = if marker {
        m.parent_id
    } else {
        tip
    };
    let reparent: Option<u64> = if marker || keep {
        None
    } else {
        Some(target)
    };
    Ok(Some(ForkPlan::Summarize { head_text, parent, reparent, recall }))
}

/// What an interrupted reply at the tip gives way to when its turn is tried
/// again: the message to delete, and the leaf to go back to.
pub fn resume_point(st: &StoredSession) -> (r: Option<(u64, Option<u64>)>)
    ensures
        match st.leaf_id {
            None => r is None,
            Some(leaf) => match stored::index_of(st.messages@, leaf) {
                Some(i) => if st.messages@[i].role == Role::Assistant {
                    r == Some((leaf, st.messages@[i].parent_id))
                } else {
                    r is None
                },
                None => r is None,
            },
        },
{
    let leaf: u64 = match st.leaf_id {
        Some(id) => id,
        None => return None,
    };
    match find_message(&st.messages, leaf) {
        Some(i) => if st.messages[i].role == Role::Assistant {
            Some((leaf, st.messages[i].parent_id))
        } else {
            None
        },
        None => None,
    }
}

/// A fork at a message of the active path walks the path back: to the message
/// itself where the fork keeps it or it is a marker, else to just before it.
/// Everything up to there stays on the path.
pub proof fn lemma_fork_walks_the_path_back(
    ms: Seq<StoredMessage>,
    leaf: Option<u64>,
    k: int,
    keep: bool,
)
    requires
        stored::ends_at_root(ms, stored::tip(ms, leaf), Set::empty()),
        0 <= k < stored::active_path(ms, leaf).len(),
        !stored::active_path(ms, leaf).contains(EMPTY_LEAF),
    ensures
        ({
            let path = stored::active_path(ms, leaf);
            let m = ms[stored::index_of(ms, path[k])->0];
            if is_marker(m) || keep {
                stored::active_path(ms, fork_tip(m, keep)) == path.take(k + 1)
            } else if k > 0 {
                stored::active_path(ms, fork_tip(m, keep)) == path.take(k)
            } else {
                stored::active_path(ms, Some(EMPTY_LEAF)) == path.take(k)
            }
        }),
{
    let path = stored::active_path(ms, leaf);
    stored::lemma_active_path(ms, leaf);
    stored::lemma_index_of(ms, path[k]);
    assert(path.contains(path[k]));
    stored::lemma_path_is_walked_back(ms, leaf, k);
    if k > 0 {
        assert(path.contains(path[k - 1]));
        stored::lemma_path_is_walked_back(ms, leaf, k - 1);
    } else {
        assert(path.take(0) =~= Seq::<u64>::empty());
    }
}

}
