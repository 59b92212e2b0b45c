//! A session as it is stored: messages that form a tree, and their tool calls.

use crate::llm::{FileChange, Role, TokenUsage};
use crate::views;
use crate::views::{duplicate_all, Duplicate};
use vstd::prelude::*;

verus! {

/// A session's identifier.
pub type SessionId = u128;

/// The stored leaf of a session whose active path is empty.
pub const EMPTY_LEAF: u64 = 0;

/// A run of reply text, and how many tool calls came before it.
#[derive(Debug, Clone, PartialEq)]
pub struct TextSegment {
    pub after_tool: u64,
    pub text: String,
}

/// A run of reasoning, how many tool calls came before it, and how long it took.
#[derive(Debug, Clone, PartialEq)]
pub struct ReasoningSegment {
    pub after_tool: u64,
    pub text: String,
    pub duration_ms: u64,
}

impl View for TextSegment {
    type V = (u64, Seq<char>);

    open spec fn view(&self) -> (u64, Seq<char>) {
        (self.after_tool, self.text@)
    }
}

impl View for ReasoningSegment {
    type V = (u64, Seq<char>, u64);

    open spec fn view(&self) -> (u64, Seq<char>, u64) {
        (self.after_tool, self.text@, self.duration_ms)
    }
}

impl Duplicate for TextSegment {
    fn duplicate(&self) -> (r: Self) {
        TextSegment { after_tool: self.after_tool, text: self.text.clone() }
    }
}

impl Duplicate for ReasoningSegment {
    fn duplicate(&self) -> (r: Self) {
        ReasoningSegment {
            after_tool: self.after_tool,
            text: self.text.clone(),
            duration_ms: self.duration_ms,
        }
    }
}

/// The text of the runs together.
pub open spec fn segments_text(s: Seq<(u64, Seq<char>)>) -> Seq<char>
    decreases s.len(),
{
    if s.len() == 0 {
        Seq::empty()
    } else {
        segments_text(s.drop_last()) + s.last().1
    }
}

/// The text of the runs together.
pub fn join_text_segments(segments: &Vec<TextSegment>) -> (r: String)
    ensures
        r@ == segments_text(views::views(segments@)),
{
    let ghost all = views::views(segments@);
    let mut out: String = String::new();
    let mut i: usize = 0;
    while i < segments.len()
        invariant
            all == views::views(segments@),
            i <= segments@.len(),
            out@ =~= segments_text(all.take(i as int)),
        decreases segments@.len() - i,
    {
        proof {
            assert(all.take(i + 1).drop_last() =~= all.take(i as int));
        }
        out.append(segments[i].text.as_str());
        i += 1;
    }
    proof {
        assert(all.take(i as int) =~= all);
    }
    out
}

/// A stored message.
#[derive(Debug)]
pub struct StoredMessage {
    pub id: u64,
    pub parent_id: Option<u64>,
    pub role: Role,
    pub content: String,
    pub reasoning: Vec<ReasoningSegment>,
    pub text_segments: Vec<TextSegment>,
    pub interrupted: bool,
    pub seq: u64,
    pub usage: TokenUsage,
    pub summary: bool,
    pub request: TokenUsage,
}

/// A stored tool call.
#[derive(Debug)]
pub struct StoredToolCall {
    pub id: u64,
    pub message_id: u64,
    pub seq: u64,
    pub name: String,
    pub args_json: String,
    pub output: String,
    pub stderr: String,
    pub ok: bool,
    pub killed: bool,
    pub worker: Option<String>,
    pub file_change: Option<FileChange>,
    pub original_content: Option<String>,
    pub new_content: Option<String>,
    pub duration_ms: u64,
}

/// Where the chat pane was scrolled to.
#[derive(Debug, Clone, Copy, PartialEq, Eq, Structural, Default)]
pub struct StoredScroll {
    pub offset: u64,
    pub follow: bool,
}

/// A stored session.
#[derive(Debug)]
pub struct StoredSession {
    pub id: SessionId,
    pub title: String,
    pub leaf_id: Option<u64>,
    pub scene: Option<String>,
    pub scroll: StoredScroll,
    pub messages: Vec<StoredMessage>,
    pub tool_calls: Vec<StoredToolCall>,
}

/// Where the message with the id is: the last one, should there be several.
pub open spec fn index_of(ms: Seq<StoredMessage>, id: u64) -> Option<int>
    decreases ms.len(),
{
    if ms.len() == 0 {
        None
    } else if ms.last().id == id {
        Some(ms.len() - 1)
    } else {
        index_of(ms.drop_last(), id)
    }
}

/// An index that was found is one of a message with that id.
pub proof fn lemma_index_of(ms: Seq<StoredMessage>, id: u64)
    ensures
        index_of(ms, id) matches Some(i) ==> 0 <= i < ms.len() && ms[i].id == id && forall|j: int|
            i < j < ms.len() ==> (#[trigger] ms[j]).id != id,
        index_of(ms, id) is None ==> forall|j: int|
            0 <= j < ms.len() ==> (#[trigger] ms[j]).id != id,
    decreases ms.len(),
{
    if ms.len() > 0 {
        lemma_index_of(ms.drop_last(), id);
        let d = ms.drop_last();
        assert(forall|j: int| 0 <= j < d.len() ==> d[j] == ms[j]);
    }
}

/// The ids of the messages.
pub open spec fn ids(ms: Seq<StoredMessage>) -> Seq<u64> {
    Seq::new(ms.len(), |i: int| ms[i].id)
}

/// The ids from a message up to its root. A parent link that leads back to a
/// message already passed, or to no message, ends the walk.
pub open spec fn climb(ms: Seq<StoredMessage>, from: Option<u64>, seen: Set<u64>) -> Seq<u64>
    decreases ids(ms).to_set().difference(seen).len(),
    via climb_ends
{
    match from {
        None => Seq::empty(),
        Some(id) => match index_of(ms, id) {
            None => Seq::empty(),
            Some(i) => if seen.contains(id) {
                Seq::empty()
            } else {
                seq![id] + climb(ms, ms[i].parent_id, seen.insert(id))
            },
        },
    }
}

#[via_fn]
proof fn climb_ends(ms: Seq<StoredMessage>, from: Option<u64>, seen: Set<u64>) {
    if let Some(id) = from {
        lemma_index_of(ms, id);
        if let Some(i) = index_of(ms, id) {
            if !seen.contains(id) {
                lemma_unseen_shrinks(ms, i, seen);
            }
        }
    }
}

proof fn lemma_unseen_shrinks(ms: Seq<StoredMessage>, i: int, seen: Set<u64>)
    requires
        0 <= i < ms.len(),
        !seen.contains(ms[i].id),
    ensures
        ids(ms).to_set().difference(seen.insert(ms[i].id)).len() < ids(ms).to_set().difference(
            seen,
        ).len(),
{
    let id = ms[i].id;
    let all = ids(ms).to_set();
    assert(ids(ms)[i] == id);
    assert(all.contains(id));
    vstd::seq_lib::seq_to_set_is_finite(ids(ms));
    let unseen = all.difference(seen);
    assert(unseen.finite());
    assert(unseen.contains(id));
    assert(all.difference(seen.insert(id)) =~= unseen.remove(id));
}

/// The newest message by sequence number; the last one, should there be several.
pub open spec fn newest(ms: Seq<StoredMessage>) -> Option<int>
    decreases ms.len(),
{
    if ms.len() == 0 {
        None
    } else {
        match newest(ms.drop_last()) {
            None => Some(0),
            Some(i) => if ms[i].seq <= ms.last().seq {
                Some(ms.len() - 1)
            } else {
                Some(i)
            },
        }
    }
}

/// The tip of the active path: the stored leaf while it exists, else the
/// newest message; none when the path was emptied.
pub open spec fn tip(ms: Seq<StoredMessage>, leaf: Option<u64>) -> Option<u64> {
    let fallback = match newest(ms) {
        Some(i) => Some(ms[i].id),
        None => None,
    };
    match leaf {
        Some(id) => if id == EMPTY_LEAF {
            None
        } else if index_of(ms, id) is Some {
            Some(id)
        } else {
            fallback
        },
        None => fallback,
    }
}

/// The active path of a session: the ids from its root to its tip.
pub open spec fn active_path(ms: Seq<StoredMessage>, leaf: Option<u64>) -> Seq<u64> {
    climb(ms, tip(ms, leaf), Set::empty()).reverse()
}

/// Where the walk up ends: the parent link of its last message that it did not
/// follow; the link it began with where it passed no message.
pub open spec fn climb_end(
    ms: Seq<StoredMessage>,
    from: Option<u64>,
    seen: Set<u64>,
) -> Option<u64> {
    let w = climb(ms, from, seen);
    if w.len() == 0 {
        from
    } else {
        ms[index_of(ms, w.last())->0].parent_id
    }
}

/// The chain of parent links down to a message: the ids from the root to it,
/// and before them the id that the walk up ended at, should it name no message.
pub open spec fn chain(ms: Seq<StoredMessage>, from: Option<u64>) -> Seq<u64> {
    let path = climb(ms, from, Set::empty()).reverse();
    match climb_end(ms, from, Set::empty()) {
        Some(id) => if index_of(ms, id) is None {
            seq![id] + path
        } else {
            path
        },
        None => path,
    }
}

/// The ids on a walk are those of messages, none was seen before, and none occurs twice.
pub proof fn lemma_climb(ms: Seq<StoredMessage>, from: Option<u64>, seen: Set<u64>)
    ensures
        climb(ms, from, seen).no_duplicates(),
        forall|i: int|
            0 <= i < climb(ms, from, seen).len() ==> !seen.contains(
                #[trigger] climb(ms, from, seen)[i],
            ) && index_of(ms, climb(ms, from, seen)[i]) is Some,
        forall|i: int|
            0 <= i < climb(ms, from, seen).len() - 1 ==> ms[index_of(
                ms,
                #[trigger] climb(ms, from, seen)[i],
            )->0].parent_id == Some(climb(ms, from, seen)[i + 1]),
    decreases ids(ms).to_set().difference(seen).len(),
{
    let w = climb(ms, from, seen);
    if let Some(id) = from {
        lemma_index_of(ms, id);
        if let Some(i) = index_of(ms, id) {
            if !seen.contains(id) {
                lemma_unseen_shrinks(ms, i, seen);
                let parent = ms[i].parent_id;
                let rest = climb(ms, parent, seen.insert(id));
                lemma_climb(ms, parent, seen.insert(id));
                assert(w =~= seq![id] + rest);
                assert(forall|k: int| 0 < k < w.len() ==> w[k] == rest[k - 1]);
                if rest.len() > 0 {
                    assert(parent == Some(rest[0]));
                }
                assert forall|k: int| 0 <= k < w.len() - 1 implies ms[index_of(
                    ms,
                    #[trigger] w[k],
                )->0].parent_id == Some(w[k + 1]) by {
                    if k > 0 {
                        assert(w[k] == rest[k - 1]);
                        assert(w[k + 1] == rest[k]);
                    }
                }
            }
        }
    }
}

/// The active path holds each message once, and each message on it but the
/// first is a child of the one before it.
pub proof fn lemma_active_path(ms: Seq<StoredMessage>, leaf: Option<u64>)
    ensures
        active_path(ms, leaf).no_duplicates(),
        forall|i: int|
            0 <= i < active_path(ms, leaf).len() ==> index_of(
                ms,
                #[trigger] active_path(ms, leaf)[i],
            ) is Some,
        forall|i: int|
            0 < i < active_path(ms, leaf).len() ==> ms[index_of(
                ms,
                #[trigger] active_path(ms, leaf)[i],
            )->0].parent_id == Some(active_path(ms, leaf)[i - 1]),
{
    let w = climb(ms, tip(ms, leaf), Set::empty());
    lemma_climb(ms, tip(ms, leaf), Set::empty());
    let p = active_path(ms, leaf);
    assert(p.len() == w.len());
    assert forall|i: int| 0 <= i < p.len() implies #[trigger] p[i] == w[w.len() - 1 - i] by {}
    assert forall|i: int| 0 < i < p.len() implies ms[index_of(ms, #[trigger] p[i])->0].parent_id
        == Some(p[i - 1]) by {
        let k = w.len() - 1 - i;
        assert(w[k] == p[i]);
        assert(w[k + 1] == p[i - 1]);
    }
}

/// Whether the walk up ends at a root, not at a link that leads back.
pub open spec fn ends_at_root(ms: Seq<StoredMessage>, from: Option<u64>, seen: Set<u64>) -> bool {
    climb_end(ms, from, seen) matches Some(id) ==> index_of(ms, id) is None
}

proof fn lemma_climb_needs_no_memory(
    ms: Seq<StoredMessage>,
    from: Option<u64>,
    more: Set<u64>,
    fewer: Set<u64>,
)
    requires
        ends_at_root(ms, from, more),
        fewer.subset_of(more),
    ensures
        climb(ms, from, fewer) == climb(ms, from, more),
    decreases ids(ms).to_set().difference(more).len(),
{
    if let Some(id) = from {
        lemma_index_of(ms, id);
        if let Some(i) = index_of(ms, id) {
            if !more.contains(id) {
                lemma_unseen_shrinks(ms, i, more);
                let rest = climb(ms, ms[i].parent_id, more.insert(id));
                let w = climb(ms, from, more);
                assert(w =~= seq![id] + rest);
                if rest.len() > 0 {
                    assert(w.last() == rest.last());
                }
                lemma_climb_needs_no_memory(
                    ms,
                    ms[i].parent_id,
                    more.insert(id),
                    fewer.insert(id),
                );
            }
        }
    }
}

proof fn lemma_climb_from(ms: Seq<StoredMessage>, from: Option<u64>, seen: Set<u64>, j: int)
    requires
        0 <= j < climb(ms, from, seen).len(),
    ensures
        climb(ms, from, seen).skip(j) == climb(
            ms,
            Some(climb(ms, from, seen)[j]),
            seen.union(climb(ms, from, seen).take(j).to_set()),
        ),
    decreases j,
{
    let w = climb(ms, from, seen);
    let id = from->0;
    let i = index_of(ms, id)->0;
    let rest = climb(ms, ms[i].parent_id, seen.insert(id));
    assert(w =~= seq![id] + rest);
    if j == 0 {
        assert(w.skip(0) =~= w);
        assert(w.take(0).to_set() =~= Set::empty()) by {
            assert(w.take(0) =~= Seq::empty());
        }
        assert(seen.union(w.take(0).to_set()) =~= seen);
    } else {
        lemma_climb_from(ms, ms[i].parent_id, seen.insert(id), j - 1);
        assert(w.skip(j) =~= rest.skip(j - 1));
        let before = seen.union(w.take(j).to_set());
        let after = seen.insert(id).union(rest.take(j - 1).to_set());
        assert forall|x: u64| before.contains(x) == after.contains(x) by {
            if w.take(j).contains(x) {
                let k = choose|k: int| 0 <= k < j && w.take(j)[k] == x;
                if k > 0 {
                    assert(rest.take(j - 1)[k - 1] == x);
                }
            }
            if rest.take(j - 1).contains(x) {
                let passed = rest.take(j - 1);
                let k = choose|k: int| 0 <= k < passed.len() && passed[k] == x;
                assert(w.take(j)[k + 1] == x);
            }
            if x == id {
                assert(w.take(j)[0] == x);
            }
        }
        assert(before =~= after);
    }
}

/// A message on the active path that is made the tip ends the path there: what
/// came after it is off the path, what came before it stays. Making no message
/// the tip empties the path.
pub proof fn lemma_path_is_walked_back(ms: Seq<StoredMessage>, leaf: Option<u64>, k: int)
    requires
        ends_at_root(ms, tip(ms, leaf), Set::empty()),
        0 <= k < active_path(ms, leaf).len(),
        active_path(ms, leaf)[k] != EMPTY_LEAF,
    ensures
        active_path(ms, Some(active_path(ms, leaf)[k])) == active_path(ms, leaf).take(k + 1),
        active_path(ms, Some(EMPTY_LEAF)) == Seq::<u64>::empty(),
{
    let from = tip(ms, leaf);
    let w = climb(ms, from, Set::empty());
    let p = active_path(ms, leaf);
    let j = w.len() - 1 - k;
    let id = p[k];
    assert(w[j] == id);
    lemma_climb(ms, from, Set::empty());
    lemma_climb_from(ms, from, Set::empty(), j);
    let passed = Set::empty().union(w.take(j).to_set());
    assert(w.skip(j).last() == w.last());
    lemma_climb_needs_no_memory(ms, Some(id), passed, Set::empty());
    assert(tip(ms, Some(id)) == Some(id));
    assert(w.skip(j).reverse() =~= p.take(k + 1));
    assert(climb(ms, None, Set::empty()).reverse() =~= Seq::<u64>::empty());
}

proof fn lemma_climb_below_new(
    ms: Seq<StoredMessage>,
    m: StoredMessage,
    from: Option<u64>,
    seen: Set<u64>,
)
    requires
        index_of(ms, m.id) is None,
    ensures
        climb(ms.push(m), from, seen.insert(m.id)) == climb(ms, from, seen),
    decreases ids(ms).to_set().difference(seen).len(),
{
    if let Some(id) = from {
        assert(ms.push(m).drop_last() =~= ms);
        if id != m.id {
            assert(index_of(ms.push(m), id) == index_of(ms, id));
            lemma_index_of(ms, id);
            if let Some(i) = index_of(ms, id) {
                if !seen.contains(id) {
                    lemma_unseen_shrinks(ms, i, seen);
                    assert(seen.insert(m.id).insert(id) =~= seen.insert(id).insert(m.id));
                    lemma_climb_below_new(ms, m, ms[i].parent_id, seen.insert(id));
                }
            }
        }
    }
}

/// A message that is added below the tip and made the tip comes last on the
/// path, and the path before it stays.
pub proof fn lemma_added_message_comes_last(
    ms: Seq<StoredMessage>,
    leaf: Option<u64>,
    m: StoredMessage,
)
    requires
        index_of(ms, m.id) is None,
        m.id != EMPTY_LEAF,
        m.parent_id == tip(ms, leaf),
    ensures
        active_path(ms.push(m), Some(m.id)) == active_path(ms, leaf).push(m.id),
{
    let all = ms.push(m);
    assert(all.last() == m);
    assert(index_of(all, m.id) == Some(ms.len() as int));
    lemma_climb_below_new(ms, m, m.parent_id, Set::empty());
    let w = climb(ms, tip(ms, leaf), Set::empty());
    assert(climb(all, Some(m.id), Set::empty()) =~= seq![m.id] + w);
    assert((seq![m.id] + w).reverse() =~= w.reverse().push(m.id));
}

/// Where the message with the id is.
pub fn find_message(ms: &Vec<StoredMessage>, id: u64) -> (r: Option<usize>)
    ensures
        match index_of(ms@, id) {
            Some(i) => r matches Some(k) && k == i && k < ms@.len(),
            None => r is None,
        },
{
    let mut i: usize = ms.len();
    proof {
        assert(ms@.take(i as int) =~= ms@);
    }
    while i > 0
        invariant
            i <= ms@.len(),
            index_of(ms@, id) == index_of(ms@.take(i as int), id),
        decreases i,
    {
        proof {
            assert(ms@.take(i as int).drop_last() =~= ms@.take(i - 1));
        }
        if ms[i - 1].id == id {
            return Some(i - 1);
        }
        i -= 1;
    }
    None
}

/// The newest message by sequence number.
fn find_newest(ms: &Vec<StoredMessage>) -> (r: Option<usize>)
    ensures
        match newest(ms@) {
            Some(i) => r matches Some(k) && k == i && k < ms@.len(),
            None => r is None,
        },
{
    let mut best: Option<usize> = None;
    let mut i: usize = 0;
    while i < ms.len()
        invariant
            i <= ms@.len(),
            match newest(ms@.take(i as int)) {
                Some(k) => best matches Some(b) && b == k && 0 <= k < i,
                None => best is None && i == 0,
            },
        decreases ms@.len() - i,
    {
        proof {
            assert(ms@.take(i + 1).drop_last() =~= ms@.take(i as int));
        }
        match best {
            None => {
                best = Some(i);
            },
            Some(b) => {
                if ms[b].seq <= ms[i].seq {
                    best = Some(i);
                }
            },
        }
        i += 1;
    }
    proof {
        assert(ms@.take(i as int) =~= ms@);
    }
    best
}

/// Whether the id is in the list.
pub fn holds_id(v: &Vec<u64>, id: u64) -> (b: bool)
    ensures
        b == v@.contains(id),
{
    let mut i: usize = 0;
    while i < v.len()
        invariant
            i <= v@.len(),
            forall|k: int| 0 <= k < i ==> v@[k] != id,
        decreases v@.len() - i,
    {
        if v[i] == id {
            return true;
        }
        i += 1;
    }
    false
}

/// The tip of the active path.
pub fn find_tip(ms: &Vec<StoredMessage>, leaf: Option<u64>) -> (r: Option<u64>)
    ensures
        r == tip(ms@, leaf),
{
    let newest_id: Option<u64> = match find_newest(ms) {
        Some(i) => Some(ms[i].id),
        None => None,
    };
    match leaf {
        Some(id) => if id == EMPTY_LEAF {
            None
        } else if find_message(ms, id).is_some() {
            Some(id)
        } else {
            newest_id
        },
        None => newest_id,
    }
}

/// The active path of a session: the ids from its root to its tip.
pub fn path_ids(ms: &Vec<StoredMessage>, leaf: Option<u64>) -> (r: Vec<u64>)
    ensures
        r@ == active_path(ms@, leaf),
{
    ancestors(ms, find_tip(ms, leaf))
}

/// The chain of parent links down to a message.
pub fn chain_ids(ms: &Vec<StoredMessage>, start: Option<u64>) -> (r: Vec<u64>)
    ensures
        r@ == chain(ms@, start),
{
    let mut out = ancestors(ms, start);
    let ghost w = climb(ms@, start, Set::empty());
    let ghost path = out@;
    let end: Option<u64> = if out.len() == 0 {
        start
    } else {
        proof {
            lemma_climb(ms@, start, Set::empty());
            assert(path[0] == w.last());
            lemma_index_of(ms@, path[0]);
        }
        match find_message(ms, out[0]) {
            Some(i) => ms[i].parent_id,
            None => None,
        }
    };
    if let Some(id) = end {
        if find_message(ms, id).is_none() {
            out.insert(0, id);
            proof {
                assert(out@ =~= seq![id] + path);
            }
        }
    }
    out
}

/// The ids from the root down to a message.
pub fn ancestors(ms: &Vec<StoredMessage>, start: Option<u64>) -> (r: Vec<u64>)
    ensures
        r@ == climb(ms@, start, Set::empty()).reverse(),
{
    let mut walk: Vec<u64> = Vec::new();
    let mut cur: Option<u64> = start;
    let ghost whole = climb(ms@, start, Set::empty());
    proof {
        assert(walk@.to_set() =~= Set::<u64>::empty());
        assert(walk@ + whole =~= whole);
    }
    loop
        invariant
            whole == walk@ + climb(ms@, cur, walk@.to_set()),
        ensures
            whole == walk@,
        decreases ids(ms@).to_set().difference(walk@.to_set()).len(),
    {
        let ghost rest = climb(ms@, cur, walk@.to_set());
        proof {
            if rest.len() == 0 {
                assert(walk@ + rest =~= walk@);
            }
        }
        let id: u64 = match cur {
            Some(id) => id,
            None => {
                break;
            },
        };
        let at: usize = match find_message(ms, id) {
            Some(i) => i,
            None => {
                break;
            },
        };
        if holds_id(&walk, id) {
            break;
        }
        let ghost before = walk@;
        proof {
            lemma_index_of(ms@, id);
            lemma_unseen_shrinks(ms@, at as int, walk@.to_set());
        }
        walk.push(id);
        cur = ms[at].parent_id;
        proof {
            assert(walk@.to_set() =~= before.to_set().insert(id)) by {
                assert forall|x: u64| walk@.to_set().contains(x) == before.to_set().insert(
                    id,
                ).contains(x) by {
                    if before.contains(x) {
                        let k = choose|k: int| 0 <= k < before.len() && before[k] == x;
                        assert(walk@[k] == x);
                    }
                    assert(walk@[before.len() as int] == id);
                    if walk@.contains(x) {
                        let k = choose|k: int| 0 <= k < walk@.len() && walk@[k] == x;
                        if k < before.len() {
                            assert(before[k] == x);
                        }
                    }
                }
            }
            let tail = climb(ms@, cur, walk@.to_set());
            assert(before + (seq![id] + tail) =~= walk@ + tail);
        }
    }
    let mut out: Vec<u64> = Vec::new();
    let mut i: usize = walk.len();
    while i > 0
        invariant
            i <= walk@.len(),
            out@ =~= walk@.reverse().take(walk@.len() - i),
        decreases i,
    {
        out.push(walk[i - 1]);
        i -= 1;
    }
    proof {
        assert(walk@.reverse().take(walk@.len() as int) =~= walk@.reverse());
    }
    out
}

impl Duplicate for StoredMessage {
    fn duplicate(&self) -> (r: Self) {
        StoredMessage {
            id: self.id,
            parent_id: self.parent_id,
            role: self.role,
            content: self.content.clone(),
            reasoning: duplicate_all(&self.reasoning),
            text_segments: duplicate_all(&self.text_segments),
            interrupted: self.interrupted,
            seq: self.seq,
            usage: self.usage,
            summary: self.summary,
            request: self.request,
        }
    }
}

/// The content of a [`StoredMessage`].
#[verifier::ext_equal]
pub struct StoredMessageView {
    pub id: u64,
    pub parent_id: Option<u64>,
    pub role: Role,
    pub content: Seq<char>,
    pub reasoning: Seq<(u64, Seq<char>, u64)>,
    pub text_segments: Seq<(u64, Seq<char>)>,
    pub interrupted: bool,
    pub seq: u64,
    pub usage: TokenUsage,
    pub summary: bool,
    pub request: TokenUsage,
}

impl View for StoredMessage {
    type V = StoredMessageView;

    open spec fn view(&self) -> StoredMessageView {
        StoredMessageView {
            id: self.id,
            parent_id: self.parent_id,
            role: self.role,
            content: self.content@,
            reasoning: views::views(self.reasoning@),
            text_segments: views::views(self.text_segments@),
            interrupted: self.interrupted,
            seq: self.seq,
            usage: self.usage,
            summary: self.summary,
            request: self.request,
        }
    }
}

}
