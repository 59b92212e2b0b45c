//! The live session: the active path of its tree, what was streamed on it,
//! and its token totals.

use crate::llm;
use crate::llm::{ChatMsg, ChatView, Role, TokenUsage};
use crate::stored;
use crate::stored::{
    find_message, holds_id, path_ids, ReasoningSegment, SessionId, StoredMessage, StoredScroll,
    StoredSession, StoredToolCall, TextSegment, EMPTY_LEAF,
};
use crate::text;
use crate::tool_record;
use crate::tool_record::{span_tool_records, ToolRecord};
use crate::views;
use crate::views::{duplicate_all, duplicate_opt};
use std::collections::HashMap;
use vstd::prelude::*;

verus! {

/// One tool call attached to a tree node.
#[derive(Debug, Clone)]
pub struct TreeNodeTool {
    pub name: String,
    pub ok: bool,
    pub killed: bool,
    pub worker: Option<String>,
}

/// The content of a [`TreeNodeTool`].
#[verifier::ext_equal]
pub struct TreeToolView {
    pub name: Seq<char>,
    pub ok: bool,
    pub killed: bool,
    pub worker: Option<Seq<char>>,
}

impl View for TreeNodeTool {
    type V = TreeToolView;

    open spec fn view(&self) -> TreeToolView {
        TreeToolView {
            name: self.name@,
            ok: self.ok,
            killed: self.killed,
            worker: views::opt_view(self.worker),
        }
    }
}

/// A node of the session tree: one stored message with its parent link and
/// tool calls. `on_path` marks the nodes of the active path.
#[derive(Debug, Clone)]
pub struct TreeNode {
    pub id: u64,
    pub parent: Option<u64>,
    pub role: Role,
    pub seq: u64,
    pub content: String,
    pub summary: bool,
    pub interrupted: bool,
    pub tools: Vec<TreeNodeTool>,
    pub on_path: bool,
}

/// The content of a [`TreeNode`].
#[verifier::ext_equal]
pub struct TreeNodeView {
    pub id: u64,
    pub parent: Option<u64>,
    pub role: Role,
    pub seq: u64,
    pub content: Seq<char>,
    pub summary: bool,
    pub interrupted: bool,
    pub tools: Seq<TreeToolView>,
    pub on_path: bool,
}

impl View for TreeNode {
    type V = TreeNodeView;

    open spec fn view(&self) -> TreeNodeView {
        TreeNodeView {
            id: self.id,
            parent: self.parent,
            role: self.role,
            seq: self.seq,
            content: self.content@,
            summary: self.summary,
            interrupted: self.interrupted,
            tools: views::views(self.tools@),
            on_path: self.on_path,
        }
    }
}

/// The live session. The maps and `summaries` are keyed by the place of a
/// message on the active path; `leaf_id` is the parent that new messages hang
/// from; `nodes` is the whole tree as it was loaded.
#[derive(Debug, Clone, Default)]
pub struct Session {
    pub id: Option<SessionId>,
    pub title: Option<String>,
    pub messages: Vec<ChatMsg>,
    pub reasoning: HashMap<u64, Vec<ReasoningSegment>>,
    pub text_segments: HashMap<u64, Vec<TextSegment>>,
    pub interrupted: HashMap<u64, bool>,
    pub tool_records: Vec<ToolRecord>,
    pub tokens: u64,
    pub input_tokens: u64,
    pub output_tokens: u64,
    pub reasoning_tokens: u64,
    pub cached_tokens: u64,
    pub summaries: Vec<u64>,
    pub nodes: Vec<TreeNode>,
    pub leaf_id: Option<u64>,
    pub scene: Option<String>,
    pub last_usage: Option<TokenUsage>,
    pub scroll: StoredScroll,
}

/// The usage that a stored message reports for its main request: the request
/// payload if there is one, else the row's own counts, if there are any.
pub open spec fn request_usage(m: StoredMessage) -> Option<TokenUsage> {
    if m.request.total_tokens > 0 {
        Some(m.request)
    } else if m.usage.total_tokens > 0 {
        Some(m.usage)
    } else {
        None
    }
}

/// The usage that a stored message reports for its main request.
pub fn request_usage_of(m: &StoredMessage) -> (r: Option<TokenUsage>)
    ensures
        r == request_usage(*m),
{
    if m.request.total_tokens > 0 {
        Some(m.request)
    } else if m.usage.total_tokens > 0 {
        Some(m.usage)
    } else {
        None
    }
}

/// The messages of a path.
pub open spec fn path_messages(ms: Seq<StoredMessage>, path: Seq<u64>) -> Seq<StoredMessage> {
    Seq::new(path.len(), |i: int| ms[stored::index_of(ms, path[i])->0])
}

/// The token totals of messages.
pub open spec fn total_usage(ms: Seq<StoredMessage>) -> TokenUsage
    decreases ms.len(),
{
    if ms.len() == 0 {
        llm::no_usage()
    } else {
        llm::usage_sum(total_usage(ms.drop_last()), ms.last().usage)
    }
}

/// The usage of the last main request: summaries are none.
pub open spec fn last_request(ms: Seq<StoredMessage>) -> Option<TokenUsage>
    decreases ms.len(),
{
    if ms.len() == 0 {
        None
    } else if !ms.last().summary && request_usage(ms.last()) is Some {
        request_usage(ms.last())
    } else {
        last_request(ms.drop_last())
    }
}

/// The places of the summaries.
pub open spec fn summary_places(ms: Seq<StoredMessage>) -> Seq<u64>
    decreases ms.len(),
{
    if ms.len() == 0 {
        Seq::empty()
    } else if ms.last().summary {
        summary_places(ms.drop_last()).push((ms.len() - 1) as u64)
    } else {
        summary_places(ms.drop_last())
    }
}

/// The calls of one message, in their order.
pub open spec fn calls_of(calls: Seq<StoredToolCall>, id: u64) -> Seq<TreeToolView>
    decreases calls.len(),
{
    if calls.len() == 0 {
        Seq::empty()
    } else {
        let before = calls_of(calls.drop_last(), id);
        let tc = calls.last();
        if tc.message_id == id {
            before.push(
                TreeToolView {
                    name: tc.name@,
                    ok: tc.ok,
                    killed: tc.killed,
                    worker: views::opt_view(tc.worker),
                },
            )
        } else {
            before
        }
    }
}

/// The node of the `i`th stored message. Should several messages share an id,
/// the first one has the calls and the last one may be on the path.
pub open spec fn node_of(s: StoredSession, path: Seq<u64>, i: int) -> TreeNodeView {
    let m = s.messages@[i];
    TreeNodeView {
        id: m.id,
        parent: m.parent_id,
        role: m.role,
        seq: m.seq,
        content: m.content@,
        summary: m.summary,
        interrupted: m.interrupted,
        tools: if first_of_id(s.messages@, i) {
            calls_of(s.tool_calls@, m.id)
        } else {
            Seq::empty()
        },
        on_path: path.contains(m.id) && stored::index_of(s.messages@, m.id) == Some(i),
    }
}

/// Whether no earlier message has the same id.
pub open spec fn first_of_id(ms: Seq<StoredMessage>, i: int) -> bool {
    forall|j: int| 0 <= j < i ==> (#[trigger] ms[j]).id != ms[i].id
}

/// The leaf that new messages hang from: none when the path was emptied.
pub open spec fn live_leaf(leaf: Option<u64>) -> Option<u64> {
    if leaf == Some(EMPTY_LEAF) {
        None
    } else {
        leaf
    }
}

/// Whether the session is what was stored: its active path, with what was
/// streamed on it, its totals, and the whole tree.
pub open spec fn restored(s: Session, st: StoredSession) -> bool {
    let path = stored::active_path(st.messages@, st.leaf_id);
    let ms = path_messages(st.messages@, path);
    let total = total_usage(ms);
    &&& s.id == Some(st.id)
    &&& views::opt_view(s.title) == Some(st.title@)
    &&& s.leaf_id == live_leaf(st.leaf_id)
    &&& views::opt_view(s.scene) == views::opt_view(st.scene)
    &&& s.scroll == st.scroll
    &&& views::views(s.messages@) == ms.map_values(
        |m: StoredMessage| ChatView { role: m.role, content: m.content@ },
    )
    &&& s.usage_view() == total
    &&& s.last_usage == last_request(ms)
    &&& s.summaries@ == summary_places(ms)
    &&& views::views(s.tool_records@) == tool_record::records_on(
        st.tool_calls@,
        path,
        0,
        path.len() as int,
    )
    &&& s.nodes@.len() == st.messages@.len()
    &&& forall|i: int| 0 <= i < s.nodes@.len() ==> (#[trigger] s.nodes@[i])@ == node_of(st, path, i)
    &&& keyed_by_path(s, ms)
}

/// Whether the maps hold, by place, the reasoning, the text runs and the
/// interruption of those messages that have them.
pub open spec fn keyed_by_path(s: Session, ms: Seq<StoredMessage>) -> bool {
    &&& forall|k: u64| #[trigger]
        s.reasoning@.contains_key(k) <==> k < ms.len() && ms[k as int].reasoning@.len() > 0
    &&& forall|k: u64|
        s.reasoning@.contains_key(k) ==> views::views((#[trigger] s.reasoning@[k])@)
            == views::views(ms[k as int].reasoning@)
    &&& forall|k: u64| #[trigger]
        s.text_segments@.contains_key(k) <==> k < ms.len() && ms[k as int].text_segments@.len()
            > 0
    &&& forall|k: u64|
        s.text_segments@.contains_key(k) ==> views::views((#[trigger] s.text_segments@[k])@)
            == views::views(ms[k as int].text_segments@)
    &&& forall|k: u64| #[trigger]
        s.interrupted@.contains_key(k) <==> k < ms.len() && ms[k as int].interrupted
    &&& forall|k: u64|
        s.interrupted@.contains_key(k) ==> #[trigger] s.interrupted@[k]
}

impl Session {
    /// The session's totals.
    pub open spec fn usage_view(self) -> TokenUsage {
        TokenUsage {
            total_tokens: self.tokens,
            input_tokens: self.input_tokens,
            output_tokens: self.output_tokens,
            cached_input_tokens: self.cached_tokens,
            reasoning_tokens: self.reasoning_tokens,
        }
    }

    /// Whether the session is empty.
    pub open spec fn blank(self) -> bool {
        &&& self.id is None
        &&& self.title is None
        &&& self.messages@.len() == 0
        &&& self.reasoning@ == Map::<u64, Vec<ReasoningSegment>>::empty()
        &&& self.text_segments@ == Map::<u64, Vec<TextSegment>>::empty()
        &&& self.interrupted@ == Map::<u64, bool>::empty()
        &&& self.tool_records@.len() == 0
        &&& self.usage_view() == llm::no_usage()
        &&& self.summaries@.len() == 0
        &&& self.nodes@.len() == 0
        &&& self.leaf_id is None
        &&& self.scene is None
        &&& self.last_usage is None
        &&& self.scroll == (StoredScroll { offset: 0, follow: false })
    }

    /// An empty session.
    pub fn new() -> (s: Session)
        ensures
            s.blank(),
    {
        Session {
            id: None,
            title: None,
            messages: Vec::new(),
            reasoning: HashMap::new(),
            text_segments: HashMap::new(),
            interrupted: HashMap::new(),
            tool_records: Vec::new(),
            tokens: 0,
            input_tokens: 0,
            output_tokens: 0,
            reasoning_tokens: 0,
            cached_tokens: 0,
            summaries: Vec::new(),
            nodes: Vec::new(),
            leaf_id: None,
            scene: None,
            last_usage: None,
            scroll: StoredScroll { offset: 0, follow: false },
        }
    }

    /// Empties the session.
    pub fn clear(&mut self)
        ensures
            final(self).blank(),
    {
        *self = Session::new();
    }

    /// Appends a message of the user.
    pub fn push_user(&mut self, content: &str)
        ensures
            final(self).messages@.len() == old(self).messages@.len() + 1,
            final(self).messages@.last()@ == (ChatView { role: Role::User, content: content@ }),
            *final(self) == (Session { messages: final(self).messages, ..*old(self) }),
            final(self).messages@.drop_last() == old(self).messages@,
    {
        self.messages.push(ChatMsg::user(content));
        proof {
            assert(self.messages@.drop_last() =~= old(self).messages@);
        }
    }

    /// Appends a message of the model.
    pub fn push_assistant(&mut self, content: &str)
        ensures
            final(self).messages@.len() == old(self).messages@.len() + 1,
            final(self).messages@.last()@ == (ChatView {
                role: Role::Assistant,
                content: content@,
            }),
            *final(self) == (Session { messages: final(self).messages, ..*old(self) }),
            final(self).messages@.drop_last() == old(self).messages@,
    {
        self.messages.push(ChatMsg::assistant(content));
        proof {
            assert(self.messages@.drop_last() =~= old(self).messages@);
        }
    }

    /// The last node of the tree that is a user prompt on the active path.
    pub open spec fn last_prompt(self) -> Option<int> {
        last_prompt_among(self.nodes@)
    }

    /// The active path's last user prompt node, if any.
    pub fn last_user_node(&self) -> (r: Option<&TreeNode>)
        ensures
            match self.last_prompt() {
                Some(i) => r == Some(&self.nodes@[i]),
                None => r is None,
            },
    {
        let mut i: usize = self.nodes.len();
        proof {
            assert(self.nodes@.take(i as int) =~= self.nodes@);
        }
        while i > 0
            invariant
                i <= self.nodes@.len(),
                self.last_prompt() == last_prompt_among(self.nodes@.take(i as int)),
            decreases i,
        {
            proof {
                assert(self.nodes@.take(i as int).drop_last() =~= self.nodes@.take(i - 1));
            }
            if self.nodes[i - 1].on_path && self.nodes[i - 1].role == Role::User {
                return Some(&self.nodes[i - 1]);
            }
            i -= 1;
        }
        None
    }

    /// The first prompt of the user, if any.
    pub fn first_user_prompt(&self) -> (r: Option<&str>)
        ensures
            text::opt_str(r) == first_prompt(views::views(self.messages@)),
    {
        let ghost all = views::views(self.messages@);
        proof {
            assert(all.skip(0) =~= all);
        }
        let mut i: usize = 0;
        while i < self.messages.len()
            invariant
                all == views::views(self.messages@),
                i <= self.messages@.len(),
                first_prompt(all) == first_prompt(all.skip(i as int)),
            decreases self.messages@.len() - i,
        {
            proof {
                assert(all.skip(i as int).skip(1) =~= all.skip(i + 1));
                assert(all[i as int] == self.messages@[i as int]@);
            }
            if self.messages[i].role == Role::User {
                return Some(self.messages[i].content.as_str());
            }
            i += 1;
        }
        None
    }

    /// Whether the last reply of the model was interrupted.
    pub fn last_assistant_interrupted(&self) -> (b: bool)
        ensures
            b == match last_reply(views::views(self.messages@)) {
                Some(i) => self.interrupted@.contains_key(i as u64) && self.interrupted@[i as u64],
                None => false,
            },
    {
        let ghost all = views::views(self.messages@);
        let mut i: usize = self.messages.len();
        proof {
            assert(all.take(i as int) =~= all);
        }
        while i > 0
            invariant
                all == views::views(self.messages@),
                i <= self.messages@.len(),
                last_reply(all) == last_reply(all.take(i as int)),
            decreases i,
        {
            proof {
                assert(all.take(i as int).drop_last() =~= all.take(i - 1));
            }
            if self.messages[i - 1].role == Role::Assistant {
                let key: u64 = (i - 1) as u64;
                return match self.interrupted.get(&key) {
                    Some(b) => *b,
                    None => false,
                };
            }
            i -= 1;
        }
        false
    }

    /// Adds a turn's usage to the totals.
    pub fn add_usage(&mut self, usage: TokenUsage)
        ensures
            final(self).usage_view() == llm::usage_sum(old(self).usage_view(), usage),
            *final(self) == (Session {
                tokens: final(self).tokens,
                input_tokens: final(self).input_tokens,
                output_tokens: final(self).output_tokens,
                reasoning_tokens: final(self).reasoning_tokens,
                cached_tokens: final(self).cached_tokens,
                ..*old(self)
            }),
    {
        self.tokens = self.tokens.saturating_add(usage.total_tokens);
        self.input_tokens = self.input_tokens.saturating_add(usage.input_tokens);
        self.output_tokens = self.output_tokens.saturating_add(usage.output_tokens);
        self.reasoning_tokens = self.reasoning_tokens.saturating_add(usage.reasoning_tokens);
        self.cached_tokens = self.cached_tokens.saturating_add(usage.cached_input_tokens);
    }

    /// The session's totals.
    pub fn usage(&self) -> (r: TokenUsage)
        ensures
            r == self.usage_view(),
    {
        TokenUsage {
            total_tokens: self.tokens,
            input_tokens: self.input_tokens,
            output_tokens: self.output_tokens,
            cached_input_tokens: self.cached_tokens,
            reasoning_tokens: self.reasoning_tokens,
        }
    }

    /// Where the history to send begins: at the newest summary before the tip.
    pub open spec fn send_start(self) -> int {
        newest_before(self.summaries@, self.messages@.len() - 1)
    }

    /// The history to send for a new turn: what comes before the pending
    /// message at the tip, from the newest summary on.
    pub fn history_for_send(&self) -> (r: Vec<ChatMsg>)
        ensures
            views::views(r@) == if self.messages@.len() <= 1 {
                Seq::empty()
            } else {
                views::views(self.messages@).subrange(
                    self.send_start(),
                    self.messages@.len() - 1,
                )
            },
    {
        let total: usize = self.messages.len();
        let mut out: Vec<ChatMsg> = Vec::new();
        if total <= 1 {
            proof {
                assert(views::views(out@) =~= Seq::empty());
            }
            return out;
        }
        let end: usize = total - 1;
        let mut begin: usize = 0;
        let mut i: usize = 0;
        while i < self.summaries.len()
            invariant
                i <= self.summaries@.len(),
                end == self.messages@.len() - 1,
                end > 0,
                begin == newest_before(self.summaries@.take(i as int), end as int),
                begin < end,
            decreases self.summaries@.len() - i,
        {
            proof {
                assert(self.summaries@.take(i + 1).drop_last() =~= self.summaries@.take(i as int));
            }
            let s: u64 = self.summaries[i];
            if s < end as u64 && s as usize >= begin {
                begin = s as usize;
            }
            i += 1;
        }
        proof {
            assert(self.summaries@.take(i as int) =~= self.summaries@);
        }
        let ghost all = views::views(self.messages@);
        let mut k: usize = begin;
        while k < end
            invariant
                all == views::views(self.messages@),
                begin <= k <= end,
                end == self.messages@.len() - 1,
                views::views(out@) =~= all.subrange(begin as int, k as int),
            decreases end - k,
        {
            let ghost before = out@;
            let m = self.messages[k].copy();
            out.push(m);
            proof {
                assert(views::views(out@) =~= views::views(before).push(m@));
            }
            k += 1;
        }
        out
    }
}

/// The last user prompt on the active path.
pub open spec fn last_prompt_among(nodes: Seq<TreeNode>) -> Option<int>
    decreases nodes.len(),
{
    if nodes.len() == 0 {
        None
    } else if nodes.last().on_path && nodes.last().role == Role::User {
        Some(nodes.len() - 1)
    } else {
        last_prompt_among(nodes.drop_last())
    }
}

/// The content of the first message that is the user's.
pub open spec fn first_prompt(ms: Seq<ChatView>) -> Option<Seq<char>>
    decreases ms.len(),
{
    if ms.len() == 0 {
        None
    } else if ms[0].role == Role::User {
        Some(ms[0].content)
    } else {
        first_prompt(ms.skip(1))
    }
}

/// The place of the last reply of the model.
pub open spec fn last_reply(ms: Seq<ChatView>) -> Option<int>
    decreases ms.len(),
{
    if ms.len() == 0 {
        None
    } else if ms.last().role == Role::Assistant {
        Some(ms.len() - 1)
    } else {
        last_reply(ms.drop_last())
    }
}

/// The largest of the places that lies before `end`, or the beginning.
pub open spec fn newest_before(places: Seq<u64>, end: int) -> int
    decreases places.len(),
{
    if places.len() == 0 {
        0
    } else {
        let before = newest_before(places.drop_last(), end);
        if before <= places.last() < end {
            places.last() as int
        } else {
            before
        }
    }
}

/// The history that is sent begins at or after every summary before the tip,
/// at a summary or at the beginning.
pub proof fn lemma_newest_before(places: Seq<u64>, end: int)
    requires
        end > 0,
    ensures
        0 <= newest_before(places, end) < end,
        newest_before(places, end) == 0 || exists|i: int|
            0 <= i < places.len() && places[i] == newest_before(places, end),
        forall|i: int|
            0 <= i < places.len() && places[i] < end ==> #[trigger] places[i] <= newest_before(
                places,
                end,
            ),
    decreases places.len(),
{
    if places.len() > 0 {
        let d = places.drop_last();
        lemma_newest_before(d, end);
        assert(forall|i: int| 0 <= i < d.len() ==> d[i] == places[i]);
        let b = newest_before(places, end);
        if b == places.last() {
            assert(places[places.len() - 1] == b);
        } else if b != 0 {
            let i = choose|i: int| 0 <= i < d.len() && d[i] == b;
            assert(places[i] == b);
        }
    }
}

fn tools_for(calls: &Vec<StoredToolCall>, id: u64) -> (r: Vec<TreeNodeTool>)
    ensures
        views::views(r@) == calls_of(calls@, id),
{
    let mut out: Vec<TreeNodeTool> = Vec::new();
    let mut i: usize = 0;
    proof {
        assert(views::views(out@) =~= calls_of(calls@.take(0), id));
    }
    while i < calls.len()
        invariant
            i <= calls@.len(),
            views::views(out@) == calls_of(calls@.take(i as int), id),
        decreases calls@.len() - i,
    {
        let tc = &calls[i];
        let ghost before = out@;
        proof {
            assert(calls@.take(i + 1).drop_last() =~= calls@.take(i as int));
        }
        if tc.message_id == id {
            let tool = TreeNodeTool {
                name: tc.name.clone(),
                ok: tc.ok,
                killed: tc.killed,
                worker: duplicate_opt(&tc.worker),
            };
            out.push(tool);
            proof {
                assert(views::views(out@) =~= views::views(before).push(tool@));
            }
        }
        i += 1;
    }
    proof {
        assert(calls@.take(i as int) =~= calls@);
    }
    out
}

fn is_first_of_id(ms: &Vec<StoredMessage>, i: usize) -> (b: bool)
    requires
        i < ms@.len(),
    ensures
        b == first_of_id(ms@, i as int),
{
    let mut j: usize = 0;
    while j < i
        invariant
            j <= i < ms@.len(),
            forall|k: int| 0 <= k < j ==> (#[trigger] ms@[k]).id != ms@[i as int].id,
        decreases i - j,
    {
        if ms[j].id == ms[i].id {
            return false;
        }
        j += 1;
    }
    true
}

fn build_nodes(st: &StoredSession, path: &Vec<u64>) -> (r: Vec<TreeNode>)
    ensures
        r@.len() == st.messages@.len(),
        forall|i: int| 0 <= i < r@.len() ==> (#[trigger] r@[i])@ == node_of(*st, path@, i),
{
    let mut out: Vec<TreeNode> = Vec::new();
    let mut i: usize = 0;
    while i < st.messages.len()
        invariant
            i <= st.messages@.len(),
            out@.len() == i,
            forall|k: int| 0 <= k < i ==> (#[trigger] out@[k])@ == node_of(*st, path@, k),
        decreases st.messages@.len() - i,
    {
        let m = &st.messages[i];
        let tools = if is_first_of_id(&st.messages, i) {
            tools_for(&st.tool_calls, m.id)
        } else {
            Vec::new()
        };
        let newest_of_id = match find_message(&st.messages, m.id) {
            Some(k) => k == i,
            None => false,
        };
        let node = TreeNode {
            id: m.id,
            parent: m.parent_id,
            role: m.role,
            seq: m.seq,
            content: m.content.clone(),
            summary: m.summary,
            interrupted: m.interrupted,
            tools,
            on_path: newest_of_id && holds_id(path, m.id),
        };
        proof {
            assert(views::views(node.tools@) =~= node_of(*st, path@, i as int).tools);
        }
        out.push(node);
        i += 1;
    }
    out
}

impl Session {
    /// Restores a session from its stored form.
    pub fn from_stored(st: &StoredSession) -> (s: Session)
        ensures
            restored(s, *st),
    {
        broadcast use vstd::std_specs::hash::group_hash_axioms;

        let path = path_ids(&st.messages, st.leaf_id);
        let ghost ms = path_messages(st.messages@, path@);
        let ghost chats = ms.map_values(
            |m: StoredMessage| ChatView { role: m.role, content: m.content@ },
        );
        proof {
            stored::lemma_active_path(st.messages@, st.leaf_id);
        }
        let mut s = Session::new();
        let mut k: usize = 0;
        proof {
            assert(ms.take(0) =~= Seq::<StoredMessage>::empty());
            assert(views::views(s.messages@) =~= chats.take(0));
            assert(s.summaries@ =~= summary_places(ms.take(0)));
        }
        while k < path.len()
            invariant
                path@ == stored::active_path(st.messages@, st.leaf_id),
                ms == path_messages(st.messages@, path@),
                chats == ms.map_values(
                    |m: StoredMessage| ChatView { role: m.role, content: m.content@ },
                ),
                forall|i: int|
                    0 <= i < path@.len() ==> stored::index_of(
                        st.messages@,
                        #[trigger] path@[i],
                    ) is Some,
                k <= path@.len(),
                views::views(s.messages@) == chats.take(k as int),
                s.usage_view() == total_usage(ms.take(k as int)),
                s.last_usage == last_request(ms.take(k as int)),
                s.summaries@ == summary_places(ms.take(k as int)),
                keyed_by_path(s, ms.take(k as int)),
            decreases path@.len() - k,
        {
            broadcast use vstd::std_specs::hash::group_hash_axioms;

            let ghost before = s;
            let at: usize = match find_message(&st.messages, path[k]) {
                Some(i) => i,
                None => {
                    proof {
                        assert(stored::index_of(st.messages@, path@[k as int]) is Some);
                    }
                    0
                },
            };
            let m = &st.messages[at];
            let ghost here = ms.take(k + 1);
            proof {
                assert(ms[k as int] == *m);
                assert(here.drop_last() =~= ms.take(k as int));
                assert(here.last() == *m);
                assert(forall|i: int| 0 <= i < k ==> here[i] == ms.take(k as int)[i]);
            }
            let place: u64 = k as u64;
            let chat = ChatMsg { role: m.role, content: m.content.clone() };
            s.messages.push(chat);
            s.add_usage(m.usage);
            if m.reasoning.len() > 0 {
                let copy = duplicate_all(&m.reasoning);
                s.reasoning.insert(place, copy);
            }
            if m.text_segments.len() > 0 {
                let copy = duplicate_all(&m.text_segments);
                s.text_segments.insert(place, copy);
            }
            if m.interrupted {
                s.interrupted.insert(place, true);
            }
            if m.summary {
                s.summaries.push(place);
            } else if let Some(usage) = request_usage_of(m) {
                s.last_usage = Some(usage);
            }
            proof {
                assert(views::views(s.messages@) =~= views::views(before.messages@).push(chat@));
                assert(chats.take(k + 1) =~= chats.take(k as int).push(chats[k as int]));
                assert(keyed_by_path(s, here));
            }
            k += 1;
        }
        proof {
            assert(ms.take(k as int) =~= ms);
            assert(chats.take(k as int) =~= chats);
        }
        let count: usize = path.len();
        s.id = Some(st.id);
        s.title = Some(st.title.clone());
        s.leaf_id = match st.leaf_id {
            Some(id) => if id == EMPTY_LEAF {
                None
            } else {
                Some(id)
            },
            None => None,
        };
        s.scene = duplicate_opt(&st.scene);
        s.scroll = st.scroll;
        s.tool_records = span_tool_records(&st.tool_calls, &path, 0, count);
        s.nodes = build_nodes(st, &path);
        s
    }
}

/// Whether the `i`th message is a child of the one before it.
pub open spec fn follows(ms: Seq<StoredMessage>, i: int) -> bool {
    ms[i].parent_id == Some(ms[i - 1].id)
}

/// The messages of an active path are each a child of the one before.
pub proof fn lemma_path_messages(st: StoredSession, i: int)
    requires
        0 < i < stored::active_path(st.messages@, st.leaf_id).len(),
    ensures
        follows(path_messages(st.messages@, stored::active_path(st.messages@, st.leaf_id)), i),
{
    let path = stored::active_path(st.messages@, st.leaf_id);
    stored::lemma_active_path(st.messages@, st.leaf_id);
    stored::lemma_index_of(st.messages@, path[i]);
    stored::lemma_index_of(st.messages@, path[i - 1]);
}

/// A restored session shows the messages of its active path, root first, each
/// the child of the one before it.
pub proof fn lemma_restored_messages_form_a_path(s: Session, st: StoredSession)
    requires
        restored(s, st),
    ensures
        ({
            let ms = path_messages(st.messages@, stored::active_path(st.messages@, st.leaf_id));
            &&& s.messages@.len() == ms.len()
            &&& forall|i: int|
                0 <= i < ms.len() ==> (#[trigger] s.messages@[i])@.content == ms[i].content@
            &&& forall|i: int| 0 < i < ms.len() ==> #[trigger] follows(ms, i)
        }),
{
    let ms = path_messages(st.messages@, stored::active_path(st.messages@, st.leaf_id));
    assert(views::views(s.messages@).len() == s.messages@.len());
    assert forall|i: int| 0 <= i < ms.len() implies (#[trigger] s.messages@[i])@.content
        == ms[i].content@ by {
        assert(views::views(s.messages@)[i] == s.messages@[i]@);
    }
    assert forall|i: int| 0 < i < ms.len() implies #[trigger] follows(ms, i) by {
        lemma_path_messages(st, i);
    }
}

}
