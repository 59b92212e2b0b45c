//! Scenes: which one a session runs under, which tools it leaves available,
//! and the prompts it puts around the outgoing history.
//!
//! The built-in default scene is code, not configuration: it changes nothing
//! but for its interlude, and is the fallback when no other scene resolves.

use crate::llm::{ChatMsg, ChatView, Role};
use crate::text;
use crate::text::trim;
use crate::text_map;
use crate::text_map::TextMap;
use vstd::prelude::*;

verus! {

/// Display name of the built-in default scene.
pub const DEFAULT_SCENE_NAME: &'static str = "Default";

/// The built-in default scene's picker description.
pub const DEFAULT_SCENE_DESCRIPTION: &'static str = "Built-in behavior, no scene configured";

/// The built-in default scene's interlude.
pub const DEFAULT_INTERLUDE: &'static str =
    "The earlier turns of this session may have run under a different scene, possibly with its own instructions or tool restrictions. Treat any scene-specific constraints in the history as belonging to those earlier turns, and continue under the default behavior.";

/// Prompts put before or after each message of a kind, or each turn.
#[derive(Debug, PartialEq, Default)]
pub struct Hooks {
    pub user_prompt: Option<String>,
    pub assistant_prompt: Option<String>,
    pub turn: Option<String>,
}

/// The prompts of a scene.
#[derive(Debug, PartialEq, Default)]
pub struct SystemPromptsConfig {
    pub prelude: Option<String>,
    pub interlude: Option<String>,
    pub before_each: Option<Hooks>,
    pub after_each: Option<Hooks>,
}

/// A rule for all tools of a scene.
#[derive(Debug, Clone, Copy, PartialEq, Eq, Structural)]
pub enum SceneToolVerb {
    AskAll,
    DisableAll,
}

/// A rule for one tool of a scene.
#[derive(Debug, Clone, Copy, PartialEq, Eq, Structural, Default)]
pub struct ToolOverride {
    pub disabled: Option<bool>,
    pub ask: Option<bool>,
}

/// The tool rules of a scene.
#[derive(Debug, PartialEq, Default)]
pub struct SceneToolsConfig {
    pub verb: Option<SceneToolVerb>,
    pub tools: TextMap<ToolOverride>,
}

/// What a scene changes of one worker.
#[derive(Debug, PartialEq, Default)]
pub struct SubagentConfig {
    pub disabled: bool,
    pub system_prompts: SystemPromptsConfig,
    pub tools: SceneToolsConfig,
}

/// What a scene changes of the workers.
#[derive(Debug, PartialEq, Default)]
pub struct SubagentsConfig {
    pub disabled: bool,
    pub workers: TextMap<SubagentConfig>,
}

/// A configured scene.
#[derive(Debug, PartialEq, Default)]
pub struct SceneConfig {
    pub description: Option<String>,
    pub system_prompts: SystemPromptsConfig,
    pub tools: SceneToolsConfig,
    pub subagents: SubagentsConfig,
}

/// The configured scenes by name.
#[derive(Debug, PartialEq, Default)]
pub struct ScenesConfig {
    pub scenes: TextMap<SceneConfig>,
}

/// One row of the scene switcher. `id` is `None` for the built-in default
/// scene; `switchable` marks scenes that may be entered mid-session.
#[derive(Debug, Clone, PartialEq)]
pub struct SceneListEntry {
    pub id: Option<String>,
    pub name: String,
    pub description: Option<String>,
    pub switchable: bool,
}

/// The content of a [`SceneListEntry`].
#[verifier::ext_equal]
pub struct SceneRow {
    pub id: Option<Seq<char>>,
    pub name: Seq<char>,
    pub description: Option<Seq<char>>,
    pub switchable: bool,
}

impl View for SceneListEntry {
    type V = SceneRow;

    open spec fn view(&self) -> SceneRow {
        SceneRow {
            id: text::opt_text(self.id),
            name: self.name@,
            description: text::opt_text(self.description),
            switchable: self.switchable,
        }
    }
}

/// Whether an optional string holds anything but white space.
pub open spec fn has_content(o: Option<String>) -> bool {
    o matches Some(s) && text::trimmed(s@).len() > 0
}

/// Whether the scene may be entered in the middle of a session: it has a
/// non-empty interlude.
pub fn is_switchable(config: &SceneConfig) -> (b: bool)
    ensures
        b == has_content(config.system_prompts.interlude),
{
    match &config.system_prompts.interlude {
        Some(interlude) => !trim(interlude.as_str()).is_empty(),
        None => false,
    }
}

/// The scene a request runs under; both fields are absent for the built-in
/// default scene.
#[derive(Debug, Clone, PartialEq, Default)]
pub struct Scene<'a> {
    pub config: Option<&'a SceneConfig>,
    pub name: Option<String>,
}

/// An optional borrowed string has this content.
pub open spec fn is_text(r: Option<&str>, content: Option<Seq<char>>) -> bool {
    match content {
        Some(c) => r matches Some(s) && s@ == c,
        None => r is None,
    }
}

/// A borrowed view of an optional string.
pub fn borrowed(o: &Option<String>) -> (r: Option<&str>)
    ensures
        is_text(r, text::opt_text(*o)),
{
    match o {
        Some(s) => Some(s.as_str()),
        None => None,
    }
}

impl<'a> Scene<'a> {
    /// The content of the interlude.
    pub open spec fn interlude_text(self) -> Option<Seq<char>> {
        match self.config {
            Some(c) => text::opt_text(c.system_prompts.interlude),
            None => Some(DEFAULT_INTERLUDE@),
        }
    }

    /// The hooks before each message.
    pub open spec fn before(self) -> Option<Hooks> {
        match self.config {
            Some(c) => c.system_prompts.before_each,
            None => None,
        }
    }

    /// The hooks after each message.
    pub open spec fn after(self) -> Option<Hooks> {
        match self.config {
            Some(c) => c.system_prompts.after_each,
            None => None,
        }
    }

    /// The scene a session runs under: the stored name while it still
    /// resolves, else the built-in default.
    pub fn resolve(scenes: &'a ScenesConfig, stored: Option<&str>) -> (r: Self)
        ensures
            match stored {
                Some(name) => match text_map::lookup(scenes.scenes@, name@) {
                    Some(c) => r.config == Some(&c) && text::opt_text(r.name) == Some(name@),
                    None => r.config is None && r.name is None,
                },
                None => r.config is None && r.name is None,
            },
    {
        match stored {
            Some(name) => match scenes.scenes.get(name) {
                Some(config) => Scene { config: Some(config), name: Some(name.to_owned()) },
                None => Scene { config: None, name: None },
            },
            None => Scene { config: None, name: None },
        }
    }

    /// Whether this is the built-in default scene.
    pub fn is_default(&self) -> (b: bool)
        ensures
            b == (self.config is None),
    {
        self.config.is_none()
    }

    /// The scene's name, or [`DEFAULT_SCENE_NAME`] for the built-in scene.
    pub fn display_name(&self) -> (s: &str)
        ensures
            s@ == match self.name {
                Some(n) => n@,
                None => DEFAULT_SCENE_NAME@,
            },
    {
        match &self.name {
            Some(n) => n.as_str(),
            None => DEFAULT_SCENE_NAME,
        }
    }

    /// The configured description.
    pub fn description(&self) -> (r: Option<&str>)
        ensures
            is_text(
                r,
                match self.config {
                    Some(c) => text::opt_text(c.description),
                    None => None,
                },
            ),
    {
        match self.config {
            Some(c) => borrowed(&c.description),
            None => None,
        }
    }

    /// The prelude, which replaces the built-in agent preamble.
    pub fn prelude(&self) -> (r: Option<&str>)
        ensures
            is_text(
                r,
                match self.config {
                    Some(c) => text::opt_text(c.system_prompts.prelude),
                    None => None,
                },
            ),
    {
        match self.config {
            Some(c) => borrowed(&c.system_prompts.prelude),
            None => None,
        }
    }

    /// The interlude, put at the top of the outgoing history.
    pub fn interlude(&self) -> (r: Option<&str>)
        ensures
            is_text(r, self.interlude_text()),
    {
        match self.config {
            Some(c) => borrowed(&c.system_prompts.interlude),
            None => Some(DEFAULT_INTERLUDE),
        }
    }

    /// The hooks before each message.
    pub fn before_each(&self) -> (r: Option<&Hooks>)
        ensures
            match self.before() {
                Some(h) => r == Some(&h),
                None => r is None,
            },
    {
        match self.config {
            Some(c) => c.system_prompts.before_each.as_ref(),
            None => None,
        }
    }

    /// The hooks after each message.
    pub fn after_each(&self) -> (r: Option<&Hooks>)
        ensures
            match self.after() {
                Some(h) => r == Some(&h),
                None => r is None,
            },
    {
        match self.config {
            Some(c) => c.system_prompts.after_each.as_ref(),
            None => None,
        }
    }

    /// The scene's tool rules.
    pub open spec fn tool_rules(self) -> ToolScene<'a> {
        tool_scene_of(
            match self.config {
                Some(c) => Some(&c.tools),
                None => None,
            },
        )
    }

    /// The scene's tool rules.
    pub fn tools(&self) -> (r: ToolScene<'a>)
        ensures
            r == self.tool_rules(),
    {
        match self.config {
            Some(c) => ToolScene::build(Some(&c.tools)),
            None => ToolScene::build(None),
        }
    }

    /// What the scene changes of the workers.
    pub fn subagents(&self) -> (r: Option<&'a SubagentsConfig>)
        ensures
            match self.config {
                Some(c) => r == Some(&c.subagents),
                None => r is None,
            },
    {
        match self.config {
            Some(c) => Some(&c.subagents),
            None => None,
        }
    }

    /// What the scene changes of the named worker.
    pub open spec fn worker_config(self, name: Seq<char>) -> Option<SubagentConfig> {
        match self.config {
            Some(c) => text_map::lookup(c.subagents.workers@, name),
            None => None,
        }
    }

    /// What the scene changes of the named worker.
    pub fn worker(&self, name: &str) -> (r: Option<&'a SubagentConfig>)
        ensures
            match self.worker_config(name@) {
                Some(w) => r == Some(&w),
                None => r is None,
            },
    {
        match self.config {
            Some(c) => c.subagents.workers.get(name),
            None => None,
        }
    }
}

/// The tool rules of one scene or worker.
#[derive(Debug, Clone, PartialEq, Default)]
pub struct ToolScene<'a> {
    pub verb: Option<SceneToolVerb>,
    pub overrides: Option<&'a TextMap<ToolOverride>>,
}

/// The rules that a configuration states; without one, none.
pub open spec fn tool_scene_of<'a>(config: Option<&'a SceneToolsConfig>) -> ToolScene<'a> {
    match config {
        Some(c) => ToolScene { verb: c.verb, overrides: Some(&c.tools) },
        None => ToolScene { verb: None, overrides: None },
    }
}

impl<'a> ToolScene<'a> {
    /// The rule for the named tool.
    pub open spec fn rule(self, tool: Seq<char>) -> ToolOverride {
        let none = ToolOverride { disabled: None, ask: None };
        match self.overrides {
            Some(m) => match text_map::lookup(m@, tool) {
                Some(o) => o,
                None => none,
            },
            None => none,
        }
    }

    /// Whether the tool is available: under `disable-all` only if it is
    /// re-enabled, else unless it is disabled.
    pub open spec fn available(self, tool: Seq<char>) -> bool {
        if self.verb == Some(SceneToolVerb::DisableAll) {
            self.rule(tool).disabled == Some(false)
        } else {
            self.rule(tool).disabled != Some(true)
        }
    }

    /// Whether the tool must ask: an available one, under `ask-all` or by its own rule.
    pub open spec fn asking(self, tool: Seq<char>) -> bool {
        self.available(tool) && (self.verb == Some(SceneToolVerb::AskAll) || self.rule(tool).ask
            == Some(true))
    }

    /// The rules that a configuration states; without one, none.
    pub fn build(config: Option<&'a SceneToolsConfig>) -> (r: Self)
        ensures
            r == tool_scene_of(config),
    {
        match config {
            Some(c) => ToolScene { verb: c.verb, overrides: Some(&c.tools) },
            None => ToolScene { verb: None, overrides: None },
        }
    }

    fn rule_of(&self, tool: &str) -> (r: ToolOverride)
        ensures
            r == self.rule(tool@),
    {
        match self.overrides {
            Some(m) => match m.get(tool) {
                Some(o) => *o,
                None => ToolOverride { disabled: None, ask: None },
            },
            None => ToolOverride { disabled: None, ask: None },
        }
    }

    /// Whether the tool is built into the roster at all.
    pub fn allows(&self, tool: &str) -> (b: bool)
        ensures
            b == self.available(tool@),
    {
        let disabled = self.rule_of(tool).disabled;
        match self.verb {
            Some(SceneToolVerb::DisableAll) => match disabled {
                Some(d) => !d,
                None => false,
            },
            _ => match disabled {
                Some(d) => !d,
                None => true,
            },
        }
    }

    /// Whether the scene forces an ask verdict for the tool.
    pub fn forces_ask(&self, tool: &str) -> (b: bool)
        ensures
            b == self.asking(tool@),
    {
        if !self.allows(tool) {
            return false;
        }
        match self.verb {
            Some(SceneToolVerb::AskAll) => true,
            _ => match self.rule_of(tool).ask {
                Some(a) => a,
                None => false,
            },
        }
    }
}

/// A system message, where there is a prompt.
pub open spec fn prompt(o: Option<String>) -> Seq<ChatView> {
    match o {
        Some(s) => seq![ChatView { role: Role::System, content: s@ }],
        None => Seq::empty(),
    }
}

/// What opens a turn: the hook before each turn, then the one before each user prompt.
pub open spec fn opening(before: Option<Hooks>) -> Seq<ChatView> {
    match before {
        Some(h) => prompt(h.turn) + prompt(h.user_prompt),
        None => Seq::empty(),
    }
}

/// A message with the hooks around it. A turn starts with its user prompt and
/// ends with its assistant reply.
pub open spec fn wrapped(
    m: ChatView,
    before: Option<Hooks>,
    after: Option<Hooks>,
) -> Seq<ChatView> {
    match m.role {
        Role::User => opening(before) + seq![m] + match after {
            Some(h) => prompt(h.user_prompt),
            None => Seq::empty(),
        },
        Role::Assistant => (match before {
            Some(h) => prompt(h.assistant_prompt),
            None => Seq::empty(),
        }) + seq![m] + match after {
            Some(h) => prompt(h.assistant_prompt) + prompt(h.turn),
            None => Seq::empty(),
        },
        Role::System => seq![m],
    }
}

/// The messages, each with the hooks around it.
pub open spec fn wrapped_all(
    ms: Seq<ChatView>,
    before: Option<Hooks>,
    after: Option<Hooks>,
) -> Seq<ChatView>
    decreases ms.len(),
{
    if ms.len() == 0 {
        Seq::empty()
    } else {
        wrapped_all(ms.drop_last(), before, after) + wrapped(ms.last(), before, after)
    }
}

/// The outgoing history of a scene: its interlude, the messages with their
/// hooks, and what opens the pending turn.
pub open spec fn injected(scene: Scene, prior: Seq<ChatView>, pending: bool) -> Seq<ChatView> {
    announcement(scene) + around(scene, prior, pending)
}

/// What tells the model of the scene.
pub open spec fn announcement(scene: Scene) -> Seq<ChatView> {
    match scene.interlude_text() {
        Some(content) => seq![ChatView { role: Role::System, content }],
        None => Seq::empty(),
    }
}

/// The messages with their hooks, and what opens the pending turn.
pub open spec fn around(scene: Scene, prior: Seq<ChatView>, pending: bool) -> Seq<ChatView> {
    wrapped_all(prior, scene.before(), scene.after()) + if pending {
        opening(scene.before())
    } else {
        Seq::empty()
    }
}

fn push_prompt(out: &mut Vec<ChatMsg>, o: &Option<String>)
    ensures
        crate::llm::chat_views(final(out)@) == crate::llm::chat_views(old(out)@) + prompt(*o),
{
    let ghost before = crate::llm::chat_views(out@);
    if let Some(s) = o {
        out.push(ChatMsg::system(s.as_str()));
    }
    proof {
        assert(crate::llm::chat_views(out@) =~= before + prompt(*o));
    }
}

fn push_opening(out: &mut Vec<ChatMsg>, before: Option<&Hooks>)
    ensures
        crate::llm::chat_views(final(out)@) == crate::llm::chat_views(old(out)@) + match before {
            Some(h) => opening(Some(*h)),
            None => Seq::empty(),
        },
{
    let ghost start = crate::llm::chat_views(out@);
    if let Some(h) = before {
        push_prompt(out, &h.turn);
        push_prompt(out, &h.user_prompt);
        proof {
            assert(start + prompt(h.turn) + prompt(h.user_prompt) =~= start + opening(Some(*h)));
        }
    } else {
        proof {
            assert(start + Seq::<ChatView>::empty() =~= start);
        }
    }
}

fn push_message(out: &mut Vec<ChatMsg>, m: &ChatMsg)
    ensures
        crate::llm::chat_views(final(out)@) == crate::llm::chat_views(old(out)@) + seq![m@],
{
    let ghost start = crate::llm::chat_views(out@);
    out.push(m.copy());
    proof {
        assert(crate::llm::chat_views(out@) =~= start + seq![m@]);
    }
}

fn push_wrapped(
    out: &mut Vec<ChatMsg>,
    m: &ChatMsg,
    before: Option<&Hooks>,
    after: Option<&Hooks>,
)
    ensures
        crate::llm::chat_views(final(out)@) == crate::llm::chat_views(old(out)@) + wrapped(
            m@,
            owned(before),
            owned(after),
        ),
{
    let ghost start = crate::llm::chat_views(out@);
    match m.role {
        Role::User => {
            push_opening(out, before);
            push_message(out, m);
            if let Some(h) = after {
                push_prompt(out, &h.user_prompt);
            }
        },
        Role::Assistant => {
            if let Some(h) = before {
                push_prompt(out, &h.assistant_prompt);
            }
            push_message(out, m);
            if let Some(h) = after {
                push_prompt(out, &h.assistant_prompt);
                push_prompt(out, &h.turn);
            }
        },
        Role::System => {
            push_message(out, m);
        },
    }
    proof {
        assert(crate::llm::chat_views(out@) =~= start + wrapped(m@, owned(before), owned(after)));
    }
}

/// The value behind an optional reference.
pub open spec fn owned(h: Option<&Hooks>) -> Option<Hooks> {
    match h {
        Some(h) => Some(*h),
        None => None,
    }
}

/// Puts the scene's prompts around the outgoing history. The pending user
/// prompt is sent apart from it, so only what opens its turn is appended.
pub fn inject_history(
    scene: &Scene,
    prior: &[ChatMsg],
    pending_user: Option<&str>,
) -> (r: Vec<ChatMsg>)
    ensures
        crate::llm::chat_views(r@) == injected(
            *scene,
            crate::llm::chat_views(prior@),
            pending_user is Some,
        ),
{
    history_for(scene, prior, pending_user.is_some(), true)
}

/// Puts the scene's hooks around the outgoing history, and tells the model of
/// the scene where that is due.
pub fn history_for(
    scene: &Scene,
    prior: &[ChatMsg],
    pending: bool,
    announce: bool,
) -> (r: Vec<ChatMsg>)
    ensures
        crate::llm::chat_views(r@) == (if announce {
            announcement(*scene)
        } else {
            Seq::empty()
        }) + around(*scene, crate::llm::chat_views(prior@), pending),
{
    let before = scene.before_each();
    let after = scene.after_each();
    let mut out: Vec<ChatMsg> = Vec::new();
    let ghost first = if announce {
        announcement(*scene)
    } else {
        Seq::empty()
    };
    if announce {
        if let Some(interlude) = scene.interlude() {
            out.push(ChatMsg::system(interlude));
        }
    }
    let ghost top = crate::llm::chat_views(out@);
    let ghost all = crate::llm::chat_views(prior@);
    let mut i: usize = 0;
    proof {
        assert(top =~= first);
        assert(top + wrapped_all(all.take(0), owned(before), owned(after)) =~= top);
    }
    while i < prior.len()
        invariant
            all == crate::llm::chat_views(prior@),
            i <= prior@.len(),
            crate::llm::chat_views(out@) =~= top + wrapped_all(
                all.take(i as int),
                owned(before),
                owned(after),
            ),
        decreases prior@.len() - i,
    {
        proof {
            assert(all.take(i + 1).drop_last() =~= all.take(i as int));
        }
        push_wrapped(&mut out, &prior[i], before, after);
        i += 1;
    }
    proof {
        assert(all.take(i as int) =~= all);
    }
    if pending {
        push_opening(&mut out, before);
    }
    proof {
        assert(owned(before) == scene.before());
        assert(owned(after) == scene.after());
        assert(crate::llm::chat_views(out@) =~= first + around(*scene, all, pending));
    }
    out
}

/// A tool that must ask is available; a disabled one never asks.
pub proof fn lemma_asking_is_available(scene: ToolScene, tool: Seq<char>)
    requires
        scene.asking(tool),
    ensures
        scene.available(tool),
{
}

/// Without a configuration every tool is available and none asks.
pub proof fn lemma_default_scene_leaves_tools_alone(tool: Seq<char>)
    ensures
        tool_scene_of(None).available(tool),
        !tool_scene_of(None).asking(tool),
{
}

/// The messages themselves go out in their order: what a scene adds are system messages.
pub proof fn lemma_injection_keeps_conversation(
    ms: Seq<ChatView>,
    before: Option<Hooks>,
    after: Option<Hooks>,
)
    ensures
        conversation(wrapped_all(ms, before, after)) == conversation(ms),
    decreases ms.len(),
{
    if ms.len() > 0 {
        let m = ms.last();
        lemma_injection_keeps_conversation(ms.drop_last(), before, after);
        let w = wrapped(m, before, after);
        lemma_conversation_concat(wrapped_all(ms.drop_last(), before, after), w);
        assert(ms =~= ms.drop_last() + seq![m]);
        lemma_conversation_concat(ms.drop_last(), seq![m]);
        let (head, tail) = match m.role {
            Role::User => (
                opening(before),
                match after {
                    Some(h) => prompt(h.user_prompt),
                    None => Seq::empty(),
                },
            ),
            Role::Assistant => (
                match before {
                    Some(h) => prompt(h.assistant_prompt),
                    None => Seq::empty(),
                },
                match after {
                    Some(h) => prompt(h.assistant_prompt) + prompt(h.turn),
                    None => Seq::empty(),
                },
            ),
            Role::System => (Seq::empty(), Seq::empty()),
        };
        assert(w =~= head + seq![m] + tail);
        lemma_conversation_concat(head + seq![m], tail);
        lemma_conversation_concat(head, seq![m]);
        lemma_conversation_of_prompts(head);
        lemma_conversation_of_prompts(tail);
        assert(conversation(w) =~= conversation(seq![m]));
    }
}

/// The messages of the user and the model, without the system messages.
pub open spec fn conversation(ms: Seq<ChatView>) -> Seq<ChatView>
    decreases ms.len(),
{
    if ms.len() == 0 {
        ms
    } else if ms.last().role == Role::System {
        conversation(ms.drop_last())
    } else {
        conversation(ms.drop_last()).push(ms.last())
    }
}

/// The conversation of two lists of messages is that of the one and then of the other.
pub proof fn lemma_conversation_concat(a: Seq<ChatView>, b: Seq<ChatView>)
    ensures
        conversation(a + b) == conversation(a) + conversation(b),
    decreases b.len(),
{
    if b.len() == 0 {
        assert(a + b =~= a);
        assert(conversation(a) + conversation(b) =~= conversation(a));
    } else {
        assert((a + b).drop_last() =~= a + b.drop_last());
        lemma_conversation_concat(a, b.drop_last());
        assert(conversation(a + b) =~= conversation(a) + conversation(b));
    }
}

/// Prompts of the system are no part of the conversation.
pub proof fn lemma_conversation_of_prompts(s: Seq<ChatView>)
    requires
        forall|i: int| 0 <= i < s.len() ==> (#[trigger] s[i]).role == Role::System,
    ensures
        conversation(s) == Seq::<ChatView>::empty(),
    decreases s.len(),
{
    if s.len() > 0 {
        lemma_conversation_of_prompts(s.drop_last());
    }
}

}
