//! A request: what a turn sends to the model.

use crate::agents;
use crate::agents::{build_workers, WorkerPlan};
use crate::context::{build_preamble, LoadedContext};
use crate::llm;
use crate::llm::{ChatMsg, ChatView};
use crate::scenes;
use crate::scenes::{history_for, is_switchable, Scene, SceneListEntry, ScenesConfig};
use crate::scenes::{DEFAULT_SCENE_DESCRIPTION, DEFAULT_SCENE_NAME};
use crate::session::Session;
use crate::skills;
use crate::skills::Skills;
use crate::stored::SessionId;
use crate::text;
use crate::text::same;
use crate::text_map;
use crate::tools;
use crate::tools::{all_tools, OfferedTool};
use crate::views;
use crate::views::duplicate_opt;
use vstd::prelude::*;

verus! {

/// What the main agent is told where no scene says otherwise.
pub const AGENT_PREAMBLE: &'static str =
    "You are Shuvarie, an agentic coding assistant running in a terminal inside the user's project. You can read, write, edit, and delete files, list directories, grep for text, run commands, and fetch web pages with the `webfetch` tool (URLs must start with http:// or https://). For advanced editing — changes spanning multiple files, renames/moves, or adding files — prefer the `apply_patch` tool: it applies one `*** Begin Patch` … `*** End Patch` envelope touching several files in a single call. Delete individual files with the `delete_file` tool. Prefer using tools to inspect the workspace and verify your work (for example, run the test suite after editing code) instead of guessing. When a tool reports an error, fix the cause and retry rather than stopping. After finishing the work, summarize what you did and any results in a short reply. Keep the reply concise.\n\nYou can also delegate work to three specialist worker agents, exposed as tools:\n- explore_workspace: locates, reads, and summarizes existing code (list/read/grep). Use it for research and understanding before changes.\n- run_tests: runs the project's build, test, and lint commands and iterates on failures. Use it to verify changes or diagnose failing commands.\n- edit_files: implements changes by reading, writing, and editing files.\n\nDelegate a task to a worker when it is long, multi-step, or self-contained — the worker runs its own agent loop and returns a summary. Keep doing your own work for quick, single tool calls. You remain responsible for the final answer: synthesize worker results and verify the overall outcome (for example, delegate to run_tests after edit_files).\n\nYou can maintain a session todo list with the `todo` tool (ops: add, update, remove, list; statuses: pending, in_progress, done). When the user's request needs three or more steps, add a todo per step, keep exactly one in_progress while you work on it, and mark each done as soon as it is finished. Todos are surfaced to the user in the chat pane and the sidebar, so keep the list current.";

/// What the model is told of the search tool.
pub const WEB_SEARCH_NOTE: &'static str =
    "\n\nWeb search is available through the `web_search` tool: use it for current information and documentation beyond your training data, then read a specific result page with `webfetch`.";

/// What the preamble says before the context files: the scene's prelude, or
/// the built-in text, then the skills, then the search tool.
pub open spec fn base_text(
    prelude: Option<Seq<char>>,
    section: Option<Seq<char>>,
    web_search: bool,
) -> Seq<char> {
    let start = match prelude {
        Some(p) => p,
        None => AGENT_PREAMBLE@,
    };
    let told = match section {
        Some(s) => start + "\n\n"@ + s,
        None => start,
    };
    if web_search {
        told + WEB_SEARCH_NOTE@
    } else {
        told
    }
}

/// The scene's prelude.
pub open spec fn prelude_of(scene: Scene) -> Option<Seq<char>> {
    match scene.config {
        Some(c) => text::opt_text(c.system_prompts.prelude),
        None => None,
    }
}

/// What the preamble says before the context files.
pub fn base_preamble(scene: &Scene, section: Option<&str>, web_search: bool) -> (r: String)
    ensures
        r@ == base_text(
            prelude_of(*scene),
            match section {
                Some(s) => Some(s@),
                None => None,
            },
            web_search,
        ),
{
    let mut out: String = match scene.prelude() {
        Some(p) => p.to_owned(),
        None => AGENT_PREAMBLE.to_owned(),
    };
    if let Some(s) = section {
        out.append("\n\n");
        out.append(s);
    }
    if web_search {
        out.append(WEB_SEARCH_NOTE);
    }
    out
}

/// Whether the model is yet to be told of the session's scene.
pub open spec fn announcement_due(scene: Option<Seq<char>>, announced: Option<Seq<char>>) -> bool {
    scene != announced
}

/// The scene that counts as announced after a request: one that was due, unless
/// storing it failed.
pub open spec fn announced_after(
    scene: Option<Seq<char>>,
    announced: Option<Seq<char>>,
    failed: bool,
) -> Option<Seq<char>> {
    if announcement_due(scene, announced) && !failed {
        scene
    } else {
        announced
    }
}

fn same_scene(a: &Option<String>, b: &Option<String>) -> (r: bool)
    ensures
        r == (views::opt_view(*a) == views::opt_view(*b)),
{
    match (a, b) {
        (Some(x), Some(y)) => same(x.as_str(), y.as_str()),
        (None, None) => true,
        (_, _) => false,
    }
}

/// Whether a request tells the model of the scene, and which stored session
/// takes the scene then. Where the session is not stored yet there is nothing
/// to wait for.
pub fn announce_scene(session: &Session, announced: &mut Option<String>) -> (r: (
    bool,
    Option<SessionId>,
))
    ensures
        r.0 == announcement_due(views::opt_view(session.scene), views::opt_view(*old(announced))),
        r.1 == if r.0 {
            session.id
        } else {
            None
        },
        views::opt_view(*final(announced)) == if session.id is None {
            announced_after(
                views::opt_view(session.scene),
                views::opt_view(*old(announced)),
                false,
            )
        } else {
            views::opt_view(*old(announced))
        },
{
    if same_scene(&session.scene, announced) {
        return (false, None);
    }
    if session.id.is_none() {
        *announced = duplicate_opt(&session.scene);
    }
    (true, session.id)
}

/// Takes in whether a scene that was announced could be stored. Where it could
/// not, what went wrong comes out, and the next request announces it again.
pub fn scene_stored(
    session: &Session,
    announced: &mut Option<String>,
    failure: Option<&str>,
) -> (r: Option<String>)
    ensures
        views::opt_view(*final(announced)) == announced_after(
            views::opt_view(session.scene),
            views::opt_view(*old(announced)),
            failure is Some,
        ),
        match failure {
            Some(e) => r matches Some(s) && s@ == "failed to persist the scene: "@ + e@,
            None => r is None,
        },
{
    match failure {
        Some(e) => {
            let mut s: String = "failed to persist the scene: ".to_owned();
            s.append(e);
            Some(s)
        },
        None => {
            *announced = duplicate_opt(&session.scene);
            None
        },
    }
}

/// The files to report as loaded: once for a session, and only if there are any.
pub fn context_news(announced: &mut bool, context: &LoadedContext) -> (r: Option<Vec<String>>)
    ensures
        *final(announced) == (*old(announced) || context@.files.len() > 0),
        match r {
            Some(files) => !*old(announced) && context@.files.len() > 0 && text::texts(files@)
                == context@.files,
            None => *old(announced) || context@.files.len() == 0,
        },
{
    if context.is_empty() || *announced {
        return None;
    }
    *announced = true;
    Some(text::copy_texts(context.files.as_slice()))
}

/// What a turn sends: the preamble, the conversation before the prompt, and
/// what the model may use.
#[derive(Debug)]
pub struct Request {
    pub preamble: String,
    pub history: Vec<ChatMsg>,
    pub tools: Vec<OfferedTool>,
    pub workers: Vec<WorkerPlan>,
}

/// The content of a [`Request`].
#[verifier::ext_equal]
pub struct RequestView {
    pub preamble: Seq<char>,
    pub history: Seq<ChatView>,
    pub tools: Seq<(Seq<char>, bool, bool)>,
    pub workers: Seq<agents::WorkerView>,
}

impl View for Request {
    type V = RequestView;

    open spec fn view(&self) -> RequestView {
        RequestView {
            preamble: self.preamble@,
            history: llm::chat_views(self.history@),
            tools: tools::offered_views(self.tools@),
            workers: agents::worker_views(self.workers@),
        }
    }
}

/// The conversation before the prompt at the tip.
pub open spec fn prior_of(session: Session) -> Seq<ChatView> {
    if session.messages@.len() <= 1 {
        Seq::empty()
    } else {
        views::views(session.messages@).subrange(
            session.send_start(),
            session.messages@.len() - 1,
        )
    }
}

/// The history that goes along: the scene where it is announced, then the
/// conversation with the scene's hooks around it.
pub open spec fn history_sent(scene: Scene, prior: Seq<ChatView>, announce: bool) -> Seq<ChatView> {
    (if announce {
        scenes::announcement(scene)
    } else {
        Seq::empty()
    }) + scenes::around(scene, prior, true)
}

/// The preamble with the context files.
pub open spec fn preamble_sent(base: Seq<char>, context: crate::context::ContextView) -> Seq<char> {
    if context.files.len() == 0 {
        base
    } else {
        base
            + "\n\nProject context files are loaded from the workspace. Read them carefully and follow their instructions; they describe the project's structure, conventions, and workflows.\n\n"@
            + context.content
    }
}

/// What a turn sends under a scene.
pub fn build_request(
    session: &Session,
    scene: &Scene,
    announce: bool,
    known_skills: &Skills,
    web_search: bool,
    context: &LoadedContext,
) -> (r: Request)
    ensures
        r@ == (RequestView {
            preamble: preamble_sent(
                base_text(
                    prelude_of(*scene),
                    skills::section_of(views::views(known_skills.skills@)),
                    web_search,
                ),
                context@,
            ),
            history: history_sent(*scene, prior_of(*session), announce),
            tools: tools::offered(
                tools::all_slots(known_skills.skills@.len() > 0, web_search),
                scene.tool_rules(),
            ),
            workers: agents::workers_of(*scene, known_skills.skills@.len() > 0, web_search),
        }),
{
    let section = known_skills.preamble_section();
    let base = match &section {
        Some(s) => base_preamble(scene, Some(s.as_str()), web_search),
        None => base_preamble(scene, None, web_search),
    };
    let preamble = build_preamble(base.as_str(), context);
    let prior = session.history_for_send();
    proof {
        assert(llm::chat_views(prior@) =~= views::views(prior@));
    }
    let history = history_for(scene, prior.as_slice(), true, announce);
    let has_skills = !known_skills.is_empty();
    let rules = scene.tools();
    let tools = all_tools(&rules, has_skills, web_search);
    let workers = build_workers(scene, has_skills, web_search);
    let r = Request { preamble, history, tools, workers };
    r
}

/// The rows of the scene switcher.
pub open spec fn scene_rows(s: Seq<(Seq<char>, scenes::SceneConfig)>) -> Seq<scenes::SceneRow>
    decreases s.len(),
{
    if s.len() == 0 {
        seq![
            scenes::SceneRow {
                id: None,
                name: DEFAULT_SCENE_NAME@,
                description: Some(DEFAULT_SCENE_DESCRIPTION@),
                switchable: true,
            },
        ]
    } else {
        scene_rows(s.drop_last()).push(
            scenes::SceneRow {
                id: Some(s.last().0),
                name: s.last().0,
                description: text::opt_text(s.last().1.description),
                switchable: scenes::has_content(s.last().1.system_prompts.interlude),
            },
        )
    }
}

/// The rows of the scene switcher: the built-in scene, then the configured
/// ones in the order of their names.
pub fn scene_list(config: &ScenesConfig) -> (r: Vec<SceneListEntry>)
    ensures
        views::views(r@) == scene_rows(config.scenes@),
{
    let ghost all = config.scenes@;
    let mut out: Vec<SceneListEntry> = Vec::new();
    let first = SceneListEntry {
        id: None,
        name: DEFAULT_SCENE_NAME.to_owned(),
        description: Some(DEFAULT_SCENE_DESCRIPTION.to_owned()),
        switchable: true,
    };
    out.push(first);
    let n: usize = config.scenes.len();
    let mut i: usize = 0;
    proof {
        assert(views::views(out@) =~= scene_rows(all.take(0)));
    }
    while i < n
        invariant
            all == config.scenes@,
            n == all.len(),
            i <= n,
            views::views(out@) == scene_rows(all.take(i as int)),
        decreases n - i,
    {
        let ghost before = out@;
        let name = config.scenes.key(i);
        let scene = config.scenes.value(i);
        let row = SceneListEntry {
            id: Some(name.to_owned()),
            name: name.to_owned(),
            description: duplicate_opt(&scene.description),
            switchable: is_switchable(scene),
        };
        out.push(row);
        proof {
            assert(all.take(i + 1).drop_last() =~= all.take(i as int));
            assert(views::views(out@) =~= views::views(before).push(row@));
        }
        i += 1;
    }
    proof {
        assert(all.take(i as int) =~= all);
    }
    out
}

/// What became of a wish for another scene.
#[derive(Debug)]
pub enum SceneSwitch {
    Unchanged,
    Started { name: String },
    Changed { name: Option<String> },
}

/// What is wrong with a wish for another scene, if anything is.
pub open spec fn switch_fault(
    scenes: Seq<(Seq<char>, scenes::SceneConfig)>,
    busy: bool,
    session: Option<(Option<Seq<char>>, bool)>,
    name: Option<Seq<char>>,
) -> Option<Seq<char>> {
    if busy {
        Some("a turn is in flight; wait for it to finish"@)
    } else {
        match name {
            None => None,
            Some(n) => match text_map::lookup(scenes, n) {
                None => Some("unknown scene `"@ + n + "`"@),
                Some(c) => match session {
                    Some((current, has_messages)) => if current != name && has_messages
                        && !scenes::has_content(c.system_prompts.interlude) {
                        Some(
                            "scene `"@ + n
                                + "` has no interlude; it cannot be entered mid-session"@,
                        )
                    } else {
                        None
                    },
                    None => None,
                },
            },
        }
    }
}

/// The scene of a session, and whether it has messages.
pub open spec fn scene_state(session: Option<Session>) -> Option<(Option<Seq<char>>, bool)> {
    match session {
        Some(s) => Some((views::opt_view(s.scene), s.messages@.len() > 0)),
        None => None,
    }
}

/// Puts the session under another scene; `None` is the built-in one. Once the
/// session has messages, only a scene with an interlude can be entered. Where
/// there is no session, a scene that was named begins one.
pub fn switch_scene(
    session: &mut Option<Session>,
    scenes: &ScenesConfig,
    busy: bool,
    name: Option<String>,
) -> (r: Result<SceneSwitch, String>)
    ensures
        match switch_fault(scenes.scenes@, busy, scene_state(*old(session)), views::opt_view(name)) {
            Some(fault) => (r matches Err(e) && e@ == fault) && *final(session) == *old(session),
            None => match *old(session) {
                None => match name {
                    None => r == Ok::<SceneSwitch, String>(SceneSwitch::Unchanged)
                        && *final(session) == *old(session),
                    Some(n) => {
                        &&& r matches Ok(SceneSwitch::Started { name: started }) && started@ == n@
                        &&& *final(session) matches Some(s)
                        &&& (Session { scene: None, ..s }).blank()
                        &&& views::opt_view(s.scene) == Some(n@)
                    },
                },
                Some(s) => if views::opt_view(s.scene) == views::opt_view(name) {
                    r == Ok::<SceneSwitch, String>(SceneSwitch::Unchanged) && *final(session)
                        == *old(session)
                } else {
                    &&& r matches Ok(SceneSwitch::Changed { name: shown }) && views::opt_view(shown)
                        == views::opt_view(name)
                    &&& *final(session) matches Some(after)
                    &&& after == (Session { scene: after.scene, ..s })
                    &&& views::opt_view(after.scene) == views::opt_view(name)
                },
            },
        },
{
    if busy {
        return Err("a turn is in flight; wait for it to finish".to_owned());
    }
    let mut switchable = true;
    if let Some(n) = &name {
        match scenes.scenes.get(n.as_str()) {
            Some(config) => {
                switchable = is_switchable(config);
            },
            None => {
                let mut e: String = "unknown scene `".to_owned();
                e.append(n.as_str());
                e.append("`");
                return Err(e);
            },
        }
    }
    match session.take() {
        None => {
            match name {
                None => Ok(SceneSwitch::Unchanged),
                Some(n) => {
                    let mut s = Session::new();
                    s.scene = Some(n.clone());
                    *session = Some(s);
                    Ok(SceneSwitch::Started { name: n })
                },
            }
        },
        Some(s) => {
            if same_scene(&s.scene, &name) {
                *session = Some(s);
                return Ok(SceneSwitch::Unchanged);
            }
            if s.messages.len() > 0 && !switchable {
                *session = Some(s);
                let mut e: String = "scene `".to_owned();
                if let Some(n) = &name {
                    e.append(n.as_str());
                }
                e.append("` has no interlude; it cannot be entered mid-session");
                return Err(e);
            }
            let mut s = s;
            s.scene = duplicate_opt(&name);
            *session = Some(s);
            Ok(SceneSwitch::Changed { name })
        },
    }
}

/// The model is told of a scene once: after a request that announced it, the
/// next one under the same scene does not, unless storing the scene failed;
/// then it does again.
pub proof fn lemma_scene_is_announced_once(
    scene: Option<Seq<char>>,
    announced: Option<Seq<char>>,
    failed: bool,
)
    ensures
        announcement_due(scene, announced_after(scene, announced, failed)) <==> announcement_due(
            scene,
            announced,
        ) && failed,
{
}

/// A request that announces nothing sends the same history as one that does,
/// but for the scene at its top.
pub proof fn lemma_announcement_only_comes_first(
    scene: Scene,
    prior: Seq<ChatView>,
)
    ensures
        history_sent(scene, prior, true) == scenes::announcement(scene) + history_sent(
            scene,
            prior,
            false,
        ),
        scenes::injected(scene, prior, true) == history_sent(scene, prior, true),
{
    assert(history_sent(scene, prior, false) =~= scenes::around(scene, prior, true));
}

}
