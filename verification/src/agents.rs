//! The worker agents of a turn.

use crate::scenes::{Scene, ToolScene};
use crate::tools;
use crate::tools::OfferedTool;
use vstd::prelude::*;

verus! {

/// Which tools a worker has.
#[derive(Debug, Clone, Copy, PartialEq, Eq, Structural)]
pub enum WorkerTools {
    Read,
    Command,
    Edit,
}

/// One built-in worker: its name, model-facing description, and preamble.
#[derive(Debug, Clone, Copy, PartialEq)]
pub struct WorkerSpec {
    pub name: &'static str,
    pub description: &'static str,
    pub preamble: &'static str,
    pub tools: WorkerTools,
}

pub const EXPLORER_PREAMBLE: &'static str =
    "You are the workspace explorer worker for Shuvarie, an agentic coding assistant. You search and read the user's project to understand it. Prefer using your tools to inspect the workspace instead of guessing. Finish with a concise report of what you found, including file paths and line numbers where relevant.";

pub const TESTER_PREAMBLE: &'static str =
    "You are the command runner worker for Shuvarie, an agentic coding assistant. You run the project's build, test, and lint commands and iterate on failures until they pass or you are confident the cause is external. When a tool reports an error, fix the cause and retry rather than stopping. Finish with a short summary of what you ran and the final result.";

pub const EDITOR_PREAMBLE: &'static str =
    "You are the editor worker for Shuvarie, an agentic coding assistant. You read, write, and edit files to implement the requested changes. Prefer reading the target files first to understand the existing code before editing. For more complex editing — changes spanning multiple files, renames/moves, or adding files — use the `apply_patch` tool: it applies one `*** Begin Patch` … `*** End Patch` envelope touching several files in a single call. Delete individual files with the `delete_file` tool. After finishing, summarize the files you changed and what you did in a short reply.";

pub const EXPLORER_DESCRIPTION: &'static str =
    "Explore the workspace: list directories, read files, and grep for text to locate, understand, and summarize code. Returns a concise report with file paths and line numbers. Use when a task requires understanding existing code before changes.";

pub const TESTER_DESCRIPTION: &'static str =
    "Run the project's build, test, and lint commands, iterate on failures, and report the outcome. Returns a summary of what was run and the final status. Use to verify changes or diagnose failing commands.";

pub const EDITOR_DESCRIPTION: &'static str =
    "Read, write, edit, and delete files to implement changes in the workspace. Returns a summary of the files changed and what was done. Use when the task requires modifying code or other files.";

/// A worker of the turn: what the model is told of it, and its tools.
#[derive(Debug)]
pub struct WorkerPlan {
    pub name: &'static str,
    pub description: &'static str,
    pub preamble: String,
    pub tools: Vec<OfferedTool>,
}

/// The content of a [`WorkerPlan`].
#[verifier::ext_equal]
pub struct WorkerView {
    pub name: Seq<char>,
    pub description: Seq<char>,
    pub preamble: Seq<char>,
    pub tools: Seq<(Seq<char>, bool, bool)>,
}

impl View for WorkerPlan {
    type V = WorkerView;

    open spec fn view(&self) -> WorkerView {
        WorkerView {
            name: self.name@,
            description: self.description@,
            preamble: self.preamble@,
            tools: tools::offered_views(self.tools@),
        }
    }
}

/// The contents of a list of workers.
pub open spec fn worker_views(v: Seq<WorkerPlan>) -> Seq<WorkerView> {
    Seq::new(v.len(), |i: int| v[i]@)
}

/// The slots of a worker's roster.
pub open spec fn worker_slots(kind: WorkerTools, skills: bool, web_search: bool) -> Seq<
    (Seq<char>, bool),
> {
    match kind {
        WorkerTools::Read => tools::read_slots(skills, web_search),
        WorkerTools::Command => seq![("run_shell"@, true)],
        WorkerTools::Edit => tools::edit_slots(),
    }
}

/// A worker under a scene: absent if the scene disables it; the scene's
/// prelude replaces the preamble, its interlude is appended.
pub open spec fn worker_of(
    w: WorkerSpec,
    scene: Scene,
    skills: bool,
    web_search: bool,
) -> Option<WorkerView> {
    let config = scene.worker_config(w.name@);
    let prelude = match config {
        Some(c) => match c.system_prompts.prelude {
            Some(p) => p@,
            None => w.preamble@,
        },
        None => w.preamble@,
    };
    let preamble = match config {
        Some(c) => match c.system_prompts.interlude {
            Some(i) => prelude + "\n\n"@ + i@,
            None => prelude,
        },
        None => prelude,
    };
    let rules = crate::scenes::tool_scene_of(
        match config {
            Some(c) => Some(&c.tools),
            None => None,
        },
    );
    if config matches Some(c) && c.disabled {
        None
    } else {
        Some(
            WorkerView {
                name: w.name@,
                description: w.description@,
                preamble,
                tools: tools::offered(worker_slots(w.tools, skills, web_search), rules),
            },
        )
    }
}

/// The worker, where there is one.
pub open spec fn present(w: Option<WorkerView>) -> Seq<WorkerView> {
    match w {
        Some(v) => seq![v],
        None => Seq::empty(),
    }
}

/// The worker that explores.
pub open spec fn explorer() -> WorkerSpec {
    WorkerSpec {
        name: "explore_workspace",
        description: EXPLORER_DESCRIPTION,
        preamble: EXPLORER_PREAMBLE,
        tools: WorkerTools::Read,
    }
}

/// The worker that runs commands.
pub open spec fn tester() -> WorkerSpec {
    WorkerSpec {
        name: "run_tests",
        description: TESTER_DESCRIPTION,
        preamble: TESTER_PREAMBLE,
        tools: WorkerTools::Command,
    }
}

/// The worker that edits.
pub open spec fn editor() -> WorkerSpec {
    WorkerSpec {
        name: "edit_files",
        description: EDITOR_DESCRIPTION,
        preamble: EDITOR_PREAMBLE,
        tools: WorkerTools::Edit,
    }
}

/// The workers of a scene.
pub open spec fn workers_of(scene: Scene, skills: bool, web_search: bool) -> Seq<WorkerView> {
    if scene.config matches Some(c) && c.subagents.disabled {
        Seq::empty()
    } else {
        present(worker_of(explorer(), scene, skills, web_search)) + present(
            worker_of(tester(), scene, skills, web_search),
        ) + present(worker_of(editor(), scene, skills, web_search))
    }
}

fn plan_worker(w: WorkerSpec, scene: &Scene, skills: bool, web_search: bool) -> (r: Option<
    WorkerPlan,
>)
    ensures
        match worker_of(w, *scene, skills, web_search) {
            Some(v) => r matches Some(p) && p@ == v,
            None => r is None,
        },
{
    let config = scene.worker(w.name);
    let mut preamble: String = w.preamble.to_owned();
    let mut rules = ToolScene::build(None);
    if let Some(c) = config {
        if c.disabled {
            return None;
        }
        if let Some(p) = &c.system_prompts.prelude {
            preamble = p.clone();
        }
        if let Some(i) = &c.system_prompts.interlude {
            preamble.append("\n\n");
            preamble.append(i.as_str());
        }
        rules = ToolScene::build(Some(&c.tools));
    }
    let tools = match w.tools {
        WorkerTools::Read => tools::read_tools(&rules, skills, web_search),
        WorkerTools::Command => tools::command_tools(&rules),
        WorkerTools::Edit => tools::edit_tools(&rules),
    };
    Some(WorkerPlan { name: w.name, description: w.description, preamble, tools })
}

fn push_worker(out: &mut Vec<WorkerPlan>, w: WorkerSpec, scene: &Scene, skills: bool, web: bool)
    ensures
        worker_views(final(out)@) == worker_views(old(out)@) + present(
            worker_of(w, *scene, skills, web),
        ),
{
    let ghost before = worker_views(out@);
    if let Some(p) = plan_worker(w, scene, skills, web) {
        out.push(p);
    }
    proof {
        assert(worker_views(out@) =~= before + present(worker_of(w, *scene, skills, web)));
    }
}

/// Builds the worker roster under the scene.
pub fn build_workers(scene: &Scene, skills: bool, web_search: bool) -> (r: Vec<WorkerPlan>)
    ensures
        worker_views(r@) == workers_of(*scene, skills, web_search),
{
    let mut out: Vec<WorkerPlan> = Vec::new();
    if let Some(s) = scene.subagents() {
        if s.disabled {
            proof {
                assert(worker_views(out@) =~= Seq::empty());
            }
            return out;
        }
    }
    let explorer = WorkerSpec {
        name: "explore_workspace",
        description: EXPLORER_DESCRIPTION,
        preamble: EXPLORER_PREAMBLE,
        tools: WorkerTools::Read,
    };
    let tester = WorkerSpec {
        name: "run_tests",
        description: TESTER_DESCRIPTION,
        preamble: TESTER_PREAMBLE,
        tools: WorkerTools::Command,
    };
    let editor = WorkerSpec {
        name: "edit_files",
        description: EDITOR_DESCRIPTION,
        preamble: EDITOR_PREAMBLE,
        tools: WorkerTools::Edit,
    };
    push_worker(&mut out, explorer, scene, skills, web_search);
    push_worker(&mut out, tester, scene, skills, web_search);
    push_worker(&mut out, editor, scene, skills, web_search);
    proof {
        assert(worker_views(out@) =~= workers_of(*scene, skills, web_search));
    }
    out
}

}
