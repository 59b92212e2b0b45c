//! What holds of every scene: the tools it leaves, the prompts it adds and the
//! workers it has.

use crate::agents;
use crate::agents::{WorkerSpec, WorkerTools};
use crate::llm::{ChatView, Role};
use crate::scenes;
use crate::scenes::{Hooks, Scene, SceneToolVerb, SceneToolsConfig, ToolScene};
use crate::text;
use crate::text_map;
use crate::tools;
use crate::tools::{OfferedTool, ToolSlot};
use vstd::prelude::*;

verus! {

/// A tool without a rule of its own is there unless all are disabled. A rule of its
/// own comes before that: a tool that is enabled is there though all are disabled,
/// and one that is disabled is not.
pub proof fn lemma_own_rule_comes_first(config: SceneToolsConfig, tool: Seq<char>)
    ensures
        ({
            let scene = scenes::tool_scene_of(Some(&config));
            let all_disabled = config.verb == Some(SceneToolVerb::DisableAll);
            match text_map::lookup(config.tools@, tool) {
                None => scene.available(tool) == !all_disabled,
                Some(o) => match o.disabled {
                    Some(disabled) => scene.available(tool) == !disabled,
                    None => scene.available(tool) == !all_disabled,
                },
            }
        }),
{
}

/// A tool that is there asks where all are to ask, or where its own rule says so;
/// one that is not there never does.
pub proof fn lemma_tools_ask_where_told_to(config: SceneToolsConfig, tool: Seq<char>)
    ensures
        ({
            let scene = scenes::tool_scene_of(Some(&config));
            let own = match text_map::lookup(config.tools@, tool) {
                Some(o) => o.ask == Some(true),
                None => false,
            };
            &&& scene.available(tool) ==> scene.asking(tool) == (own || config.verb == Some(
                SceneToolVerb::AskAll,
            ))
            &&& !scene.available(tool) ==> !scene.asking(tool)
        }),
{
}

/// Every tool that is offered is one of the roster's that the scene leaves; it asks
/// by itself only where no permission rule will ask for it and the scene wants it.
pub proof fn lemma_offered_tools_are_of_the_roster(
    slots: Seq<ToolSlot>,
    scene: ToolScene,
    offered: Seq<OfferedTool>,
    i: int,
)
    requires
        tools::offered_views(offered) == tools::offered(tools::slot_views(slots), scene),
        0 <= i < offered.len(),
    ensures
        scene.available(offered[i].name@),
        offered[i].confirm == (!offered[i].gated && scene.asking(offered[i].name@)),
        exists|k: int|
            0 <= k < slots.len() && (#[trigger] slots[k]).name@ == offered[i].name@
                && slots[k].gated == offered[i].gated,
{
    let ss = tools::slot_views(slots);
    let os = tools::offered_views(offered);
    assert(os[i] == (offered[i].name@, offered[i].gated, offered[i].confirm));
    lemma_offered(ss, scene, i);
    let k = choose|k: int|
        0 <= k < ss.len() && (#[trigger] ss[k]).0 == os[i].0 && ss[k].1 == os[i].1;
    assert(ss[k] == tools::slot_view(slots[k]));
}

proof fn lemma_offered(ss: Seq<(Seq<char>, bool)>, scene: ToolScene, i: int)
    requires
        0 <= i < tools::offered(ss, scene).len(),
    ensures
        ({
            let o = tools::offered(ss, scene)[i];
            &&& scene.available(o.0)
            &&& o.2 == (!o.1 && scene.asking(o.0))
            &&& exists|k: int| 0 <= k < ss.len() && (#[trigger] ss[k]).0 == o.0 && ss[k].1 == o.1
        }),
    decreases ss.len(),
{
    let all = tools::offered(ss, scene);
    if ss.len() > 0 {
        let d = ss.drop_last();
        let before = tools::offered(d, scene);
        if i < before.len() {
            lemma_offered(d, scene, i);
            assert(all[i] == before[i]);
            let k = choose|k: int|
                0 <= k < d.len() && (#[trigger] d[k]).0 == before[i].0 && d[k].1 == before[i].1;
            assert(ss[k] == d[k]);
        } else {
            assert(ss[ss.len() - 1] == ss.last());
        }
    }
}

/// Whether a tool touches files or runs commands, so that the permission rules have
/// a say in it.
pub open spec fn touches_the_machine(name: Seq<char>) -> bool {
    name == "read_file"@ || name == "write_file"@ || name == "edit_file"@ || name
        == "apply_patch"@ || name == "delete_file"@ || name == "run_shell"@ || name == "list_dir"@
        || name == "grep"@ || name == "glob"@
}

/// Whether a tool changes files or runs commands.
pub open spec fn changes_the_machine(name: Seq<char>) -> bool {
    name == "write_file"@ || name == "edit_file"@ || name == "apply_patch"@ || name
        == "delete_file"@ || name == "run_shell"@
}

proof fn lemma_names_differ()
    ensures
        !touches_the_machine("skill"@),
        !touches_the_machine("lsp"@),
        !touches_the_machine("webfetch"@),
        !touches_the_machine("question"@),
        !touches_the_machine("todo"@),
        !touches_the_machine("web_search"@),
        !changes_the_machine("read_file"@),
        !changes_the_machine("list_dir"@),
        !changes_the_machine("grep"@),
        !changes_the_machine("glob"@),
        !changes_the_machine("skill"@),
        !changes_the_machine("lsp"@),
        !changes_the_machine("webfetch"@),
        !changes_the_machine("web_search"@),
{
    reveal_strlit("read_file");
    reveal_strlit("write_file");
    reveal_strlit("edit_file");
    reveal_strlit("apply_patch");
    reveal_strlit("delete_file");
    reveal_strlit("run_shell");
    reveal_strlit("list_dir");
    reveal_strlit("grep");
    reveal_strlit("glob");
    reveal_strlit("skill");
    reveal_strlit("lsp");
    reveal_strlit("webfetch");
    reveal_strlit("question");
    reveal_strlit("todo");
    reveal_strlit("web_search");
    let skill = "skill"@;
    assert(skill[1] == 'k');
    assert("read_file"@[0] == 'r' && "write_file"@[0] == 'w' && "edit_file"@[0] == 'e');
    assert("apply_patch"@[0] == 'a' && "delete_file"@[0] == 'd' && "run_shell"@[0] == 'r');
    assert("list_dir"@[0] == 'l' && "grep"@[0] == 'g' && "glob"@[0] == 'g');
    assert(skill[0] == 's');
    assert("lsp"@.len() == 3 && "list_dir"@.len() == 8);
    assert("webfetch"@[0] == 'w' && "webfetch"@[1] == 'e' && "write_file"@[1] == 'r');
    assert("web_search"@[0] == 'w' && "web_search"@[1] == 'e');
    assert("question"@[0] == 'q');
    assert("todo"@[0] == 't');
    assert("read_file"@[1] == 'e' && "run_shell"@[1] == 'u');
}

/// The permission rules have a say in every tool of a roster that touches files or
/// runs commands, and in no other.
pub proof fn lemma_machine_tools_are_gated(skills: bool, web_search: bool)
    ensures
        forall|i: int|
            0 <= i < tools::all_slots(skills, web_search).len() ==> (#[trigger] tools::all_slots(
                skills,
                web_search,
            )[i]).1 == touches_the_machine(tools::all_slots(skills, web_search)[i].0),
        forall|i: int|
            0 <= i < tools::read_slots(skills, web_search).len() ==> (#[trigger] tools::read_slots(
                skills,
                web_search,
            )[i]).1 == touches_the_machine(tools::read_slots(skills, web_search)[i].0),
        forall|i: int|
            0 <= i < tools::edit_slots().len() ==> (#[trigger] tools::edit_slots()[i]).1
                == touches_the_machine(tools::edit_slots()[i].0),
        forall|i: int|
            0 <= i < tools::read_slots(skills, web_search).len() ==> !changes_the_machine(
                (#[trigger] tools::read_slots(skills, web_search)[i]).0,
            ),
        tools::all_slots(skills, web_search).len() == 13 + (if skills {
            1int
        } else {
            0
        }) + (if web_search {
            1int
        } else {
            0
        }),
{
    lemma_names_differ();
}

/// What a scene says at the hooks of a message.
pub open spec fn said(o: Option<String>) -> Seq<ChatView> {
    match o {
        Some(s) => seq![ChatView { role: Role::System, content: s@ }],
        None => Seq::empty(),
    }
}

/// A prompt stands behind what opens a turn and what comes before each prompt, and
/// in front of what comes after each prompt; a reply behind what comes before each
/// reply, and in front of what comes after each reply and what closes a turn.
pub proof fn lemma_hooks_stand_around_messages(m: ChatView, before: Hooks, after: Hooks)
    ensures
        m.role == Role::User ==> scenes::wrapped(m, Some(before), Some(after)) == said(before.turn)
            + said(before.user_prompt) + seq![m] + said(after.user_prompt),
        m.role == Role::Assistant ==> scenes::wrapped(m, Some(before), Some(after)) == said(
            before.assistant_prompt,
        ) + seq![m] + said(after.assistant_prompt) + said(after.turn),
        m.role == Role::System ==> scenes::wrapped(m, Some(before), Some(after)) == seq![m],
        scenes::wrapped(m, None, None) == seq![m],
{
    assert(Seq::<ChatView>::empty() + seq![m] + Seq::empty() =~= seq![m]);
    if m.role == Role::Assistant {
        assert(scenes::wrapped(m, Some(before), Some(after)) =~= said(before.assistant_prompt)
            + seq![m] + said(after.assistant_prompt) + said(after.turn));
    }
    if m.role == Role::User {
        assert(scenes::wrapped(m, Some(before), Some(after)) =~= said(before.turn) + said(
            before.user_prompt,
        ) + seq![m] + said(after.user_prompt));
    }
}

/// The messages go out one after the other, each with its hooks, and a prompt that
/// is yet to come is opened at the end.
pub proof fn lemma_messages_go_out_in_order(
    scene: Scene,
    prior: Seq<ChatView>,
    m: ChatView,
    pending: bool,
)
    ensures
        scenes::around(scene, prior.push(m), false) == scenes::around(scene, prior, false)
            + scenes::wrapped(m, scene.before(), scene.after()),
        scenes::around(scene, prior, true) == scenes::around(scene, prior, false)
            + scenes::opening(scene.before()),
        scenes::around(scene, Seq::empty(), false).len() == 0,
        scene.config is None ==> scenes::opening(scene.before()).len() == 0,
{
    assert(prior.push(m).drop_last() =~= prior);
    let none = Seq::<ChatView>::empty();
    let x = scenes::wrapped_all(prior, scene.before(), scene.after());
    let y = scenes::wrapped(m, scene.before(), scene.after());
    assert(x + none =~= x);
    assert(x + y + none =~= x + y);
}

/// A worker is there unless the scene disables it. It is told what the scene says
/// in place of its own preamble, or else its own, and then the scene's interlude;
/// its tools are those of its kind that the scene leaves it.
pub proof fn lemma_worker_follows_the_scene(
    w: WorkerSpec,
    scene: Scene,
    skills: bool,
    web_search: bool,
)
    ensures
        match scene.worker_config(w.name@) {
            None => agents::worker_of(w, scene, skills, web_search) matches Some(v) && v.name
                == w.name@ && v.description == w.description@ && v.preamble == w.preamble@,
            Some(c) => if c.disabled {
                agents::worker_of(w, scene, skills, web_search) is None
            } else {
                &&& agents::worker_of(w, scene, skills, web_search) matches Some(v)
                &&& v.name == w.name@
                &&& v.description == w.description@
                &&& c.system_prompts.prelude is Some ==> text::has_prefix(
                    v.preamble,
                    c.system_prompts.prelude->0@,
                )
                &&& c.system_prompts.prelude is None ==> text::has_prefix(
                    v.preamble,
                    w.preamble@,
                )
                &&& c.system_prompts.interlude is Some ==> text::has_suffix(
                    v.preamble,
                    c.system_prompts.interlude->0@,
                )
                &&& forall|i: int|
                    0 <= i < v.tools.len() ==> scenes::tool_scene_of(Some(&c.tools)).available(
                        (#[trigger] v.tools[i]).0,
                    )
            },
        },
{
    if let Some(c) = scene.worker_config(w.name@) {
        if !c.disabled {
            let v = agents::worker_of(w, scene, skills, web_search)->0;
            let start = match c.system_prompts.prelude {
                Some(p) => p@,
                None => w.preamble@,
            };
            assert(v.preamble.take(start.len() as int) =~= start);
            if c.system_prompts.interlude is Some {
                let end = c.system_prompts.interlude->0@;
                assert(v.preamble.skip(v.preamble.len() - end.len()) =~= end);
            }
            let ss = agents::worker_slots(w.tools, skills, web_search);
            assert forall|i: int| 0 <= i < v.tools.len() implies scenes::tool_scene_of(
                Some(&c.tools),
            ).available((#[trigger] v.tools[i]).0) by {
                lemma_offered(ss, scenes::tool_scene_of(Some(&c.tools)), i);
            }
        }
    }
}

/// Without a scene there are the three workers: one explores, one runs commands and
/// one edits. A scene may do without any.
pub proof fn lemma_three_workers_by_default(scene: Scene, skills: bool, web_search: bool)
    ensures
        scene.config is None ==> {
            let ws = agents::workers_of(scene, skills, web_search);
            &&& ws.len() == 3
            &&& ws[0].name == "explore_workspace"@
            &&& ws[1].name == "run_tests"@
            &&& ws[2].name == "edit_files"@
        },
        scene.config matches Some(c) ==> c.subagents.disabled ==> agents::workers_of(
            scene,
            skills,
            web_search,
        ).len() == 0,
{
}

/// A worker that explores cannot change anything, and one that edits runs no
/// commands.
pub proof fn lemma_workers_keep_to_their_task(skills: bool, web_search: bool, i: int)
    ensures
        0 <= i < agents::worker_slots(WorkerTools::Read, skills, web_search).len()
            ==> !changes_the_machine(
            agents::worker_slots(WorkerTools::Read, skills, web_search)[i].0,
        ),
        0 <= i < agents::worker_slots(WorkerTools::Edit, skills, web_search).len()
            ==> agents::worker_slots(WorkerTools::Edit, skills, web_search)[i].0 != "run_shell"@,
        agents::worker_slots(WorkerTools::Command, skills, web_search).len() == 1,
        agents::worker_slots(WorkerTools::Command, skills, web_search)[0].0 == "run_shell"@,
{
    lemma_machine_tools_are_gated(skills, web_search);
    reveal_strlit("run_shell");
    reveal_strlit("read_file");
    reveal_strlit("write_file");
    reveal_strlit("edit_file");
    reveal_strlit("apply_patch");
    reveal_strlit("delete_file");
    reveal_strlit("lsp");
    assert("run_shell"@[0] == 'r' && "run_shell"@[1] == 'u');
    assert("read_file"@[1] == 'e' && "write_file"@[0] == 'w' && "edit_file"@[0] == 'e');
    assert("apply_patch"@[0] == 'a' && "delete_file"@[0] == 'd' && "lsp"@[0] == 'l');
    let slots = tools::read_slots(skills, web_search);
    if 0 <= i < slots.len() {
        assert(!changes_the_machine(slots[i].0));
    }
}

/// A scene is announced by what it says on the way, in the words of its configuration; the
/// default scene has words of its own, and a scene that says nothing is not announced.
pub proof fn lemma_scene_is_announced_in_its_words(scene: Scene)
    ensures
        ({
            let a = scenes::announcement(scene);
            let words = match scene.config {
                Some(c) => c.system_prompts.interlude,
                None => None,
            };
            &&& scene.config is None ==> a.len() == 1 && a[0].role == Role::System && a[0].content
                == scenes::DEFAULT_INTERLUDE@
            &&& scene.config is Some && words is Some ==> a.len() == 1 && a[0].role == Role::System
                && a[0].content == words->0@
            &&& scene.config is Some && words is None ==> a.len() == 0
        }),
{
}

/// A scene's tools, workers and hooks are those of its configuration, and the default
/// scene has none of its own.
pub proof fn lemma_default_scene_adds_nothing(scene: Scene, prior: Seq<ChatView>)
    requires
        scene.config is None,
    ensures
        scenes::around(scene, prior, true) == prior,
        forall|tool: Seq<char>| #[trigger] scene.tool_rules().available(tool),
        forall|tool: Seq<char>| !#[trigger] scene.tool_rules().asking(tool),
        forall|name: Seq<char>| (#[trigger] scene.worker_config(name)) is None,
{
    lemma_nothing_around(prior);
    assert(prior + Seq::<ChatView>::empty() =~= prior);
}

proof fn lemma_nothing_around(ms: Seq<ChatView>)
    ensures
        scenes::wrapped_all(ms, None, None) == ms,
    decreases ms.len(),
{
    if ms.len() > 0 {
        lemma_nothing_around(ms.drop_last());
        let none = Seq::<ChatView>::empty();
        let m = ms.last();
        assert(none + seq![m] + none =~= seq![m]);
        assert(ms.drop_last() + seq![m] =~= ms);
    } else {
        assert(ms =~= Seq::empty());
    }
}

}
