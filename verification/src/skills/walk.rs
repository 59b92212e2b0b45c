//! The search for skills in directories. The caller reads a directory and hands
//! in what is there; which directory comes next, and what is taken of it, is
//! decided here.

use crate::config::SkillsConfig;
use crate::order;
use crate::order::{sort, Named};
use crate::paths;
use crate::paths::join;
use crate::skills;
use crate::skills::{global_skill_dirs, passed_over, Skill, SkillFile, SkillView, Skills};
use crate::text;
use crate::text::same;
use crate::views;
use vstd::prelude::*;

verus! {

/// The name of a skill's file.
pub const SKILL_FILE_NAME: &'static str = "SKILL.md";

/// An entry of a directory.
#[derive(Debug)]
pub struct DirEntry {
    pub name: String,
    pub is_dir: bool,
}

impl View for DirEntry {
    type V = (Seq<char>, bool);

    open spec fn view(&self) -> (Seq<char>, bool) {
        (self.name@, self.is_dir)
    }
}

impl Named for DirEntry {
    open spec fn label(v: (Seq<char>, bool)) -> Seq<char> {
        v.0
    }

    fn name(&self) -> (r: &str) {
        self.name.as_str()
    }
}

/// The names of the directories among the entries that are looked into.
pub open spec fn entered(entries: Seq<(Seq<char>, bool)>) -> Seq<Seq<char>>
    decreases entries.len(),
{
    if entries.len() == 0 {
        Seq::empty()
    } else {
        let before = entered(entries.drop_last());
        if entries.last().1 && !skills::is_passed_over(entries.last().0) {
            before.push(entries.last().0)
        } else {
            before
        }
    }
}

/// The names of the directories to look into, in order: neither hidden ones nor
/// those of installed packages.
pub fn subdirectories(entries: Vec<DirEntry>) -> (r: Vec<String>)
    ensures
        text::texts(r@) == entered(order::sorted::<DirEntry>(views::views(entries@))),
{
    let entries = sort(entries);
    let ghost all = views::views(entries@);
    let mut out: Vec<String> = Vec::new();
    let mut i: usize = 0;
    proof {
        assert(text::texts(out@) =~= entered(all.take(0)));
    }
    while i < entries.len()
        invariant
            all == views::views(entries@),
            i <= entries@.len(),
            text::texts(out@) == entered(all.take(i as int)),
        decreases entries@.len() - i,
    {
        proof {
            assert(all.take(i + 1).drop_last() =~= all.take(i as int));
            assert(all.take(i + 1).last() == entries@[i as int]@);
        }
        if entries[i].is_dir && !passed_over(entries[i].name.as_str()) {
            let ghost before = out@;
            let name = entries[i].name.clone();
            out.push(name);
            proof {
                assert(text::texts(out@) =~= text::texts(before).push(name@));
            }
        }
        i += 1;
    }
    proof {
        assert(all.take(i as int) =~= all);
    }
    out
}

/// A skill's file: where it really stands, and what came of reading it.
#[derive(Debug)]
pub struct FoundFile {
    pub canonical: Option<String>,
    pub file: SkillFile,
}

/// What is known of a directory: its name, where it really stands if it is one,
/// its skill file if it has one, and its entries.
#[derive(Debug)]
pub struct DirFacts {
    pub dir_name: String,
    pub canonical: Option<String>,
    pub found: Option<FoundFile>,
    pub entries: Vec<DirEntry>,
}

/// The search: the directories to look into in their order, those that were
/// looked into, the files that were loaded, and what came of it.
#[derive(Debug)]
pub struct SkillWalk {
    pub pending: Vec<String>,
    pub visited: Vec<String>,
    pub loaded: Vec<String>,
    pub skills: Skills,
}

/// The content of a [`SkillWalk`].
#[verifier::ext_equal]
pub struct WalkView {
    pub pending: Seq<Seq<char>>,
    pub visited: Seq<Seq<char>>,
    pub loaded: Seq<Seq<char>>,
    pub skills: Seq<SkillView>,
    pub warnings: Seq<(Seq<char>, Seq<char>)>,
}

impl View for SkillWalk {
    type V = WalkView;

    open spec fn view(&self) -> WalkView {
        WalkView {
            pending: text::texts(self.pending@),
            visited: text::texts(self.visited@),
            loaded: text::texts(self.loaded@),
            skills: views::views(self.skills.skills@),
            warnings: views::views(self.skills.warnings@),
        }
    }
}

/// The paths of the names in a directory.
pub open spec fn below(dir: Seq<char>, names: Seq<Seq<char>>) -> Seq<Seq<char>> {
    Seq::new(names.len(), |i: int| paths::joined(dir, names[i]))
}

/// What is found in a directory that was not looked into before: a skill, where
/// it has a file that was not loaded before, else more directories.
pub open spec fn explored(w: WalkView, dir: Seq<char>, facts: DirFacts) -> WalkView {
    match facts.found {
        Some(found) => match found.canonical {
            Some(at) => if w.loaded.contains(at@) {
                w
            } else {
                let (skills, warnings) = skills::taken_in(
                    w.skills,
                    w.warnings,
                    paths::joined(dir, SKILL_FILE_NAME@),
                    skills::skill_of(found.file, dir, facts.dir_name@),
                    skills::skill_messages(found.file, facts.dir_name@),
                );
                WalkView { loaded: w.loaded.push(at@), skills, warnings, ..w }
            },
            None => w,
        },
        None => WalkView {
            pending: below(
                dir,
                entered(order::sorted::<DirEntry>(views::views(facts.entries@))),
            ) + w.pending,
            ..w
        },
    }
}

/// A directory is looked into, unless it is none or it was before.
pub open spec fn walked(w: WalkView, dir: Seq<char>, facts: DirFacts) -> WalkView {
    match facts.canonical {
        Some(at) => if w.visited.contains(at@) {
            w
        } else {
            explored(WalkView { visited: w.visited.push(at@), ..w }, dir, facts)
        },
        None => w,
    }
}

fn holds(list: &Vec<String>, s: &str) -> (b: bool)
    ensures
        b == text::texts(list@).contains(s@),
{
    let ghost all = text::texts(list@);
    let mut i: usize = 0;
    while i < list.len()
        invariant
            all == text::texts(list@),
            i <= list@.len(),
            forall|k: int| 0 <= k < i ==> #[trigger] all[k] != s@,
        decreases list@.len() - i,
    {
        if same(list[i].as_str(), s) {
            proof {
                assert(all[i as int] == s@);
            }
            return true;
        }
        i += 1;
    }
    false
}

fn push_text(list: &mut Vec<String>, s: &str)
    ensures
        text::texts(final(list)@) == text::texts(old(list)@).push(s@),
{
    let ghost before = list@;
    list.push(s.to_owned());
    proof {
        assert(text::texts(list@) =~= text::texts(before).push(s@));
    }
}

/// The directories that are searched: that of the workspace, those outside it,
/// and those of the configuration.
pub open spec fn searched(
    workspace: Seq<char>,
    home: Option<Seq<char>>,
    settings: Option<Seq<char>>,
    more: Seq<Seq<char>>,
) -> Seq<Seq<char>> {
    seq![paths::joined(paths::joined(workspace, ".agents"@), "skills"@)] + skills::skill_dirs(
        home,
        settings,
    ) + more
}

impl SkillWalk {
    /// The search from its beginning. Where skills are switched off, there is
    /// nothing to look into.
    pub fn new(
        workspace_root: &str,
        home: Option<&str>,
        global_config: Option<&str>,
        config: &SkillsConfig,
    ) -> (r: Self)
        ensures
            r@ == (WalkView {
                pending: if config.disabled {
                    Seq::empty()
                } else {
                    searched(
                        workspace_root@,
                        text::opt_str(home),
                        text::opt_str(global_config),
                        text::texts(config.dirs@),
                    )
                },
                visited: Seq::empty(),
                loaded: Seq::empty(),
                skills: Seq::empty(),
                warnings: Seq::empty(),
            }),
    {
        let mut pending: Vec<String> = Vec::new();
        proof {
            assert(text::texts(pending@) =~= Seq::empty());
        }
        if !config.disabled {
            pending.push(join(join(workspace_root, ".agents").as_str(), "skills"));
            let mut outside = global_skill_dirs(home, global_config);
            let mut more = text::copy_texts(config.dirs.as_slice());
            let ghost first = text::texts(pending@);
            let ghost second = text::texts(outside@);
            let ghost third = text::texts(more@);
            pending.append(&mut outside);
            pending.append(&mut more);
            proof {
                assert(text::texts(pending@) =~= first + second + third);
                assert(text::texts(pending@) =~= searched(
                    workspace_root@,
                    text::opt_str(home),
                    text::opt_str(global_config),
                    text::texts(config.dirs@),
                ));
            }
        }
        let r = SkillWalk {
            pending,
            visited: Vec::new(),
            loaded: Vec::new(),
            skills: Skills { skills: Vec::new(), warnings: Vec::new() },
        };
        proof {
            assert(r@.visited =~= Seq::empty());
            assert(r@.loaded =~= Seq::empty());
            assert(r@.skills =~= Seq::empty());
            assert(r@.warnings =~= Seq::empty());
        }
        r
    }

    /// The directory to look into next.
    pub fn next_dir(&mut self) -> (r: Option<String>)
        ensures
            match r {
                Some(dir) => {
                    &&& old(self)@.pending.len() > 0
                    &&& dir@ == old(self)@.pending[0]
                    &&& final(self)@ == (WalkView {
                        pending: old(self)@.pending.skip(1),
                        ..old(self)@
                    })
                },
                None => old(self)@.pending.len() == 0 && final(self)@ == old(self)@,
            },
    {
        if self.pending.len() == 0 {
            return None;
        }
        let ghost before = self.pending@;
        let dir = self.pending.remove(0);
        proof {
            assert(text::texts(before)[0] == before[0]@);
            assert(text::texts(self.pending@) =~= text::texts(before).skip(1));
            assert(self@ =~= (WalkView { pending: old(self)@.pending.skip(1), ..old(self)@ }));
        }
        Some(dir)
    }

    /// Takes in what is known of a directory.
    pub fn visit(&mut self, dir: &str, facts: DirFacts)
        ensures
            final(self)@ == walked(old(self)@, dir@, facts),
    {
        let ghost whole = facts;
        match &facts.canonical {
            None => {
                return;
            },
            Some(at) => {
                if holds(&self.visited, at.as_str()) {
                    return;
                }
                push_text(&mut self.visited, at.as_str());
            },
        }
        match facts.found {
            Some(found) => {
                match &found.canonical {
                    None => {
                        return;
                    },
                    Some(at) => {
                        if holds(&self.loaded, at.as_str()) {
                            return;
                        }
                        push_text(&mut self.loaded, at.as_str());
                    },
                }
                let (skill, messages) = Skill::from_dir(dir, facts.dir_name.as_str(), found.file);
                let path = join(dir, SKILL_FILE_NAME);
                self.skills.add(path.as_str(), skill, messages);
                proof {
                    assert(self@ =~= walked(old(self)@, dir@, whole));
                }
            },
            None => {
                let names = subdirectories(facts.entries);
                let ghost all = text::texts(names@);
                let ghost rest = text::texts(self.pending@);
                let mut next: Vec<String> = Vec::new();
                let mut i: usize = 0;
                while i < names.len()
                    invariant
                        all == text::texts(names@),
                        i <= names@.len(),
                        text::texts(next@) =~= below(dir@, all).take(i as int),
                    decreases names@.len() - i,
                {
                    let path = join(dir, names[i].as_str());
                    push_text(&mut next, path.as_str());
                    proof {
                        assert(below(dir@, all)[i as int] == path@);
                    }
                    i += 1;
                }
                let ghost children = text::texts(next@);
                proof {
                    assert(children =~= below(dir@, all));
                }
                next.append(&mut self.pending);
                self.pending = next;
                proof {
                    assert(text::texts(self.pending@) =~= children + rest);
                    assert(self@ =~= walked(old(self)@, dir@, whole));
                }
            },
        }
    }
}

/// No directory and no file is taken twice, and no two skills have one name.
pub open spec fn distinct(w: WalkView) -> bool {
    &&& w.visited.no_duplicates()
    &&& w.loaded.no_duplicates()
    &&& skills::names_unique(w.skills)
}

/// Looking into a directory never takes a directory or a file twice, and keeps
/// the names of the skills unique, whatever the directory holds.
pub proof fn lemma_walk_takes_nothing_twice(w: WalkView, dir: Seq<char>, facts: DirFacts)
    requires
        distinct(w),
    ensures
        distinct(walked(w, dir, facts)),
{
    if let Some(found) = facts.found {
        if let Some(s) = skills::skill_of(found.file, dir, facts.dir_name@) {
            skills::lemma_add_keeps_names_unique(w.skills, s);
        }
    }
}

/// A directory that holds a skill's file is not searched any further.
pub proof fn lemma_skill_ends_the_search_below_it(w: WalkView, dir: Seq<char>, facts: DirFacts)
    requires
        facts.found is Some,
    ensures
        walked(w, dir, facts).pending == w.pending,
{
}

}
