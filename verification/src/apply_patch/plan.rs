//! What a patch will do to the files it names, decided before anything is written.

use crate::apply_patch::replacements::derive_new_contents;
use crate::apply_patch::{Hunk, HunkView};
use crate::llm::{PatchFileChange, PatchFileKind};
use crate::text;
use crate::text::{join, same};
use crate::tools;
use crate::tools::compute_diff;
use vstd::prelude::*;

verus! {

/// What is known of the files of one section: where its path and its move
/// target lie, whether there is a file, and its text or why it cannot be read.
#[derive(Debug)]
pub struct HunkFacts {
    pub abs: String,
    pub target_abs: Option<String>,
    pub exists: bool,
    pub original: Result<String, String>,
}

/// One step of carrying out a patch.
#[derive(Debug, PartialEq)]
pub enum Planned {
    Add { path: String, content: String },
    Update { path: String, content: String },
    Move { from: String, to: String, content: String },
    Delete { path: String },
}

/// The content of a [`Planned`] step.
#[verifier::ext_equal]
pub enum PlannedView {
    Add { path: Seq<char>, content: Seq<char> },
    Update { path: Seq<char>, content: Seq<char> },
    Move { from: Seq<char>, to: Seq<char>, content: Seq<char> },
    Delete { path: Seq<char> },
}

impl View for Planned {
    type V = PlannedView;

    open spec fn view(&self) -> PlannedView {
        match *self {
            Planned::Add { path, content } => PlannedView::Add { path: path@, content: content@ },
            Planned::Update { path, content } => PlannedView::Update {
                path: path@,
                content: content@,
            },
            Planned::Move { from, to, content } => PlannedView::Move {
                from: from@,
                to: to@,
                content: content@,
            },
            Planned::Delete { path } => PlannedView::Delete { path: path@ },
        }
    }
}

/// The contents of a list of steps.
pub open spec fn planned_views(v: Seq<Planned>) -> Seq<PlannedView> {
    Seq::new(v.len(), |i: int| v[i]@)
}

/// The content of a [`PatchFileChange`], but for its diff.
#[verifier::ext_equal]
pub struct ChangeView {
    pub path: Seq<char>,
    pub kind: PatchFileKind,
    pub moved_to: Option<Seq<char>>,
    pub original: Option<Seq<char>>,
    pub new: Option<Seq<char>>,
}

/// The content of a change, but for its diff.
pub open spec fn change_view(c: PatchFileChange) -> ChangeView {
    ChangeView {
        path: c.path@,
        kind: c.kind,
        moved_to: text::opt_text(c.moved_to),
        original: text::opt_text(c.original),
        new: text::opt_text(c.new),
    }
}

/// A text, or nothing where there is none.
pub open spec fn or_empty(o: Option<Seq<char>>) -> Seq<char> {
    match o {
        Some(s) => s,
        None => Seq::empty(),
    }
}

/// The diff of a change goes from the text before it to the text after it.
pub open spec fn diff_fits(c: PatchFileChange) -> bool {
    tools::is_diff(
        crate::llm::diff_views(c.diff@),
        or_empty(text::opt_text(c.original)),
        or_empty(text::opt_text(c.new)),
    )
}

/// The text of an added file: empty, or ending with a line feed.
pub open spec fn added_text(contents: Seq<char>) -> Seq<char> {
    if contents.len() == 0 || contents.last() == '\n' {
        contents
    } else {
        contents + "\n"@
    }
}

/// What one section does: the change to report and the step to take, or why it cannot.
pub open spec fn hunk_plan(h: HunkView, f: HunkFacts) -> Result<
    (ChangeView, PlannedView),
    Seq<char>,
> {
    match h {
        HunkView::Add { path, contents } => if f.exists {
            Err("cannot add "@ + path + ": file already exists"@)
        } else {
            Ok(
                (
                    ChangeView {
                        path,
                        kind: PatchFileKind::Add,
                        moved_to: None,
                        original: None,
                        new: Some(added_text(contents)),
                    },
                    PlannedView::Add { path, content: added_text(contents) },
                ),
            )
        },
        HunkView::Delete { path } => match f.original {
            Err(e) => Err("read "@ + path + ": "@ + e@),
            Ok(original) => Ok(
                (
                    ChangeView {
                        path,
                        kind: PatchFileKind::Delete,
                        moved_to: None,
                        original: Some(original@),
                        new: None,
                    },
                    PlannedView::Delete { path: f.abs@ },
                ),
            ),
        },
        HunkView::Update { path, move_path, chunks } => if move_path is Some && text::opt_text(
            f.target_abs,
        ) == Some(f.abs@) {
            Err("move target "@ + move_path->0 + " matches source "@ + path)
        } else {
            match f.original {
                Err(e) => Err("read "@ + path + ": "@ + e@),
                Ok(original) => match crate::apply_patch::replacements::derived(
                    path,
                    chunks,
                    original@,
                ) {
                    Err(e) => Err(e),
                    Ok(new) => Ok(
                        (
                            ChangeView {
                                path,
                                kind: PatchFileKind::Update,
                                moved_to: move_path,
                                original: Some(original@),
                                new: Some(new),
                            },
                            match move_path {
                                Some(to) => PlannedView::Move { from: f.abs@, to, content: new },
                                None => PlannedView::Update { path: f.abs@, content: new },
                            },
                        ),
                    ),
                },
            }
        },
    }
}

fn copied(o: &Option<String>) -> (r: Option<String>)
    ensures
        text::opt_text(r) == text::opt_text(*o),
{
    match o {
        Some(s) => Some(s.clone()),
        None => None,
    }
}

fn read_failure(path: &str, e: &str) -> (r: String)
    ensures
        r@ == "read "@ + path@ + ": "@ + e@,
{
    let mut message: String = "read ".to_owned();
    message.append(path);
    message.append(": ");
    message.append(e);
    message
}

/// Decides what one section does.
pub fn plan_hunk(hunk: &Hunk, facts: &HunkFacts) -> (r: Result<(PatchFileChange, Planned), String>)
    ensures
        match hunk_plan(hunk@, *facts) {
            Ok((c, p)) => r matches Ok((change, step)) && change_view(change) == c && step@ == p
                && diff_fits(change),
            Err(message) => r matches Err(e) && e@ == message,
        },
{
    proof {
        reveal_strlit("\n");
        reveal_strlit("");
        assert(""@ =~= Seq::<char>::empty());
    }
    match hunk {
        Hunk::Add { path, contents } => {
            if facts.exists {
                let mut message: String = "cannot add ".to_owned();
                message.append(path.as_str());
                message.append(": file already exists");
                return Err(message);
            }
            let mut content: String = contents.clone();
            let n: usize = contents.as_str().unicode_len();
            if n > 0 && contents.as_str().get_char(n - 1) != '\n' {
                content.append("\n");
            }
            let diff = compute_diff("", content.as_str());
            let change = PatchFileChange {
                path: path.clone(),
                kind: PatchFileKind::Add,
                moved_to: None,
                original: None,
                new: Some(content.clone()),
                diff,
            };
            Ok((change, Planned::Add { path: path.clone(), content }))
        },
        Hunk::Delete { path } => match &facts.original {
            Err(e) => Err(read_failure(path.as_str(), e.as_str())),
            Ok(original) => {
                let change = PatchFileChange {
                    path: path.clone(),
                    kind: PatchFileKind::Delete,
                    moved_to: None,
                    original: Some(original.clone()),
                    new: None,
                    diff: compute_diff(original.as_str(), ""),
                };
                Ok((change, Planned::Delete { path: facts.abs.clone() }))
            },
        },
        Hunk::Update { path, move_path, chunks } => {
            if let Some(target) = move_path {
                if let Some(target_abs) = &facts.target_abs {
                    if same(target_abs.as_str(), facts.abs.as_str()) {
                        let mut message: String = "move target ".to_owned();
                        message.append(target.as_str());
                        message.append(" matches source ");
                        message.append(path.as_str());
                        return Err(message);
                    }
                }
            }
            let original = match &facts.original {
                Err(e) => return Err(read_failure(path.as_str(), e.as_str())),
                Ok(original) => original,
            };
            let new = match derive_new_contents(path.as_str(), chunks, original.as_str()) {
                Err(e) => return Err(e),
                Ok(new) => new,
            };
            let change = PatchFileChange {
                path: path.clone(),
                kind: PatchFileKind::Update,
                moved_to: copied(move_path),
                original: Some(original.clone()),
                new: Some(new.clone()),
                diff: compute_diff(original.as_str(), new.as_str()),
            };
            let step = match move_path {
                Some(target) => Planned::Move {
                    from: facts.abs.clone(),
                    to: target.clone(),
                    content: new,
                },
                None => Planned::Update { path: facts.abs.clone(), content: new },
            };
            Ok((change, step))
        },
    }
}

/// The plan of a whole patch: the first section that cannot be carried out
/// rejects all of it.
pub open spec fn patch_plan(hs: Seq<HunkView>, fs: Seq<HunkFacts>) -> Result<
    Seq<(ChangeView, PlannedView)>,
    Seq<char>,
>
    decreases hs.len(),
{
    if hs.len() == 0 {
        Ok(Seq::empty())
    } else {
        match patch_plan(hs.drop_last(), fs.drop_last()) {
            Err(e) => Err(e),
            Ok(before) => match hunk_plan(hs.last(), fs.last()) {
                Err(e) => Err(e),
                Ok(p) => Ok(before.push(p)),
            },
        }
    }
}

/// The changes and steps of a plan agree with its pairs.
pub open spec fn plan_matches(
    changes: Seq<PatchFileChange>,
    steps: Seq<Planned>,
    pairs: Seq<(ChangeView, PlannedView)>,
) -> bool {
    &&& changes.len() == pairs.len() == steps.len()
    &&& forall|i: int|
        0 <= i < pairs.len() ==> change_view(changes[i]) == (#[trigger] pairs[i]).0 && steps[i]@
            == pairs[i].1 && diff_fits(changes[i])
}

proof fn lemma_plan_fails_early(hs: Seq<HunkView>, fs: Seq<HunkFacts>, k: int)
    requires
        hs.len() == fs.len(),
        0 <= k <= hs.len(),
        patch_plan(hs.take(k), fs.take(k)) is Err,
    ensures
        patch_plan(hs, fs) == patch_plan(hs.take(k), fs.take(k)),
    decreases hs.len(),
{
    if k < hs.len() {
        assert(hs.drop_last().take(k) =~= hs.take(k));
        assert(fs.drop_last().take(k) =~= fs.take(k));
        lemma_plan_fails_early(hs.drop_last(), fs.drop_last(), k);
    } else {
        assert(hs.take(k) =~= hs);
        assert(fs.take(k) =~= fs);
    }
}

/// Decides what a patch does, before anything is written.
pub fn plan_patch(hunks: &Vec<Hunk>, facts: &Vec<HunkFacts>) -> (r: Result<
    (Vec<PatchFileChange>, Vec<Planned>),
    String,
>)
    requires
        hunks@.len() == facts@.len(),
    ensures
        if hunks@.len() == 0 {
            r matches Err(e) && e@ == "patch rejected: no hunks found"@
        } else {
            match patch_plan(crate::apply_patch::hunk_views(hunks@), facts@) {
                Ok(pairs) => r matches Ok((changes, steps)) && plan_matches(
                    changes@,
                    steps@,
                    pairs,
                ),
                Err(message) => r matches Err(e) && e@ == message,
            }
        },
{
    if hunks.len() == 0 {
        return Err("patch rejected: no hunks found".to_owned());
    }
    let ghost hs = crate::apply_patch::hunk_views(hunks@);
    let mut changes: Vec<PatchFileChange> = Vec::new();
    let mut steps: Vec<Planned> = Vec::new();
    let mut i: usize = 0;
    while i < hunks.len()
        invariant
            hs == crate::apply_patch::hunk_views(hunks@),
            hunks@.len() == facts@.len(),
            hunks@.len() > 0,
            i <= hunks@.len(),
            patch_plan(hs.take(i as int), facts@.take(i as int)) matches Ok(pairs) && plan_matches(
                changes@,
                steps@,
                pairs,
            ),
        decreases hunks@.len() - i,
    {
        proof {
            assert(hs.take(i + 1).drop_last() =~= hs.take(i as int));
            assert(facts@.take(i + 1).drop_last() =~= facts@.take(i as int));
            assert(hs.take(i + 1).last() == hunks@[i as int]@);
        }
        match plan_hunk(&hunks[i], &facts[i]) {
            Ok((change, step)) => {
                changes.push(change);
                steps.push(step);
            },
            Err(e) => {
                proof {
                    lemma_plan_fails_early(hs, facts@, i + 1);
                }
                return Err(e);
            },
        }
        i += 1;
    }
    proof {
        assert(hs.take(i as int) =~= hs);
        assert(facts@.take(i as int) =~= facts@);
    }
    Ok((changes, steps))
}

/// The paths that one section names.
pub open spec fn named_paths(h: HunkView) -> Seq<Seq<char>> {
    match h {
        HunkView::Add { path, .. } => seq![path],
        HunkView::Delete { path } => seq![path],
        HunkView::Update { path, move_path, .. } => match move_path {
            Some(target) => seq![path, target],
            None => seq![path],
        },
    }
}

/// The paths that the sections name, in their order.
pub open spec fn all_paths(hs: Seq<HunkView>) -> Seq<Seq<char>>
    decreases hs.len(),
{
    if hs.len() == 0 {
        Seq::empty()
    } else {
        all_paths(hs.drop_last()) + named_paths(hs.last())
    }
}

/// The paths to lock while a patch is carried out.
pub fn lock_paths(hunks: &Vec<Hunk>) -> (r: Vec<String>)
    ensures
        text::texts(r@) == all_paths(crate::apply_patch::hunk_views(hunks@)),
{
    let ghost hs = crate::apply_patch::hunk_views(hunks@);
    let mut out: Vec<String> = Vec::new();
    let mut i: usize = 0;
    proof {
        assert(text::texts(out@) =~= all_paths(hs.take(0)));
    }
    while i < hunks.len()
        invariant
            hs == crate::apply_patch::hunk_views(hunks@),
            i <= hunks@.len(),
            text::texts(out@) == all_paths(hs.take(i as int)),
        decreases hunks@.len() - i,
    {
        let ghost before = text::texts(out@);
        proof {
            assert(hs.take(i + 1).drop_last() =~= hs.take(i as int));
            assert(hs.take(i + 1).last() == hunks@[i as int]@);
        }
        match &hunks[i] {
            Hunk::Add { path, contents: _ } => {
                out.push(path.clone());
            },
            Hunk::Delete { path } => {
                out.push(path.clone());
            },
            Hunk::Update { path, move_path, chunks: _ } => {
                out.push(path.clone());
                if let Some(target) = move_path {
                    out.push(target.clone());
                }
            },
        }
        proof {
            assert(text::texts(out@) =~= before + named_paths(hunks@[i as int]@));
        }
        i += 1;
    }
    proof {
        assert(hs.take(i as int) =~= hs);
    }
    out
}

/// The line of the summary for one step.
pub open spec fn step_line(p: PlannedView) -> Seq<char> {
    match p {
        PlannedView::Add { path, .. } => "A "@ + path,
        PlannedView::Update { path, .. } => "M "@ + path,
        PlannedView::Move { from, to, .. } => "M "@ + from + " -> "@ + to,
        PlannedView::Delete { path } => "D "@ + path,
    }
}

/// The line of the summary for one step.
pub fn summary_line(step: &Planned) -> (r: String)
    ensures
        r@ == step_line(step@),
{
    match step {
        Planned::Add { path, content: _ } => {
            let mut s: String = "A ".to_owned();
            s.append(path.as_str());
            s
        },
        Planned::Update { path, content: _ } => {
            let mut s: String = "M ".to_owned();
            s.append(path.as_str());
            s
        },
        Planned::Move { from, to, content: _ } => {
            let mut s: String = "M ".to_owned();
            s.append(from.as_str());
            s.append(" -> ");
            s.append(to.as_str());
            s
        },
        Planned::Delete { path } => {
            let mut s: String = "D ".to_owned();
            s.append(path.as_str());
            s
        },
    }
}

/// What the tool answers once every step was taken.
pub fn patch_output(steps: &Vec<Planned>) -> (r: String)
    ensures
        r@ == "Success. Updated the following files:\n"@ + text::joined(
            planned_views(steps@).map_values(|p: PlannedView| step_line(p)),
            "\n"@,
        ),
{
    let ghost lines = planned_views(steps@).map_values(|p: PlannedView| step_line(p));
    let mut out: Vec<String> = Vec::new();
    let mut i: usize = 0;
    while i < steps.len()
        invariant
            lines == planned_views(steps@).map_values(|p: PlannedView| step_line(p)),
            i <= steps@.len(),
            text::texts(out@) =~= lines.take(i as int),
        decreases steps@.len() - i,
    {
        let ghost before = out@;
        let line = summary_line(&steps[i]);
        out.push(line);
        proof {
            assert(text::texts(out@) =~= text::texts(before).push(line@));
        }
        i += 1;
    }
    proof {
        assert(lines.take(i as int) =~= lines);
    }
    let mut s: String = "Success. Updated the following files:\n".to_owned();
    s.append(join(&out, "\n").as_str());
    s
}

/// The file to tell the language servers of after a step, with its new text.
pub fn notification(step: &Planned) -> (r: Option<(String, String)>)
    ensures
        match step@ {
            PlannedView::Add { path, content } => r matches Some((p, c)) && p@ == path && c@
                == content,
            PlannedView::Update { path, content } => r matches Some((p, c)) && p@ == path && c@
                == content,
            PlannedView::Move { from: _, to, content } => r matches Some((p, c)) && p@ == to && c@
                == content,
            PlannedView::Delete { path: _ } => r is None,
        },
{
    match step {
        Planned::Add { path, content } => Some((path.clone(), content.clone())),
        Planned::Update { path, content } => Some((path.clone(), content.clone())),
        Planned::Move { from: _, to, content } => Some((to.clone(), content.clone())),
        Planned::Delete { path: _ } => None,
    }
}

}
