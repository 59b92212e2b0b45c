//! Which tools a turn offers, what has been read in it, and the diffs that
//! file-changing tools report.

use crate::llm::{DiffLine, DiffLineKind, DiffLineView};
use crate::scenes::ToolScene;
use crate::text;
use crate::json::json_string_field;
use crate::text::{chars_of, same};
use vstd::prelude::*;

verus! {

/// A tool of a roster. `gated` marks tools whose calls the permission rules
/// authorize; the others confirm a scene's ask by themselves.
#[derive(Debug, Clone, Copy, PartialEq)]
pub struct ToolSlot {
    pub name: &'static str,
    pub gated: bool,
}

/// A tool that a turn offers: `confirm` marks one whose call is wrapped in a
/// confirmation because the scene asks for it and no permission rule will.
#[derive(Debug, Clone, Copy, PartialEq)]
pub struct OfferedTool {
    pub name: &'static str,
    pub gated: bool,
    pub confirm: bool,
}

/// The content of a [`ToolSlot`].
pub open spec fn slot_view(s: ToolSlot) -> (Seq<char>, bool) {
    (s.name@, s.gated)
}

/// The contents of a list of slots.
pub open spec fn slot_views(v: Seq<ToolSlot>) -> Seq<(Seq<char>, bool)> {
    Seq::new(v.len(), |i: int| slot_view(v[i]))
}

/// The contents of a list of offered tools.
pub open spec fn offered_views(v: Seq<OfferedTool>) -> Seq<(Seq<char>, bool, bool)> {
    Seq::new(v.len(), |i: int| (v[i].name@, v[i].gated, v[i].confirm))
}

/// Of the slots, those that the scene leaves available, in their order.
pub open spec fn offered(slots: Seq<(Seq<char>, bool)>, scene: ToolScene) -> Seq<
    (Seq<char>, bool, bool),
>
    decreases slots.len(),
{
    if slots.len() == 0 {
        Seq::empty()
    } else {
        let before = offered(slots.drop_last(), scene);
        let (name, gated) = slots.last();
        if scene.available(name) {
            before.push((name, gated, !gated && scene.asking(name)))
        } else {
            before
        }
    }
}

/// Builds the roster of the given slots under the scene.
pub fn scene_tools(slots: &Vec<ToolSlot>, scene: &ToolScene) -> (r: Vec<OfferedTool>)
    ensures
        offered_views(r@) == offered(slot_views(slots@), *scene),
{
    let ghost all = slot_views(slots@);
    let mut out: Vec<OfferedTool> = Vec::new();
    let mut i: usize = 0;
    while i < slots.len()
        invariant
            all == slot_views(slots@),
            i <= slots@.len(),
            offered_views(out@) =~= offered(all.take(i as int), *scene),
        decreases slots@.len() - i,
    {
        let slot = slots[i];
        let ghost before = out@;
        proof {
            assert(all.take(i + 1).drop_last() =~= all.take(i as int));
        }
        if scene.allows(slot.name) {
            let confirm = !slot.gated && scene.forces_ask(slot.name);
            out.push(OfferedTool { name: slot.name, gated: slot.gated, confirm });
            proof {
                assert(offered_views(out@) =~= offered_views(before).push(
                    (slot.name@, slot.gated, confirm),
                ));
            }
        }
        i += 1;
    }
    proof {
        assert(all.take(i as int) =~= all);
    }
    out
}

fn add_slot(slots: &mut Vec<ToolSlot>, name: &'static str, gated: bool)
    ensures
        slot_views(final(slots)@) == slot_views(old(slots)@).push((name@, gated)),
{
    let ghost before = slot_views(slots@);
    slots.push(ToolSlot { name, gated });
    proof {
        assert(slot_views(slots@) =~= before.push((name@, gated)));
    }
}

/// The tools of the main agent.
pub open spec fn all_slots(skills: bool, web_search: bool) -> Seq<(Seq<char>, bool)> {
    let files = seq![
        ("read_file"@, true),
        ("write_file"@, true),
        ("edit_file"@, true),
        ("apply_patch"@, true),
        ("delete_file"@, true),
        ("run_shell"@, true),
        ("list_dir"@, true),
        ("grep"@, true),
        ("glob"@, true),
    ];
    let with_skills = if skills {
        files.push(("skill"@, false))
    } else {
        files
    };
    let rest = with_skills + seq![
        ("lsp"@, false),
        ("webfetch"@, false),
        ("question"@, false),
        ("todo"@, false),
    ];
    if web_search {
        rest.push(("web_search"@, false))
    } else {
        rest
    }
}

/// The tools of a worker that reads.
pub open spec fn read_slots(skills: bool, web_search: bool) -> Seq<(Seq<char>, bool)> {
    let files = seq![
        ("read_file"@, true),
        ("list_dir"@, true),
        ("grep"@, true),
        ("glob"@, true),
    ];
    let with_skills = if skills {
        files.push(("skill"@, false))
    } else {
        files
    };
    let rest = with_skills + seq![("lsp"@, false), ("webfetch"@, false)];
    if web_search {
        rest.push(("web_search"@, false))
    } else {
        rest
    }
}

/// The tools of a worker that edits.
pub open spec fn edit_slots() -> Seq<(Seq<char>, bool)> {
    seq![
        ("read_file"@, true),
        ("write_file"@, true),
        ("edit_file"@, true),
        ("apply_patch"@, true),
        ("delete_file"@, true),
        ("lsp"@, false),
    ]
}

/// The roster of the main agent; the skill tool is there only with skills,
/// the search tool only when it is configured.
pub fn all_tools(scene: &ToolScene, skills: bool, web_search: bool) -> (r: Vec<OfferedTool>)
    ensures
        offered_views(r@) == offered(all_slots(skills, web_search), *scene),
{
    let mut slots: Vec<ToolSlot> = Vec::new();
    add_slot(&mut slots, "read_file", true);
    add_slot(&mut slots, "write_file", true);
    add_slot(&mut slots, "edit_file", true);
    add_slot(&mut slots, "apply_patch", true);
    add_slot(&mut slots, "delete_file", true);
    add_slot(&mut slots, "run_shell", true);
    add_slot(&mut slots, "list_dir", true);
    add_slot(&mut slots, "grep", true);
    add_slot(&mut slots, "glob", true);
    if skills {
        add_slot(&mut slots, "skill", false);
    }
    add_slot(&mut slots, "lsp", false);
    add_slot(&mut slots, "webfetch", false);
    add_slot(&mut slots, "question", false);
    add_slot(&mut slots, "todo", false);
    if web_search {
        add_slot(&mut slots, "web_search", false);
    }
    proof {
        assert(slot_views(slots@) =~= all_slots(skills, web_search));
    }
    scene_tools(&slots, scene)
}

/// The roster of a worker that reads.
pub fn read_tools(scene: &ToolScene, skills: bool, web_search: bool) -> (r: Vec<OfferedTool>)
    ensures
        offered_views(r@) == offered(read_slots(skills, web_search), *scene),
{
    let mut slots: Vec<ToolSlot> = Vec::new();
    add_slot(&mut slots, "read_file", true);
    add_slot(&mut slots, "list_dir", true);
    add_slot(&mut slots, "grep", true);
    add_slot(&mut slots, "glob", true);
    if skills {
        add_slot(&mut slots, "skill", false);
    }
    add_slot(&mut slots, "lsp", false);
    add_slot(&mut slots, "webfetch", false);
    if web_search {
        add_slot(&mut slots, "web_search", false);
    }
    proof {
        assert(slot_views(slots@) =~= read_slots(skills, web_search));
    }
    scene_tools(&slots, scene)
}

/// The roster of a worker that runs commands.
pub fn command_tools(scene: &ToolScene) -> (r: Vec<OfferedTool>)
    ensures
        offered_views(r@) == offered(seq![("run_shell"@, true)], *scene),
{
    let mut slots: Vec<ToolSlot> = Vec::new();
    add_slot(&mut slots, "run_shell", true);
    proof {
        assert(slot_views(slots@) =~= seq![("run_shell"@, true)]);
    }
    scene_tools(&slots, scene)
}

/// The roster of a worker that edits.
pub fn edit_tools(scene: &ToolScene) -> (r: Vec<OfferedTool>)
    ensures
        offered_views(r@) == offered(edit_slots(), *scene),
{
    let mut slots: Vec<ToolSlot> = Vec::new();
    add_slot(&mut slots, "read_file", true);
    add_slot(&mut slots, "write_file", true);
    add_slot(&mut slots, "edit_file", true);
    add_slot(&mut slots, "apply_patch", true);
    add_slot(&mut slots, "delete_file", true);
    add_slot(&mut slots, "lsp", false);
    proof {
        assert(slot_views(slots@) =~= edit_slots());
    }
    scene_tools(&slots, scene)
}

/// A roster holds exactly the available tools of its slots; a confirmed tool
/// is one that the scene makes ask.
pub proof fn lemma_offered(slots: Seq<(Seq<char>, bool)>, scene: ToolScene, name: Seq<char>)
    ensures
        (exists|i: int| 0 <= i < offered(slots, scene).len() && offered(slots, scene)[i].0 == name)
            <==> (scene.available(name) && exists|i: int|
            0 <= i < slots.len() && slots[i].0 == name),
    decreases slots.len(),
{
    let out = offered(slots, scene);
    if slots.len() > 0 {
        let before = slots.drop_last();
        let o = offered(before, scene);
        lemma_offered(before, scene, name);
        assert(forall|i: int| 0 <= i < before.len() ==> before[i] == slots[i]);
        if scene.available(slots.last().0) {
            assert(forall|i: int| 0 <= i < o.len() ==> o[i] == out[i]);
            assert(out[out.len() - 1].0 == slots[slots.len() - 1].0);
        }
    }
}

/// Whether a line of a diff is in the old text, in the new one, or in both.
#[derive(Debug, Clone, Copy, PartialEq, Eq, Structural)]
pub enum LineTag {
    Equal,
    Delete,
    Insert,
}

/// One line of a line diff, in parts of which some are emphasized.
#[derive(Debug, Clone, PartialEq)]
pub struct LineChange {
    pub tag: LineTag,
    pub old_index: Option<usize>,
    pub new_index: Option<usize>,
    pub values: Vec<(bool, String)>,
}

/// The content of a [`LineChange`].
#[verifier::ext_equal]
pub struct LineChangeView {
    pub tag: LineTag,
    pub old_index: Option<usize>,
    pub new_index: Option<usize>,
    pub values: Seq<(bool, Seq<char>)>,
}

impl View for LineChange {
    type V = LineChangeView;

    open spec fn view(&self) -> LineChangeView {
        LineChangeView {
            tag: self.tag,
            old_index: self.old_index,
            new_index: self.new_index,
            values: part_views(self.values@),
        }
    }
}

/// The contents of a list of parts.
pub open spec fn part_views(v: Seq<(bool, String)>) -> Seq<(bool, Seq<char>)> {
    Seq::new(v.len(), |i: int| (v[i].0, v[i].1@))
}

/// The contents of a group of changes.
pub open spec fn change_views(v: Seq<LineChange>) -> Seq<LineChangeView> {
    Seq::new(v.len(), |i: int| v[i]@)
}

/// The contents of a list of groups.
pub open spec fn group_views(v: Seq<Vec<LineChange>>) -> Seq<Seq<LineChangeView>> {
    Seq::new(v.len(), |i: int| change_views(v[i]@))
}

/// The parts one after the other.
pub open spec fn whole_line(values: Seq<(bool, Seq<char>)>) -> Seq<char>
    decreases values.len(),
{
    if values.len() == 0 {
        Seq::empty()
    } else {
        whole_line(values.drop_last()) + values.last().1
    }
}

/// The length of the first line of a text, with its line break: a line feed, a
/// carriage return, or both.
pub open spec fn first_line_len(s: Seq<char>) -> nat
    decreases s.len(),
{
    if s.len() == 0 {
        0
    } else if s[0] == '\n' {
        1
    } else if s[0] == '\r' {
        if s.len() > 1 && s[1] == '\n' {
            2
        } else {
            1
        }
    } else {
        1 + first_line_len(s.skip(1))
    }
}

/// The lines of a text, each with its line break.
pub open spec fn text_lines(s: Seq<char>) -> Seq<Seq<char>>
    decreases s.len(),
{
    let n = first_line_len(s) as int;
    if n <= 0 || n > s.len() {
        Seq::empty()
    } else {
        seq![s.take(n)] + text_lines(s.skip(n))
    }
}

/// Lines one after the other.
pub open spec fn joined_lines(ls: Seq<Seq<char>>) -> Seq<char>
    decreases ls.len(),
{
    if ls.len() == 0 {
        Seq::empty()
    } else {
        ls[0] + joined_lines(ls.skip(1))
    }
}

/// What holds of every line of a diff from `old` to `new`: it names the place
/// of the line in each text that holds it, and gives the line itself.
pub open spec fn line_of(c: LineChangeView, old: Seq<char>, new: Seq<char>) -> bool {
    &&& c.old_index is Some <==> c.tag != LineTag::Insert
    &&& c.new_index is Some <==> c.tag != LineTag::Delete
    &&& c.old_index matches Some(i) ==> i < text_lines(old).len() && whole_line(c.values)
        == text_lines(old)[i as int]
    &&& c.new_index matches Some(i) ==> i < text_lines(new).len() && whole_line(c.values)
        == text_lines(new)[i as int]
}

/// How many lines lie between the places in the old and the new text and the
/// change.
pub open spec fn lines_before(c: LineChangeView, o: int, n: int) -> int {
    match c.old_index {
        Some(i) => i - o,
        None => match c.new_index {
            Some(i) => i - n,
            None => 0,
        },
    }
}

/// Whether the changes from the `i`th of the `g`th group on lead from the places
/// `o` in the old lines and `n` in the new ones to the ends of both: the lines
/// between two groups, and those after the last, are the same in both. Between
/// two groups some line is passed over, and within a group none is.
pub open spec fn covers(
    groups: Seq<Seq<LineChangeView>>,
    g: int,
    i: int,
    old: Seq<Seq<char>>,
    new: Seq<Seq<char>>,
    o: int,
    n: int,
) -> bool
    decreases groups.len() - g, groups[g].len() - i,
{
    &&& 0 <= o <= old.len()
    &&& 0 <= n <= new.len()
    &&& if g < 0 || i < 0 || g >= groups.len() {
        old.skip(o) == new.skip(n)
    } else if i >= groups[g].len() {
        covers(groups, g + 1, 0, old, new, o, n)
    } else {
        let c = groups[g][i];
        let d = lines_before(c, o, n);
        let (p, q) = (o + d, n + d);
        &&& d >= 0
        &&& i > 0 ==> d == 0
        &&& i == 0 && g > 0 ==> d > 0
        &&& p <= old.len() && q <= new.len()
        &&& old.subrange(o, p) == new.subrange(n, q)
        &&& match c.tag {
            LineTag::Equal => {
                &&& c.new_index matches Some(k) && k == q
                &&& covers(groups, g, i + 1, old, new, p + 1, q + 1)
            },
            LineTag::Delete => covers(groups, g, i + 1, old, new, p + 1, q),
            LineTag::Insert => covers(groups, g, i + 1, old, new, p, q + 1),
        }
    }
}

/// How many lines at the front of a group both texts hold.
pub open spec fn lines_ahead(group: Seq<LineChangeView>) -> nat
    decreases group.len(),
{
    if group.len() > 0 && group[0].tag == LineTag::Equal {
        1 + lines_ahead(group.skip(1))
    } else {
        0
    }
}

/// How many lines at the end of a group both texts hold.
pub open spec fn lines_behind(group: Seq<LineChangeView>) -> nat
    decreases group.len(),
{
    if group.len() > 0 && group.last().tag == LineTag::Equal {
        1 + lines_behind(group.drop_last())
    } else {
        0
    }
}

/// Whether nothing comes after the line in a text that holds it.
pub open spec fn ends_texts(c: LineChangeView, old: Seq<char>, new: Seq<char>) -> bool {
    &&& c.old_index matches Some(i) ==> i + 1 == text_lines(old).len()
    &&& c.new_index matches Some(i) ==> i + 1 == text_lines(new).len()
}

/// Whether the `g`th group shows its changes in their context: `context` lines
/// that both texts hold stand before the first change and after the last, or as
/// many as there are where the texts begin or end; and of more than `2 * context`
/// lines in a row some line is changed.
pub open spec fn in_context(
    groups: Seq<Seq<LineChangeView>>,
    g: int,
    old: Seq<char>,
    new: Seq<char>,
    context: int,
) -> bool {
    let group = groups[g];
    let (ahead, behind) = (lines_ahead(group), lines_behind(group));
    &&& exists|i: int| 0 <= i < group.len() && (#[trigger] group[i]).tag != LineTag::Equal
    &&& ahead == context || (g == 0 && ahead < context && lines_before(group[0], 0, 0) == 0)
    &&& behind == context || (g == groups.len() - 1 && behind < context && ends_texts(
        group.last(),
        old,
        new,
    ))
    &&& forall|i: int|
        0 <= i && i + 2 * context < group.len() ==> #[trigger] changed_within(
            group,
            i,
            i + 2 * context,
        )
}

/// Whether one of the lines from the `i`th to the `j`th is changed.
pub open spec fn changed_within(group: Seq<LineChangeView>, i: int, j: int) -> bool {
    exists|k: int| i <= k <= j && (#[trigger] group[k]).tag != LineTag::Equal
}

/// Whether the line is in a run of changed lines that has both removed and added
/// ones.
pub open spec fn is_paired(group: Seq<LineChangeView>, i: int) -> bool {
    &&& group[i].tag != LineTag::Equal
    &&& exists|j: int|
        {
            &&& 0 <= j < group.len()
            &&& (#[trigger] group[j]).tag != LineTag::Equal && group[j].tag != group[i].tag
            &&& forall|k: int|
                i <= k <= j || j <= k <= i ==> (#[trigger] group[k]).tag != LineTag::Equal
        }
}

/// Whether no part of a line is emphasized.
pub open spec fn unemphasized(values: Seq<(bool, Seq<char>)>) -> bool {
    forall|p: int| 0 <= p < values.len() ==> !(#[trigger] values[p]).0
}

/// Whether the `i`th line of a group is in order: what a run removes comes before
/// what it adds, and emphasis stands only in runs that do both.
pub open spec fn in_run(group: Seq<LineChangeView>, i: int) -> bool {
    &&& i > 0 && group[i].tag == LineTag::Delete ==> group[i - 1].tag != LineTag::Insert
    &&& is_paired(group, i) || unemphasized(group[i].values)
}

/// What holds of the change groups of a diff from `old` to `new`: there is
/// none exactly if the texts are the same, each line is as [`line_of`] says,
/// the groups cover all that changed, they show it in its context, and their
/// lines are in order.
pub open spec fn groups_of(
    groups: Seq<Seq<LineChangeView>>,
    old: Seq<char>,
    new: Seq<char>,
    context: int,
) -> bool {
    &&& groups.len() == 0 <==> old == new
    &&& forall|g: int, i: int|
        0 <= g < groups.len() && 0 <= i < groups[g].len() ==> line_of(
            #[trigger] groups[g][i],
            old,
            new,
        )
    &&& covers(groups, 0, 0, text_lines(old), text_lines(new), 0, 0)
    &&& forall|g: int|
        0 <= g < groups.len() ==> #[trigger] in_context(groups, g, old, new, context)
    &&& forall|g: int, i: int|
        0 <= g < groups.len() && 0 <= i < groups[g].len() ==> #[trigger] in_run(groups[g], i)
}

/// The tags of the changes and their indices in the texts, by groups.
pub open spec fn places(groups: Seq<Seq<LineChangeView>>) -> Seq<
    Seq<(LineTag, Option<usize>, Option<usize>)>,
> {
    Seq::new(
        groups.len(),
        |g: int|
            Seq::new(
                groups[g].len(),
                |i: int| (groups[g][i].tag, groups[g][i].old_index, groups[g][i].new_index),
            ),
    )
}

/// Which lines a diff shows with so many lines of context, by groups: for each
/// line whether it is kept, removed or added, and its index in the texts.
pub uninterp spec fn line_groups(old: Seq<char>, new: Seq<char>, context: nat) -> Seq<
    Seq<(LineTag, Option<usize>, Option<usize>)>,
>;

/// The old lines with the changes from the `i`th of the `g`th group on carried
/// out, from the place `o` on; `n` lines of the new text stand before it.
pub open spec fn patched(
    groups: Seq<Seq<LineChangeView>>,
    g: int,
    i: int,
    old: Seq<Seq<char>>,
    o: int,
    n: int,
) -> Seq<Seq<char>>
    decreases groups.len() - g, groups[g].len() - i,
{
    if g < 0 || i < 0 || g >= groups.len() {
        old.skip(o)
    } else if i >= groups[g].len() {
        patched(groups, g + 1, 0, old, o, n)
    } else {
        let c = groups[g][i];
        let d = lines_before(c, o, n);
        let kept = old.subrange(o, o + d);
        match c.tag {
            LineTag::Equal => kept.push(old[o + d]) + patched(
                groups,
                g,
                i + 1,
                old,
                o + d + 1,
                n + d + 1,
            ),
            LineTag::Delete => kept + patched(groups, g, i + 1, old, o + d + 1, n + d),
            LineTag::Insert => kept.push(whole_line(c.values)) + patched(
                groups,
                g,
                i + 1,
                old,
                o + d,
                n + d + 1,
            ),
        }
    }
}

proof fn lemma_patched(
    groups: Seq<Seq<LineChangeView>>,
    g: int,
    i: int,
    old: Seq<char>,
    new: Seq<char>,
    o: int,
    n: int,
)
    requires
        0 <= g,
        0 <= i,
        forall|g: int, i: int|
            0 <= g < groups.len() && 0 <= i < groups[g].len() ==> line_of(
                #[trigger] groups[g][i],
                old,
                new,
            ),
        covers(groups, g, i, text_lines(old), text_lines(new), o, n),
    ensures
        patched(groups, g, i, text_lines(old), o, n) == text_lines(new).skip(n),
    decreases groups.len() - g, groups[g].len() - i,
{
    let (a, b) = (text_lines(old), text_lines(new));
    if g < groups.len() {
        if i >= groups[g].len() {
            lemma_patched(groups, g + 1, 0, old, new, o, n);
        } else {
            let c = groups[g][i];
            assert(line_of(c, old, new));
            let d = lines_before(c, o, n);
            let kept = a.subrange(o, o + d);
            assert(kept =~= b.subrange(n, n + d));
            match c.tag {
                LineTag::Equal => {
                    lemma_patched(groups, g, i + 1, old, new, o + d + 1, n + d + 1);
                    assert(kept.push(a[o + d]) + b.skip(n + d + 1) =~= b.skip(n));
                },
                LineTag::Delete => {
                    lemma_patched(groups, g, i + 1, old, new, o + d + 1, n + d);
                    assert(kept + b.skip(n + d) =~= b.skip(n));
                },
                LineTag::Insert => {
                    lemma_patched(groups, g, i + 1, old, new, o + d, n + d + 1);
                    assert(kept.push(whole_line(c.values)) + b.skip(n + d + 1) =~= b.skip(n));
                },
            }
        }
    }
}

proof fn lemma_first_line_len(s: Seq<char>)
    ensures
        first_line_len(s) <= s.len(),
        s.len() > 0 ==> first_line_len(s) > 0,
    decreases s.len(),
{
    if s.len() > 0 {
        lemma_first_line_len(s.skip(1));
    }
}

/// The lines of a text make up the text, and there are no more of them than
/// the text has characters.
pub proof fn lemma_lines_make_up_the_text(s: Seq<char>)
    ensures
        joined_lines(text_lines(s)) == s,
        text_lines(s).len() <= s.len(),
    decreases s.len(),
{
    if s.len() > 0 {
        lemma_first_line_len(s);
        let n = first_line_len(s) as int;
        lemma_lines_make_up_the_text(s.skip(n));
        assert(text_lines(s).skip(1) =~= text_lines(s.skip(n)));
        assert(s.take(n) + s.skip(n) =~= s);
    }
}

/// Carrying out the changes of a diff on the old text gives the new text.
pub proof fn lemma_diff_gives_the_new_text(
    groups: Seq<Seq<LineChangeView>>,
    old: Seq<char>,
    new: Seq<char>,
    context: int,
)
    requires
        groups_of(groups, old, new, context),
    ensures
        joined_lines(patched(groups, 0, 0, text_lines(old), 0, 0)) == new,
{
    lemma_patched(groups, 0, 0, old, new, 0, 0);
    lemma_lines_make_up_the_text(new);
    assert(text_lines(new).skip(0) =~= text_lines(new));
}

/// `similar::TextDiff::from_lines`, its `grouped_ops` with `context` lines
/// around each change, and `iter_inline_changes_with_options` by Unicode words
/// on each operation of a group.
///
/// Which lines are kept, removed and added, and how they are grouped, is a
/// function of the texts and of `context`, named [`line_groups`]. Each change is
/// a line of one or both texts, with its index there, in parts that make up the
/// line; there is no group exactly if the texts are the same. The changes come in
/// order, and the lines that stand in no group are the same in both texts. Where
/// more than `2 * context` kept lines follow one another the group ends after
/// `context` of them, and the next begins with the last `context` of them; the
/// first group begins, and the last one ends, with that many or with all there
/// are. In a run of changes the removed lines come first. A line that is kept, or
/// whose run only removes or only adds, has no emphasized part.
///
/// Which parts of the other lines are emphasized rests on how far the refinement
/// of a replaced run gets within its time limit, so nothing is said of that.
#[verifier::external_body]
fn inline_changes(old: &str, new: &str, context: usize) -> (r: Vec<Vec<LineChange>>)
    requires
        context <= usize::MAX / 2,
    ensures
        groups_of(group_views(r@), old@, new@, context as int),
        places(group_views(r@)) == line_groups(old@, new@, context as nat),
{
    let diff = similar::TextDiff::from_lines(old, new);
    let mut options = similar::InlineChangeOptions::new();
    options.mode(similar::InlineChangeMode::UnicodeWords);
    let line = |c: similar::InlineChange<'_, str>| LineChange {
        tag: match c.tag() {
            similar::ChangeTag::Equal => LineTag::Equal,
            similar::ChangeTag::Delete => LineTag::Delete,
            similar::ChangeTag::Insert => LineTag::Insert,
        },
        old_index: c.old_index(),
        new_index: c.new_index(),
        values: c.values().iter().map(|(e, v)| (*e, v.to_string())).collect(),
    };
    diff.grouped_ops(context).iter().map(|g| g.iter().flat_map(|op| diff.iter_inline_changes_with_options(op, options)).map(line).collect()).collect()
}

/// The length of a text in bytes, as a `u32`.
pub open spec fn byte_len(s: Seq<char>) -> u32 {
    (vstd::utf8::encode_utf8(s).len() as usize) as u32
}

/// The byte ranges of the emphasized parts.
pub open spec fn emphasized(values: Seq<(bool, Seq<char>)>) -> Seq<(u32, u32)>
    decreases values.len(),
{
    if values.len() == 0 {
        Seq::empty()
    } else {
        let before = emphasized(values.drop_last());
        if values.last().0 {
            before.push((byte_len(whole_line(values.drop_last())), byte_len(whole_line(values))))
        } else {
            before
        }
    }
}

/// The ranges cut off at `limit`; what is empty then is left out.
pub open spec fn cut_off(ranges: Seq<(u32, u32)>, limit: u32) -> Seq<(u32, u32)>
    decreases ranges.len(),
{
    if ranges.len() == 0 {
        Seq::empty()
    } else {
        let before = cut_off(ranges.drop_last(), limit);
        let (start, end) = ranges.last();
        let last = if end < limit {
            end
        } else {
            limit
        };
        if start < last {
            before.push((start, last))
        } else {
            before
        }
    }
}

/// A line without its line break.
pub open spec fn without_break(s: Seq<char>) -> Seq<char>
    decreases s.len(),
{
    if s.len() > 0 && (s.last() == '\n' || s.last() == '\r') {
        without_break(s.drop_last())
    } else {
        s
    }
}

/// The number of the line with the index.
pub open spec fn line_number(i: Option<usize>) -> Option<u64> {
    match i {
        Some(i) => Some((i + 1) as u64),
        None => None,
    }
}

/// The diff line of a change.
pub open spec fn diff_line(c: LineChangeView) -> DiffLineView {
    let line = whole_line(c.values);
    DiffLineView {
        kind: match c.tag {
            LineTag::Equal => DiffLineKind::Context,
            LineTag::Delete => DiffLineKind::Remove,
            LineTag::Insert => DiffLineKind::Add,
        },
        old_line: if c.tag == LineTag::Insert {
            None
        } else {
            line_number(c.old_index)
        },
        new_line: if c.tag == LineTag::Delete {
            None
        } else {
            line_number(c.new_index)
        },
        text: line,
        edits: cut_off(emphasized(c.values), byte_len(without_break(line))),
    }
}

/// The line that stands between two groups.
pub open spec fn ellipsis() -> DiffLineView {
    DiffLineView {
        kind: DiffLineKind::Ellipsis,
        old_line: None,
        new_line: None,
        text: Seq::empty(),
        edits: Seq::empty(),
    }
}

/// The diff lines of the groups, with an ellipsis before each group that has lines before it.
pub open spec fn diff_lines(groups: Seq<Seq<LineChangeView>>) -> Seq<DiffLineView>
    decreases groups.len(),
{
    if groups.len() == 0 {
        Seq::empty()
    } else {
        let before = diff_lines(groups.drop_last());
        let lines = groups.last().map_values(|c: LineChangeView| diff_line(c));
        if before.len() == 0 {
            lines
        } else {
            before.push(ellipsis()) + lines
        }
    }
}

fn text_without_break(s: &str) -> (r: &str)
    ensures
        r@ == without_break(s@),
{
    let cs = chars_of(s);
    let mut j: usize = cs.len();
    proof {
        assert(s@.take(j as int) =~= s@);
    }
    while j > 0 && (cs[j - 1] == '\n' || cs[j - 1] == '\r')
        invariant
            cs@ == s@,
            j <= cs.len(),
            without_break(s@) == without_break(s@.take(j as int)),
        decreases j,
    {
        proof {
            assert(s@.take(j as int).drop_last() =~= s@.take(j - 1));
        }
        j -= 1;
    }
    s.substring_char(0, j)
}

fn cut_ranges(ranges: &Vec<(u32, u32)>, limit: u32) -> (r: Vec<(u32, u32)>)
    ensures
        r@ == cut_off(ranges@, limit),
{
    let mut out: Vec<(u32, u32)> = Vec::new();
    let mut i: usize = 0;
    while i < ranges.len()
        invariant
            i <= ranges@.len(),
            out@ =~= cut_off(ranges@.take(i as int), limit),
        decreases ranges@.len() - i,
    {
        proof {
            assert(ranges@.take(i + 1).drop_last() =~= ranges@.take(i as int));
        }
        let (start, end) = ranges[i];
        let last: u32 = if end < limit {
            end
        } else {
            limit
        };
        if start < last {
            out.push((start, last));
        }
        i += 1;
    }
    proof {
        assert(ranges@.take(i as int) =~= ranges@);
    }
    out
}

fn one_based(i: Option<usize>) -> (r: Option<u64>)
    requires
        i matches Some(n) ==> n < usize::MAX,
    ensures
        r == line_number(i),
{
    match i {
        Some(n) => Some((n + 1) as u64),
        None => None,
    }
}

fn render_change(c: &LineChange) -> (r: DiffLine)
    requires
        c.old_index matches Some(n) ==> n < usize::MAX,
        c.new_index matches Some(n) ==> n < usize::MAX,
    ensures
        r@ == diff_line(c@),
{
    let ghost parts = part_views(c.values@);
    let mut line: String = String::new();
    let mut ranges: Vec<(u32, u32)> = Vec::new();
    let mut i: usize = 0;
    while i < c.values.len()
        invariant
            parts == part_views(c.values@),
            i <= c.values@.len(),
            line@ =~= whole_line(parts.take(i as int)),
            ranges@ =~= emphasized(parts.take(i as int)),
        decreases c.values@.len() - i,
    {
        proof {
            assert(parts.take(i + 1).drop_last() =~= parts.take(i as int));
        }
        let start: u32 = line.as_str().len() as u32;
        line.append(c.values[i].1.as_str());
        let end: u32 = line.as_str().len() as u32;
        if c.values[i].0 {
            ranges.push((start, end));
        }
        i += 1;
    }
    proof {
        assert(parts.take(i as int) =~= parts);
    }
    let limit: u32 = text_without_break(line.as_str()).len() as u32;
    let edits = cut_ranges(&ranges, limit);
    let (kind, old_line, new_line) = match c.tag {
        LineTag::Equal => (DiffLineKind::Context, one_based(c.old_index), one_based(c.new_index)),
        LineTag::Delete => (DiffLineKind::Remove, one_based(c.old_index), None),
        LineTag::Insert => (DiffLineKind::Add, None, one_based(c.new_index)),
    };
    DiffLine { kind, old_line, new_line, text: line, edits }
}

/// The diff lines of change groups.
pub fn render_diff(groups: &Vec<Vec<LineChange>>) -> (r: Vec<DiffLine>)
    requires
        forall|g: int, i: int|
            0 <= g < groups@.len() && 0 <= i < groups@[g]@.len() ==> {
                &&& (#[trigger] groups@[g]@[i]).old_index matches Some(n) ==> n < usize::MAX
                &&& groups@[g]@[i].new_index matches Some(n) ==> n < usize::MAX
            },
    ensures
        crate::llm::diff_views(r@) == diff_lines(group_views(groups@)),
{
    let ghost all = group_views(groups@);
    let mut out: Vec<DiffLine> = Vec::new();
    let mut g: usize = 0;
    proof {
        assert(crate::llm::diff_views(out@) =~= diff_lines(all.take(0)));
    }
    while g < groups.len()
        invariant
            all == group_views(groups@),
            g <= groups@.len(),
            crate::llm::diff_views(out@) == diff_lines(all.take(g as int)),
            forall|g: int, i: int|
                0 <= g < groups@.len() && 0 <= i < groups@[g]@.len() ==> {
                    &&& (#[trigger] groups@[g]@[i]).old_index matches Some(n) ==> n < usize::MAX
                    &&& groups@[g]@[i].new_index matches Some(n) ==> n < usize::MAX
                },
        decreases groups@.len() - g,
    {
        let ghost before = diff_lines(all.take(g as int));
        let ghost lines = all[g as int].map_values(|c: LineChangeView| diff_line(c));
        proof {
            assert(all.take(g + 1).drop_last() =~= all.take(g as int));
            assert(crate::llm::diff_views(out@).len() == out@.len());
        }
        if out.len() > 0 {
            let gap = DiffLine {
                kind: DiffLineKind::Ellipsis,
                old_line: None,
                new_line: None,
                text: String::new(),
                edits: Vec::new(),
            };
            out.push(gap);
            proof {
                assert(gap@ =~= ellipsis());
                assert(crate::llm::diff_views(out@) =~= before.push(ellipsis()));
            }
        }
        let ghost top = crate::llm::diff_views(out@);
        let mut i: usize = 0;
        proof {
            assert(top + lines.take(0) =~= top);
        }
        while i < groups[g as usize].len()
            invariant
                g < groups@.len(),
                all == group_views(groups@),
                i <= groups@[g as int]@.len(),
                lines == all[g as int].map_values(|c: LineChangeView| diff_line(c)),
                crate::llm::diff_views(out@) =~= top + lines.take(i as int),
                forall|g: int, i: int|
                    0 <= g < groups@.len() && 0 <= i < groups@[g]@.len() ==> {
                        &&& (#[trigger] groups@[g]@[i]).old_index matches Some(n) ==> n
                            < usize::MAX
                        &&& groups@[g]@[i].new_index matches Some(n) ==> n < usize::MAX
                    },
            decreases groups@[g as int]@.len() - i,
        {
            let ghost so_far = out@;
            let line = render_change(&groups[g][i]);
            out.push(line);
            proof {
                assert(crate::llm::diff_views(out@) =~= crate::llm::diff_views(so_far).push(line@));
                assert(lines[i as int] == line@);
            }
            i += 1;
        }
        proof {
            assert(lines.take(i as int) =~= lines);
            if before.len() == 0 {
                assert(top =~= Seq::empty());
                assert(top + lines =~= lines);
            }
        }
        g += 1;
    }
    proof {
        assert(all.take(g as int) =~= all);
    }
    out
}

/// Whether the lines are the diff from `old` to `new`: they show the groups with
/// three lines of context.
pub open spec fn is_diff(lines: Seq<DiffLineView>, old: Seq<char>, new: Seq<char>) -> bool {
    &&& exists|groups: Seq<Seq<LineChangeView>>|
        {
            &&& #[trigger] groups_of(groups, old, new, 3)
            &&& places(groups) == line_groups(old, new, 3)
            &&& lines == diff_lines(groups)
        }
    &&& old == new ==> lines.len() == 0
}

/// The line of a diff without its emphasis.
pub open spec fn plain_line(l: DiffLineView) -> DiffLineView {
    DiffLineView { edits: Seq::empty(), ..l }
}

/// The lines of a diff without their emphasis.
pub open spec fn plain_lines(ls: Seq<DiffLineView>) -> Seq<DiffLineView> {
    ls.map_values(|l: DiffLineView| plain_line(l))
}

proof fn lemma_same_places(
    a: Seq<Seq<LineChangeView>>,
    b: Seq<Seq<LineChangeView>>,
    old: Seq<char>,
    new: Seq<char>,
)
    requires
        places(a) == places(b),
        forall|g: int, i: int|
            0 <= g < a.len() && 0 <= i < a[g].len() ==> line_of(#[trigger] a[g][i], old, new),
        forall|g: int, i: int|
            0 <= g < b.len() && 0 <= i < b[g].len() ==> line_of(#[trigger] b[g][i], old, new),
    ensures
        plain_lines(diff_lines(a)) == plain_lines(diff_lines(b)),
    decreases a.len(),
{
    assert(places(a).len() == a.len() && places(b).len() == b.len());
    if a.len() > 0 {
        let (c, d) = (a.drop_last(), b.drop_last());
        assert(places(c) =~= places(a).drop_last());
        assert(places(d) =~= places(b).drop_last());
        assert forall|g: int, i: int| 0 <= g < c.len() && 0 <= i < c[g].len() implies line_of(
            #[trigger] c[g][i],
            old,
            new,
        ) by {
            assert(c[g][i] == a[g][i]);
        }
        assert forall|g: int, i: int| 0 <= g < d.len() && 0 <= i < d[g].len() implies line_of(
            #[trigger] d[g][i],
            old,
            new,
        ) by {
            assert(d[g][i] == b[g][i]);
        }
        lemma_same_places(c, d, old, new);
        let n = a.len() - 1;
        let (x, y) = (a[n], b[n]);
        assert(places(a)[n] == places(b)[n]);
        assert(places(a)[n].len() == x.len() && places(b)[n].len() == y.len());
        let f = |c: LineChangeView| diff_line(c);
        let (p, q) = (x.map_values(f), y.map_values(f));
        assert forall|i: int| 0 <= i < x.len() implies plain_line(#[trigger] p[i]) == plain_line(
            q[i],
        ) by {
            assert(places(a)[n][i] == places(b)[n][i]);
            assert(line_of(a[n][i], old, new) && line_of(b[n][i], old, new));
            assert(plain_line(diff_line(x[i])) =~= plain_line(diff_line(y[i])));
        }
        assert(plain_lines(p) =~= plain_lines(q));
        let (u, v) = (diff_lines(c), diff_lines(d));
        assert(plain_lines(u).len() == u.len() && plain_lines(v).len() == v.len());
        if u.len() > 0 {
            assert(plain_lines(u.push(ellipsis()) + p) =~= plain_lines(u).push(
                plain_line(ellipsis()),
            ) + plain_lines(p));
            assert(plain_lines(v.push(ellipsis()) + q) =~= plain_lines(v).push(
                plain_line(ellipsis()),
            ) + plain_lines(q));
        }
    } else {
        assert(a =~= b);
    }
}

/// Two diffs of the same texts show the same lines, with the same numbers, in the
/// same order. They differ in their emphasis at most.
pub proof fn lemma_diff_shows_fixed_lines(
    a: Seq<DiffLineView>,
    b: Seq<DiffLineView>,
    old: Seq<char>,
    new: Seq<char>,
)
    requires
        is_diff(a, old, new),
        is_diff(b, old, new),
    ensures
        plain_lines(a) == plain_lines(b),
{
    let x = choose|groups: Seq<Seq<LineChangeView>>|
        {
            &&& #[trigger] groups_of(groups, old, new, 3)
            &&& places(groups) == line_groups(old, new, 3)
            &&& a == diff_lines(groups)
        };
    let y = choose|groups: Seq<Seq<LineChangeView>>|
        {
            &&& #[trigger] groups_of(groups, old, new, 3)
            &&& places(groups) == line_groups(old, new, 3)
            &&& b == diff_lines(groups)
        };
    lemma_same_places(x, y, old, new);
}

proof fn lemma_ellipsis(groups: Seq<Seq<LineChangeView>>, k: int)
    requires
        0 < k <= groups.len(),
        forall|g: int| 0 <= g < groups.len() ==> (#[trigger] groups[g]).len() > 0,
    ensures
        0 < diff_lines(groups.take(k)).len() <= diff_lines(groups).len(),
        k < groups.len() ==> {
            &&& diff_lines(groups.take(k)).len() < diff_lines(groups).len()
            &&& diff_lines(groups)[diff_lines(groups.take(k)).len() as int] == ellipsis()
        },
    decreases groups.len(),
{
    let front = groups.drop_last();
    assert(forall|g: int| 0 <= g < front.len() ==> front[g] == groups[g]);
    if k == groups.len() {
        assert(groups.take(k) =~= groups);
        if front.len() > 0 {
            lemma_ellipsis(front, front.len() as int);
            assert(front.take(front.len() as int) =~= front);
        }
        assert(groups.last() == groups[k - 1]);
    } else {
        lemma_ellipsis(front, k);
        assert(front.take(k) =~= groups.take(k));
        if k == front.len() {
            assert(front.take(k) =~= front);
        }
    }
}

/// Between two groups of changes, and so between any two changes that more lines
/// lie between than their contexts take up, stands an ellipsis.
pub proof fn lemma_ellipsis_between_groups(
    groups: Seq<Seq<LineChangeView>>,
    old: Seq<char>,
    new: Seq<char>,
    context: int,
    k: int,
)
    requires
        groups_of(groups, old, new, context),
        0 < k < groups.len(),
    ensures
        0 < diff_lines(groups.take(k)).len() < diff_lines(groups).len(),
        diff_lines(groups)[diff_lines(groups.take(k)).len() as int] == ellipsis(),
{
    assert forall|g: int| 0 <= g < groups.len() implies (#[trigger] groups[g]).len() > 0 by {
        assert(in_context(groups, g, old, new, context));
    }
    lemma_ellipsis(groups, k);
}

proof fn lemma_no_emphasis(values: Seq<(bool, Seq<char>)>)
    requires
        unemphasized(values),
    ensures
        emphasized(values).len() == 0,
    decreases values.len(),
{
    if values.len() > 0 {
        let front = values.drop_last();
        assert(forall|p: int| 0 <= p < front.len() ==> front[p] == values[p]);
        lemma_no_emphasis(front);
        assert(!values[values.len() - 1].0);
    }
}

/// A line that is kept, or whose run only removes or only adds, shows no emphasis.
pub proof fn lemma_unpaired_lines_show_no_emphasis(
    groups: Seq<Seq<LineChangeView>>,
    old: Seq<char>,
    new: Seq<char>,
    context: int,
    g: int,
    i: int,
)
    requires
        groups_of(groups, old, new, context),
        0 <= g < groups.len(),
        0 <= i < groups[g].len(),
        !is_paired(groups[g], i),
    ensures
        diff_line(groups[g][i]).edits.len() == 0,
{
    assert(in_run(groups[g], i));
    lemma_no_emphasis(groups[g][i].values);
}

/// The diff of two texts: the changed lines with three lines of context, an
/// ellipsis between distant changes, and emphasis on what changed in a line.
pub fn compute_diff(old: &str, new: &str) -> (r: Vec<DiffLine>)
    ensures
        is_diff(crate::llm::diff_views(r@), old@, new@),
{
    let groups = inline_changes(old, new, 3);
    let ghost all = group_views(groups@);
    let old_len: usize = old.unicode_len();
    let new_len: usize = new.unicode_len();
    proof {
        assert forall|g: int, i: int|
            0 <= g < groups@.len() && 0 <= i < groups@[g]@.len() implies {
            &&& (#[trigger] groups@[g]@[i]).old_index matches Some(n) ==> n < usize::MAX
            &&& groups@[g]@[i].new_index matches Some(n) ==> n < usize::MAX
        } by {
            assert(line_of(all[g][i], old@, new@));
            lemma_lines_make_up_the_text(old@);
            lemma_lines_make_up_the_text(new@);
        }
    }
    let out = render_diff(&groups);
    proof {
        assert(groups_of(all, old@, new@, 3));
        assert(crate::llm::diff_views(out@).len() == out@.len());
    }
    out
}

/// The required string argument of a tool call, given what was found under its name.
pub fn required_argument(found: Option<String>, key: &str) -> (r: Result<String, String>)
    ensures
        match found {
            Some(s) => r == Ok::<String, String>(s),
            None => r matches Err(e) && e@ == "missing string argument '"@ + key@ + "'"@,
        },
{
    match found {
        Some(s) => Ok(s),
        None => {
            let mut message: String = "missing string argument '".to_owned();
            message.append(key);
            message.append("'");
            Err(message)
        },
    }
}

/// The string argument of a tool call; `args` is the JSON text of its arguments.
pub fn arg_value(args: &str, key: &str) -> (r: Result<String, String>)
    ensures
        match crate::json::json_string(args@, key@) {
            Some(s) => r matches Ok(v) && v@ == s,
            None => r matches Err(e) && e@ == "missing string argument '"@ + key@ + "'"@,
        },
{
    required_argument(json_string_field(args, key), key)
}

/// A range of a file that was read: its path, offset and limit.
pub type ReadKey = (String, Option<u64>, Option<u64>);

/// The content of a [`ReadKey`].
pub open spec fn read_key_view(k: ReadKey) -> (Seq<char>, Option<u64>, Option<u64>) {
    (k.0@, k.1, k.2)
}

/// The file ranges that were read in a turn. A range that is read again gets a
/// short note instead of its content; overwriting a file needs that some range
/// of it was read.
#[derive(Debug)]
pub struct ReadCache {
    seen: Vec<ReadKey>,
}

impl View for ReadCache {
    type V = Set<(Seq<char>, Option<u64>, Option<u64>)>;

    /// The ranges that were read.
    closed spec fn view(&self) -> Set<(Seq<char>, Option<u64>, Option<u64>)> {
        Set::new(
            |k: (Seq<char>, Option<u64>, Option<u64>)|
                exists|i: int|
                    0 <= i < self.seen@.len() && #[trigger] read_key_view(self.seen@[i]) == k,
        )
    }
}

fn same_number(a: Option<u64>, b: Option<u64>) -> (r: bool)
    ensures
        r == (a == b),
{
    match (a, b) {
        (Some(x), Some(y)) => x == y,
        (None, None) => true,
        _ => false,
    }
}

impl Default for ReadCache {
    fn default() -> (c: Self)
        ensures
            c@ == Set::<(Seq<char>, Option<u64>, Option<u64>)>::empty(),
    {
        ReadCache::new()
    }
}

impl ReadCache {
    /// Nothing was read yet.
    pub fn new() -> (c: ReadCache)
        ensures
            c@ == Set::<(Seq<char>, Option<u64>, Option<u64>)>::empty(),
    {
        let c = ReadCache { seen: Vec::new() };
        proof {
            assert(c@ =~= Set::empty());
        }
        c
    }

    /// Whether this exact range was read before; it counts as read from now on.
    pub fn mark(&mut self, path: &str, offset: Option<u64>, limit: Option<u64>) -> (again: bool)
        ensures
            again == old(self)@.contains((path@, offset, limit)),
            final(self)@ == old(self)@.insert((path@, offset, limit)),
    {
        let ghost before = self@;
        let ghost key = (path@, offset, limit);
        let mut i: usize = 0;
        while i < self.seen.len()
            invariant
                *self == *old(self),
                before == self@,
                key == (path@, offset, limit),
                i <= self.seen@.len(),
                forall|k: int| 0 <= k < i ==> #[trigger] read_key_view(self.seen@[k]) != key,
            decreases self.seen@.len() - i,
        {
            if same(self.seen[i].0.as_str(), path) && same_number(self.seen[i].1, offset)
                && same_number(self.seen[i].2, limit) {
                proof {
                    assert(read_key_view(self.seen@[i as int]) == key);
                    assert(self@.insert(key) =~= before);
                }
                return true;
            }
            i += 1;
        }
        let ghost list = self.seen@;
        self.seen.push((path.to_owned(), offset, limit));
        proof {
            assert(forall|k: int| 0 <= k < list.len() ==> self.seen@[k] == list[k]);
            assert(read_key_view(self.seen@[list.len() as int]) == key);
            assert forall|k: (Seq<char>, Option<u64>, Option<u64>)| #[trigger]
                self@.contains(k) == before.insert(key).contains(k) by {
                if before.contains(k) {
                    let j = choose|j: int|
                        0 <= j < list.len() && #[trigger] read_key_view(list[j]) == k;
                    assert(read_key_view(self.seen@[j]) == k);
                }
                if self@.contains(k) {
                    let j = choose|j: int|
                        0 <= j < self.seen@.len() && #[trigger] read_key_view(self.seen@[j]) == k;
                    if j < list.len() {
                        assert(read_key_view(list[j]) == k);
                    }
                }
            }
            assert(self@ =~= before.insert(key));
        }
        false
    }

    /// Whether any range of the file was read.
    pub fn was_read(&self, path: &str) -> (b: bool)
        ensures
            b == exists|offset: Option<u64>, limit: Option<u64>| #[trigger]
                self@.contains((path@, offset, limit)),
    {
        let mut i: usize = 0;
        while i < self.seen.len()
            invariant
                i <= self.seen@.len(),
                forall|k: int| 0 <= k < i ==> #[trigger] read_key_view(self.seen@[k]).0 != path@,
            decreases self.seen@.len() - i,
        {
            if same(self.seen[i].0.as_str(), path) {
                proof {
                    let k = read_key_view(self.seen@[i as int]);
                    assert(self@.contains((path@, k.1, k.2)));
                }
                return true;
            }
            i += 1;
        }
        proof {
            assert forall|offset: Option<u64>, limit: Option<u64>| !#[trigger]
                self@.contains((path@, offset, limit)) by {
                if self@.contains((path@, offset, limit)) {
                    let j = choose|j: int|
                        0 <= j < self.seen@.len() && #[trigger] read_key_view(self.seen@[j]) == (
                            path@,
                            offset,
                            limit,
                        );
                    assert(read_key_view(self.seen@[j]).0 == path@);
                }
            }
        }
        false
    }
}

}
