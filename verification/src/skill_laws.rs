//! What holds of all skills: which names are good, what the model is told of them,
//! and which of them are found.

use crate::order;
use crate::order::Named;
use crate::paths;
use crate::skills;
use crate::skills::walk;
use crate::skills::walk::{DirEntry, DirFacts, SkillWalk};
use crate::skills::{Skill, SkillFile, SkillFrontMatter, SkillView, SkillWarning, Skills};
use crate::text;
use crate::text_map;
use crate::views;
use vstd::prelude::*;

verus! {

/// Whether a name is good: up to 64 lowercase letters, digits and hyphens, without a
/// hyphen at an end or two in a row.
pub open spec fn is_good_name(name: Seq<char>) -> bool {
    &&& name.len() <= 64
    &&& forall|i: int|
        0 <= i < name.len() ==> 'a' <= #[trigger] name[i] <= 'z' || '0' <= name[i] <= '9' || name[i]
            == '-'
    &&& name.len() > 0 ==> name[0] != '-' && name.last() != '-'
    &&& forall|i: int, j: int|
        0 <= i && j == i + 1 && j < name.len() ==> !(#[trigger] name[i] == '-' && #[trigger] name[j]
            == '-')
}

proof fn lemma_hyphens(name: Seq<char>)
    ensures
        text::occurs(name, "--"@) <==> exists|i: int, j: int|
            0 <= i && j == i + 1 && j < name.len() && #[trigger] name[i] == '-'
                && #[trigger] name[j] == '-',
{
    reveal_strlit("--");
    if text::occurs(name, "--"@) {
        let i = choose|i: int| text::occurs_at(name, "--"@, i);
        let sub = name.subrange(i, i + 2);
        assert(sub[0] == name[i] && sub[1] == name[i + 1]);
    }
    if exists|i: int, j: int|
        0 <= i && j == i + 1 && j < name.len() && #[trigger] name[i] == '-' && #[trigger] name[j]
            == '-' {
        let (i, j) = choose|i: int, j: int|
            0 <= i && j == i + 1 && j < name.len() && #[trigger] name[i] == '-'
                && #[trigger] name[j] == '-';
        assert(name.subrange(i, i + 2) =~= "--"@);
        assert(text::occurs_at(name, "--"@, i));
    }
}

/// Nothing is wrong with a name exactly if it is good.
pub proof fn lemma_good_names_pass(name: Seq<char>, r: Vec<String>)
    requires
        text::texts(r@) == skills::name_errors(name),
    ensures
        r@.len() == 0 <==> is_good_name(name),
        r@.len() <= 4,
{
    lemma_hyphens(name);
    assert(text::texts(r@).len() == r@.len());
    let chars = skills::name_chars(name);
    assert(chars == forall|i: int|
        0 <= i < name.len() ==> 'a' <= #[trigger] name[i] <= 'z' || '0' <= name[i] <= '9' || name[i]
            == '-') by {
        if chars {
            assert forall|i: int| 0 <= i < name.len() implies 'a' <= #[trigger] name[i] <= 'z'
                || '0' <= name[i] <= '9' || name[i] == '-' by {
                assert(skills::name_char(name[i]));
            }
        } else {
            let i = choose|i: int| 0 <= i < name.len() && !skills::name_char(#[trigger] name[i]);
            assert(!('a' <= name[i] <= 'z' || '0' <= name[i] <= '9' || name[i] == '-'));
        }
    }
}

/// Nothing is wrong with a description exactly if it is not blank and has at most
/// 1024 characters.
pub proof fn lemma_good_descriptions_pass(d: Seq<char>, r: Vec<String>)
    requires
        text::texts(r@) == skills::description_errors(d),
    ensures
        r@.len() == 0 <==> text::trimmed(d).len() > 0 && d.len() <= 1024,
        r@.len() <= 1,
{
    assert(text::texts(r@).len() == r@.len());
}

/// Each character is escaped by itself: the text of two together is that of the one
/// and then that of the other. Only six characters are written otherwise.
pub proof fn lemma_characters_are_escaped_one_by_one(a: Seq<char>, b: Seq<char>, c: char)
    ensures
        skills::escaped(a + b) == skills::escaped(a) + skills::escaped(b),
        skills::escaped(seq!['&']) == "&amp;"@,
        skills::escaped(seq!['<']) == "&lt;"@,
        skills::escaped(seq!['>']) == "&gt;"@,
        skills::escaped(seq!['"']) == "&quot;"@,
        skills::escaped(seq!['\'']) == "&apos;"@,
        skills::escaped(seq!['\r']) == "&#13;"@,
        !"&<>\"'\r"@.contains(c) ==> skills::escaped(seq![c]) == seq![c],
    decreases b.len(),
{
    lemma_escaped_one('&');
    lemma_escaped_one('<');
    lemma_escaped_one('>');
    lemma_escaped_one('"');
    lemma_escaped_one('\'');
    lemma_escaped_one('\r');
    lemma_escaped_one(c);
    if !"&<>\"'\r"@.contains(c) {
        reveal_strlit("&<>\"'\r");
        let m = "&<>\"'\r"@;
        assert(m.contains(m[0]) && m.contains(m[1]) && m.contains(m[2]) && m.contains(m[3])
            && m.contains(m[4]) && m.contains(m[5]));
    }
    if b.len() == 0 {
        assert(a + b =~= a);
        assert(skills::escaped(b) =~= Seq::empty());
        assert(skills::escaped(a) + skills::escaped(b) =~= skills::escaped(a));
    } else {
        lemma_characters_are_escaped_one_by_one(a, b.drop_last(), c);
        assert((a + b).drop_last() =~= a + b.drop_last());
        assert(skills::escaped(a + b) =~= skills::escaped(a) + skills::escaped(b));
    }
}

proof fn lemma_escaped_one(c: char)
    ensures
        skills::escaped(seq![c]) == skills::escaped_char(c),
{
    let s = seq![c];
    assert(s.drop_last() =~= Seq::empty());
    assert(skills::escaped(Seq::empty()) =~= Seq::<char>::empty());
    assert(Seq::<char>::empty() + skills::escaped_char(c) =~= skills::escaped_char(c));
}

/// What stands between a first line of three hyphens and the next line that begins
/// with three is the front matter, and what comes after it is the text.
pub proof fn lemma_front_matter_is_read(yaml: Seq<char>, rest: Seq<char>)
    requires
        forall|i: int|
            0 <= i < yaml.len() ==> !#[trigger] text::occurs_at(
                yaml + "\n---"@ + rest,
                "\n---"@,
                i,
            ),
    ensures
        skills::front_matter("---"@ + yaml + "\n---"@ + rest) == Some((yaml, text::trimmed(rest))),
        skills::body_of("---"@ + yaml + "\n---"@ + rest) == text::trimmed(rest),
{
    reveal_strlit("---");
    reveal_strlit("\n---");
    let content = "---"@ + yaml + "\n---"@ + rest;
    let after = yaml + "\n---"@ + rest;
    assert(content.take(3) =~= "---"@);
    assert(content.skip(3) =~= after);
    assert(after.subrange(yaml.len() as int, yaml.len() as int + 4) =~= "\n---"@);
    assert(text::occurs_at(after, "\n---"@, yaml.len() as int));
    assert(text::first_occurrence(after, "\n---"@, yaml.len() as int));
    text::lemma_position(after, "\n---"@);
    assert(after.take(yaml.len() as int) =~= yaml);
    assert(after.skip(yaml.len() as int + 4) =~= rest);
}

/// A file that does not begin with three hyphens, or whose front matter does not end,
/// is all text.
pub proof fn lemma_file_without_front_matter_is_text(content: Seq<char>)
    requires
        !text::has_prefix(content, "---"@) || !text::occurs(content.skip(3), "\n---"@),
    ensures
        skills::front_matter(content) is None,
        skills::body_of(content) == text::trimmed(content),
{
    text::lemma_position(content.skip(3), "\n---"@);
}

/// A skill is as its front matter says: there is one exactly if it has a description
/// that is not blank. Without a name it is named after its directory.
pub proof fn lemma_skill_is_as_its_file_says(
    fm: SkillFrontMatter,
    dir: Seq<char>,
    dir_name: Seq<char>,
    r: Option<Skill>,
)
    requires
        views::opt_view(r) == skills::skill_of(SkillFile::Parsed(fm), dir, dir_name),
    ensures
        r is Some <==> fm.description is Some && text::trimmed(fm.description->0@).len() > 0,
        r is Some ==> {
            let s = r->0;
            &&& s.name@ == (match fm.name {
                Some(n) => n@,
                None => dir_name,
            })
            &&& s.description@ == fm.description->0@
            &&& s.tags@.len() == fm.tags@.len()
            &&& forall|i: int|
                0 <= i < s.tags@.len() ==> (#[trigger] s.tags@[i])@ == fm.tags@[i]@
            &&& s.category is Some <==> fm.category is Some
            &&& s.category is Some ==> s.category->0@ == fm.category->0@
            &&& s.path@ == dir
            &&& !s.global
            &&& s.disable_model_invocation <==> fm.disable_model_invocation == Some(true)
        },
{
    assert(text::trimmed(Seq::<char>::empty()).len() == 0) by {
        text::lemma_trimmed_len(Seq::<char>::empty());
    }
    if r is Some {
        let s = r->0;
        assert(s@.tags == text::texts(fm.tags@));
        assert(text::texts(s.tags@).len() == s.tags@.len());
        assert(text::texts(fm.tags@).len() == fm.tags@.len());
        assert forall|i: int| 0 <= i < s.tags@.len() implies (#[trigger] s.tags@[i])@
            == fm.tags@[i]@ by {
            assert(text::texts(s.tags@)[i] == text::texts(fm.tags@)[i]);
        }
    }
}

proof fn lemma_entries_concat(a: Seq<SkillView>, b: Seq<SkillView>)
    ensures
        skills::skill_entries(a + b) == skills::skill_entries(a) + skills::skill_entries(b),
    decreases b.len(),
{
    if b.len() == 0 {
        assert(a + b =~= a);
        assert(skills::skill_entries(a) + skills::skill_entries(b) =~= skills::skill_entries(a));
    } else {
        lemma_entries_concat(a, b.drop_last());
        assert((a + b).drop_last() =~= a + b.drop_last());
        assert(skills::skill_entries(a + b) =~= skills::skill_entries(a) + skills::skill_entries(
            b,
        ));
    }
}

proof fn lemma_entry(s: SkillView)
    ensures
        skills::skill_entries(seq![s]) == if s.disable_model_invocation {
            Seq::<char>::empty()
        } else {
            skills::skill_entry(s)
        },
{
    assert(seq![s].drop_last() =~= Seq::empty());
    assert(skills::skill_entries(Seq::empty()) =~= Seq::<char>::empty());
    assert(Seq::<char>::empty() + skills::skill_entry(s) =~= skills::skill_entry(s));
}

/// What the model is told of a skill: its name, its description, and where it is.
pub open spec fn told_of(s: Skill) -> Seq<char> {
    "<name>"@ + skills::escaped(s.name@) + "</name>\n    <description>"@ + skills::escaped(
        s.description@,
    ) + "</description>\n    <location>"@ + skills::escaped(s.path@) + "</location>"@
}

/// The model is told of each skill that it may invoke, in their order, and there is
/// nothing to tell exactly if it may invoke none.
pub proof fn lemma_skills_are_told_of(ss: Seq<Skill>, r: Option<String>, i: int, j: int)
    requires
        views::opt_view(r) == skills::section_of(views::views(ss)),
        0 <= i < j < ss.len(),
        !ss[i].disable_model_invocation,
        !ss[j].disable_model_invocation,
    ensures
        r is Some,
        exists|a: Seq<char>, b: Seq<char>, c: Seq<char>|
            r->0@ == #[trigger] (a + told_of(ss[i]) + b + told_of(ss[j]) + c),
{
    let vs = views::views(ss);
    assert(vs[i] == ss[i]@);
    assert(vs[j] == ss[j]@);
    assert(!vs[i].disable_model_invocation);
    assert(skills::any_visible(vs));
    let x = vs.take(i);
    let y = vs.subrange(i + 1, j);
    let z = vs.skip(j + 1);
    assert(vs =~= x + seq![vs[i]] + y + seq![vs[j]] + z);
    lemma_entries_concat(x + seq![vs[i]] + y + seq![vs[j]], z);
    lemma_entries_concat(x + seq![vs[i]] + y, seq![vs[j]]);
    lemma_entries_concat(x + seq![vs[i]], y);
    lemma_entries_concat(x, seq![vs[i]]);
    lemma_entry(vs[i]);
    lemma_entry(vs[j]);
    lemma_told_of(ss[i]);
    lemma_told_of(ss[j]);
    let head = skills::PREAMBLE_INTRO@ + "\n\n<available_skills>"@;
    let tail = "\n</available_skills>"@;
    let open = "\n  <skill>\n    "@;
    let close = "\n  </skill>"@;
    let a = head + skills::skill_entries(x) + open;
    let b = close + skills::skill_entries(y) + open;
    let c = close + skills::skill_entries(z) + tail;
    let (t, u) = (told_of(ss[i]), told_of(ss[j]));
    let (p, q, e) = (
        skills::skill_entries(x),
        skills::skill_entries(y),
        skills::skill_entries(z),
    );
    assert(r->0@ == head + (p + (open + t + close) + q + (open + u + close) + e) + tail);
    lemma_regrouped(head, p, open, t, close, q, u, e, tail);
}

proof fn lemma_regrouped(
    head: Seq<char>,
    p: Seq<char>,
    open: Seq<char>,
    t: Seq<char>,
    close: Seq<char>,
    q: Seq<char>,
    u: Seq<char>,
    e: Seq<char>,
    tail: Seq<char>,
)
    ensures
        head + (p + (open + t + close) + q + (open + u + close) + e) + tail == (head + p + open) + t
            + (close + q + open) + u + (close + e + tail),
{
    assert(head + (p + (open + t + close) + q + (open + u + close) + e) + tail =~= (head + p + open)
        + t + (close + q + open) + u + (close + e + tail));
}

proof fn lemma_told_of(s: Skill)
    ensures
        skills::skill_entry(s@) == "\n  <skill>\n    "@ + told_of(s) + "\n  </skill>"@,
{
    reveal_strlit("\n  <skill>\n    <name>");
    reveal_strlit("\n  <skill>\n    ");
    reveal_strlit("<name>");
    reveal_strlit("</location>\n  </skill>");
    reveal_strlit("</location>");
    reveal_strlit("\n  </skill>");
    assert("\n  <skill>\n    <name>"@ =~= "\n  <skill>\n    "@ + "<name>"@);
    assert("</location>\n  </skill>"@ =~= "</location>"@ + "\n  </skill>"@);
    assert(skills::skill_entry(s@) =~= "\n  <skill>\n    "@ + told_of(s) + "\n  </skill>"@);
}

/// The model is told of a single skill as of several.
pub proof fn lemma_skill_is_told_of(ss: Seq<Skill>, r: Option<String>, i: int)
    requires
        views::opt_view(r) == skills::section_of(views::views(ss)),
        0 <= i < ss.len(),
        !ss[i].disable_model_invocation,
    ensures
        r is Some,
        exists|a: Seq<char>, b: Seq<char>| r->0@ == #[trigger] (a + told_of(ss[i]) + b),
{
    let vs = views::views(ss);
    assert(vs[i] == ss[i]@);
    assert(!vs[i].disable_model_invocation);
    let x = vs.take(i);
    let z = vs.skip(i + 1);
    assert(vs =~= x + seq![vs[i]] + z);
    lemma_entries_concat(x + seq![vs[i]], z);
    lemma_entries_concat(x, seq![vs[i]]);
    lemma_entry(vs[i]);
    lemma_told_of(ss[i]);
    let a = skills::PREAMBLE_INTRO@ + "\n\n<available_skills>"@ + skills::skill_entries(x)
        + "\n  <skill>\n    "@;
    let b = "\n  </skill>"@ + skills::skill_entries(z) + "\n</available_skills>"@;
    assert(r->0@ =~= a + told_of(ss[i]) + b);
}

/// A skill that only the user may invoke makes no difference to what the model is
/// told.
pub proof fn lemma_hidden_skills_are_not_told_of(ss: Seq<Skill>, i: int)
    requires
        0 <= i < ss.len(),
        ss[i].disable_model_invocation,
    ensures
        skills::section_of(views::views(ss)) == skills::section_of(views::views(ss.remove(i))),
{
    let vs = views::views(ss);
    let ws = views::views(ss.remove(i));
    assert(vs[i] == ss[i]@);
    let x = vs.take(i);
    let z = vs.skip(i + 1);
    assert(vs =~= x + seq![vs[i]] + z);
    assert(ws =~= x + z);
    lemma_entries_concat(x + seq![vs[i]], z);
    lemma_entries_concat(x, seq![vs[i]]);
    lemma_entries_concat(x, z);
    lemma_entry(vs[i]);
    assert(skills::skill_entries(vs) =~= skills::skill_entries(ws));
    if skills::any_visible(vs) {
        let k = choose|k: int| 0 <= k < vs.len() && !(#[trigger] vs[k]).disable_model_invocation;
        if k < i {
            assert(ws[k] == vs[k]);
        } else {
            assert(ws[k - 1] == vs[k]);
        }
    }
    if skills::any_visible(ws) {
        let k = choose|k: int| 0 <= k < ws.len() && !(#[trigger] ws[k]).disable_model_invocation;
        if k < i {
            assert(ws[k] == vs[k]);
        } else {
            assert(ws[k] == vs[k + 1]);
        }
    }
}

/// Without a skill that the model may invoke it is told nothing.
pub proof fn lemma_nothing_is_told_without_skills(ss: Seq<Skill>)
    requires
        forall|i: int| 0 <= i < ss.len() ==> (#[trigger] ss[i]).disable_model_invocation,
    ensures
        skills::section_of(views::views(ss)) is None,
{
    let vs = views::views(ss);
    if skills::any_visible(vs) {
        let k = choose|k: int| 0 <= k < vs.len() && !(#[trigger] vs[k]).disable_model_invocation;
        assert(vs[k] == ss[k]@);
        assert(ss[k].disable_model_invocation);
    }
}

/// Whether a warning is the message on the file.
pub open spec fn warns(w: SkillWarning, path: Seq<char>, message: String) -> bool {
    w.path@ == path && w.message@ == message@
}

/// Taking in a skill leaves those before it alone. It comes last, unless one before
/// it has its name: that one stays, and the warnings end with one on the file. Each
/// message becomes a warning on the file.
pub proof fn lemma_first_skill_with_a_name_stays(
    before: Skills,
    after: Skills,
    path: Seq<char>,
    skill: Option<Skill>,
    messages: Seq<String>,
)
    requires
        (views::views(after.skills@), views::views(after.warnings@)) == skills::taken_in(
            views::views(before.skills@),
            views::views(before.warnings@),
            path,
            views::opt_view(skill),
            text::texts(messages),
        ),
    ensures
        before.skills@.len() <= after.skills@.len(),
        forall|i: int|
            0 <= i < before.skills@.len() ==> (#[trigger] after.skills@[i])@ == before.skills@[i]@,
        ({
            let known = skill is Some && exists|i: int|
                0 <= i < before.skills@.len() && (#[trigger] before.skills@[i]).name@
                    == skill->0.name@;
            let n = before.warnings@.len() + messages.len();
            &&& skill is Some && !known ==> after.skills@.len() == before.skills@.len() + 1
                && after.skills@.last()@ == skill->0@
            &&& skill is None || known ==> after.skills@.len() == before.skills@.len()
            &&& known ==> after.warnings@.len() == n + 1 && after.warnings@.last().path@ == path
            &&& !known ==> after.warnings@.len() == n
        }),
        forall|i: int|
            0 <= i < messages.len() ==> warns(
                after.warnings@[before.warnings@.len() + i],
                path,
                #[trigger] messages[i],
            ),
{
    let bs = views::views(before.skills@);
    let fs = views::views(after.skills@);
    let bw = views::views(before.warnings@);
    let fw = views::views(after.warnings@);
    assert(bs.len() == before.skills@.len() && fs.len() == after.skills@.len());
    assert(bw.len() == before.warnings@.len() && fw.len() == after.warnings@.len());
    let ms = skills::as_warnings(path, text::texts(messages));
    assert(ms.len() == messages.len());
    let known = skill is Some && exists|i: int|
        0 <= i < before.skills@.len() && (#[trigger] before.skills@[i]).name@ == skill->0.name@;
    if skill is Some {
        let name = skill->0.name@;
        if known {
            let i = choose|i: int|
                0 <= i < before.skills@.len() && (#[trigger] before.skills@[i]).name@
                    == skill->0.name@;
            assert(bs[i].name == name);
            assert(skills::has_name(bs, name));
        } else if skills::has_name(bs, name) {
            let i = choose|i: int| 0 <= i < bs.len() && (#[trigger] bs[i]).name == name;
            assert(before.skills@[i].name@ == name);
        }
    }
    assert forall|i: int| 0 <= i < before.skills@.len() implies (#[trigger] after.skills@[i])@
        == before.skills@[i]@ by {
        assert(fs[i] == bs[i]);
    }
    if skill is Some && !known {
        assert(fs[fs.len() - 1] == after.skills@[after.skills@.len() - 1]@);
    }
    if known {
        assert(fw[fw.len() - 1] == after.warnings@[after.warnings@.len() - 1]@);
    }
    assert forall|i: int| 0 <= i < messages.len() implies warns(
        after.warnings@[before.warnings@.len() + i],
        path,
        #[trigger] messages[i],
    ) by {
        let k = before.warnings@.len() + i;
        assert(fw[k] == after.warnings@[k]@);
        assert(fw[k] == ms[i]);
        assert(text::texts(messages)[i] == messages[i]@);
    }
}

/// The skills come in the order of their names, and none is lost or made up: each is
/// as it was, with its mark of standing outside the workspace.
pub proof fn lemma_skills_are_put_in_order(before: Seq<Skill>, outside: Seq<bool>, r: Seq<Skill>)
    requires
        views::views(r) == order::sorted::<Skill>(
            skills::located(views::views(before), outside),
        ),
    ensures
        r.len() == before.len(),
        forall|i: int, j: int|
            0 <= i < j < r.len() ==> !text_map::text_less(
                (#[trigger] r[j]).name@,
                (#[trigger] r[i]).name@,
            ),
        forall|k: int|
            0 <= k < before.len() ==> exists|i: int|
                0 <= i < r.len() && is_located(
                    #[trigger] r[i],
                    #[trigger] before[k],
                    k < outside.len() && outside[k],
                ),
        forall|i: int|
            0 <= i < r.len() ==> exists|k: int|
                0 <= k < before.len() && is_located(
                    #[trigger] r[i],
                    #[trigger] before[k],
                    k < outside.len() && outside[k],
                ),
{
    let ls = skills::located(views::views(before), outside);
    let s = order::sorted::<Skill>(ls);
    order::lemma_sorted::<Skill>(ls);
    assert(s.len() == r.len());
    assert forall|i: int, j: int| 0 <= i < j < r.len() implies !text_map::text_less(
        (#[trigger] r[j]).name@,
        (#[trigger] r[i]).name@,
    ) by {
        assert(s[i] == r[i]@ && s[j] == r[j]@);
        assert(!text_map::text_less(Skill::label(s[j]), Skill::label(s[i])));
    }
    assert forall|k: int| 0 <= k < before.len() implies exists|i: int|
        0 <= i < r.len() && is_located(
            #[trigger] r[i],
            #[trigger] before[k],
            k < outside.len() && outside[k],
        ) by {
        order::lemma_sorted_holds::<Skill>(ls, k);
        let i = choose|i: int| 0 <= i < s.len() && #[trigger] s[i] == ls[k];
        assert(s[i] == r[i]@);
        assert(views::views(before)[k] == before[k]@);
        assert(is_located(r[i], before[k], k < outside.len() && outside[k]));
    }
    assert forall|i: int| 0 <= i < r.len() implies exists|k: int|
        0 <= k < before.len() && is_located(
            #[trigger] r[i],
            #[trigger] before[k],
            k < outside.len() && outside[k],
        ) by {
        order::lemma_sorted_is_of::<Skill>(ls, i);
        let k = choose|k: int| 0 <= k < ls.len() && #[trigger] ls[k] == s[i];
        assert(s[i] == r[i]@);
        assert(views::views(before)[k] == before[k]@);
        assert(is_located(r[i], before[k], k < outside.len() && outside[k]));
    }
}

/// Whether a skill is the other with the mark.
pub open spec fn is_located(r: Skill, s: Skill, outside: bool) -> bool {
    &&& r.name@ == s.name@
    &&& r.description@ == s.description@
    &&& text::texts(r.tags@) == text::texts(s.tags@)
    &&& views::opt_view(r.category) == views::opt_view(s.category)
    &&& r.path@ == s.path@
    &&& r.global == outside
    &&& r.disable_model_invocation == s.disable_model_invocation
}

/// Whether the value stands at a place without a mark.
pub open spec fn is_unmarked<V>(s: Seq<V>, marks: Seq<bool>, v: V) -> bool {
    exists|k: int| 0 <= k < s.len() && !(k < marks.len() && marks[k]) && #[trigger] s[k] == v
}

/// What is left out is exactly what has its mark set.
pub proof fn lemma_marked_values_are_left_out<V>(s: Seq<V>, marks: Seq<bool>)
    ensures
        skills::unmarked(s, marks).len() <= s.len(),
        forall|k: int|
            0 <= k < s.len() && !(k < marks.len() && marks[k]) ==> skills::unmarked(
                s,
                marks,
            ).contains(#[trigger] s[k]),
        forall|i: int|
            0 <= i < skills::unmarked(s, marks).len() ==> is_unmarked(
                s,
                marks,
                #[trigger] skills::unmarked(s, marks)[i],
            ),
    decreases s.len(),
{
    if s.len() > 0 {
        let n = s.len() - 1;
        let d = s.drop_last();
        lemma_marked_values_are_left_out(d, marks);
        let before = skills::unmarked(d, marks);
        let after = skills::unmarked(s, marks);
        assert forall|k: int|
            0 <= k < s.len() && !(k < marks.len() && marks[k]) implies after.contains(
            #[trigger] s[k],
        ) by {
            if k < n {
                assert(d[k] == s[k]);
                assert(before.contains(d[k]));
                let i = choose|i: int| 0 <= i < before.len() && before[i] == d[k];
                assert(after[i] == s[k]);
            } else {
                assert(after[after.len() - 1] == s[k]);
            }
        }
        assert forall|i: int| 0 <= i < after.len() implies is_unmarked(
            s,
            marks,
            #[trigger] after[i],
        ) by {
            if i < before.len() {
                assert(after[i] == before[i]);
                assert(is_unmarked(d, marks, before[i]));
                let k = choose|k: int|
                    0 <= k < d.len() && !(k < marks.len() && marks[k]) && #[trigger] d[k]
                        == before[i];
                assert(s[k] == d[k]);
            } else {
                assert(s[n] == after[i]);
            }
        }
    }
}

/// Whether a directory is looked into: not one whose name begins with a dot, and not
/// one of installed packages.
pub open spec fn is_searched(e: DirEntry) -> bool {
    e.is_dir && !(e.name@.len() > 0 && e.name@[0] == '.') && e.name@ != "node_modules"@
}

proof fn lemma_entered(es: Seq<(Seq<char>, bool)>)
    ensures
        walk::entered(es).len() <= es.len(),
        forall|k: int|
            0 <= k < es.len() && es[k].1 && !skills::is_passed_over(es[k].0)
                ==> walk::entered(es).contains(#[trigger] es[k].0),
        forall|i: int|
            0 <= i < walk::entered(es).len() ==> comes_from(es, #[trigger] walk::entered(es)[i]),
        order_kept(es) ==> forall|i: int, j: int|
            0 <= i < j < walk::entered(es).len() ==> !text_map::text_less(
                #[trigger] walk::entered(es)[j],
                #[trigger] walk::entered(es)[i],
            ),
    decreases es.len(),
{
    if es.len() > 0 {
        let d = es.drop_last();
        lemma_entered(d);
        let before = walk::entered(d);
        let after = walk::entered(es);
        let last = es.last();
        assert(es[es.len() - 1] == last);
        assert forall|k: int|
            0 <= k < es.len() && es[k].1 && !skills::is_passed_over(es[k].0) implies after.contains(
            #[trigger] es[k].0,
        ) by {
            if k < d.len() {
                assert(d[k] == es[k]);
                assert(before.contains(d[k].0));
                let i = choose|i: int| 0 <= i < before.len() && before[i] == d[k].0;
                assert(after[i] == es[k].0);
            } else {
                assert(after[after.len() - 1] == es[k].0);
            }
        }
        assert forall|i: int| 0 <= i < after.len() implies comes_from(es, #[trigger] after[i]) by {
            if i < before.len() {
                assert(after[i] == before[i]);
                assert(comes_from(d, before[i]));
                let k = choose|k: int|
                    0 <= k < d.len() && (#[trigger] d[k]).0 == before[i] && d[k].1
                        && !skills::is_passed_over(d[k].0);
                assert(es[k] == d[k]);
            }
        }
        if order_kept(es) {
            assert(order_kept(d)) by {
                assert forall|i: int, j: int| 0 <= i < j < d.len() implies !text_map::text_less(
                    (#[trigger] d[j]).0,
                    (#[trigger] d[i]).0,
                ) by {
                    assert(d[i] == es[i] && d[j] == es[j]);
                }
            }
            assert forall|i: int, j: int| 0 <= i < j < after.len() implies !text_map::text_less(
                #[trigger] after[j],
                #[trigger] after[i],
            ) by {
                assert(after[i] == before[i]);
                if j < before.len() {
                    assert(after[j] == before[j]);
                } else {
                    assert(comes_from(d, before[i]));
                    let k = choose|k: int|
                        0 <= k < d.len() && (#[trigger] d[k]).0 == before[i] && d[k].1
                            && !skills::is_passed_over(d[k].0);
                    assert(es[k] == d[k]);
                    assert(!text_map::text_less(es[es.len() - 1].0, es[k].0));
                }
            }
        }
    }
}

spec fn comes_from(es: Seq<(Seq<char>, bool)>, name: Seq<char>) -> bool {
    exists|k: int|
        0 <= k < es.len() && (#[trigger] es[k]).0 == name && es[k].1 && !skills::is_passed_over(
            es[k].0,
        )
}

spec fn order_kept(es: Seq<(Seq<char>, bool)>) -> bool {
    forall|i: int, j: int|
        0 <= i < j < es.len() ==> !text_map::text_less((#[trigger] es[j]).0, (#[trigger] es[i]).0)
}

proof fn lemma_passed_over(e: DirEntry)
    ensures
        is_searched(e) <==> e.is_dir && !skills::is_passed_over(e.name@),
{
    reveal_strlit(".");
    if e.name@.len() > 0 {
        assert(e.name@.take(1)[0] == e.name@[0]);
        if e.name@[0] == '.' {
            assert(e.name@.take(1) =~= "."@);
        }
    }
}

/// Of the entries of a directory the searched ones are looked into, in the order of
/// their names, and no others.
pub proof fn lemma_directories_are_searched_in_order(entries: Seq<DirEntry>, r: Seq<String>)
    requires
        text::texts(r) == walk::entered(order::sorted::<DirEntry>(views::views(entries))),
    ensures
        forall|i: int, j: int|
            0 <= i < j < r.len() ==> !text_map::text_less((#[trigger] r[j])@, (#[trigger] r[i])@),
        forall|k: int|
            0 <= k < entries.len() && is_searched(#[trigger] entries[k]) ==> text::texts(
                r,
            ).contains(entries[k].name@),
        forall|i: int| 0 <= i < r.len() ==> is_name_of_one(entries, (#[trigger] r[i])@),
{
    let vs = views::views(entries);
    let es = order::sorted::<DirEntry>(vs);
    let names = walk::entered(es);
    order::lemma_sorted::<DirEntry>(vs);
    assert(order_kept(es)) by {
        assert forall|i: int, j: int| 0 <= i < j < es.len() implies !text_map::text_less(
            (#[trigger] es[j]).0,
            (#[trigger] es[i]).0,
        ) by {
            assert(!text_map::text_less(DirEntry::label(es[j]), DirEntry::label(es[i])));
        }
    }
    lemma_entered(es);
    assert(names.len() == r.len());
    assert forall|i: int, j: int| 0 <= i < j < r.len() implies !text_map::text_less(
        (#[trigger] r[j])@,
        (#[trigger] r[i])@,
    ) by {
        assert(names[i] == r[i]@ && names[j] == r[j]@);
    }
    assert forall|k: int| 0 <= k < entries.len() && is_searched(#[trigger] entries[k]) implies
        names.contains(entries[k].name@) by {
        lemma_passed_over(entries[k]);
        assert(vs[k] == entries[k]@);
        order::lemma_sorted_holds::<DirEntry>(vs, k);
        let i = choose|i: int| 0 <= i < es.len() && #[trigger] es[i] == vs[k];
        assert(names.contains(es[i].0));
    }
    assert forall|i: int| 0 <= i < r.len() implies is_name_of_one(entries, (#[trigger] r[i])@) by {
        assert(names[i] == r[i]@);
        assert(comes_from(es, names[i]));
        let k = choose|k: int|
            0 <= k < es.len() && (#[trigger] es[k]).0 == names[i] && es[k].1
                && !skills::is_passed_over(es[k].0);
        order::lemma_sorted_is_of::<DirEntry>(vs, k);
        let h = choose|h: int| 0 <= h < vs.len() && #[trigger] vs[h] == es[k];
        assert(vs[h] == entries[h]@);
        lemma_passed_over(entries[h]);
        assert(is_searched(entries[h]) && entries[h].name@ == r[i]@);
    }
}

/// Whether one of the entries that are looked into has the name.
pub open spec fn is_name_of_one(entries: Seq<DirEntry>, name: Seq<char>) -> bool {
    exists|k: int|
        0 <= k < entries.len() && is_searched(#[trigger] entries[k]) && entries[k].name@ == name
}

/// A place that is no directory, and one that was looked into before, changes
/// nothing. Otherwise it counts as looked into from then on.
pub proof fn lemma_directory_is_looked_into_once(
    before: SkillWalk,
    after: SkillWalk,
    dir: Seq<char>,
    facts: DirFacts,
)
    requires
        after@ == walk::walked(before@, dir, facts),
    ensures
        facts.canonical is None || text::texts(before.visited@).contains(facts.canonical->0@)
            ==> after@ == before@,
        facts.canonical is Some ==> text::texts(after.visited@).contains(facts.canonical->0@),
{
    if facts.canonical is Some {
        let at = facts.canonical->0@;
        let v = text::texts(before.visited@);
        if !v.contains(at) {
            assert(v.push(at)[v.len() as int] == at);
        }
    }
}

/// A directory without a skill file is gone down into: its directories are looked
/// into before all others that wait, and no skill is added.
pub proof fn lemma_search_goes_down_first(
    before: SkillWalk,
    after: SkillWalk,
    dir: Seq<char>,
    facts: DirFacts,
    names: Seq<String>,
)
    requires
        after@ == walk::walked(before@, dir, facts),
        facts.canonical is Some,
        !text::texts(before.visited@).contains(facts.canonical->0@),
        facts.found is None,
        text::texts(names) == walk::entered(
            order::sorted::<DirEntry>(views::views(facts.entries@)),
        ),
    ensures
        after.pending@.len() == names.len() + before.pending@.len(),
        forall|i: int|
            0 <= i < names.len() ==> (#[trigger] after.pending@[i])@ == paths::joined(
                dir,
                names[i]@,
            ),
        forall|i: int|
            0 <= i < before.pending@.len() ==> after.pending@[names.len() + i]@ == (
            #[trigger] before.pending@[i])@,
        views::views(after.skills.skills@) == views::views(before.skills.skills@),
        views::views(after.skills.warnings@) == views::views(before.skills.warnings@),
{
    let p = text::texts(after.pending@);
    let q = text::texts(before.pending@);
    assert(p.len() == after.pending@.len() && q.len() == before.pending@.len());
    assert(text::texts(names).len() == names.len());
    assert forall|i: int| 0 <= i < names.len() implies (#[trigger] after.pending@[i])@
        == paths::joined(dir, names[i]@) by {
        assert(p[i] == after.pending@[i]@);
        assert(text::texts(names)[i] == names[i]@);
    }
    assert forall|i: int| 0 <= i < before.pending@.len() implies after.pending@[names.len() + i]@
        == (#[trigger] before.pending@[i])@ by {
        assert(p[names.len() + i] == after.pending@[names.len() + i]@);
        assert(q[i] == before.pending@[i]@);
    }
}

/// The skill of a directory with a file that was not loaded before is taken in,
/// unless one with its name is known, and nothing more waits to be looked into.
pub proof fn lemma_found_skill_is_taken_in(
    before: SkillWalk,
    after: SkillWalk,
    dir: Seq<char>,
    facts: DirFacts,
    fm: SkillFrontMatter,
)
    requires
        after@ == walk::walked(before@, dir, facts),
        facts.canonical is Some,
        !text::texts(before.visited@).contains(facts.canonical->0@),
        facts.found is Some,
        facts.found->0.canonical is Some,
        !text::texts(before.loaded@).contains(facts.found->0.canonical->0@),
        facts.found->0.file == SkillFile::Parsed(fm),
        fm.name is Some,
        fm.description is Some,
        text::trimmed(fm.description->0@).len() > 0,
        forall|i: int|
            0 <= i < before.skills.skills@.len() ==> (#[trigger] before.skills.skills@[i]).name@
                != fm.name->0@,
    ensures
        after.skills.skills@.len() == before.skills.skills@.len() + 1,
        ({
            let s = after.skills.skills@.last();
            s.name@ == fm.name->0@ && s.description@ == fm.description->0@ && s.path@ == dir
        }),
        text::texts(after.loaded@).contains(facts.found->0.canonical->0@),
        text::texts(after.pending@) == text::texts(before.pending@),
{
    let bs = views::views(before.skills.skills@);
    let fs = views::views(after.skills.skills@);
    assert(bs.len() == before.skills.skills@.len() && fs.len() == after.skills.skills@.len());
    if skills::has_name(bs, fm.name->0@) {
        let i = choose|i: int| 0 <= i < bs.len() && (#[trigger] bs[i]).name == fm.name->0@;
        assert(before.skills.skills@[i].name@ == fm.name->0@);
    }
    assert(fs[fs.len() - 1] == after.skills.skills@[fs.len() - 1]@);
    let l = text::texts(before.loaded@);
    let at = facts.found->0.canonical->0@;
    assert(l.push(at)[l.len() as int] == at);
}

/// A file that was loaded before, under whatever path, is not loaded again.
pub proof fn lemma_file_is_loaded_once(
    before: SkillWalk,
    after: SkillWalk,
    dir: Seq<char>,
    facts: DirFacts,
)
    requires
        after@ == walk::walked(before@, dir, facts),
        facts.found is Some,
        facts.found->0.canonical is Some,
        text::texts(before.loaded@).contains(facts.found->0.canonical->0@),
    ensures
        views::views(after.skills.skills@) == views::views(before.skills.skills@),
        views::views(after.skills.warnings@) == views::views(before.skills.warnings@),
        text::texts(after.loaded@) == text::texts(before.loaded@),
{
}

/// The workspace is searched first, then the directory of the settings, then the one
/// in the home directory, then those that the configuration names, in their order.
pub proof fn lemma_workspace_is_searched_first(
    workspace: Seq<char>,
    home: Seq<char>,
    settings: Seq<char>,
    more: Seq<Seq<char>>,
)
    requires
        workspace.len() > 0 && workspace.last() != '/',
        home.len() > 0 && home.last() != '/',
        settings.len() > 0 && settings.last() != '/',
    ensures
        ({
            let dirs = walk::searched(workspace, Some(home), Some(settings), more);
            &&& dirs.len() == 3 + more.len()
            &&& dirs[0] == workspace + "/.agents/skills"@
            &&& dirs[1] == settings + "/skills"@
            &&& dirs[2] == home + "/.agents/skills"@
            &&& dirs.skip(3) == more
        }),
        walk::searched(workspace, None, None, more) == seq![workspace + "/.agents/skills"@] + more,
{
    lemma_below(workspace);
    lemma_below(home);
    lemma_below(settings);
    let dirs = walk::searched(workspace, Some(home), Some(settings), more);
    assert(dirs.skip(3) =~= more);
    assert(walk::searched(workspace, None, None, more) =~= seq![workspace + "/.agents/skills"@]
        + more);
}

proof fn lemma_below(dir: Seq<char>)
    requires
        dir.len() > 0,
        dir.last() != '/',
    ensures
        paths::joined(dir, "skills"@) == dir + "/skills"@,
        paths::joined(paths::joined(dir, ".agents"@), "skills"@) == dir + "/.agents/skills"@,
{
    reveal_strlit("/");
    reveal_strlit("skills");
    reveal_strlit("/skills");
    reveal_strlit(".agents");
    reveal_strlit("/.agents/skills");
    assert(dir.skip(dir.len() - 1)[0] == dir.last());
    assert(paths::joined(dir, "skills"@) =~= dir + "/skills"@);
    let d = paths::joined(dir, ".agents"@);
    assert(d =~= dir + "/"@ + ".agents"@);
    assert(d.last() == 's');
    assert(d.skip(d.len() - 1)[0] == d.last());
    assert(paths::joined(d, "skills"@) =~= dir + "/.agents/skills"@);
}

}
