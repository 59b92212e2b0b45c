//! What holds of all custom commands.

use crate::custom_commands;
use crate::custom_commands::{CommandFile, CommandFrontMatter, CustomCommand};
use crate::order;
use crate::order::Named;
use crate::skills;
use crate::text;
use crate::text_map;
use crate::views;
use vstd::prelude::*;

verus! {

/// What stands before the first slash is the provider and what stands after it is the
/// model, which may hold more slashes. White space around either does not count.
pub proof fn lemma_model_follows_the_first_slash(kind: Seq<char>, model: Seq<char>)
    requires
        !kind.contains('/'),
    ensures
        ({
            let r = custom_commands::model_spec(kind + "/"@ + model);
            let (k, m) = (text::trimmed(kind), text::trimmed(model));
            &&& k.len() > 0 && m.len() > 0 ==> r == Some((k, m))
            &&& k.len() == 0 || m.len() == 0 ==> r is None
        }),
        custom_commands::model_spec(kind) is None,
{
    reveal_strlit("/");
    let s = kind + "/"@ + model;
    let n = kind.len() as int;
    assert(s.subrange(n, n + 1) =~= "/"@);
    assert(text::occurs_at(s, "/"@, n));
    assert forall|k: int| 0 <= k < n implies !text::occurs_at(s, "/"@, k) by {
        if text::occurs_at(s, "/"@, k) {
            assert(s.subrange(k, k + 1)[0] == s[k]);
            assert(kind.contains(kind[k]));
        }
    }
    assert(text::first_occurrence(s, "/"@, n));
    text::lemma_position(s, "/"@);
    assert(s.take(n) =~= kind);
    assert(s.skip(n + 1) =~= model);
    text::lemma_position(kind, "/"@);
    if text::occurs(kind, "/"@) {
        let k = choose|k: int| text::occurs_at(kind, "/"@, k);
        assert(kind.subrange(k, k + 1)[0] == kind[k]);
        assert(kind.contains(kind[k]));
    }
}

proof fn lemma_without_place(body: Seq<char>, by: Seq<char>)
    requires
        !text::occurs(body, "{{arguments}}"@),
    ensures
        text::replaced(body, "{{arguments}}"@, by) == body,
{
    text::lemma_position(body, "{{arguments}}"@);
}

/// A command that names no place for its arguments has them after its text, with a
/// blank line between. Without arguments it is its text.
pub proof fn lemma_arguments_come_last(body: Seq<char>, args: Seq<char>)
    requires
        !text::occurs(body, "{{arguments}}"@),
    ensures
        custom_commands::invocation(body, Some(args)) == body + "\n\n"@ + args,
        custom_commands::invocation(body, None) == body,
{
    lemma_without_place(body, Seq::empty());
}

/// The arguments stand in the first place that a command names, and in every later
/// one. Without arguments nothing stands there.
pub proof fn lemma_arguments_stand_in_their_places(
    before: Seq<char>,
    after: Seq<char>,
    args: Seq<char>,
)
    requires
        forall|i: int|
            0 <= i < before.len() ==> !#[trigger] text::occurs_at(
                before + "{{arguments}}"@ + after,
                "{{arguments}}"@,
                i,
            ),
    ensures
        ({
            let body = before + "{{arguments}}"@ + after;
            let more = text::occurs(after, "{{arguments}}"@);
            &&& custom_commands::invocation(body, Some(args)) == before + args + (if more {
                custom_commands::invocation(after, Some(args))
            } else {
                after
            })
            &&& custom_commands::invocation(body, None) == before + custom_commands::invocation(
                after,
                None,
            )
        }),
{
    let p = "{{arguments}}"@;
    reveal_strlit("{{arguments}}");
    let body = before + p + after;
    let n = before.len() as int;
    assert(body.subrange(n, n + p.len()) =~= p);
    assert(text::occurs_at(body, p, n));
    assert(text::first_occurrence(body, p, n));
    text::lemma_position(body, p);
    assert(body.take(n) =~= before);
    assert(body.skip(n + p.len()) =~= after);
    if !text::occurs(after, p) {
        lemma_without_place(after, args);
    }
    assert(before + Seq::<char>::empty() =~= before);
}

/// A command is as its front matter says. It is named after its directory, and so is
/// its title where none is stated; blank values count as none.
pub proof fn lemma_command_is_as_its_file_says(
    fm: CommandFrontMatter,
    dir: Seq<char>,
    name: Seq<char>,
    r: Option<CustomCommand>,
)
    requires
        views::opt_view(r) == custom_commands::command_of(
            CommandFile::Parsed(Some(fm)),
            dir,
            name,
        ),
    ensures
        r is Some,
        r->0.name@ == name,
        r->0.path@ == dir,
        ({
            let stated = fm.title is Some && text::trimmed(fm.title->0@).len() > 0;
            &&& stated ==> r->0.title@ == text::trimmed(fm.title->0@)
            &&& !stated ==> r->0.title@ == name
        }),
        ({
            let stated = fm.model is Some && text::trimmed(fm.model->0@).len() > 0;
            &&& stated <==> r->0.model is Some
            &&& stated ==> r->0.model->0@ == text::trimmed(fm.model->0@)
        }),
{
}

/// A file without front matter is a command too; one that cannot be read is none.
pub proof fn lemma_plain_file_is_a_command(
    dir: Seq<char>,
    name: Seq<char>,
    r: Option<CustomCommand>,
)
    requires
        views::opt_view(r) == custom_commands::command_of(CommandFile::Parsed(None), dir, name),
    ensures
        r is Some,
        r->0.name@ == name && r->0.title@ == name && r->0.path@ == dir && r->0.model is None,
        custom_commands::command_of(CommandFile::Unreadable, dir, name) is None,
        custom_commands::command_of(CommandFile::Unparsable, dir, name) is None,
{
}

/// The commands come in the order of their names, and none is lost or made up.
pub proof fn lemma_commands_are_put_in_order(before: Seq<CustomCommand>, r: Seq<CustomCommand>)
    requires
        views::views(r) == order::sorted::<CustomCommand>(views::views(before)),
    ensures
        r.len() == before.len(),
        forall|i: int, j: int|
            0 <= i < j < r.len() ==> !text_map::text_less(
                (#[trigger] r[j]).name@,
                (#[trigger] r[i]).name@,
            ),
        forall|k: int|
            0 <= k < before.len() ==> exists|i: int|
                0 <= i < r.len() && (#[trigger] r[i])@ == (#[trigger] before[k])@,
{
    let vs = views::views(before);
    let s = order::sorted::<CustomCommand>(vs);
    order::lemma_sorted::<CustomCommand>(vs);
    assert(s.len() == r.len());
    assert forall|i: int, j: int| 0 <= i < j < r.len() implies !text_map::text_less(
        (#[trigger] r[j]).name@,
        (#[trigger] r[i]).name@,
    ) by {
        assert(s[i] == r[i]@ && s[j] == r[j]@);
        assert(!text_map::text_less(CustomCommand::label(s[j]), CustomCommand::label(s[i])));
    }
    assert forall|k: int| 0 <= k < before.len() implies exists|i: int|
        0 <= i < r.len() && (#[trigger] r[i])@ == (#[trigger] before[k])@ by {
        order::lemma_sorted_holds::<CustomCommand>(vs, k);
        let i = choose|i: int| 0 <= i < s.len() && #[trigger] s[i] == vs[k];
        assert(s[i] == r[i]@);
        assert(vs[k] == before[k]@);
    }
}

/// A model that a command states is complained of exactly if it does not name both a
/// provider and a model. The name of the command is judged like that of a skill.
pub proof fn lemma_bad_model_is_told_of(
    fm: CommandFrontMatter,
    name: Seq<char>,
    r: Seq<String>,
    errors: Seq<String>,
)
    requires
        text::texts(r) == custom_commands::command_messages(CommandFile::Parsed(Some(fm)), name),
        text::texts(errors) == skills::name_errors(name),
    ensures
        ({
            let stated = fm.model is Some && text::trimmed(fm.model->0@).len() > 0;
            let bad = stated && custom_commands::model_spec(text::trimmed(fm.model->0@)) is None;
            r.len() == errors.len() + if bad {
                1int
            } else {
                0
            }
        }),
        forall|i: int| 0 <= i < errors.len() ==> (#[trigger] r[i])@ == errors[i]@,
{
    let a = text::texts(r);
    let b = text::texts(errors);
    assert(a.len() == r.len() && b.len() == errors.len());
    assert forall|i: int| 0 <= i < errors.len() implies (#[trigger] r[i])@ == errors[i]@ by {
        assert(a[i] == b[i]);
    }
}

}
