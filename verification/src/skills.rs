//! Skills: loading them, and telling the model of them.

use crate::order;
use crate::order::{sort, Named};
use crate::paths;
use crate::paths::join;
use crate::text;
use crate::text::{
    chars_of, contains, decimal_of, same, split_once, starts_with, strip_prefix, trim,
};
use crate::views;
use vstd::prelude::*;

pub mod walk;

verus! {

pub const MAX_NAME_LENGTH: usize = 64;

pub const MAX_DESCRIPTION_LENGTH: usize = 1_024;

/// A skill: a directory with instructions for a task. `global` marks one
/// outside the workspace.
#[derive(Debug, Clone)]
pub struct Skill {
    pub name: String,
    pub description: String,
    pub tags: Vec<String>,
    pub category: Option<String>,
    pub path: String,
    pub global: bool,
    pub disable_model_invocation: bool,
}

/// The content of a [`Skill`].
#[verifier::ext_equal]
pub struct SkillView {
    pub name: Seq<char>,
    pub description: Seq<char>,
    pub tags: Seq<Seq<char>>,
    pub category: Option<Seq<char>>,
    pub path: Seq<char>,
    pub global: bool,
    pub disable_model_invocation: bool,
}

impl View for Skill {
    type V = SkillView;

    open spec fn view(&self) -> SkillView {
        SkillView {
            name: self.name@,
            description: self.description@,
            tags: text::texts(self.tags@),
            category: views::opt_view(self.category),
            path: self.path@,
            global: self.global,
            disable_model_invocation: self.disable_model_invocation,
        }
    }
}

/// What is wrong with a file of a skill.
#[derive(Debug, Clone)]
pub struct SkillWarning {
    pub path: String,
    pub message: String,
}

impl View for SkillWarning {
    type V = (Seq<char>, Seq<char>);

    open spec fn view(&self) -> (Seq<char>, Seq<char>) {
        (self.path@, self.message@)
    }
}

/// The skills that were loaded, and what was wrong with some.
#[derive(Debug, Clone, Default)]
pub struct Skills {
    pub skills: Vec<Skill>,
    pub warnings: Vec<SkillWarning>,
}

/// Whether a character may stand in a name: lowercase letters, digits and hyphens.
pub open spec fn name_char(c: char) -> bool {
    'a' <= c <= 'z' || '0' <= c <= '9' || c == '-'
}

/// Whether every character may stand in a name.
pub open spec fn name_chars(s: Seq<char>) -> bool {
    forall|i: int| 0 <= i < s.len() ==> name_char(#[trigger] s[i])
}

/// A message, where it applies.
pub open spec fn when(applies: bool, message: Seq<char>) -> Seq<Seq<char>> {
    if applies {
        seq![message]
    } else {
        Seq::empty()
    }
}

/// What is wrong with a name.
pub open spec fn name_errors(name: Seq<char>) -> Seq<Seq<char>> {
    when(
        name.len() > MAX_NAME_LENGTH,
        "name exceeds 64 characters ("@ + text::decimal(name.len()) + ")"@,
    ) + when(
        !name_chars(name),
        "name contains invalid characters (lowercase a-z, 0-9, hyphens only)"@,
    ) + when(
        name.len() > 0 && (name[0] == '-' || name.last() == '-'),
        "name must not start or end with a hyphen"@,
    ) + when(text::occurs(name, "--"@), "name must not contain consecutive hyphens"@)
}

/// What is wrong with a description.
pub open spec fn description_errors(d: Seq<char>) -> Seq<Seq<char>> {
    if text::trimmed(d).len() == 0 {
        seq!["description is required"@]
    } else {
        when(
            d.len() > MAX_DESCRIPTION_LENGTH,
            "description exceeds 1024 characters ("@ + text::decimal(d.len()) + ")"@,
        )
    }
}

fn push_when(out: &mut Vec<String>, applies: bool, message: String)
    ensures
        text::texts(final(out)@) == text::texts(old(out)@) + when(applies, message@),
{
    let ghost before = text::texts(out@);
    if applies {
        out.push(message);
    }
    proof {
        assert(text::texts(out@) =~= before + when(applies, message@));
    }
}

/// A message that ends with a number in brackets.
fn counted(start: &str, n: usize) -> (r: String)
    ensures
        r@ == start@ + text::decimal(n as nat) + ")"@,
{
    let mut s: String = start.to_owned();
    s.append(decimal_of(n as u64).as_str());
    s.append(")");
    s
}

/// What is wrong with a name.
pub fn validate_name(name: &str) -> (r: Vec<String>)
    ensures
        text::texts(r@) == name_errors(name@),
{
    let cs = chars_of(name);
    let n: usize = cs.len();
    let mut valid = true;
    let mut i: usize = 0;
    while i < n
        invariant
            cs@ == name@,
            n == cs.len(),
            i <= n,
            valid == forall|k: int| 0 <= k < i ==> name_char(#[trigger] name@[k]),
        decreases n - i,
    {
        let c = cs[i];
        let ok = ('a' <= c && c <= 'z') || ('0' <= c && c <= '9') || c == '-';
        proof {
            assert(name@[i as int] == c);
        }
        valid = valid && ok;
        i += 1;
    }
    let mut out: Vec<String> = Vec::new();
    proof {
        assert(text::texts(out@) =~= Seq::empty());
    }
    push_when(&mut out, n > MAX_NAME_LENGTH, counted("name exceeds 64 characters (", n));
    push_when(
        &mut out,
        !valid,
        "name contains invalid characters (lowercase a-z, 0-9, hyphens only)".to_owned(),
    );
    push_when(
        &mut out,
        n > 0 && (cs[0] == '-' || cs[n - 1] == '-'),
        "name must not start or end with a hyphen".to_owned(),
    );
    push_when(
        &mut out,
        contains(name, "--"),
        "name must not contain consecutive hyphens".to_owned(),
    );
    proof {
        assert(text::texts(out@) =~= name_errors(name@));
    }
    out
}

/// What is wrong with a description.
pub fn validate_description(description: &str) -> (r: Vec<String>)
    ensures
        text::texts(r@) == description_errors(description@),
{
    let mut out: Vec<String> = Vec::new();
    let n: usize = description.unicode_len();
    proof {
        assert(text::texts(out@) =~= Seq::empty());
    }
    if trim(description).is_empty() {
        out.push("description is required".to_owned());
    } else {
        push_when(
            &mut out,
            n > MAX_DESCRIPTION_LENGTH,
            counted("description exceeds 1024 characters (", n),
        );
    }
    proof {
        assert(text::texts(out@) =~= description_errors(description@));
    }
    out
}

/// A character as it stands in XML.
pub open spec fn escaped_char(c: char) -> Seq<char> {
    if c == '&' {
        "&amp;"@
    } else if c == '<' {
        "&lt;"@
    } else if c == '>' {
        "&gt;"@
    } else if c == '"' {
        "&quot;"@
    } else if c == '\'' {
        "&apos;"@
    } else if c == '\r' {
        "&#13;"@
    } else {
        seq![c]
    }
}

/// A text as it stands in XML.
pub open spec fn escaped(s: Seq<char>) -> Seq<char>
    decreases s.len(),
{
    if s.len() == 0 {
        s
    } else {
        escaped(s.drop_last()) + escaped_char(s.last())
    }
}

/// A text as it stands in XML.
pub fn escape_xml(s: &str) -> (r: String)
    ensures
        r@ == escaped(s@),
{
    let cs = chars_of(s);
    let mut out: String = String::new();
    let mut i: usize = 0;
    while i < cs.len()
        invariant
            cs@ == s@,
            i <= cs.len(),
            out@ =~= escaped(s@.take(i as int)),
        decreases cs.len() - i,
    {
        proof {
            assert(s@.take(i + 1).drop_last() =~= s@.take(i as int));
        }
        let c = cs[i];
        if c == '&' {
            out.append("&amp;");
        } else if c == '<' {
            out.append("&lt;");
        } else if c == '>' {
            out.append("&gt;");
        } else if c == '"' {
            out.append("&quot;");
        } else if c == '\'' {
            out.append("&apos;");
        } else if c == '\r' {
            out.append("&#13;");
        } else {
            out.push(c);
        }
        i += 1;
    }
    proof {
        assert(s@.take(i as int) =~= s@);
    }
    out
}

/// What is escaped holds none of the characters that mean something in XML,
/// but for the ampersand of an escape.
pub proof fn lemma_escaped_is_safe(s: Seq<char>)
    ensures
        forall|i: int|
            0 <= i < escaped(s).len() ==> {
                let c = #[trigger] escaped(s)[i];
                c != '<' && c != '>' && c != '"' && c != '\'' && c != '\r'
            },
    decreases s.len(),
{
    reveal_strlit("&amp;");
    reveal_strlit("&lt;");
    reveal_strlit("&gt;");
    reveal_strlit("&quot;");
    reveal_strlit("&apos;");
    reveal_strlit("&#13;");
    if s.len() > 0 {
        lemma_escaped_is_safe(s.drop_last());
        let head = escaped(s.drop_last());
        let tail = escaped_char(s.last());
        assert forall|i: int| 0 <= i < escaped(s).len() implies {
            let c = #[trigger] escaped(s)[i];
            c != '<' && c != '>' && c != '"' && c != '\'' && c != '\r'
        } by {
            if i < head.len() {
                assert(escaped(s)[i] == head[i]);
            } else {
                assert(escaped(s)[i] == tail[i - head.len()]);
            }
        }
    }
}

/// The front matter of a file and the text after it, if it has one.
pub open spec fn front_matter(content: Seq<char>) -> Option<(Seq<char>, Seq<char>)> {
    if text::has_prefix(content, "---"@) {
        let rest = content.skip(3);
        match text::position(rest, "\n---"@) {
            Some(i) => Some((rest.take(i), text::trimmed(rest.skip(i + 4)))),
            None => None,
        }
    } else {
        None
    }
}

/// The text of a file without its front matter.
pub open spec fn body_of(content: Seq<char>) -> Seq<char> {
    match front_matter(content) {
        Some((_, body)) => body,
        None => text::trimmed(content),
    }
}

/// Splits a file into its front matter and the text after it.
pub fn front_matter_split(content: &str) -> (r: Option<(&str, &str)>)
    ensures
        match front_matter(content@) {
            Some((yaml, body)) => r matches Some((y, b)) && y@ == yaml && b@ == body,
            None => r is None,
        },
{
    proof {
        reveal_strlit("---");
        reveal_strlit("\n---");
    }
    let rest = match strip_prefix(content, "---") {
        Some(rest) => rest,
        None => return None,
    };
    match split_once(rest, "\n---") {
        Some((yaml, body)) => Some((yaml, trim(body))),
        None => None,
    }
}

/// The text of a skill's file without its front matter.
pub fn skill_body(content: &str) -> (r: &str)
    ensures
        r@ == body_of(content@),
{
    match front_matter_split(content) {
        Some((_, body)) => body,
        None => trim(content),
    }
}

/// What the front matter of a skill says.
#[derive(Debug, Default)]
pub struct SkillFrontMatter {
    pub name: Option<String>,
    pub description: Option<String>,
    pub category: Option<String>,
    pub tags: Vec<String>,
    pub disable_model_invocation: Option<bool>,
}

/// What came of reading a skill's file.
#[derive(Debug)]
pub enum SkillFile {
    Unreadable,
    Unparsable,
    Parsed(SkillFrontMatter),
}

/// The name of a skill: the one it states, else that of its directory.
pub open spec fn skill_name(fm: SkillFrontMatter, dir_name: Seq<char>) -> Seq<char> {
    match fm.name {
        Some(n) => n@,
        None => dir_name,
    }
}

/// The description of a skill.
pub open spec fn skill_description(fm: SkillFrontMatter) -> Seq<char> {
    match fm.description {
        Some(d) => d@,
        None => Seq::empty(),
    }
}

/// The skill of a file, unless it cannot be read or has no description.
pub open spec fn skill_of(
    file: SkillFile,
    dir: Seq<char>,
    dir_name: Seq<char>,
) -> Option<SkillView> {
    match file {
        SkillFile::Parsed(fm) => if text::trimmed(skill_description(fm)).len() == 0 {
            None
        } else {
            Some(
                SkillView {
                    name: skill_name(fm, dir_name),
                    description: skill_description(fm),
                    tags: text::texts(fm.tags@),
                    category: views::opt_view(fm.category),
                    path: dir,
                    global: false,
                    disable_model_invocation: fm.disable_model_invocation == Some(true),
                },
            )
        },
        _ => None,
    }
}

/// What is wrong with a skill's file.
pub open spec fn skill_messages(file: SkillFile, dir_name: Seq<char>) -> Seq<Seq<char>> {
    match file {
        SkillFile::Unreadable => seq!["failed to read SKILL.md"@],
        SkillFile::Unparsable => seq!["failed to parse SKILL.md frontmatter"@],
        SkillFile::Parsed(fm) => name_errors(skill_name(fm, dir_name)) + description_errors(
            skill_description(fm),
        ),
    }
}

fn join_lists(a: Vec<String>, b: Vec<String>) -> (r: Vec<String>)
    ensures
        text::texts(r@) == text::texts(a@) + text::texts(b@),
{
    let mut out = a;
    let mut more = b;
    let ghost x = text::texts(out@);
    let ghost y = text::texts(more@);
    out.append(&mut more);
    proof {
        assert(text::texts(out@) =~= x + y);
    }
    out
}

impl Skill {
    /// The skill of a directory, given what came of reading its file, and
    /// what is wrong with it.
    pub fn from_dir(dir: &str, dir_name: &str, file: SkillFile) -> (r: (Option<Skill>, Vec<String>))
        ensures
            views::opt_view(r.0) == skill_of(file, dir@, dir_name@),
            text::texts(r.1@) == skill_messages(file, dir_name@),
    {
        let mut messages: Vec<String> = Vec::new();
        match file {
            SkillFile::Unreadable => {
                messages.push("failed to read SKILL.md".to_owned());
                proof {
                    assert(text::texts(messages@) =~= seq!["failed to read SKILL.md"@]);
                }
                (None, messages)
            },
            SkillFile::Unparsable => {
                messages.push("failed to parse SKILL.md frontmatter".to_owned());
                proof {
                    assert(text::texts(messages@) =~= seq![
                        "failed to parse SKILL.md frontmatter"@,
                    ]);
                }
                (None, messages)
            },
            SkillFile::Parsed(fm) => {
                let name = match fm.name {
                    Some(n) => n,
                    None => dir_name.to_owned(),
                };
                let description = match fm.description {
                    Some(d) => d,
                    None => String::new(),
                };
                proof {
                    assert(description@ =~= skill_description(fm));
                }
                let messages = join_lists(
                    validate_name(name.as_str()),
                    validate_description(description.as_str()),
                );
                if trim(description.as_str()).is_empty() {
                    return (None, messages);
                }
                let hidden = match fm.disable_model_invocation {
                    Some(b) => b,
                    None => false,
                };
                let skill = Skill {
                    name,
                    description,
                    tags: fm.tags,
                    category: fm.category,
                    path: dir.to_owned(),
                    global: false,
                    disable_model_invocation: hidden,
                };
                (Some(skill), messages)
            },
        }
    }

    /// The prompt that invokes the skill: the text of its file in a block that
    /// tells where its files are, and the arguments after it.
    pub fn invocation_content(&self, content: &str, file: &str, args: Option<&str>) -> (r: String)
        ensures
            r@ == "<skill name=\""@ + self.name@ + "\" location=\""@ + file@
                + "\">\nReferences are relative to "@ + self.path@ + ".\n\n"@ + body_of(content@)
                + "\n</skill>"@ + (match args {
                Some(a) => "\n\n"@ + a@,
                None => Seq::empty(),
            }),
    {
        let mut s: String = "<skill name=\"".to_owned();
        s.append(self.name.as_str());
        s.append("\" location=\"");
        s.append(file);
        s.append("\">\nReferences are relative to ");
        s.append(self.path.as_str());
        s.append(".\n\n");
        s.append(skill_body(content));
        s.append("\n</skill>");
        let ghost block = s@;
        if let Some(a) = args {
            s.append("\n\n");
            s.append(a);
            proof {
                assert(s@ =~= block + ("\n\n"@ + a@));
            }
        } else {
            proof {
                assert(s@ =~= block + Seq::<char>::empty());
            }
        }
        s
    }
}

/// The entry of a skill in the preamble.
pub open spec fn skill_entry(s: SkillView) -> Seq<char> {
    "\n  <skill>\n    <name>"@ + escaped(s.name) + "</name>\n    <description>"@ + escaped(
        s.description,
    ) + "</description>\n    <location>"@ + escaped(s.path) + "</location>\n  </skill>"@
}

/// The entries of the skills that the model may invoke.
pub open spec fn skill_entries(ss: Seq<SkillView>) -> Seq<char>
    decreases ss.len(),
{
    if ss.len() == 0 {
        Seq::empty()
    } else if ss.last().disable_model_invocation {
        skill_entries(ss.drop_last())
    } else {
        skill_entries(ss.drop_last()) + skill_entry(ss.last())
    }
}

/// Whether the model may invoke any of the skills.
pub open spec fn any_visible(ss: Seq<SkillView>) -> bool {
    exists|i: int| 0 <= i < ss.len() && !(#[trigger] ss[i]).disable_model_invocation
}

pub const PREAMBLE_INTRO: &'static str =
    "The following skills provide specialized instructions for specific tasks. When a task matches a skill's description, load that skill with the `skill` tool (passing the skill name) before starting work, then follow its instructions. A skill's SKILL.md may reference further files relative to its directory — load those with the `skill` tool's `path` argument, and when another tool needs a path from a skill reference, resolve it against the skill directory (the parent of SKILL.md).";

impl Named for Skill {
    open spec fn label(v: SkillView) -> Seq<char> {
        v.name
    }

    fn name(&self) -> (r: &str) {
        self.name.as_str()
    }
}

/// Whether a directory with the name is left out of the search.
pub open spec fn is_passed_over(name: Seq<char>) -> bool {
    text::has_prefix(name, "."@) || name == "node_modules"@
}

/// Whether a directory with the name is left out of the search.
pub fn passed_over(name: &str) -> (b: bool)
    ensures
        b == is_passed_over(name@),
{
    starts_with(name, ".") || same(name, "node_modules")
}

/// The values whose mark is not set. A value without a mark stays.
pub open spec fn unmarked<V>(s: Seq<V>, marks: Seq<bool>) -> Seq<V>
    decreases s.len(),
{
    if s.len() == 0 {
        s
    } else {
        let n = s.len() - 1;
        let before = unmarked(s.drop_last(), marks);
        if n < marks.len() && marks[n] {
            before
        } else {
            before.push(s.last())
        }
    }
}

/// The values whose mark is not set.
pub fn leave_out<T: View>(values: Vec<T>, marks: &Vec<bool>) -> (r: Vec<T>)
    ensures
        views::views(r@) == unmarked(views::views(values@), marks@),
{
    let ghost all = views::views(values@);
    let n: usize = values.len();
    let mut rest = values;
    let mut out: Vec<T> = Vec::new();
    let mut i: usize = 0;
    proof {
        assert(views::views(out@) =~= all.take(0));
        assert(views::views(rest@) =~= all.skip(0));
    }
    while i < n
        invariant
            i <= n,
            n == all.len(),
            rest@.len() == n - i,
            views::views(rest@) =~= all.skip(i as int),
            views::views(out@) =~= unmarked(all.take(i as int), marks@),
        decreases n - i,
    {
        let ghost before = rest@;
        let ghost kept = out@;
        let x = rest.remove(0);
        proof {
            assert(views::views(before)[0] == all[i as int]);
            assert(all.take(i + 1).drop_last() =~= all.take(i as int));
            assert forall|k: int| 0 <= k < rest@.len() implies views::views(rest@)[k] == all.skip(
                i + 1,
            )[k] by {
                assert(views::views(before)[k + 1] == all.skip(i as int)[k + 1]);
            }
        }
        let leave = i < marks.len() && marks[i];
        if !leave {
            out.push(x);
            proof {
                assert(views::views(out@) =~= views::views(kept).push(x@));
            }
        }
        i += 1;
    }
    proof {
        assert(all.take(i as int) =~= all);
    }
    out
}

/// Whether some entry has the name.
pub open spec fn has_name(ss: Seq<SkillView>, name: Seq<char>) -> bool {
    exists|i: int| 0 <= i < ss.len() && (#[trigger] ss[i]).name == name
}

/// The messages as warnings on the file.
pub open spec fn as_warnings(path: Seq<char>, messages: Seq<Seq<char>>) -> Seq<
    (Seq<char>, Seq<char>),
> {
    messages.map_values(|m: Seq<char>| (path, m))
}

/// What the preamble says of the skills that the model may invoke, if there are any.
pub open spec fn section_of(ss: Seq<SkillView>) -> Option<Seq<char>> {
    if any_visible(ss) {
        Some(
            PREAMBLE_INTRO@ + "\n\n<available_skills>"@ + skill_entries(ss)
                + "\n</available_skills>"@,
        )
    } else {
        None
    }
}

/// The skills and the warnings once a skill is taken in with what is wrong with
/// it. Of skills with one name the first stays; a later one is passed over with
/// a warning.
pub open spec fn taken_in(
    skills: Seq<SkillView>,
    warnings: Seq<(Seq<char>, Seq<char>)>,
    path: Seq<char>,
    skill: Option<SkillView>,
    messages: Seq<Seq<char>>,
) -> (Seq<SkillView>, Seq<(Seq<char>, Seq<char>)>) {
    let warned = warnings + as_warnings(path, messages);
    match skill {
        None => (skills, warned),
        Some(s) => if has_name(skills, s.name) {
            (skills, warned.push((path, "duplicate skill name \""@ + s.name + "\" ignored"@)))
        } else {
            (skills.push(s), warned)
        },
    }
}

/// The skills with their marks of standing outside the workspace.
pub open spec fn located(ss: Seq<SkillView>, outside: Seq<bool>) -> Seq<SkillView> {
    Seq::new(
        ss.len(),
        |i: int| SkillView { global: i < outside.len() && outside[i], ..ss[i] },
    )
}

/// No two skills have one name.
pub open spec fn names_unique(ss: Seq<SkillView>) -> bool {
    forall|i: int, j: int|
        0 <= i < j < ss.len() ==> (#[trigger] ss[i]).name != (#[trigger] ss[j]).name
}

/// Taking in a skill as [`Skills::add`] does keeps the names unique.
pub proof fn lemma_add_keeps_names_unique(ss: Seq<SkillView>, s: SkillView)
    requires
        names_unique(ss),
    ensures
        !has_name(ss, s.name) ==> names_unique(ss.push(s)),
{
    if !has_name(ss, s.name) {
        let all = ss.push(s);
        assert forall|i: int, j: int| 0 <= i < j < all.len() implies (#[trigger] all[i]).name != (
        #[trigger] all[j]).name by {
            assert(all[i] == ss[i]);
            if j < ss.len() {
                assert(all[j] == ss[j]);
            }
        }
    }
}

impl Skills {
    /// Whether there are no skills.
    pub fn is_empty(&self) -> (b: bool)
        ensures
            b == (self.skills@.len() == 0),
    {
        self.skills.len() == 0
    }

    /// Takes in a skill and what is wrong with it. Of skills with one name the
    /// first stays; a later one is passed over with a warning.
    pub fn add(&mut self, path: &str, skill: Option<Skill>, messages: Vec<String>)
        ensures
            (views::views(final(self).skills@), views::views(final(self).warnings@)) == taken_in(
                views::views(old(self).skills@),
                views::views(old(self).warnings@),
                path@,
                views::opt_view(skill),
                text::texts(messages@),
            ),
    {
        let ghost before = views::views(self.skills@);
        let ghost start = views::views(self.warnings@);
        let ghost more = as_warnings(path@, text::texts(messages@));
        let mut i: usize = 0;
        proof {
            assert(start + more.take(0) =~= start);
        }
        while i < messages.len()
            invariant
                more == as_warnings(path@, text::texts(messages@)),
                i <= messages@.len(),
                views::views(self.skills@) == before,
                views::views(self.warnings@) =~= start + more.take(i as int),
            decreases messages@.len() - i,
        {
            let ghost w = self.warnings@;
            let warning = SkillWarning { path: path.to_owned(), message: messages[i].clone() };
            self.warnings.push(warning);
            proof {
                assert(views::views(self.warnings@) =~= views::views(w).push(warning@));
                assert(more[i as int] == warning@);
            }
            i += 1;
        }
        proof {
            assert(more.take(i as int) =~= more);
        }
        if let Some(s) = skill {
            if self.knows(s.name.as_str()) {
                let mut message: String = "duplicate skill name \"".to_owned();
                message.append(s.name.as_str());
                message.append("\" ignored");
                let ghost w = self.warnings@;
                let warning = SkillWarning { path: path.to_owned(), message };
                self.warnings.push(warning);
                proof {
                    assert(views::views(self.warnings@) =~= views::views(w).push(warning@));
                }
            } else {
                let ghost b = self.skills@;
                self.skills.push(s);
                proof {
                    assert(views::views(self.skills@) =~= views::views(b).push(s@));
                }
            }
        }
    }

    /// Whether a skill has the name.
    pub fn knows(&self, name: &str) -> (b: bool)
        ensures
            b == has_name(views::views(self.skills@), name@),
    {
        let ghost all = views::views(self.skills@);
        let mut i: usize = 0;
        while i < self.skills.len()
            invariant
                all == views::views(self.skills@),
                i <= self.skills@.len(),
                forall|k: int| 0 <= k < i ==> (#[trigger] all[k]).name != name@,
            decreases self.skills@.len() - i,
        {
            if same(self.skills[i].name.as_str(), name) {
                proof {
                    assert(all[i as int].name == name@);
                }
                return true;
            }
            i += 1;
        }
        false
    }

    /// The skills in the order of their names, each with its mark of standing
    /// outside the workspace. A skill without a mark counts as inside.
    pub fn finish(self, outside: &Vec<bool>) -> (r: Skills)
        ensures
            views::views(r.skills@) == order::sorted::<Skill>(
                located(views::views(self.skills@), outside@),
            ),
            r.warnings == self.warnings,
    {
        let ghost all = views::views(self.skills@);
        let mut skills = self.skills;
        let mut i: usize = 0;
        while i < skills.len()
            invariant
                i <= skills@.len(),
                skills@.len() == all.len(),
                forall|k: int|
                    0 <= k < skills@.len() ==> #[trigger] views::views(skills@)[k] == if k < i {
                        located(all, outside@)[k]
                    } else {
                        all[k]
                    },
            decreases skills@.len() - i,
        {
            let ghost before = views::views(skills@);
            let global = i < outside.len() && outside[i];
            skills[i].global = global;
            proof {
                assert(before[i as int] == all[i as int]);
                assert(views::views(skills@) =~= before.update(
                    i as int,
                    (SkillView { global, ..all[i as int] }),
                ));
            }
            i += 1;
        }
        proof {
            assert(views::views(skills@) =~= located(all, outside@));
        }
        Skills { skills: sort(skills), warnings: self.warnings }
    }

    /// The skills that may be used where the workspace's own are not trusted:
    /// those whose mark of standing in the workspace's tree is not set.
    pub fn without_workspace(
        self,
        trusted: bool,
        skill_inside: &Vec<bool>,
        warning_inside: &Vec<bool>,
    ) -> (r: Skills)
        ensures
            trusted ==> r == self,
            !trusted ==> views::views(r.skills@) == unmarked(
                views::views(self.skills@),
                skill_inside@,
            ) && views::views(r.warnings@) == unmarked(
                views::views(self.warnings@),
                warning_inside@,
            ),
    {
        if trusted {
            return self;
        }
        Skills {
            skills: leave_out(self.skills, skill_inside),
            warnings: leave_out(self.warnings, warning_inside),
        }
    }

    /// What the preamble says of the skills that the model may invoke, if there are any.
    pub fn preamble_section(&self) -> (r: Option<String>)
        ensures
            views::opt_view(r) == section_of(views::views(self.skills@)),
    {
        let ghost all = views::views(self.skills@);
        let mut s: String = PREAMBLE_INTRO.to_owned();
        s.append("\n\n<available_skills>");
        let ghost top = s@;
        let mut any = false;
        let mut i: usize = 0;
        proof {
            assert(top + skill_entries(all.take(0)) =~= top);
        }
        while i < self.skills.len()
            invariant
                all == views::views(self.skills@),
                i <= self.skills@.len(),
                s@ =~= top + skill_entries(all.take(i as int)),
                any == exists|k: int| 0 <= k < i && !(#[trigger] all[k]).disable_model_invocation,
            decreases self.skills@.len() - i,
        {
            let skill = &self.skills[i];
            proof {
                assert(all.take(i + 1).drop_last() =~= all.take(i as int));
                assert(all[i as int] == skill@);
            }
            if !skill.disable_model_invocation {
                let mut e: String = "\n  <skill>\n    <name>".to_owned();
                e.append(escape_xml(skill.name.as_str()).as_str());
                e.append("</name>\n    <description>");
                e.append(escape_xml(skill.description.as_str()).as_str());
                e.append("</description>\n    <location>");
                e.append(escape_xml(skill.path.as_str()).as_str());
                e.append("</location>\n  </skill>");
                s.append(e.as_str());
                any = true;
            }
            i += 1;
        }
        proof {
            assert(all.take(i as int) =~= all);
        }
        if any {
            s.append("\n</available_skills>");
            Some(s)
        } else {
            None
        }
    }
}

/// The directories outside a workspace that hold skills, the first one wins:
/// the one of the settings, then the one in the home directory.
pub open spec fn skill_dirs(home: Option<Seq<char>>, settings: Option<Seq<char>>) -> Seq<Seq<char>> {
    (match settings {
        Some(d) => seq![paths::joined(d, "skills"@)],
        None => Seq::empty(),
    }) + (match home {
        Some(d) => seq![paths::joined(paths::joined(d, ".agents"@), "skills"@)],
        None => Seq::empty(),
    })
}

/// The directories outside a workspace that hold skills.
pub fn global_skill_dirs(home: Option<&str>, global_config: Option<&str>) -> (r: Vec<String>)
    ensures
        text::texts(r@) == skill_dirs(text::opt_str(home), text::opt_str(global_config)),
{
    let mut dirs: Vec<String> = Vec::new();
    if let Some(settings) = global_config {
        dirs.push(join(settings, "skills"));
    }
    if let Some(home) = home {
        dirs.push(join(join(home, ".agents").as_str(), "skills"));
    }
    proof {
        assert(text::texts(dirs@) =~= skill_dirs(text::opt_str(home), text::opt_str(global_config)));
    }
    dirs
}

}
