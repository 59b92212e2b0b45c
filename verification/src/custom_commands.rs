//! Custom commands: prompt templates that are invoked by name.

use crate::order;
use crate::order::{sort, Named};
use crate::paths;
use crate::paths::join;
use crate::skills;
use crate::skills::{front_matter_split, validate_name};
use crate::text;
use crate::text::{contains, replace, same, split_once, trim};
use crate::views;
use vstd::prelude::*;

verus! {

pub const COMMAND_FILE_NAME: &'static str = "command.md";

/// What stands for the arguments in a command's text.
pub const ARGUMENTS_PLACEHOLDER: &'static str = "{{arguments}}";

/// A command. Its name is that of its directory.
#[derive(Debug, Clone)]
pub struct CustomCommand {
    pub name: String,
    pub title: String,
    pub model: Option<String>,
    pub path: String,
}

/// The content of a [`CustomCommand`].
#[verifier::ext_equal]
pub struct CommandView {
    pub name: Seq<char>,
    pub title: Seq<char>,
    pub model: Option<Seq<char>>,
    pub path: Seq<char>,
}

impl View for CustomCommand {
    type V = CommandView;

    open spec fn view(&self) -> CommandView {
        CommandView {
            name: self.name@,
            title: self.title@,
            model: views::opt_view(self.model),
            path: self.path@,
        }
    }
}

impl Named for CustomCommand {
    open spec fn label(v: CommandView) -> Seq<char> {
        v.name
    }

    fn name(&self) -> (r: &str) {
        self.name.as_str()
    }
}

/// What is wrong with a file of a command.
#[derive(Debug, Clone)]
pub struct CustomCommandWarning {
    pub path: String,
    pub message: String,
}

impl View for CustomCommandWarning {
    type V = (Seq<char>, Seq<char>);

    open spec fn view(&self) -> (Seq<char>, Seq<char>) {
        (self.path@, self.message@)
    }
}

/// The commands that were loaded, and what was wrong with some.
#[derive(Debug, Clone, Default)]
pub struct CustomCommands {
    pub commands: Vec<CustomCommand>,
    pub warnings: Vec<CustomCommandWarning>,
}

/// The two parts of a model spec: what stands before the first slash and what
/// stands after it, if neither is blank.
pub open spec fn model_spec(spec: Seq<char>) -> Option<(Seq<char>, Seq<char>)> {
    match text::position(spec, "/"@) {
        None => None,
        Some(i) => {
            let kind = text::trimmed(spec.take(i));
            let model = text::trimmed(spec.skip(i + 1));
            if kind.len() == 0 || model.len() == 0 {
                None
            } else {
                Some((kind, model))
            }
        },
    }
}

/// Splits a model spec at its first slash.
pub fn parse_model_spec(spec: &str) -> (r: Option<(&str, &str)>)
    ensures
        match model_spec(spec@) {
            Some((kind, model)) => r matches Some((k, m)) && k@ == kind && m@ == model,
            None => r is None,
        },
{
    proof {
        reveal_strlit("/");
    }
    match split_once(spec, "/") {
        None => None,
        Some((kind, model)) => {
            let kind = trim(kind);
            let model = trim(model);
            if kind.is_empty() || model.is_empty() {
                None
            } else {
                Some((kind, model))
            }
        },
    }
}

/// What the front matter of a command says.
#[derive(Debug, Default)]
pub struct CommandFrontMatter {
    pub title: Option<String>,
    pub model: Option<String>,
}

/// What came of reading a command's file. A file may have no front matter.
#[derive(Debug)]
pub enum CommandFile {
    Unreadable,
    Unparsable,
    Parsed(Option<CommandFrontMatter>),
}

/// The text without the white space around it, if anything is left.
pub open spec fn filled(o: Option<Seq<char>>) -> Option<Seq<char>> {
    match o {
        Some(s) => if text::trimmed(s).len() > 0 {
            Some(text::trimmed(s))
        } else {
            None
        },
        None => None,
    }
}

/// The model that the front matter states.
pub open spec fn stated_model(fm: Option<CommandFrontMatter>) -> Option<Seq<char>> {
    match fm {
        Some(fm) => filled(views::opt_view(fm.model)),
        None => None,
    }
}

/// The title of a command: the one it states, else its name.
pub open spec fn command_title(fm: Option<CommandFrontMatter>, name: Seq<char>) -> Seq<char> {
    match fm {
        Some(fm) => match filled(views::opt_view(fm.title)) {
            Some(t) => t,
            None => name,
        },
        None => name,
    }
}

/// The command of a file, unless it cannot be read.
pub open spec fn command_of(
    file: CommandFile,
    dir: Seq<char>,
    name: Seq<char>,
) -> Option<CommandView> {
    match file {
        CommandFile::Parsed(fm) => Some(
            CommandView {
                name,
                title: command_title(fm, name),
                model: stated_model(fm),
                path: dir,
            },
        ),
        _ => None,
    }
}

/// What is wrong with a command's file.
pub open spec fn command_messages(file: CommandFile, name: Seq<char>) -> Seq<Seq<char>> {
    match file {
        CommandFile::Unreadable => seq!["failed to read command.md"@],
        CommandFile::Unparsable => skills::name_errors(name).push(
            "failed to parse command.md frontmatter"@,
        ),
        CommandFile::Parsed(fm) => skills::name_errors(name) + (match stated_model(fm) {
            Some(m) => skills::when(
                model_spec(m) is None,
                "model must be `<provider>/<model>` (found `"@ + m
                    + "`); the override will not resolve"@,
            ),
            None => Seq::empty(),
        }),
    }
}

fn filled_in(o: &Option<String>) -> (r: Option<String>)
    ensures
        views::opt_view(r) == filled(views::opt_view(*o)),
{
    match o {
        Some(s) => {
            let t = trim(s.as_str());
            if t.is_empty() {
                None
            } else {
                Some(t.to_owned())
            }
        },
        None => None,
    }
}

fn push_message(out: &mut Vec<String>, message: String)
    ensures
        text::texts(final(out)@) == text::texts(old(out)@).push(message@),
{
    let ghost before = text::texts(out@);
    out.push(message);
    proof {
        assert(text::texts(out@) =~= before.push(message@));
    }
}

impl CustomCommand {
    /// The command of a directory, given what came of reading its file, and
    /// what is wrong with it.
    pub fn from_dir(dir: &str, name: &str, file: CommandFile) -> (r: (
        Option<CustomCommand>,
        Vec<String>,
    ))
        ensures
            views::opt_view(r.0) == command_of(file, dir@, name@),
            text::texts(r.1@) == command_messages(file, name@),
    {
        match file {
            CommandFile::Unreadable => {
                let mut messages: Vec<String> = Vec::new();
                proof {
                    assert(text::texts(messages@) =~= Seq::empty());
                }
                push_message(&mut messages, "failed to read command.md".to_owned());
                proof {
                    assert(text::texts(messages@) =~= seq!["failed to read command.md"@]);
                }
                (None, messages)
            },
            CommandFile::Unparsable => {
                let mut messages = validate_name(name);
                push_message(&mut messages, "failed to parse command.md frontmatter".to_owned());
                (None, messages)
            },
            CommandFile::Parsed(fm) => {
                let mut messages = validate_name(name);
                let (title, model) = match &fm {
                    Some(fm) => (filled_in(&fm.title), filled_in(&fm.model)),
                    None => (None, None),
                };
                let ghost stated = stated_model(fm);
                if let Some(m) = &model {
                    if parse_model_spec(m.as_str()).is_none() {
                        let mut s: String = "model must be `<provider>/<model>` (found `".to_owned();
                        s.append(m.as_str());
                        s.append("`); the override will not resolve");
                        push_message(&mut messages, s);
                    }
                }
                proof {
                    assert(text::texts(messages@) =~= command_messages(file, name@));
                }
                let title = match title {
                    Some(t) => t,
                    None => name.to_owned(),
                };
                let command = CustomCommand {
                    name: name.to_owned(),
                    title,
                    model,
                    path: dir.to_owned(),
                };
                (Some(command), messages)
            },
        }
    }
}

/// The text of a command's file without its front matter.
pub fn command_body(content: &str) -> (r: &str)
    ensures
        r@ == skills::body_of(content@),
{
    match front_matter_split(content) {
        Some((_, body)) => body,
        None => trim(content),
    }
}

/// The prompt of a command: its text with the arguments put in the places that
/// it names, or after it where it names none.
pub open spec fn invocation(body: Seq<char>, args: Option<Seq<char>>) -> Seq<char> {
    match args {
        Some(a) => if text::occurs(body, ARGUMENTS_PLACEHOLDER@) {
            text::replaced(body, ARGUMENTS_PLACEHOLDER@, a)
        } else {
            body + "\n\n"@ + a
        },
        None => text::replaced(body, ARGUMENTS_PLACEHOLDER@, Seq::empty()),
    }
}

impl CustomCommand {
    /// The prompt that invokes the command, whose file holds the content.
    pub fn invocation_content(&self, content: &str, args: Option<&str>) -> (r: String)
        ensures
            r@ == invocation(
                skills::body_of(content@),
                match args {
                    Some(a) => Some(a@),
                    None => None,
                },
            ),
    {
        proof {
            reveal_strlit("{{arguments}}");
            reveal_strlit("");
        }
        let body = command_body(content);
        match args {
            Some(a) => {
                if contains(body, ARGUMENTS_PLACEHOLDER) {
                    replace(body, ARGUMENTS_PLACEHOLDER, a)
                } else {
                    let mut s: String = body.to_owned();
                    s.append("\n\n");
                    s.append(a);
                    s
                }
            },
            None => {
                proof {
                    assert(""@ =~= Seq::empty());
                }
                replace(body, ARGUMENTS_PLACEHOLDER, "")
            },
        }
    }
}

/// Whether some command has the name.
pub open spec fn has_name(cs: Seq<CommandView>, name: Seq<char>) -> bool {
    exists|i: int| 0 <= i < cs.len() && (#[trigger] cs[i]).name == name
}

impl CustomCommands {
    /// Whether a command has the name.
    pub fn knows(&self, name: &str) -> (b: bool)
        ensures
            b == has_name(views::views(self.commands@), name@),
    {
        let ghost all = views::views(self.commands@);
        let mut i: usize = 0;
        while i < self.commands.len()
            invariant
                all == views::views(self.commands@),
                i <= self.commands@.len(),
                forall|k: int| 0 <= k < i ==> (#[trigger] all[k]).name != name@,
            decreases self.commands@.len() - i,
        {
            if same(self.commands[i].name.as_str(), name) {
                proof {
                    assert(all[i as int].name == name@);
                }
                return true;
            }
            i += 1;
        }
        false
    }

    /// Takes in a command and what is wrong with it. Of commands with one name
    /// the first stays; a later one is passed over with a warning.
    pub fn add(&mut self, path: &str, command: Option<CustomCommand>, messages: Vec<String>)
        ensures
            ({
                let before = views::views(old(self).commands@);
                let warned = views::views(old(self).warnings@) + skills::as_warnings(
                    path@,
                    text::texts(messages@),
                );
                match command {
                    None => {
                        &&& views::views(final(self).commands@) == before
                        &&& views::views(final(self).warnings@) == warned
                    },
                    Some(c) => if has_name(before, c@.name) {
                        &&& views::views(final(self).commands@) == before
                        &&& views::views(final(self).warnings@) == warned.push(
                            (
                                path@,
                                "duplicate command name \""@ + c@.name
                                    + "\" ignored (the workspace command wins)"@,
                            ),
                        )
                    } else {
                        &&& views::views(final(self).commands@) == before.push(c@)
                        &&& views::views(final(self).warnings@) == warned
                    },
                }
            }),
    {
        let ghost before = views::views(self.commands@);
        let ghost start = views::views(self.warnings@);
        let ghost more = skills::as_warnings(path@, text::texts(messages@));
        let mut i: usize = 0;
        proof {
            assert(start + more.take(0) =~= start);
        }
        while i < messages.len()
            invariant
                more == skills::as_warnings(path@, text::texts(messages@)),
                i <= messages@.len(),
                views::views(self.commands@) == before,
                views::views(self.warnings@) =~= start + more.take(i as int),
            decreases messages@.len() - i,
        {
            let ghost w = self.warnings@;
            let warning = CustomCommandWarning {
                path: path.to_owned(),
                message: messages[i].clone(),
            };
            self.warnings.push(warning);
            proof {
                assert(views::views(self.warnings@) =~= views::views(w).push(warning@));
                assert(more[i as int] == warning@);
            }
            i += 1;
        }
        proof {
            assert(more.take(i as int) =~= more);
        }
        if let Some(c) = command {
            if self.knows(c.name.as_str()) {
                let mut message: String = "duplicate command name \"".to_owned();
                message.append(c.name.as_str());
                message.append("\" ignored (the workspace command wins)");
                let ghost w = self.warnings@;
                let warning = CustomCommandWarning { path: path.to_owned(), message };
                self.warnings.push(warning);
                proof {
                    assert(views::views(self.warnings@) =~= views::views(w).push(warning@));
                }
            } else {
                let ghost b = self.commands@;
                self.commands.push(c);
                proof {
                    assert(views::views(self.commands@) =~= views::views(b).push(c@));
                }
            }
        }
    }

    /// The commands in the order of their names.
    pub fn finish(self) -> (r: CustomCommands)
        ensures
            views::views(r.commands@) == order::sorted::<CustomCommand>(
                views::views(self.commands@),
            ),
            r.warnings == self.warnings,
    {
        CustomCommands { commands: sort(self.commands), warnings: self.warnings }
    }
}

/// The directories that hold commands: that of the workspace, then that of the settings.
pub fn command_dirs(workspace_dir: &str, global_config: Option<&str>) -> (r: Vec<String>)
    ensures
        text::texts(r@) == seq![paths::joined(workspace_dir@, "commands"@)] + (
        match global_config {
            Some(d) => seq![paths::joined(d@, "commands"@)],
            None => Seq::empty(),
        }),
{
    let mut dirs: Vec<String> = Vec::new();
    dirs.push(join(workspace_dir, "commands"));
    if let Some(d) = global_config {
        dirs.push(join(d, "commands"));
    }
    proof {
        assert(text::texts(dirs@) =~= seq![paths::joined(workspace_dir@, "commands"@)] + (
        match global_config {
            Some(d) => seq![paths::joined(d@, "commands"@)],
            None => Seq::empty(),
        }));
    }
    dirs
}

}
