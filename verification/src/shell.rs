//! The shell that commands run in.

use crate::paths;
use crate::paths::join;
use crate::text;
use crate::text::{chars_of, contains, same, strip_suffix, trim};
use crate::views;
use vstd::prelude::*;

verus! {

/// How a command line is handed to a shell.
#[derive(Debug, Clone, Copy, PartialEq, Eq, Structural)]
pub enum ShellKind {
    Bourne,
    PowerShell,
}

/// A shell: the path of its executable, and how it takes a command line.
#[derive(Debug, Clone, PartialEq, Eq)]
pub struct Shell {
    pub path: String,
    pub kind: ShellKind,
}

/// What `str::to_lowercase` gives.
pub uninterp spec fn lowercase(s: Seq<char>) -> Seq<char>;

/// Whether the text holds ASCII characters alone.
pub open spec fn is_ascii(s: Seq<char>) -> bool {
    forall|i: int| 0 <= i < s.len() ==> (#[trigger] s[i]) <= '\u{7f}'
}

/// The ASCII character in lower case.
pub open spec fn ascii_lower(c: char) -> char {
    if 'A' <= c <= 'Z' {
        (c as u32 + 32) as char
    } else {
        c
    }
}

/// `str::to_lowercase`: the text in lower case. Of a text of ASCII characters
/// each letter is taken by itself; of others the outcome is named.
#[verifier::external_body]
fn to_lowercase(s: &str) -> (r: String)
    ensures
        r@ == lowercase(s@),
        is_ascii(s@) ==> r@ == s@.map_values(|c: char| ascii_lower(c)),
{
    s.to_lowercase()
}

/// What follows the last separator, of either kind.
pub open spec fn file_name(path: Seq<char>) -> Seq<char>
    decreases path.len(),
{
    if path.len() == 0 || path.last() == '/' || path.last() == '\\' {
        Seq::empty()
    } else {
        file_name(path.drop_last()).push(path.last())
    }
}

/// The kind of a shell whose executable has the name in lower case.
pub open spec fn kind_named(name: Seq<char>) -> ShellKind {
    let stem = if text::has_suffix(name, ".exe"@) {
        name.take(name.len() - 4)
    } else {
        name
    };
    if stem == "pwsh"@ || text::occurs(stem, "powershell"@) {
        ShellKind::PowerShell
    } else {
        ShellKind::Bourne
    }
}

/// The kind of a shell whose executable has the name in lower case.
pub fn kind_for_name(name: &str) -> (r: ShellKind)
    ensures
        r == kind_named(name@),
{
    proof {
        reveal_strlit(".exe");
    }
    let stem = match strip_suffix(name, ".exe") {
        Some(stem) => stem,
        None => name,
    };
    if same(stem, "pwsh") || contains(stem, "powershell") {
        ShellKind::PowerShell
    } else {
        ShellKind::Bourne
    }
}

/// Whether the shell at the path is of the kind: that which its file name has in
/// lower case. In a name of ASCII characters each letter is taken by itself.
pub open spec fn is_kind_of(kind: ShellKind, path: Seq<char>) -> bool {
    let name = file_name(path);
    &&& kind == kind_named(lowercase(name))
    &&& is_ascii(name) ==> kind == kind_named(name.map_values(|c: char| ascii_lower(c)))
}

/// The kind of the shell at the path.
pub fn kind_for(path: &str) -> (r: ShellKind)
    ensures
        is_kind_of(r, path@),
{
    let cs = chars_of(path);
    let n: usize = cs.len();
    let mut i: usize = n;
    proof {
        assert(path@.take(n as int) =~= path@);
        assert(path@.subrange(n as int, n as int) =~= Seq::empty());
        assert(file_name(path@.take(i as int)) + path@.subrange(i as int, n as int) =~= file_name(
            path@,
        ));
    }
    while i > 0 && cs[i - 1] != '/' && cs[i - 1] != '\\'
        invariant
            cs@ == path@,
            n == cs@.len(),
            i <= n,
            file_name(path@.take(i as int)) + path@.subrange(i as int, n as int) == file_name(
                path@,
            ),
        decreases i,
    {
        proof {
            let head = path@.take(i as int);
            assert(head.last() == path@[i - 1]);
            assert(head.drop_last() =~= path@.take(i - 1));
            assert(file_name(path@.take(i - 1)) + path@.subrange(i - 1, n as int) =~= file_name(
                head,
            ) + path@.subrange(i as int, n as int));
        }
        i -= 1;
    }
    proof {
        let head = path@.take(i as int);
        if i > 0 {
            assert(head.last() == path@[i - 1]);
        }
        assert(file_name(head) =~= Seq::empty());
        assert(Seq::<char>::empty() + path@.subrange(i as int, n as int) =~= path@.subrange(
            i as int,
            n as int,
        ));
    }
    let name = to_lowercase(path.substring_char(i, n));
    kind_for_name(name.as_str())
}

impl Shell {
    /// The shell at the path.
    pub fn new(path: &str) -> (r: Self)
        ensures
            r.path@ == path@,
            is_kind_of(r.kind, path@),
    {
        Shell { path: path.to_owned(), kind: kind_for(path) }
    }

    /// How the shell is called, for people to read.
    pub fn invocation(&self) -> (r: String)
        ensures
            r@ == self.path@ + (match self.kind {
                ShellKind::Bourne => " -c"@,
                ShellKind::PowerShell => " -NoProfile -Command"@,
            }),
    {
        let mut s: String = self.path.clone();
        match self.kind {
            ShellKind::Bourne => {
                s.append(" -c");
            },
            ShellKind::PowerShell => {
                s.append(" -NoProfile -Command");
            },
        }
        s
    }

    /// The arguments that hand the shell a command line.
    pub fn arguments(&self, command: &str) -> (r: Vec<String>)
        ensures
            text::texts(r@) == (match self.kind {
                ShellKind::Bourne => seq!["-c"@, command@],
                ShellKind::PowerShell => seq!["-NoProfile"@, "-Command"@, command@],
            }),
    {
        let mut out: Vec<String> = Vec::new();
        match self.kind {
            ShellKind::Bourne => {
                out.push("-c".to_owned());
            },
            ShellKind::PowerShell => {
                out.push("-NoProfile".to_owned());
                out.push("-Command".to_owned());
            },
        }
        out.push(command.to_owned());
        proof {
            match self.kind {
                ShellKind::Bourne => {
                    assert(text::texts(out@) =~= seq!["-c"@, command@]);
                },
                ShellKind::PowerShell => {
                    assert(text::texts(out@) =~= seq!["-NoProfile"@, "-Command"@, command@]);
                },
            }
        }
        out
    }
}

/// The first of the candidates that can be run.
pub open spec fn first_runnable(cs: Seq<(String, bool)>, i: int) -> Option<Seq<char>>
    decreases cs.len() - i,
{
    if i < 0 || i >= cs.len() {
        None
    } else if cs[i].1 {
        Some(cs[i].0@)
    } else {
        first_runnable(cs, i + 1)
    }
}

/// The first of the candidates that can be run. Each comes with whether it can.
pub fn find_in_dirs(candidates: &Vec<(String, bool)>) -> (r: Option<String>)
    ensures
        views::opt_view(r) == first_runnable(candidates@, 0),
{
    let mut i: usize = 0;
    while i < candidates.len()
        invariant
            i <= candidates@.len(),
            first_runnable(candidates@, 0) == first_runnable(candidates@, i as int),
        decreases candidates@.len() - i,
    {
        if candidates[i].1 {
            return Some(candidates[i].0.clone());
        }
        i += 1;
    }
    None
}

/// What is known of a shell that the user names: whether the name has more than
/// one component, whether it can be run as it stands, and the candidates in the
/// search path, each with whether it can be run.
#[derive(Debug)]
pub struct ShellFacts {
    pub is_path: bool,
    pub runnable: bool,
    pub candidates: Vec<(String, bool)>,
}

impl ShellFacts {
    /// The path of the shell: the name itself, where it is a path that can be
    /// run, else the first in the search path.
    pub open spec fn path(&self, name: Seq<char>) -> Option<Seq<char>> {
        if self.is_path && self.runnable {
            Some(name)
        } else {
            first_runnable(self.candidates@, 0)
        }
    }
}

/// The shell that the user names.
pub fn locate(name: &str, facts: &ShellFacts) -> (r: Option<Shell>)
    ensures
        match facts.path(name@) {
            Some(p) => r matches Some(s) && s.path@ == p && is_kind_of(s.kind, p),
            None => r is None,
        },
{
    if facts.is_path && facts.runnable {
        return Some(Shell::new(name));
    }
    match find_in_dirs(&facts.candidates) {
        Some(p) => Some(Shell::new(p.as_str())),
        None => None,
    }
}

/// The first path that was found.
pub open spec fn first_found(found: Seq<Option<String>>, i: int) -> Option<Seq<char>>
    decreases found.len() - i,
{
    if i < 0 || i >= found.len() {
        None
    } else {
        match found[i] {
            Some(p) => Some(p@),
            None => first_found(found, i + 1),
        }
    }
}

/// The path of the default shell: the first that was found, else the last resort.
pub open spec fn default_path(found: Seq<Option<String>>, last_resort: Seq<char>) -> Seq<char> {
    match first_found(found, 0) {
        Some(p) => p,
        None => last_resort,
    }
}

/// The default shell, given where each candidate was found.
pub fn default_shell(found: &Vec<Option<String>>, last_resort: &str) -> (r: Shell)
    ensures
        r.path@ == default_path(found@, last_resort@),
        is_kind_of(r.kind, r.path@),
{
    let mut i: usize = 0;
    while i < found.len()
        invariant
            i <= found@.len(),
            first_found(found@, 0) == first_found(found@, i as int),
        decreases found@.len() - i,
    {
        if let Some(p) = &found[i] {
            return Shell::new(p.as_str());
        }
        i += 1;
    }
    Shell::new(last_resort)
}

/// The shell to use, and a warning where the one that the user names was not found.
#[derive(Debug)]
pub struct Resolution {
    pub shell: Shell,
    pub warning: Option<String>,
}

/// The warning that a shell was not found.
pub open spec fn not_found(name: Seq<char>, default: Seq<char>) -> Seq<char> {
    "configured shell '"@ + name + "' was not found; falling back to the default shell ("@ + default
        + "). Fix `shell.path` in config.kdl or remove it to use the default."@
}

/// The shell to use: the one that the user names, where it is found, else the
/// default one. A blank name counts as none.
pub fn resolve(configured: Option<&str>, facts: &ShellFacts, default: Shell) -> (r: Resolution)
    ensures
        match configured {
            Some(name) => if text::trimmed(name@).len() == 0 {
                r.shell == default && r.warning is None
            } else {
                match facts.path(name@) {
                    Some(p) => r.shell.path@ == p && is_kind_of(r.shell.kind, p)
                        && r.warning is None,
                    None => r.shell == default && views::opt_view(r.warning) == Some(
                        not_found(name@, default.path@),
                    ),
                }
            },
            None => r.shell == default && r.warning is None,
        },
{
    if let Some(name) = configured {
        if !trim(name).is_empty() {
            if let Some(shell) = locate(name, facts) {
                return Resolution { shell, warning: None };
            }
            let mut s: String = "configured shell '".to_owned();
            s.append(name);
            s.append("' was not found; falling back to the default shell (");
            s.append(default.path.as_str());
            s.append("). Fix `shell.path` in config.kdl or remove it to use the default.");
            return Resolution { shell: default, warning: Some(s) };
        }
    }
    Resolution { shell: default, warning: None }
}

/// Where a bash that comes with Git may stand on Windows.
pub fn git_bash_roots(local: Option<&str>) -> (r: Vec<String>)
    ensures
        text::texts(r@) == seq!["C:\\Program Files\\Git"@, "C:\\Program Files (x86)\\Git"@] + (
        match local {
            Some(d) => seq![paths::joined(paths::joined(d@, "Programs"@), "Git"@)],
            None => Seq::empty(),
        }),
{
    let mut roots: Vec<String> = Vec::new();
    roots.push("C:\\Program Files\\Git".to_owned());
    roots.push("C:\\Program Files (x86)\\Git".to_owned());
    if let Some(d) = local {
        roots.push(join(join(d, "Programs").as_str(), "Git"));
    }
    proof {
        assert(text::texts(roots@) =~= seq![
            "C:\\Program Files\\Git"@,
            "C:\\Program Files (x86)\\Git"@,
        ] + (match local {
            Some(d) => seq![paths::joined(paths::joined(d@, "Programs"@), "Git"@)],
            None => Seq::empty(),
        }));
    }
    roots
}

}
