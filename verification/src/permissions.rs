//! What tools may do: the rules on paths and on commands.

use crate::paths;
use crate::paths::{below, hidden, PartView, PathPart};
use crate::text;
use crate::text::{chars_of, contains, join, same, split_words};
use crate::views;
use crate::views::duplicate_all;
use vstd::prelude::*;

verus! {

/// The signal that a denied tool call sends to the stream of its turn. There is
/// one of it, which the tools and the stream are lent: it cannot be copied.
#[derive(Debug, PartialEq, Eq, Structural)]
pub struct DenyCut {
    pub set: bool,
}

impl Default for DenyCut {
    fn default() -> (c: Self)
        ensures
            !c.set,
    {
        DenyCut { set: false }
    }
}

impl DenyCut {
    /// Sets the signal.
    pub fn trigger(&mut self)
        ensures
            final(self).set,
    {
        self.set = true;
    }

    /// Whether the signal is set.
    pub fn is_set(&self) -> (b: bool)
        ensures
            b == self.set,
    {
        self.set
    }

    /// Consumes the signal, reporting whether it was set.
    pub fn take(&mut self) -> (b: bool)
        ensures
            b == old(self).set,
            !final(self).set,
    {
        let was = self.set;
        self.set = false;
        was
    }

    /// Clears the signal.
    pub fn reset(&mut self)
        ensures
            !final(self).set,
    {
        self.set = false;
    }
}

/// What a rule does with what it matches.
#[derive(Debug, Clone, Copy, PartialEq, Eq, Structural)]
pub enum Verb {
    Allow,
    Ask,
    Deny,
}

/// The word for a verb.
pub open spec fn verb_text(v: Verb) -> Seq<char> {
    match v {
        Verb::Allow => "allow"@,
        Verb::Ask => "ask"@,
        Verb::Deny => "deny"@,
    }
}

impl Verb {
    /// The word for the verb.
    pub fn as_str(&self) -> (r: &'static str)
        ensures
            r@ == verb_text(*self),
    {
        match self {
            Verb::Allow => "allow",
            Verb::Ask => "ask",
            Verb::Deny => "deny",
        }
    }
}

/// Whether a rule on paths matches writing too.
#[derive(Debug, Clone, Copy, PartialEq, Eq, Structural)]
pub enum Mode {
    Ro,
    Rw,
}

/// A rule on paths in the settings. It matches what lies at or below its path,
/// or the path alone where it is `exact`, and where it is `except_hidden`
/// nothing hidden.
#[derive(Debug, Clone, PartialEq, Eq)]
pub struct PathRule {
    pub verb: Verb,
    pub path: String,
    pub except_hidden: bool,
    pub exact: bool,
    pub mode: Mode,
}

/// How the pattern of a rule on commands is meant.
#[derive(Debug, Clone, Copy, PartialEq, Eq, Structural)]
pub enum ShellPatternKind {
    Raw,
    Regex,
}

/// A rule on commands in the settings.
#[derive(Debug, Clone, PartialEq, Eq)]
pub struct ShellRule {
    pub verb: Verb,
    pub pattern: String,
    pub kind: ShellPatternKind,
}

/// The rules on paths in the settings, and what holds where none matches.
#[derive(Debug, Clone)]
pub struct PathRules {
    pub default: Option<Verb>,
    pub rules: Vec<PathRule>,
}

/// The rules on commands in the settings, and what holds where none matches.
#[derive(Debug, Clone)]
pub struct ShellRules {
    pub default: Option<Verb>,
    pub rules: Vec<ShellRule>,
}

/// The permissions in the settings.
#[derive(Debug, Clone)]
pub struct PermissionsConfig {
    pub default: Option<Verb>,
    pub paths: PathRules,
    pub shell: ShellRules,
}

impl PermissionsConfig {
    /// The permissions where the settings have none: what is not hidden in the
    /// workspace is allowed, and every command; of the rest the user is asked.
    pub fn builtin() -> (r: Self)
        ensures
            r.default is None,
            r.paths.default is None,
            r.paths.rules@.len() == 1,
            r.paths.rules@[0].verb == Verb::Allow,
            r.paths.rules@[0].path@ == "."@,
            r.paths.rules@[0].except_hidden,
            !r.paths.rules@[0].exact,
            r.paths.rules@[0].mode == Mode::Rw,
            r.shell.default == Some(Verb::Allow),
            r.shell.rules@.len() == 0,
    {
        let mut rules: Vec<PathRule> = Vec::new();
        rules.push(
            PathRule {
                verb: Verb::Allow,
                path: ".".to_owned(),
                except_hidden: true,
                exact: false,
                mode: Mode::Rw,
            },
        );
        PermissionsConfig {
            default: None,
            paths: PathRules { default: None, rules },
            shell: ShellRules { default: Some(Verb::Allow), rules: Vec::new() },
        }
    }
}

/// Whether a file is read or written.
#[derive(Debug, Clone, Copy, PartialEq, Eq, Structural)]
pub enum PathKind {
    Read,
    Write,
}

/// What is done with a file.
pub open spec fn action_text(k: PathKind) -> Seq<char> {
    match k {
        PathKind::Read => "reading"@,
        PathKind::Write => "writing"@,
    }
}

impl PathKind {
    /// What is done with the file.
    pub fn action(self) -> (r: &'static str)
        ensures
            r@ == action_text(self),
    {
        match self {
            PathKind::Read => "reading",
            PathKind::Write => "writing",
        }
    }
}

/// What the rules decide, with the rule that decided it.
#[derive(Debug, Clone, PartialEq, Eq)]
pub enum Decision {
    Allow,
    Ask { reason: String },
    Deny { reason: String },
}

/// The content of a [`Decision`].
#[verifier::ext_equal]
#[allow(inconsistent_fields)]
pub enum DecisionView {
    Allow,
    Ask { reason: Seq<char> },
    Deny { reason: Seq<char> },
}

impl View for Decision {
    type V = DecisionView;

    open spec fn view(&self) -> DecisionView {
        match self {
            Decision::Allow => DecisionView::Allow,
            Decision::Ask { reason } => DecisionView::Ask { reason: reason@ },
            Decision::Deny { reason } => DecisionView::Deny { reason: reason@ },
        }
    }
}

/// The decision that a verb makes.
pub open spec fn decision_of(v: Verb, reason: Seq<char>) -> DecisionView {
    match v {
        Verb::Allow => DecisionView::Allow,
        Verb::Ask => DecisionView::Ask { reason },
        Verb::Deny => DecisionView::Deny { reason },
    }
}

fn verb_decision(verb: Verb, reason: String) -> (r: Decision)
    ensures
        r@ == decision_of(verb, reason@),
{
    match verb {
        Verb::Allow => Decision::Allow,
        Verb::Ask => Decision::Ask { reason },
        Verb::Deny => Decision::Deny { reason },
    }
}

/// The text with single spaces for its white space, and none around it.
pub open spec fn collapsed(s: Seq<char>) -> Seq<char> {
    text::joined(text::words(s), " "@)
}

/// The text with single spaces for its white space, and none around it.
pub fn collapse_whitespace(s: &str) -> (r: String)
    ensures
        r@ == collapsed(s@),
{
    join(split_words(s).as_slice(), " ")
}

/// Whether a character is an ASCII letter or digit.
pub open spec fn is_word_char(c: char) -> bool {
    'a' <= c <= 'z' || 'A' <= c <= 'Z' || '0' <= c <= '9'
}

/// Whether the needle stands at the place, with no letter or digit beside it.
pub open spec fn word_at(hay: Seq<char>, needle: Seq<char>, i: int) -> bool {
    &&& text::occurs_at(hay, needle, i)
    &&& i == 0 || !is_word_char(hay[i - 1])
    &&& i + needle.len() == hay.len() || !is_word_char(hay[i + needle.len()])
}

/// Whether the needle stands anywhere with no letter or digit beside it.
pub open spec fn has_word(hay: Seq<char>, needle: Seq<char>) -> bool {
    needle.len() > 0 && exists|i: int| #[trigger] word_at(hay, needle, i)
}

fn word_char(c: char) -> (b: bool)
    ensures
        b == is_word_char(c),
{
    ('a' <= c && c <= 'z') || ('A' <= c && c <= 'Z') || ('0' <= c && c <= '9')
}

/// Whether the needle stands anywhere with no letter or digit beside it.
pub fn contains_word(haystack: &str, needle: &str) -> (b: bool)
    ensures
        b == has_word(haystack@, needle@),
{
    let hs = chars_of(haystack);
    let n: usize = hs.len();
    let m: usize = needle.unicode_len();
    if m == 0 || m > n {
        proof {
            if m > n {
                assert forall|i: int| !(#[trigger] word_at(haystack@, needle@, i)) by {}
            }
        }
        return false;
    }
    let mut i: usize = 0;
    while i < n - m + 1
        invariant
            hs@ == haystack@,
            n == hs@.len(),
            m == needle@.len(),
            0 < m <= n,
            i <= n - m + 1,
            forall|k: int| 0 <= k < i ==> !(#[trigger] word_at(haystack@, needle@, k)),
        decreases n - m + 1 - i,
    {
        let here = same(haystack.substring_char(i, i + m), needle);
        if here && (i == 0 || !word_char(hs[i - 1])) && (i == n - m || !word_char(hs[i + m])) {
            proof {
                assert(word_at(haystack@, needle@, i as int));
            }
            return true;
        }
        proof {
            assert(!word_at(haystack@, needle@, i as int));
        }
        i += 1;
    }
    proof {
        assert forall|k: int| !(#[trigger] word_at(haystack@, needle@, k)) by {}
    }
    false
}

/// `regex::Regex`, a compiled pattern.
#[verifier::external_type_specification]
#[verifier::external_body]
pub struct ExRegex(regex::Regex);

/// The pattern that was compiled.
pub uninterp spec fn regex_pattern(re: regex::Regex) -> Seq<char>;

/// What is wrong with a pattern, if it cannot be compiled.
pub uninterp spec fn regex_fault(pattern: Seq<char>) -> Option<Seq<char>>;

/// Whether the pattern is found in the text.
pub uninterp spec fn regex_found(pattern: Seq<char>, searched: Seq<char>) -> bool;

/// `regex::Regex::new`: the compiled pattern, or in words what is wrong with
/// it. Which patterns compile is named.
#[verifier::external_body]
fn compile_regex(pattern: &str) -> (r: Result<regex::Regex, String>)
    ensures
        match r {
            Ok(re) => regex_fault(pattern@) is None && regex_pattern(re) == pattern@,
            Err(m) => regex_fault(pattern@) == Some(m@),
        },
{
    regex::Regex::new(pattern).map_err(|e| e.to_string())
}

/// `regex::Regex::is_match`: whether the pattern is found anywhere in the text.
/// What that means for a pattern is named.
pub assume_specification[ regex::Regex::is_match ](re: &regex::Regex, haystack: &str) -> (b: bool)
    ensures
        b == regex_found(regex_pattern(*re), haystack@),
;

/// How a command is held against a rule: by words in the command with single
/// spaces, or by a pattern in the command as it is.
#[derive(Debug)]
pub enum ShellMatcher {
    Raw(String),
    Regex(regex::Regex),
}

/// The content of a [`ShellMatcher`].
#[verifier::ext_equal]
pub enum MatcherView {
    Raw(Seq<char>),
    Regex(Seq<char>),
}

impl View for ShellMatcher {
    type V = MatcherView;

    open spec fn view(&self) -> MatcherView {
        match self {
            ShellMatcher::Raw(needle) => MatcherView::Raw(needle@),
            ShellMatcher::Regex(re) => MatcherView::Regex(regex_pattern(*re)),
        }
    }
}

/// Whether the matcher matches a command.
pub open spec fn command_matches(m: MatcherView, command: Seq<char>) -> bool {
    match m {
        MatcherView::Raw(needle) => has_word(collapsed(command), needle),
        MatcherView::Regex(pattern) => regex_found(pattern, command),
    }
}

/// Whether the matcher matches what a command has put out.
pub open spec fn output_matches(m: MatcherView, output: Seq<char>) -> bool {
    match m {
        MatcherView::Raw(needle) => text::occurs(output, needle),
        MatcherView::Regex(pattern) => regex_found(pattern, output),
    }
}

impl ShellMatcher {
    fn matches_command(&self, command: &str, collapsed_command: &str) -> (b: bool)
        requires
            collapsed_command@ == collapsed(command@),
        ensures
            b == command_matches(self@, command@),
    {
        match self {
            ShellMatcher::Raw(needle) => contains_word(collapsed_command, needle.as_str()),
            ShellMatcher::Regex(re) => re.is_match(command),
        }
    }

    fn matches_text(&self, output: &str) -> (b: bool)
        ensures
            b == output_matches(self@, output@),
    {
        match self {
            ShellMatcher::Raw(needle) => contains(output, needle.as_str()),
            ShellMatcher::Regex(re) => re.is_match(output),
        }
    }
}

/// A rule on commands, ready to be used.
#[derive(Debug)]
pub struct CompiledShellRule {
    pub verb: Verb,
    pub raw: String,
    pub matcher: ShellMatcher,
}

/// The content of a [`CompiledShellRule`].
#[verifier::ext_equal]
pub struct ShellRuleView {
    pub verb: Verb,
    pub raw: Seq<char>,
    pub matcher: MatcherView,
}

impl View for CompiledShellRule {
    type V = ShellRuleView;

    open spec fn view(&self) -> ShellRuleView {
        ShellRuleView { verb: self.verb, raw: self.raw@, matcher: self.matcher@ }
    }
}

/// The rule in the settings, ready to be used, or what is wrong with it.
pub open spec fn compiled_shell_rule(r: ShellRule) -> Result<ShellRuleView, Seq<char>> {
    match r.kind {
        ShellPatternKind::Raw => Ok(
            ShellRuleView {
                verb: r.verb,
                raw: r.pattern@,
                matcher: MatcherView::Raw(collapsed(r.pattern@)),
            },
        ),
        ShellPatternKind::Regex => match regex_fault(r.pattern@) {
            None => Ok(
                ShellRuleView {
                    verb: r.verb,
                    raw: r.pattern@,
                    matcher: MatcherView::Regex(r.pattern@),
                },
            ),
            Some(m) => Err(
                "invalid regex in shell-patterns rule \""@ + r.pattern@ + "\": "@ + m,
            ),
        },
    }
}

/// The rules in the settings, ready to be used, or what is wrong with the first
/// that is wrong.
pub open spec fn compiled_shell_rules(rs: Seq<ShellRule>) -> Result<
    Seq<ShellRuleView>,
    Seq<char>,
>
    decreases rs.len(),
{
    if rs.len() == 0 {
        Ok(Seq::empty())
    } else {
        match compiled_shell_rules(rs.drop_last()) {
            Err(m) => Err(m),
            Ok(done) => match compiled_shell_rule(rs.last()) {
                Ok(r) => Ok(done.push(r)),
                Err(m) => Err(m),
            },
        }
    }
}

proof fn lemma_first_fault(rs: Seq<ShellRule>, i: int)
    requires
        0 <= i <= rs.len(),
    ensures
        compiled_shell_rules(rs.take(i)) matches Err(m) ==> compiled_shell_rules(rs) == Err::<
            Seq<ShellRuleView>,
            Seq<char>,
        >(m),
    decreases rs.len() - i,
{
    if i < rs.len() {
        assert(rs.take(i + 1).drop_last() =~= rs.take(i));
        lemma_first_fault(rs, i + 1);
    } else {
        assert(rs.take(i) =~= rs);
    }
}

impl CompiledShellRule {
    /// The rule in the settings, ready to be used.
    pub fn build(rule: &ShellRule) -> (r: Result<Self, String>)
        ensures
            match compiled_shell_rule(*rule) {
                Ok(v) => r matches Ok(x) && x@ == v,
                Err(m) => r matches Err(e) && e@ == m,
            },
    {
        let matcher = match rule.kind {
            ShellPatternKind::Raw => ShellMatcher::Raw(collapse_whitespace(rule.pattern.as_str())),
            ShellPatternKind::Regex => match compile_regex(rule.pattern.as_str()) {
                Ok(re) => ShellMatcher::Regex(re),
                Err(m) => {
                    let mut s: String = "invalid regex in shell-patterns rule \"".to_owned();
                    s.append(rule.pattern.as_str());
                    s.append("\": ");
                    s.append(m.as_str());
                    return Err(s);
                },
            },
        };
        Ok(CompiledShellRule { verb: rule.verb, raw: rule.pattern.clone(), matcher })
    }
}

/// A rule on paths, ready to be used.
#[derive(Debug)]
pub struct CompiledPathRule {
    pub verb: Verb,
    pub raw: String,
    pub path: Vec<PathPart>,
    pub exact: bool,
    pub except_hidden: bool,
    pub mode: Mode,
}

/// The content of a [`CompiledPathRule`].
#[verifier::ext_equal]
pub struct PathRuleView {
    pub verb: Verb,
    pub raw: Seq<char>,
    pub path: Seq<PartView>,
    pub exact: bool,
    pub except_hidden: bool,
    pub mode: Mode,
}

impl View for CompiledPathRule {
    type V = PathRuleView;

    open spec fn view(&self) -> PathRuleView {
        PathRuleView {
            verb: self.verb,
            raw: self.raw@,
            path: views::views(self.path@),
            exact: self.exact,
            except_hidden: self.except_hidden,
            mode: self.mode,
        }
    }
}

/// Whether the component may be hidden: at the top of the workspace the
/// directories of the agent and of the program itself.
pub open spec fn may_be_hidden(p: PartView, i: int, own_dir: Seq<char>) -> bool {
    i == 0 && (paths::part_text(p) == ".agents"@ || paths::part_text(p) == own_dir)
}

/// Whether no component is hidden that may not be.
pub open spec fn is_visible(rel: Seq<PartView>, own_dir: Seq<char>) -> bool {
    forall|i: int|
        0 <= i < rel.len() ==> !paths::is_hidden(#[trigger] rel[i]) || may_be_hidden(
            rel[i],
            i,
            own_dir,
        )
}

/// Whether the rule matches the path.
pub open spec fn rule_matches(
    r: PathRuleView,
    path: Seq<PartView>,
    own_dir: Seq<char>,
) -> bool {
    &&& if r.exact {
        path == r.path
    } else {
        paths::is_below(path, r.path)
    }
    &&& !r.except_hidden || is_visible(paths::relative(path, r.path), own_dir)
}

impl CompiledPathRule {
    /// The rule in the settings, ready to be used, given where its path lies.
    pub fn build(rule: &PathRule, path: &Vec<PathPart>) -> (r: Self)
        ensures
            r@ == compiled_path_rule(*rule, views::views(path@)),
    {
        CompiledPathRule {
            verb: rule.verb,
            raw: rule.path.clone(),
            path: duplicate_all(path),
            exact: rule.exact,
            except_hidden: rule.except_hidden,
            mode: rule.mode,
        }
    }

    /// Whether the rule matches the path.
    pub fn matches(&self, path: &Vec<PathPart>, own_dir: &str) -> (b: bool)
        ensures
            b == rule_matches(self@, views::views(path@), own_dir@),
    {
        let ghost p = views::views(path@);
        let ghost q = views::views(self.path@);
        let n: usize = self.path.len();
        if !below(path, &self.path) {
            proof {
                assert(p == q ==> p.take(q.len() as int) =~= q);
            }
            return false;
        }
        if self.exact && path.len() != n {
            return false;
        }
        proof {
            if p.len() == q.len() {
                assert(p.take(q.len() as int) =~= p);
            }
        }
        if !self.except_hidden {
            return true;
        }
        let ghost rel = paths::relative(p, q);
        let mut i: usize = n;
        while i < path.len()
            invariant
                p == views::views(path@),
                rel == p.skip(n as int),
                rel == paths::relative(p, self@.path),
                self.except_hidden,
                n <= i <= path@.len(),
                forall|k: int|
                    0 <= k < i - n ==> !paths::is_hidden(#[trigger] rel[k]) || may_be_hidden(
                        rel[k],
                        k,
                        own_dir@,
                    ),
            decreases path@.len() - i,
        {
            proof {
                assert(rel[i - n] == path@[i as int]@);
            }
            if hidden(&path[i]) {
                let own = match &path[i] {
                    PathPart::Name(s) => same(s.as_str(), ".agents") || same(s.as_str(), own_dir),
                    PathPart::Prefix(s) => same(s.as_str(), ".agents") || same(
                        s.as_str(),
                        own_dir,
                    ),
                    _ => false,
                };
                if i != n || !own {
                    proof {
                        assert(!may_be_hidden(rel[i - n], i - n, own_dir@));
                    }
                    return false;
                }
            }
            i += 1;
        }
        true
    }
}

/// The rule in the settings, ready to be used, given where its path lies.
pub open spec fn compiled_path_rule(r: PathRule, path: Seq<PartView>) -> PathRuleView {
    PathRuleView {
        verb: r.verb,
        raw: r.path@,
        path,
        exact: r.exact,
        except_hidden: r.except_hidden,
        mode: r.mode,
    }
}

/// The rules on paths in the settings, ready to be used, given where the path of
/// each lies.
pub open spec fn compiled_path_rules(
    rs: Seq<PathRule>,
    places: Seq<Vec<PathPart>>,
) -> Seq<PathRuleView> {
    Seq::new(rs.len(), |i: int| compiled_path_rule(rs[i], views::views(places[i]@)))
}

/// The rules, ready to be used. Rules decide in their order, and the first that
/// matches decides. Where none does, the default of the kind of rule does, else
/// the general one. `read_exempt` lists what may always be read, and `own_dir`
/// is the program's own directory in a workspace.
#[derive(Debug)]
pub struct Permissions {
    pub default: Verb,
    pub paths_default: Option<Verb>,
    pub shell_default: Option<Verb>,
    pub paths: Vec<CompiledPathRule>,
    pub shell: Vec<CompiledShellRule>,
    pub read_exempt: Vec<Vec<PathPart>>,
    pub own_dir: String,
}

/// Whether the path may always be read.
pub open spec fn is_exempt(roots: Seq<Vec<PathPart>>, path: Seq<PartView>) -> bool {
    exists|i: int|
        0 <= i < roots.len() && paths::is_below(path, views::views((#[trigger] roots[i])@))
}

/// Whether the rule decides what is done with the path.
pub open spec fn rule_decides(
    r: PathRuleView,
    kind: PathKind,
    path: Seq<PartView>,
    own_dir: Seq<char>,
) -> bool {
    !(r.mode == Mode::Ro && kind == PathKind::Write) && rule_matches(r, path, own_dir)
}

/// Where the first rule that decides stands, from the place on.
pub open spec fn deciding_from(
    rs: Seq<PathRuleView>,
    kind: PathKind,
    path: Seq<PartView>,
    own_dir: Seq<char>,
    i: int,
) -> Option<int>
    decreases rs.len() - i,
{
    if i < 0 || i >= rs.len() {
        None
    } else if rule_decides(rs[i], kind, path, own_dir) {
        Some(i)
    } else {
        deciding_from(rs, kind, path, own_dir, i + 1)
    }
}

/// Where the first rule that matches the command stands, from the place on.
pub open spec fn matching_from(
    rs: Seq<ShellRuleView>,
    command: Seq<char>,
    i: int,
) -> Option<int>
    decreases rs.len() - i,
{
    if i < 0 || i >= rs.len() {
        None
    } else if command_matches(rs[i].matcher, command) {
        Some(i)
    } else {
        matching_from(rs, command, i + 1)
    }
}

/// The decision where no rule decides.
pub open spec fn fallback_decision(
    own: Option<Verb>,
    label: Seq<char>,
    general: Verb,
) -> DecisionView {
    match own {
        Some(v) => decision_of(v, label + " fallback: "@ + verb_text(v) + "-all"@),
        None => decision_of(general, "permissions default: "@ + verb_text(general) + "-all"@),
    }
}

fn fallback(own: Option<Verb>, label: &str, general: Verb) -> (r: Decision)
    ensures
        r@ == fallback_decision(own, label@, general),
{
    match own {
        Some(v) => {
            let mut s: String = label.to_owned();
            s.append(" fallback: ");
            s.append(v.as_str());
            s.append("-all");
            verb_decision(v, s)
        },
        None => {
            let mut s: String = "permissions default: ".to_owned();
            s.append(general.as_str());
            s.append("-all");
            verb_decision(general, s)
        },
    }
}

/// The reason that a rule gives.
pub open spec fn rule_reason(label: Seq<char>, v: Verb, raw: Seq<char>) -> Seq<char> {
    label + ": "@ + verb_text(v) + " \""@ + raw + "\""@
}

fn reason(label: &str, verb: Verb, raw: &str) -> (r: String)
    ensures
        r@ == rule_reason(label@, verb, raw@),
{
    let mut s: String = label.to_owned();
    s.append(": ");
    s.append(verb.as_str());
    s.append(" \"");
    s.append(raw);
    s.append("\"");
    s
}

impl Permissions {
    /// The decision on a path.
    pub open spec fn path_decision(&self, kind: PathKind, path: Seq<PartView>) -> DecisionView {
        let rs = views::views(self.paths@);
        if kind == PathKind::Read && is_exempt(self.read_exempt@, path) {
            DecisionView::Allow
        } else {
            match deciding_from(rs, kind, path, self.own_dir@, 0) {
                Some(i) => decision_of(
                    rs[i].verb,
                    rule_reason("paths"@, rs[i].verb, rs[i].raw),
                ),
                None => fallback_decision(self.paths_default, "paths"@, self.default),
            }
        }
    }

    /// The decision on a command.
    pub open spec fn shell_decision(&self, command: Seq<char>) -> DecisionView {
        let rs = views::views(self.shell@);
        match matching_from(rs, command, 0) {
            Some(i) => decision_of(
                rs[i].verb,
                rule_reason("shell-patterns"@, rs[i].verb, rs[i].raw),
            ),
            None => fallback_decision(self.shell_default, "shell-patterns"@, self.default),
        }
    }

    /// Whether these are the rules in the settings, given where the path of each
    /// lies, what may always be read, and the program's own directory.
    pub open spec fn built_from(
        &self,
        config: PermissionsConfig,
        rule_paths: Seq<Vec<PathPart>>,
        read_exempt: Seq<Vec<PathPart>>,
        own_dir: Seq<char>,
    ) -> bool {
        &&& self.default == (match config.default {
            Some(v) => v,
            None => Verb::Ask,
        })
        &&& self.paths_default == config.paths.default
        &&& self.shell_default == config.shell.default
        &&& compiled_shell_rules(config.shell.rules@) == Ok::<Seq<ShellRuleView>, Seq<char>>(
            views::views(self.shell@),
        )
        &&& views::views(self.paths@) == compiled_path_rules(config.paths.rules@, rule_paths)
        &&& self.read_exempt@ == read_exempt
        &&& self.own_dir@ == own_dir
    }

    /// The rules in the settings, ready to be used, given where the path of each
    /// lies. A pattern that cannot be compiled is an error.
    pub fn build(
        config: &PermissionsConfig,
        rule_paths: &Vec<Vec<PathPart>>,
        read_exempt: Vec<Vec<PathPart>>,
        own_dir: &str,
    ) -> (r: Result<Self, String>)
        requires
            rule_paths@.len() == config.paths.rules@.len(),
        ensures
            match compiled_shell_rules(config.shell.rules@) {
                Err(m) => r matches Err(e) && e@ == m,
                Ok(_) => r matches Ok(p) && p.built_from(
                    *config,
                    rule_paths@,
                    read_exempt@,
                    own_dir@,
                ),
            },
    {
        let ghost compiled = compiled_path_rules(config.paths.rules@, rule_paths@);
        let mut paths: Vec<CompiledPathRule> = Vec::new();
        let mut i: usize = 0;
        proof {
            assert(views::views(paths@) =~= compiled.take(0));
        }
        while i < config.paths.rules.len()
            invariant
                rule_paths@.len() == config.paths.rules@.len(),
                compiled == compiled_path_rules(config.paths.rules@, rule_paths@),
                i <= config.paths.rules@.len(),
                views::views(paths@) =~= compiled.take(i as int),
            decreases config.paths.rules@.len() - i,
        {
            let ghost before = paths@;
            let rule = CompiledPathRule::build(&config.paths.rules[i], &rule_paths[i]);
            paths.push(rule);
            proof {
                assert(views::views(paths@) =~= views::views(before).push(rule@));
            }
            i += 1;
        }
        proof {
            assert(compiled.take(i as int) =~= compiled);
        }
        let rules = &config.shell.rules;
        let mut shell: Vec<CompiledShellRule> = Vec::new();
        let mut j: usize = 0;
        proof {
            assert(views::views(shell@) =~= Seq::empty());
            assert(rules@.take(0) =~= Seq::empty());
        }
        while j < rules.len()
            invariant
                rules@ == config.shell.rules@,
                j <= rules@.len(),
                compiled_shell_rules(rules@.take(j as int)) == Ok::<
                    Seq<ShellRuleView>,
                    Seq<char>,
                >(views::views(shell@)),
            decreases rules@.len() - j,
        {
            proof {
                assert(rules@.take(j + 1).drop_last() =~= rules@.take(j as int));
                lemma_first_fault(rules@, j + 1);
            }
            let ghost before = shell@;
            match CompiledShellRule::build(&rules[j]) {
                Ok(rule) => {
                    shell.push(rule);
                    proof {
                        assert(views::views(shell@) =~= views::views(before).push(rule@));
                    }
                },
                Err(e) => return Err(e),
            }
            j += 1;
        }
        proof {
            assert(rules@.take(j as int) =~= rules@);
        }
        let default = match config.default {
            Some(v) => v,
            None => Verb::Ask,
        };
        Ok(
            Permissions {
                default,
                paths_default: config.paths.default,
                shell_default: config.shell.default,
                paths,
                shell,
                read_exempt,
                own_dir: own_dir.to_owned(),
            },
        )
    }

    /// The decision on a path.
    pub fn check_path(&self, kind: PathKind, path: &Vec<PathPart>) -> (r: Decision)
        ensures
            r@ == self.path_decision(kind, views::views(path@)),
    {
        let ghost p = views::views(path@);
        if kind == PathKind::Read {
            let mut i: usize = 0;
            while i < self.read_exempt.len()
                invariant
                    p == views::views(path@),
                    i <= self.read_exempt@.len(),
                    forall|k: int|
                        0 <= k < i ==> !paths::is_below(
                            p,
                            views::views((#[trigger] self.read_exempt@[k])@),
                        ),
                    kind == PathKind::Read,
                decreases self.read_exempt@.len() - i,
            {
                if below(path, &self.read_exempt[i]) {
                    proof {
                        assert(is_exempt(self.read_exempt@, p));
                    }
                    return Decision::Allow;
                }
                i += 1;
            }
            proof {
                assert(!is_exempt(self.read_exempt@, p));
            }
        }
        let ghost rs = views::views(self.paths@);
        let mut i: usize = 0;
        while i < self.paths.len()
            invariant
                p == views::views(path@),
                rs == views::views(self.paths@),
                i <= self.paths@.len(),
                !(kind == PathKind::Read && is_exempt(self.read_exempt@, p)),
                deciding_from(rs, kind, p, self.own_dir@, 0) == deciding_from(
                    rs,
                    kind,
                    p,
                    self.own_dir@,
                    i as int,
                ),
            decreases self.paths@.len() - i,
        {
            let rule = &self.paths[i];
            proof {
                assert(rs[i as int] == rule@);
            }
            let skipped = rule.mode == Mode::Ro && kind == PathKind::Write;
            if !skipped && rule.matches(path, self.own_dir.as_str()) {
                return verb_decision(rule.verb, reason("paths", rule.verb, rule.raw.as_str()));
            }
            i += 1;
        }
        fallback(self.paths_default, "paths", self.default)
    }

    /// The decision on a command. Rules on paths have no say in it.
    pub fn check_shell(&self, command: &str) -> (r: Decision)
        ensures
            r@ == self.shell_decision(command@),
    {
        let collapsed_command = collapse_whitespace(command);
        let ghost rs = views::views(self.shell@);
        let mut i: usize = 0;
        while i < self.shell.len()
            invariant
                rs == views::views(self.shell@),
                collapsed_command@ == collapsed(command@),
                i <= self.shell@.len(),
                matching_from(rs, command@, 0) == matching_from(rs, command@, i as int),
            decreases self.shell@.len() - i,
        {
            let rule = &self.shell[i];
            proof {
                assert(rs[i as int] == rule@);
            }
            if rule.matcher.matches_command(command, collapsed_command.as_str()) {
                return verb_decision(
                    rule.verb,
                    reason("shell-patterns", rule.verb, rule.raw.as_str()),
                );
            }
            i += 1;
        }
        fallback(self.shell_default, "shell-patterns", self.default)
    }

    /// The watcher over what commands put out, if any rule denies.
    pub fn output_interrupt(&self) -> (r: Option<OutputInterrupt<'_>>)
        ensures
            match r {
                Some(w) => has_deny(views::views(self.shell@)) && w.rules@ == self.shell@,
                None => !has_deny(views::views(self.shell@)),
            },
    {
        let ghost rs = views::views(self.shell@);
        let mut i: usize = 0;
        while i < self.shell.len()
            invariant
                rs == views::views(self.shell@),
                i <= self.shell@.len(),
                forall|k: int| 0 <= k < i ==> (#[trigger] rs[k]).verb != Verb::Deny,
            decreases self.shell@.len() - i,
        {
            proof {
                assert(rs[i as int] == self.shell@[i as int]@);
            }
            if self.shell[i].verb == Verb::Deny {
                return Some(OutputInterrupt { rules: &self.shell });
            }
            i += 1;
        }
        None
    }
}

/// Whether any rule denies.
pub open spec fn has_deny(rs: Seq<ShellRuleView>) -> bool {
    exists|i: int| 0 <= i < rs.len() && (#[trigger] rs[i]).verb == Verb::Deny
}

/// The watcher over what commands put out: any rule that denies cuts the turn
/// when its pattern turns up.
#[derive(Debug)]
pub struct OutputInterrupt<'a> {
    pub rules: &'a Vec<CompiledShellRule>,
}

/// Where the first denying rule that matches the output stands, from the place on.
pub open spec fn tripped_from(rs: Seq<ShellRuleView>, output: Seq<char>, i: int) -> Option<int>
    decreases rs.len() - i,
{
    if i < 0 || i >= rs.len() {
        None
    } else if rs[i].verb == Verb::Deny && output_matches(rs[i].matcher, output) {
        Some(i)
    } else {
        tripped_from(rs, output, i + 1)
    }
}

impl<'a> OutputInterrupt<'a> {
    /// The rule that the output trips, in words.
    pub fn check(&self, output: &str) -> (r: Option<String>)
        ensures
            views::opt_view(r) == ({
                let rs = views::views(self.rules@);
                match tripped_from(rs, output@, 0) {
                    Some(i) => Some(
                        "shell-patterns: deny \""@ + rs[i].raw + "\" (matched command output)"@,
                    ),
                    None => None,
                }
            }),
    {
        let ghost rs = views::views(self.rules@);
        let mut i: usize = 0;
        while i < self.rules.len()
            invariant
                rs == views::views(self.rules@),
                i <= self.rules@.len(),
                tripped_from(rs, output@, 0) == tripped_from(rs, output@, i as int),
            decreases self.rules@.len() - i,
        {
            let rule = &self.rules[i];
            proof {
                assert(rs[i as int] == rule@);
            }
            if rule.verb == Verb::Deny && rule.matcher.matches_text(output) {
                let mut s: String = "shell-patterns: deny \"".to_owned();
                s.append(rule.raw.as_str());
                s.append("\" (matched command output)");
                return Some(s);
            }
            i += 1;
        }
        None
    }
}

/// What to do about a tool call: let it go on, refuse it and cut the turn, or
/// ask the user.
#[derive(Debug)]
pub enum Verdict {
    Proceed,
    Refuse { error: String },
    AskUser { description: String, reason: String },
}

/// The content of a [`Verdict`].
#[verifier::ext_equal]
pub enum VerdictView {
    Proceed,
    Refuse { error: Seq<char> },
    AskUser { description: Seq<char>, reason: Seq<char> },
}

impl View for Verdict {
    type V = VerdictView;

    open spec fn view(&self) -> VerdictView {
        match self {
            Verdict::Proceed => VerdictView::Proceed,
            Verdict::Refuse { error } => VerdictView::Refuse { error: error@ },
            Verdict::AskUser { description, reason } => VerdictView::AskUser {
                description: description@,
                reason: reason@,
            },
        }
    }
}

/// What to do about a tool call with the decision, where the question to the
/// user begins as given.
pub open spec fn verdict_of(d: DecisionView, question: Seq<char>) -> VerdictView {
    match d {
        DecisionView::Allow => VerdictView::Proceed,
        DecisionView::Deny { reason } => VerdictView::Refuse {
            error: "permission denied: "@ + reason,
        },
        DecisionView::Ask { reason } => VerdictView::AskUser {
            description: question + reason,
            reason,
        },
    }
}

/// What the user is asked about a path.
pub open spec fn path_question(kind: PathKind, display: Seq<char>) -> Seq<char> {
    "Allow "@ + action_text(kind) + " `"@ + display + "`?\n"@
}

/// What the user is asked about a command.
pub open spec fn shell_question(command: Seq<char>) -> Seq<char> {
    "Allow running this command?\n"@ + command + "\n"@
}

fn verdict(decision: Decision, question: String, cut: &mut DenyCut) -> (r: Verdict)
    ensures
        r@ == verdict_of(decision@, question@),
        final(cut).set == (old(cut).set || decision@ is Deny),
{
    match decision {
        Decision::Allow => Verdict::Proceed,
        Decision::Deny { reason } => {
            cut.trigger();
            let mut error: String = "permission denied: ".to_owned();
            error.append(reason.as_str());
            Verdict::Refuse { error }
        },
        Decision::Ask { reason } => {
            let mut description = question;
            description.append(reason.as_str());
            Verdict::AskUser { description, reason }
        },
    }
}

/// What came of asking the user.
#[derive(Debug)]
pub enum PermissionReply {
    Allowed,
    Denied,
    Failed(String),
}

/// Whether the call may go on after the user was asked. A refusal by the user
/// cuts the turn.
pub fn after_reply(reply: PermissionReply, reason: &str, cut: &mut DenyCut) -> (r: Result<
    (),
    String,
>)
    ensures
        match reply {
            PermissionReply::Allowed => r is Ok,
            PermissionReply::Denied => r matches Err(e) && e@ == "permission denied by the user: "@
                + reason@,
            PermissionReply::Failed(m) => r == Err::<(), String>(m),
        },
        final(cut).set == (old(cut).set || reply is Denied),
{
    match reply {
        PermissionReply::Allowed => Ok(()),
        PermissionReply::Denied => {
            cut.trigger();
            let mut error: String = "permission denied by the user: ".to_owned();
            error.append(reason);
            Err(error)
        },
        PermissionReply::Failed(m) => Err(m),
    }
}

impl Permissions {
    /// What to do about a tool call on a path. A denial cuts the turn.
    pub fn authorize_path(
        &self,
        cut: &mut DenyCut,
        kind: PathKind,
        path: &Vec<PathPart>,
        display: &str,
    ) -> (r: Verdict)
        ensures
            r@ == verdict_of(
                self.path_decision(kind, views::views(path@)),
                path_question(kind, display@),
            ),
            final(cut).set == (old(cut).set || self.path_decision(
                kind,
                views::views(path@),
            ) is Deny),
    {
        let mut question: String = "Allow ".to_owned();
        question.append(kind.action());
        question.append(" `");
        question.append(display);
        question.append("`?\n");
        verdict(self.check_path(kind, path), question, cut)
    }

    /// What to do about a command. A denial cuts the turn.
    pub fn authorize_shell(&self, cut: &mut DenyCut, command: &str) -> (r: Verdict)
        ensures
            r@ == verdict_of(self.shell_decision(command@), shell_question(command@)),
            final(cut).set == (old(cut).set || self.shell_decision(command@) is Deny),
    {
        let mut question: String = "Allow running this command?\n".to_owned();
        question.append(command);
        question.append("\n");
        verdict(self.check_shell(command), question, cut)
    }
}

/// The rules on paths that match writing too.
pub open spec fn for_writing(rs: Seq<PathRule>) -> Seq<PathRule>
    decreases rs.len(),
{
    if rs.len() == 0 {
        rs
    } else if rs.last().mode == Mode::Rw {
        for_writing(rs.drop_last()).push(rs.last())
    } else {
        for_writing(rs.drop_last())
    }
}

/// Where the paths of the rules lie that match writing too.
pub open spec fn places_for_writing(
    rs: Seq<PathRule>,
    places: Seq<Vec<PathPart>>,
) -> Seq<Vec<PathPart>>
    decreases rs.len(),
{
    if rs.len() == 0 {
        Seq::empty()
    } else if rs.last().mode == Mode::Rw {
        places_for_writing(rs.drop_last(), places).push(places[rs.len() - 1])
    } else {
        places_for_writing(rs.drop_last(), places)
    }
}

/// The first rule that decides is the first among the others, else the last one.
proof fn lemma_deciding_last(
    rs: Seq<PathRuleView>,
    kind: PathKind,
    path: Seq<PartView>,
    own_dir: Seq<char>,
)
    requires
        rs.len() > 0,
    ensures
        deciding_from(rs, kind, path, own_dir, 0) == match deciding_from(
            rs.drop_last(),
            kind,
            path,
            own_dir,
            0,
        ) {
            Some(k) => Some(k),
            None => if rule_decides(rs.last(), kind, path, own_dir) {
                Some(rs.len() - 1)
            } else {
                None
            },
        },
{
    let front = rs.drop_last();
    lemma_first_match_decides(rs, kind, path, own_dir, 0);
    lemma_first_match_decides(front, kind, path, own_dir, 0);
    assert forall|i: int| 0 <= i < front.len() implies front[i] == rs[i] by {}
    match (deciding_from(rs, kind, path, own_dir, 0), deciding_from(front, kind, path, own_dir, 0)) {
        (Some(a), Some(b)) => {
            assert(rule_decides(front[b], kind, path, own_dir));
            if a < b {
                assert(rule_decides(front[a], kind, path, own_dir));
            }
        },
        (Some(a), None) => {
            if a < front.len() {
                assert(rule_decides(front[a], kind, path, own_dir));
            }
        },
        (None, Some(b)) => {
            assert(rule_decides(rs[b], kind, path, own_dir));
        },
        (None, None) => {},
    }
}

/// The rule that decides, if one does.
pub open spec fn deciding_rule(
    rs: Seq<PathRuleView>,
    kind: PathKind,
    path: Seq<PartView>,
    own_dir: Seq<char>,
) -> Option<PathRuleView> {
    match deciding_from(rs, kind, path, own_dir, 0) {
        Some(i) => Some(rs[i]),
        None => None,
    }
}

proof fn lemma_writes_are_decided_by_the_rest(
    rs: Seq<PathRule>,
    places: Seq<Vec<PathPart>>,
    path: Seq<PartView>,
    own_dir: Seq<char>,
)
    requires
        rs.len() <= places.len(),
    ensures
        for_writing(rs).len() == places_for_writing(rs, places).len(),
        deciding_rule(compiled_path_rules(rs, places), PathKind::Write, path, own_dir)
            == deciding_rule(
            compiled_path_rules(for_writing(rs), places_for_writing(rs, places)),
            PathKind::Write,
            path,
            own_dir,
        ),
    decreases rs.len(),
{
    let all = compiled_path_rules(rs, places);
    let kept = compiled_path_rules(for_writing(rs), places_for_writing(rs, places));
    if rs.len() == 0 {
        assert(all =~= kept);
    } else {
        let front = rs.drop_last();
        let before = compiled_path_rules(for_writing(front), places_for_writing(front, places));
        lemma_writes_are_decided_by_the_rest(front, places, path, own_dir);
        assert(all.drop_last() =~= compiled_path_rules(front, places));
        lemma_deciding_last(all, PathKind::Write, path, own_dir);
        lemma_first_match_decides(all.drop_last(), PathKind::Write, path, own_dir, 0);
        if rs.last().mode == Mode::Rw {
            assert(kept =~= before.push(all.last()));
            assert(kept.drop_last() =~= before);
            lemma_deciding_last(kept, PathKind::Write, path, own_dir);
            lemma_first_match_decides(before, PathKind::Write, path, own_dir, 0);
        } else {
            assert(kept =~= before);
        }
    }
}

/// Rules that match reading alone have no say in writing: a write is decided as
/// if they were not in the settings.
pub proof fn lemma_read_only_rules_never_decide_writes(
    p: Permissions,
    config: PermissionsConfig,
    rule_paths: Seq<Vec<PathPart>>,
    q: Permissions,
    trimmed: PermissionsConfig,
    read_exempt: Seq<Vec<PathPart>>,
    own_dir: Seq<char>,
    path: Seq<PartView>,
)
    requires
        rule_paths.len() == config.paths.rules@.len(),
        p.built_from(config, rule_paths, read_exempt, own_dir),
        trimmed.default == config.default,
        trimmed.paths.default == config.paths.default,
        trimmed.paths.rules@ == for_writing(config.paths.rules@),
        q.built_from(
            trimmed,
            places_for_writing(config.paths.rules@, rule_paths),
            read_exempt,
            own_dir,
        ),
    ensures
        p.path_decision(PathKind::Write, path) == q.path_decision(PathKind::Write, path),
{
    lemma_writes_are_decided_by_the_rest(config.paths.rules@, rule_paths, path, own_dir);
}

/// The first rule that matches decides: no rule before it decides.
pub proof fn lemma_first_match_decides(
    rs: Seq<PathRuleView>,
    kind: PathKind,
    path: Seq<PartView>,
    own_dir: Seq<char>,
    i: int,
)
    requires
        0 <= i,
    ensures
        match deciding_from(rs, kind, path, own_dir, i) {
            Some(k) => {
                &&& i <= k < rs.len()
                &&& rule_decides(rs[k], kind, path, own_dir)
                &&& forall|j: int|
                    i <= j < k ==> !rule_decides(#[trigger] rs[j], kind, path, own_dir)
            },
            None => forall|j: int|
                i <= j < rs.len() ==> !rule_decides(#[trigger] rs[j], kind, path, own_dir),
        },
    decreases rs.len() - i,
{
    if i < rs.len() && !rule_decides(rs[i], kind, path, own_dir) {
        lemma_first_match_decides(rs, kind, path, own_dir, i + 1);
    }
}

}
