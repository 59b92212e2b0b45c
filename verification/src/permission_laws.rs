//! What holds of every set of permissions.

use crate::paths;
use crate::paths::{PartView, PathPart};
use crate::permissions;
use crate::permissions::{
    CompiledPathRule, CompiledShellRule, Decision, Mode, PathKind, Permissions,
    PermissionsConfig, ShellPatternKind, ShellRule, Verb, Verdict,
};
use crate::text;
use crate::views;
use vstd::prelude::*;

verus! {

/// Whether the decision is what the verb says, and gives the rule as its reason.
pub open spec fn decided(d: Decision, verb: Verb, label: Seq<char>, raw: Seq<char>) -> bool {
    match verb {
        Verb::Allow => d is Allow,
        Verb::Ask => d matches Decision::Ask { reason } && reason@ == label + ": ask \""@ + raw
            + "\""@,
        Verb::Deny => d matches Decision::Deny { reason } && reason@ == label + ": deny \""@ + raw
            + "\""@,
    }
}

/// Whether the decision is what the verb says.
pub open spec fn follows(d: Decision, verb: Verb) -> bool {
    match verb {
        Verb::Allow => d is Allow,
        Verb::Ask => d is Ask,
        Verb::Deny => d is Deny,
    }
}

proof fn lemma_reason(label: Seq<char>, verb: Verb, raw: Seq<char>)
    ensures
        verb == Verb::Ask ==> permissions::rule_reason(label, verb, raw) == label + ": ask \""@
            + raw + "\""@,
        verb == Verb::Deny ==> permissions::rule_reason(label, verb, raw) == label + ": deny \""@
            + raw + "\""@,
{
    reveal_strlit(": ");
    reveal_strlit("ask");
    reveal_strlit("deny");
    reveal_strlit(" \"");
    reveal_strlit("\"");
    reveal_strlit(": ask \"");
    reveal_strlit(": deny \"");
    assert(": "@ + "ask"@ + " \""@ =~= ": ask \""@);
    assert(": "@ + "deny"@ + " \""@ =~= ": deny \""@);
    let r = permissions::rule_reason(label, verb, raw);
    if verb == Verb::Ask {
        assert(r =~= label + ": ask \""@ + raw + "\""@);
    } else if verb == Verb::Deny {
        assert(r =~= label + ": deny \""@ + raw + "\""@);
    }
}

proof fn lemma_matching_from(
    rs: Seq<permissions::ShellRuleView>,
    command: Seq<char>,
    i: int,
)
    requires
        0 <= i,
    ensures
        match permissions::matching_from(rs, command, i) {
            Some(k) => {
                &&& i <= k < rs.len()
                &&& permissions::command_matches(rs[k].matcher, command)
                &&& forall|j: int|
                    i <= j < k ==> !permissions::command_matches(
                        (#[trigger] rs[j]).matcher,
                        command,
                    )
            },
            None => forall|j: int|
                i <= j < rs.len() ==> !permissions::command_matches(
                    (#[trigger] rs[j]).matcher,
                    command,
                ),
        },
    decreases rs.len() - i,
{
    if i < rs.len() && !permissions::command_matches(rs[i].matcher, command) {
        lemma_matching_from(rs, command, i + 1);
    }
}

/// The first rule that matches a command decides on it, whatever comes after it.
pub proof fn lemma_first_rule_decides_a_command(
    p: Permissions,
    command: Seq<char>,
    d: Decision,
    k: int,
)
    requires
        d@ == p.shell_decision(command),
        0 <= k < p.shell@.len(),
        permissions::command_matches(p.shell@[k].matcher@, command),
        forall|j: int|
            0 <= j < k ==> !permissions::command_matches(
                (#[trigger] p.shell@[j]).matcher@,
                command,
            ),
    ensures
        decided(d, p.shell@[k].verb, "shell-patterns"@, p.shell@[k].raw@),
{
    let rs = views::views(p.shell@);
    lemma_matching_from(rs, command, 0);
    assert(rs[k] == p.shell@[k]@);
    lemma_reason("shell-patterns"@, p.shell@[k].verb, p.shell@[k].raw@);
    match permissions::matching_from(rs, command, 0) {
        Some(i) => {
            assert(rs[i] == p.shell@[i]@);
            if i < k {
                assert(!permissions::command_matches(p.shell@[i].matcher@, command));
            }
        },
        None => {},
    }
}

/// Where no rule matches a command the default for commands decides, and without
/// one the general default.
pub proof fn lemma_default_decides_a_command(p: Permissions, command: Seq<char>, d: Decision)
    requires
        d@ == p.shell_decision(command),
        forall|j: int|
            0 <= j < p.shell@.len() ==> !permissions::command_matches(
                (#[trigger] p.shell@[j]).matcher@,
                command,
            ),
    ensures
        p.shell_default matches Some(v) ==> follows(d, v),
        p.shell_default is None ==> follows(d, p.default),
{
    let rs = views::views(p.shell@);
    lemma_matching_from(rs, command, 0);
    if let Some(i) = permissions::matching_from(rs, command, 0) {
        assert(rs[i] == p.shell@[i]@);
        assert(!permissions::command_matches(p.shell@[i].matcher@, command));
    }
}

/// The first rule that says something of what is done with a path decides on it.
/// Reading what may always be read is allowed, whatever the rules are.
pub proof fn lemma_first_rule_decides_a_path(
    p: Permissions,
    kind: PathKind,
    path: Seq<PartView>,
    d: Decision,
    k: int,
)
    requires
        d@ == p.path_decision(kind, path),
        0 <= k < p.paths@.len(),
        permissions::rule_decides(p.paths@[k]@, kind, path, p.own_dir@),
        forall|j: int|
            0 <= j < k ==> !permissions::rule_decides(
                (#[trigger] p.paths@[j])@,
                kind,
                path,
                p.own_dir@,
            ),
    ensures
        kind == PathKind::Read && permissions::is_exempt(p.read_exempt@, path) ==> d is Allow,
        kind == PathKind::Write || !permissions::is_exempt(p.read_exempt@, path) ==> decided(
            d,
            p.paths@[k].verb,
            "paths"@,
            p.paths@[k].raw@,
        ),
{
    let rs = views::views(p.paths@);
    permissions::lemma_first_match_decides(rs, kind, path, p.own_dir@, 0);
    assert(rs[k] == p.paths@[k]@);
    lemma_reason("paths"@, p.paths@[k].verb, p.paths@[k].raw@);
    match permissions::deciding_from(rs, kind, path, p.own_dir@, 0) {
        Some(i) => {
            assert(rs[i] == p.paths@[i]@);
            if i < k {
                assert(!permissions::rule_decides(p.paths@[i]@, kind, path, p.own_dir@));
            }
        },
        None => {},
    }
}

/// Where no rule says anything of a path the default for paths decides, and
/// without one the general default.
pub proof fn lemma_default_decides_a_path(
    p: Permissions,
    kind: PathKind,
    path: Seq<PartView>,
    d: Decision,
)
    requires
        d@ == p.path_decision(kind, path),
        kind == PathKind::Write || !permissions::is_exempt(p.read_exempt@, path),
        forall|j: int|
            0 <= j < p.paths@.len() ==> !permissions::rule_decides(
                (#[trigger] p.paths@[j])@,
                kind,
                path,
                p.own_dir@,
            ),
    ensures
        p.paths_default matches Some(v) ==> follows(d, v),
        p.paths_default is None ==> follows(d, p.default),
{
    let rs = views::views(p.paths@);
    permissions::lemma_first_match_decides(rs, kind, path, p.own_dir@, 0);
    if let Some(i) = permissions::deciding_from(rs, kind, path, p.own_dir@, 0) {
        assert(rs[i] == p.paths@[i]@);
        assert(!permissions::rule_decides(p.paths@[i]@, kind, path, p.own_dir@));
    }
}

/// Whether the path begins with the components of the base.
pub open spec fn starts_with(path: Seq<PathPart>, base: Seq<PathPart>) -> bool {
    &&& base.len() <= path.len()
    &&& forall|i: int| 0 <= i < base.len() ==> (#[trigger] path[i])@ == base[i]@
}

/// A rule without exceptions says something of what lies at or below its path; an
/// exact one of its path alone. A rule for reading says nothing of writing.
pub proof fn lemma_rule_covers_what_lies_below(
    r: CompiledPathRule,
    kind: PathKind,
    path: Seq<PathPart>,
    own_dir: Seq<char>,
)
    requires
        !r.except_hidden,
    ensures
        permissions::rule_decides(r@, kind, views::views(path), own_dir) <==> {
            &&& starts_with(path, r.path@)
            &&& r.exact ==> path.len() == r.path@.len()
            &&& r.mode == Mode::Rw || kind == PathKind::Read
        },
{
    let (x, y) = (views::views(path), views::views(r.path@));
    assert(x.len() == path.len() && y.len() == r.path@.len());
    if starts_with(path, r.path@) {
        assert forall|i: int| 0 <= i < y.len() implies #[trigger] x[i] == y[i] by {
            assert(path[i]@ == r.path@[i]@);
        }
        assert(x.take(y.len() as int) =~= y);
        if path.len() == r.path@.len() {
            assert(x =~= y);
        }
    }
    if paths::is_below(x, y) {
        assert forall|i: int| 0 <= i < r.path@.len() implies (#[trigger] path[i])@
            == r.path@[i]@ by {
            assert(x.take(y.len() as int)[i] == y[i]);
            assert(x[i] == path[i]@);
        }
    }
    if x == y {
        assert(x.take(y.len() as int) =~= y);
    }
}

/// Whether the component is a name that begins with a dot, and more than dots
/// that lead nowhere or up.
pub open spec fn is_dotted(p: PathPart) -> bool {
    p matches PathPart::Name(s) && s@.len() > 0 && s@[0] == '.' && s@ != "."@ && s@ != ".."@
}

/// A rule that leaves out what is hidden says nothing of a path with a dotted name
/// below its own, but for the agents' and the program's own directory at the top.
/// Of a path without one it says what it would say anyway.
pub proof fn lemma_hidden_paths_are_left_out(
    r: CompiledPathRule,
    kind: PathKind,
    path: Seq<PathPart>,
    own_dir: Seq<char>,
    k: int,
)
    requires
        r.except_hidden,
        starts_with(path, r.path@),
        r.path@.len() <= k < path.len(),
        is_dotted(path[k]),
    ensures
        k > r.path@.len() ==> !permissions::rule_decides(r@, kind, views::views(path), own_dir),
        k == r.path@.len() && path[k]->Name_0@ != ".agents"@ && path[k]->Name_0@ != own_dir
            ==> !permissions::rule_decides(r@, kind, views::views(path), own_dir),
{
    reveal_strlit(".");
    let (x, y) = (views::views(path), views::views(r.path@));
    let rel = paths::relative(x, y);
    assert forall|i: int| 0 <= i < y.len() implies #[trigger] x[i] == y[i] by {
        assert(path[i]@ == r.path@[i]@);
    }
    assert(x.take(y.len() as int) =~= y);
    let i = k - y.len();
    assert(rel[i] == path[k]@);
    let name = path[k]->Name_0@;
    assert(name.take(1) =~= "."@);
    assert(paths::is_hidden(rel[i]));
    if permissions::is_visible(rel, own_dir) {
        assert(permissions::may_be_hidden(rel[i], i, own_dir));
    }
}

/// A path without dotted names below a rule's own is covered by the rule as if it
/// had no exceptions.
pub proof fn lemma_plain_paths_are_covered(
    r: CompiledPathRule,
    kind: PathKind,
    path: Seq<PathPart>,
    own_dir: Seq<char>,
)
    requires
        r.except_hidden,
        !r.exact,
        starts_with(path, r.path@),
        r.mode == Mode::Rw || kind == PathKind::Read,
        forall|i: int|
            r.path@.len() <= i < path.len() ==> !is_dotted(#[trigger] path[i]) && !(path[i]
                is Prefix),
    ensures
        permissions::rule_decides(r@, kind, views::views(path), own_dir),
{
    reveal_strlit(".");
    let (x, y) = (views::views(path), views::views(r.path@));
    assert forall|i: int| 0 <= i < y.len() implies #[trigger] x[i] == y[i] by {
        assert(path[i]@ == r.path@[i]@);
    }
    assert(x.take(y.len() as int) =~= y);
    let rel = paths::relative(x, y);
    assert forall|i: int| 0 <= i < rel.len() implies !paths::is_hidden(#[trigger] rel[i]) by {
        let part = path[y.len() + i];
        assert(rel[i] == part@);
        assert(!is_dotted(part));
        if let PathPart::Name(s) = part {
            if text::has_prefix(s@, "."@) {
                assert(s@.take(1)[0] == '.');
            }
        }
    }
}

/// What may always be read lies at or below one of the places for it.
pub proof fn lemma_exempt_lies_below(roots: Seq<Vec<PathPart>>, path: Seq<PathPart>)
    ensures
        permissions::is_exempt(roots, views::views(path)) <==> exists|i: int|
            0 <= i < roots.len() && starts_with(path, (#[trigger] roots[i])@),
{
    let x = views::views(path);
    assert forall|i: int| 0 <= i < roots.len() implies paths::is_below(
        x,
        views::views((#[trigger] roots[i])@),
    ) == starts_with(path, roots[i]@) by {
        let base = roots[i]@;
        let y = views::views(base);
        if starts_with(path, base) {
            assert forall|j: int| 0 <= j < y.len() implies #[trigger] x[j] == y[j] by {
                assert(path[j]@ == base[j]@);
            }
            assert(x.take(y.len() as int) =~= y);
        }
        if paths::is_below(x, y) {
            assert forall|j: int| 0 <= j < base.len() implies (#[trigger] path[j])@
                == base[j]@ by {
                assert(x.take(y.len() as int)[j] == y[j]);
                assert(x[j] == path[j]@);
            }
        }
    }
}

/// Whether a character is an ASCII letter or digit.
pub open spec fn is_letter_or_digit(c: char) -> bool {
    ('a' <= c && c <= 'z') || ('A' <= c && c <= 'Z') || ('0' <= c && c <= '9')
}

/// Whether the command is the text before, the words, and the text after, with no
/// letter or digit against the words.
pub open spec fn stands_between(
    command: Seq<char>,
    before: Seq<char>,
    words: Seq<char>,
    after: Seq<char>,
) -> bool {
    &&& command == before + words + after
    &&& before.len() > 0 ==> !is_letter_or_digit(before.last())
    &&& after.len() > 0 ==> !is_letter_or_digit(after[0])
}

/// A plain rule matches a command where its words stand in it by themselves: in
/// the command with single spaces, and with no letter or digit against them.
pub proof fn lemma_plain_rule_matches_whole_words(
    r: CompiledShellRule,
    command: Seq<char>,
    words: Seq<char>,
)
    requires
        r.matcher@ == permissions::MatcherView::Raw(words),
    ensures
        permissions::command_matches(r.matcher@, command) <==> words.len() > 0 && exists|
            before: Seq<char>,
            after: Seq<char>,
        | #[trigger]
            stands_between(permissions::collapsed(command), before, words, after),
{
    let hay = permissions::collapsed(command);
    if permissions::has_word(hay, words) {
        let i = choose|i: int| #[trigger] permissions::word_at(hay, words, i);
        let (before, after) = (hay.take(i), hay.skip(i + words.len()));
        assert(before + words + after =~= hay) by {
            assert(hay.subrange(i, i + words.len()) == words);
        }
        assert(stands_between(hay, before, words, after));
    }
    if words.len() > 0 && exists|before: Seq<char>, after: Seq<char>| #[trigger]
        stands_between(hay, before, words, after) {
        let (before, after) = choose|before: Seq<char>, after: Seq<char>| #[trigger]
            stands_between(hay, before, words, after);
        let i = before.len() as int;
        assert(hay.subrange(i, i + words.len()) =~= words);
        assert(permissions::word_at(hay, words, i));
    }
}

/// White space in a command counts as one space wherever it stands, and not at all
/// at the ends; a command without any is taken as it is.
pub proof fn lemma_white_space_counts_once(a: Seq<char>, c: char, b: Seq<char>)
    requires
        text::is_space(c),
    ensures
        text::words(a).len() > 0 && text::words(b).len() > 0 ==> permissions::collapsed(
            a.push(c) + b,
        ) == permissions::collapsed(a).push(' ') + permissions::collapsed(b),
        text::words(a).len() == 0 ==> permissions::collapsed(a.push(c) + b)
            == permissions::collapsed(b),
        text::words(b).len() == 0 ==> permissions::collapsed(a.push(c) + b)
            == permissions::collapsed(a),
        a.len() > 0 && (forall|i: int| 0 <= i < a.len() ==> !text::is_space(#[trigger] a[i]))
            ==> permissions::collapsed(a) == a,
        (forall|i: int| 0 <= i < a.len() ==> text::is_space(#[trigger] a[i]))
            ==> permissions::collapsed(a).len() == 0,
{
    reveal_strlit(" ");
    text::lemma_words_are_parted(a, c, b);
    let (x, y) = (text::words(a), text::words(b));
    if x.len() > 0 && y.len() > 0 {
        text::lemma_joined_together(x, y, " "@);
        assert(permissions::collapsed(a) + " "@ =~= permissions::collapsed(a).push(' '));
    }
    if x.len() == 0 {
        assert(x + y =~= y);
    }
    if y.len() == 0 {
        assert(x + y =~= x);
    }
    text::lemma_blank_has_no_words(a);
    if a.len() > 0 && (forall|i: int| 0 <= i < a.len() ==> !text::is_space(#[trigger] a[i])) {
        text::lemma_one_word(a);
    }
}

/// The rules are those in the settings, in their order: each with its verb and its
/// pattern, plain ones with single spaces and the others as they are. Where the
/// settings have no general default the user is asked.
pub proof fn lemma_rules_are_those_in_the_settings(
    p: Permissions,
    config: PermissionsConfig,
    rule_paths: Seq<Vec<PathPart>>,
    read_exempt: Seq<Vec<PathPart>>,
    own_dir: Seq<char>,
)
    requires
        p.built_from(config, rule_paths, read_exempt, own_dir),
    ensures
        p.default == match config.default {
            Some(v) => v,
            None => Verb::Ask,
        },
        p.paths_default == config.paths.default,
        p.shell_default == config.shell.default,
        p.shell@.len() == config.shell.rules@.len(),
        forall|i: int|
            0 <= i < p.shell@.len() ==> {
                let (r, c) = (#[trigger] p.shell@[i], config.shell.rules@[i]);
                &&& r.verb == c.verb
                &&& r.raw@ == c.pattern@
                &&& c.kind == ShellPatternKind::Raw ==> r.matcher@ == permissions::MatcherView::Raw(
                    permissions::collapsed(c.pattern@),
                )
                &&& c.kind == ShellPatternKind::Regex ==> r.matcher@
                    == permissions::MatcherView::Regex(c.pattern@)
            },
        p.paths@.len() == config.paths.rules@.len(),
        forall|i: int|
            0 <= i < p.paths@.len() ==> {
                let (r, c) = (#[trigger] p.paths@[i], config.paths.rules@[i]);
                &&& r.verb == c.verb
                &&& r.raw@ == c.path@
                &&& r.exact == c.exact
                &&& r.except_hidden == c.except_hidden
                &&& r.mode == c.mode
                &&& views::views(r.path@) == views::views(rule_paths[i]@)
            },
        p.read_exempt@ == read_exempt,
        p.own_dir@ == own_dir,
{
    let rs = views::views(p.shell@);
    let ps = views::views(p.paths@);
    lemma_compiled_one_for_one(config.shell.rules@);
    assert(rs.len() == p.shell@.len() && ps.len() == p.paths@.len());
    assert forall|i: int| 0 <= i < p.shell@.len() implies {
        let (r, c) = (#[trigger] p.shell@[i], config.shell.rules@[i]);
        &&& r.verb == c.verb
        &&& r.raw@ == c.pattern@
        &&& c.kind == ShellPatternKind::Raw ==> r.matcher@ == permissions::MatcherView::Raw(
            permissions::collapsed(c.pattern@),
        )
        &&& c.kind == ShellPatternKind::Regex ==> r.matcher@ == permissions::MatcherView::Regex(
            c.pattern@,
        )
    } by {
        assert(rs[i] == p.shell@[i]@);
        assert(permissions::compiled_shell_rule(config.shell.rules@[i]) == Ok::<
            permissions::ShellRuleView,
            Seq<char>,
        >(rs[i]));
    }
    assert forall|i: int| 0 <= i < p.paths@.len() implies {
        let (r, c) = (#[trigger] p.paths@[i], config.paths.rules@[i]);
        &&& r.verb == c.verb
        &&& r.raw@ == c.path@
        &&& r.exact == c.exact
        &&& r.except_hidden == c.except_hidden
        &&& r.mode == c.mode
        &&& views::views(r.path@) == views::views(rule_paths[i]@)
    } by {
        assert(ps[i] == p.paths@[i]@);
    }
}

proof fn lemma_compiled_one_for_one(rs: Seq<ShellRule>)
    ensures
        permissions::compiled_shell_rules(rs) matches Ok(done) ==> done.len() == rs.len()
            && forall|i: int|
            0 <= i < rs.len() ==> permissions::compiled_shell_rule(#[trigger] rs[i]) == Ok::<
                permissions::ShellRuleView,
                Seq<char>,
            >(done[i]),
    decreases rs.len(),
{
    if rs.len() > 0 {
        let d = rs.drop_last();
        lemma_compiled_one_for_one(d);
        assert(rs.last() == rs[rs.len() - 1]);
        if let Ok(done) = permissions::compiled_shell_rules(rs) {
            assert forall|i: int| 0 <= i < rs.len() implies permissions::compiled_shell_rule(
                #[trigger] rs[i],
            ) == Ok::<permissions::ShellRuleView, Seq<char>>(done[i]) by {
                if i < d.len() {
                    assert(d[i] == rs[i]);
                }
            }
        }
    }
}

/// What is allowed goes on; what is denied is refused with the reason; and where
/// the user is to be asked the question ends with the reason, and names the
/// command.
pub proof fn lemma_commands_are_authorized_as_decided(
    d: Decision,
    v: Verdict,
    command: Seq<char>,
)
    requires
        v@ == permissions::verdict_of(d@, permissions::shell_question(command)),
    ensures
        match d {
            Decision::Allow => v is Proceed,
            Decision::Deny { reason } => v matches Verdict::Refuse { error } && error@
                == "permission denied: "@ + reason@,
            Decision::Ask { reason } => v matches Verdict::AskUser { description, reason: why }
                && why@ == reason@ && description@ == "Allow running this command?\n"@ + command
                + "\n"@ + reason@,
        },
{
}

/// The same of a path: the question names what is done with it.
pub proof fn lemma_paths_are_authorized_as_decided(
    d: Decision,
    v: Verdict,
    kind: PathKind,
    display: Seq<char>,
)
    requires
        v@ == permissions::verdict_of(d@, permissions::path_question(kind, display)),
    ensures
        match d {
            Decision::Allow => v is Proceed,
            Decision::Deny { reason } => v matches Verdict::Refuse { error } && error@
                == "permission denied: "@ + reason@,
            Decision::Ask { reason } => v matches Verdict::AskUser { description, reason: why }
                && why@ == reason@ && description@ == "Allow "@ + (match kind {
                PathKind::Read => "reading"@,
                PathKind::Write => "writing"@,
            }) + " `"@ + display + "`?\n"@ + reason@,
        },
{
}

/// Output trips the first denying rule whose pattern turns up in it; rules that
/// allow or ask never trip.
pub proof fn lemma_only_denying_rules_trip(
    rules: Seq<CompiledShellRule>,
    output: Seq<char>,
    i: int,
)
    requires
        0 <= i,
    ensures
        match permissions::tripped_from(views::views(rules), output, i) {
            Some(k) => {
                &&& i <= k < rules.len()
                &&& rules[k].verb == Verb::Deny
                &&& permissions::output_matches(rules[k].matcher@, output)
                &&& forall|j: int|
                    i <= j < k ==> (#[trigger] rules[j]).verb != Verb::Deny
                        || !permissions::output_matches(rules[j].matcher@, output)
            },
            None => forall|j: int|
                i <= j < rules.len() ==> (#[trigger] rules[j]).verb != Verb::Deny
                    || !permissions::output_matches(rules[j].matcher@, output),
        },
    decreases rules.len() - i,
{
    let rs = views::views(rules);
    if i < rules.len() {
        assert(rs[i] == rules[i]@);
        if !(rules[i].verb == Verb::Deny && permissions::output_matches(
            rules[i].matcher@,
            output,
        )) {
            lemma_only_denying_rules_trip(rules, output, i + 1);
        }
    }
}

/// A plain pattern turns up in output wherever it stands, also within a word.
pub proof fn lemma_plain_pattern_turns_up_anywhere(
    words: Seq<char>,
    before: Seq<char>,
    after: Seq<char>,
)
    ensures
        permissions::output_matches(
            permissions::MatcherView::Raw(words),
            before + words + after,
        ),
{
    let output = before + words + after;
    let i = before.len() as int;
    assert(output.subrange(i, i + words.len()) =~= words);
    assert(text::occurs_at(output, words, i));
}

}
