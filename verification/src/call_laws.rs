//! What calls give, whatever they are called with: relations between what goes into the
//! functions of the library and what comes out of them.

use crate::apply_patch;
use crate::apply_patch::laws as patch_laws;
use crate::apply_patch::replacements;
use crate::apply_patch::replacements::derive_new_contents;
use crate::apply_patch::UpdateChunk;
use crate::approval::{approval_from, ApprovalReply};
use crate::catalog;
use crate::catalog::{
    base_url_for, effective_base_url, fetch_remote, find_model, find_provider, is_connectable,
    refresh, registry_providers, resolve_env, CatalogModel, CatalogProvider, CatalogState,
};
use crate::catalog_laws;
use crate::compaction::serialize_head;
use crate::compaction_laws;
use crate::compaction_laws::lemma_transcript_holds_every_message;
use crate::config::{ContextConfig, EmbeddingConfig};
use crate::context::{
    build_preamble, context_dirs, label_for, load_files, pick_candidate, ContextFile, LoadedContext,
};
use crate::context_laws;
use crate::custom_commands::{CustomCommand, CustomCommands};
use crate::embeddings::{setup, EmbeddingProvider};
use crate::llm::Role;
use crate::paths::PathPart;
use crate::permission_laws;
use crate::permissions;
use crate::permissions::{
    after_reply, Decision, DenyCut, PathKind, PermissionReply, Permissions,
};
use crate::question::{answers_from, check_questions, Answers, QuestionPrompt, Reply};
use crate::session::Session;
use crate::session_laws;
use crate::settings::ProviderConfig;
use crate::shell;
use crate::shell::{resolve, Resolution, Shell, ShellFacts, ShellKind};
use crate::skill_laws;
use crate::skills;
use crate::skills::walk::{DirFacts, SkillWalk};
use crate::skills::{validate_description, validate_name, Skill, Skills};
use crate::stored::{StoredMessage, StoredSession, StoredToolCall};
use crate::text;
use crate::text_map;
use crate::text_map::TextMap;
use crate::title::{swap_title, title_for, title_preamble, title_task};
use crate::tool_record::ToolRecord;
use crate::tools::{required_argument, ReadCache};
use crate::views;
use vstd::prelude::*;

verus! {

/// The record that is made of a stored call holds what was stored of it.
pub proof fn lemma_record_is_made_of_the_stored_call(tc: &StoredToolCall, r: ToolRecord)
    requires
        call_ensures(ToolRecord::from_stored, (tc,), r),
    ensures
        session_laws::records(r, *tc),
        r.message_seq == tc.seq,
{
    session_laws::lemma_record_holds_the_stored_call(r, *tc);
}

/// A command is decided on by the first rule that it matches, and else by the default.
pub proof fn lemma_command_is_decided_on(p: &Permissions, command: &str, d: Decision, k: int)
    requires
        call_ensures(Permissions::check_shell, (p, command), d),
        0 <= k <= p.shell@.len(),
        forall|j: int|
            0 <= j < k ==> !permissions::command_matches(
                (#[trigger] p.shell@[j]).matcher@,
                command@,
            ),
    ensures
        k < p.shell@.len() && permissions::command_matches(p.shell@[k].matcher@, command@)
            ==> permission_laws::decided(
            d,
            p.shell@[k].verb,
            "shell-patterns"@,
            p.shell@[k].raw@,
        ),
        k == p.shell@.len() ==> permission_laws::follows(
            d,
            if p.shell_default is Some {
                p.shell_default->0
            } else {
                p.default
            },
        ),
{
    if k < p.shell@.len() {
        if permissions::command_matches(p.shell@[k].matcher@, command@) {
            permission_laws::lemma_first_rule_decides_a_command(*p, command@, d, k);
        }
    } else {
        permission_laws::lemma_default_decides_a_command(*p, command@, d);
    }
}

/// What is done with a path is decided on by the first rule that says something of it,
/// and else by the default; but what may always be read is allowed to be read.
pub proof fn lemma_path_is_decided_on(
    p: &Permissions,
    kind: PathKind,
    path: &Vec<PathPart>,
    d: Decision,
    k: int,
)
    requires
        call_ensures(Permissions::check_path, (p, kind, path), d),
        0 <= k < p.paths@.len(),
        permissions::rule_decides(p.paths@[k]@, kind, views::views(path@), p.own_dir@),
        forall|j: int|
            0 <= j < k ==> !permissions::rule_decides(
                (#[trigger] p.paths@[j])@,
                kind,
                views::views(path@),
                p.own_dir@,
            ),
        kind == PathKind::Write || !permissions::is_exempt(p.read_exempt@, views::views(path@)),
    ensures
        permission_laws::follows(d, p.paths@[k].verb),
{
    permission_laws::lemma_first_rule_decides_a_path(*p, kind, views::views(path@), d, k);
}

/// The transcript holds every message that it is made of: all of a summary, and the
/// first 2000 characters of any other.
pub proof fn lemma_serialized_messages_are_complete(
    messages: &Vec<StoredMessage>,
    records: &Vec<ToolRecord>,
    base: usize,
    r: String,
    i: int,
)
    requires
        call_ensures(serialize_head, (messages, records, base), r),
        0 <= i < messages@.len(),
    ensures
        text::occurs(
            r@,
            if messages@[i].summary {
                messages@[i].content@
            } else {
                compaction_laws::first_chars(messages@[i].content@, 2000)
            },
        ),
{
    lemma_transcript_holds_every_message(
        messages@,
        records@,
        crate::compaction::argument_paths(records@),
        base as int,
        i,
    );
}

/// A path is approved exactly if the user says so.
pub proof fn lemma_only_the_user_approves(reply: ApprovalReply, r: Result<(), String>)
    requires
        call_ensures(approval_from, (reply,), r),
    ensures
        r is Ok <==> reply == ApprovalReply::Answered(true),
{
}

/// A call goes on after the user was asked exactly if it was allowed. A refusal, and
/// nothing else, cuts the turn, and a cut that was made stays.
pub proof fn lemma_refusal_cuts_the_turn(
    reply: PermissionReply,
    reason: &str,
    cut: &mut DenyCut,
    r: Result<(), String>,
)
    requires
        call_ensures(after_reply, (reply, reason, cut), r),
    ensures
        r is Ok <==> reply is Allowed,
        reply is Denied ==> final(cut).set && text::has_suffix(r->Err_0@, reason@),
        !(reply is Denied) ==> final(cut).set == old(cut).set,
        old(cut).set ==> final(cut).set,
{
    if reply is Denied {
        let e = r->Err_0@;
        assert(e.skip(e.len() - reason@.len()) =~= reason@);
    }
}

/// A cut is taken once: who takes it learns whether it was made, and after that it is not.
pub proof fn lemma_cut_is_taken_once(cut: &mut DenyCut, b: bool)
    requires
        call_ensures(DenyCut::take, (cut,), b),
    ensures
        b == old(cut).set,
        !final(cut).set,
{
}

/// The answers of the user are handed on as they are, and there are none exactly if the
/// user gave none.
pub proof fn lemma_answers_are_handed_on(reply: Reply, r: Result<Answers, String>)
    requires
        call_ensures(answers_from, (reply,), r),
    ensures
        r is Ok <==> reply is Answered && reply->0 is Some,
        r is Ok ==> reply->0 == Some(r->Ok_0),
{
}

/// Questions pass exactly if there is one at least, and each has an option or takes an
/// answer in the user's words.
pub proof fn lemma_answerable_questions_pass(
    questions: &Vec<QuestionPrompt>,
    r: Result<(), String>,
)
    requires
        call_ensures(check_questions, (questions,), r),
    ensures
        r is Ok <==> questions@.len() > 0 && forall|i: int|
            0 <= i < questions@.len() ==> (#[trigger] questions@[i]).options@.len() > 0
                || questions@[i].custom,
{
    crate::search_laws::lemma_questions_can_be_answered(questions@);
}

/// A catalog that was fetched with providers in it is kept, and any other fetch changes
/// nothing: whether it is an error or not is all that the two ways of keeping it differ in.
pub proof fn lemma_empty_fetch_changes_nothing(
    state: &mut CatalogState,
    other: &mut CatalogState,
    fetched: Result<Vec<CatalogProvider>, String>,
    r: Result<(), String>,
)
    requires
        call_ensures(refresh, (state, fetched), ()),
        call_ensures(fetch_remote, (other, fetched), r),
        *old(state) == *old(other),
    ensures
        *final(state) == *final(other),
        final(state).embedded == old(state).embedded,
        r is Ok <==> fetched is Ok && fetched->Ok_0@.len() > 0,
        r is Ok ==> final(state).remote == Some(fetched->Ok_0),
        r is Err ==> final(state).remote == old(state).remote,
        fetched is Err ==> r->Err_0 == fetched->Err_0,
{
}

/// The list of the fetched providers is empty until a fetch succeeded, and the list of
/// those built in is not changed by a fetch.
pub proof fn lemma_lists_of_providers_are_apart(
    state: &CatalogState,
    remote: bool,
    r: &[CatalogProvider],
)
    requires
        call_ensures(registry_providers, (state, remote), r),
    ensures
        !remote ==> r@ == state.embedded@,
        remote && state.remote is None ==> r@.len() == 0,
        remote && state.remote is Some ==> r@ == state.remote->0@,
{
}

/// An address that the user gave is used, whatever else is known. A blank one counts as
/// none.
pub proof fn lemma_given_address_is_used(
    provider: &CatalogProvider,
    providers: &Vec<CatalogProvider>,
    kind: &str,
    given: Option<&str>,
    env: &TextMap<String>,
    a: Option<String>,
    b: Option<String>,
)
    requires
        call_ensures(effective_base_url, (provider, given, env), a),
        call_ensures(base_url_for, (providers, kind, given, env), b),
    ensures
        given is Some && text::trimmed(given->0@).len() > 0 ==> a is Some && a->0@ == given->0@
            && b is Some && b->0@ == given->0@,
        !(given is Some && text::trimmed(given->0@).len() > 0) ==> {
            &&& views::opt_view(a) == catalog::known_endpoint(*provider, env@)
            &&& catalog::transport_named(kind@) is None && catalog::provider_with(
                providers@,
                kind@,
            ) == Some(*provider) ==> views::opt_view(b) == views::opt_view(a)
            &&& catalog::transport_named(kind@) is None && catalog::provider_with(
                providers@,
                kind@,
            ) is None ==> b is None
        },
{
}

/// The reserve and what may be used make up the context of a model; where the context is
/// smaller than the reserve, nothing may be used.
pub proof fn lemma_reserve_is_left_free(config: &ContextConfig, length: u64, r: u64)
    requires
        call_ensures(ContextConfig::usable, (config, length), r),
    ensures
        length >= config.reserved ==> r + config.reserved == length,
        length < config.reserved ==> r == 0,
{
}

/// A file below the workspace is named by its path from there, and any other by its
/// whole path.
pub proof fn lemma_file_is_named_from_the_workspace(
    path: &str,
    below_root: Option<&str>,
    r: String,
)
    requires
        call_ensures(label_for, (path, below_root), r),
    ensures
        r@ == if below_root is Some {
            below_root->0@
        } else {
            path@
        },
{
}

/// The preamble begins with its base and ends with the context. Without context it is
/// its base.
pub proof fn lemma_context_follows_the_base(base: &str, context: &LoadedContext, r: String)
    requires
        call_ensures(build_preamble, (base, context), r),
    ensures
        context.files@.len() == 0 ==> r@ == base@,
        context.files@.len() > 0 ==> text::has_prefix(r@, base@) && text::has_suffix(
            r@,
            context.content@,
        ) && r@.len() > base@.len() + context.content@.len(),
{
    assert(text::texts(context.files@).len() == context.files@.len());
    if context.files@.len() > 0 {
        let c = context.content@;
        reveal_strlit(
            "\n\nProject context files are loaded from the workspace. Read them carefully and follow their instructions; they describe the project's structure, conventions, and workflows.\n\n",
        );
        assert(r@.take(base@.len() as int) =~= base@);
        assert(r@.skip(r@.len() - c.len()) =~= c);
    }
}

/// The context files of the global directory come first, and then those from the root of
/// the file system down: a directory comes before every one below it.
pub proof fn lemma_outer_directories_come_first(
    global: Option<&str>,
    ancestors: &Vec<String>,
    r: Vec<String>,
    i: int,
)
    requires
        call_ensures(context_dirs, (global, ancestors), r),
        0 <= i < ancestors@.len(),
    ensures
        ({
            let n = if global is Some {
                1int
            } else {
                0
            };
            &&& r@.len() == n + ancestors@.len()
            &&& global is Some ==> r@[0]@ == global->0@
            &&& r@[n + i]@ == ancestors@[ancestors@.len() - 1 - i]@
        }),
{
    let n = if global is Some {
        1int
    } else {
        0
    };
    let t = text::texts(r@);
    assert(t.len() == r@.len());
    assert(t[n + i] == r@[n + i]@);
    assert(text::texts(ancestors@).reverse()[i] == ancestors@[ancestors@.len() - 1 - i]@);
    if global is Some {
        assert(t[0] == r@[0]@);
    }
}

/// Of the files that a directory may have, none is taken before the first that is there,
/// and none after it.
pub proof fn lemma_first_candidate_is_taken(there: &Vec<bool>, r: Option<usize>, k: int)
    requires
        call_ensures(pick_candidate, (there,), r),
        0 <= k <= there@.len(),
        forall|j: int| 0 <= j < k ==> !#[trigger] there@[j],
    ensures
        r is Some && k < there@.len() && there@[k] ==> r->0 == k,
        k == there@.len() ==> r is None,
{
    if let Some(i) = r {
        assert(there@[i as int]);
        if k < i {
            assert(!there@[k]);
        }
    }
}

/// The prompt of a skill names it, tells where its files are, holds the text of its file,
/// and ends with the arguments.
pub proof fn lemma_skill_prompt_is_complete(
    skill: &Skill,
    content: &str,
    file: &str,
    args: Option<&str>,
    r: String,
)
    requires
        call_ensures(Skill::invocation_content, (skill, content, file, args), r),
    ensures
        text::has_prefix(
            r@,
            "<skill name=\""@ + skill.name@ + "\" location=\""@ + file@ + "\">"@,
        ),
        exists|a: Seq<char>, b: Seq<char>|
            r@ == #[trigger] (a + (skill.path@ + ".\n\n"@ + skills::body_of(content@)
                + "\n</skill>"@) + b),
        args is Some ==> text::has_suffix(r@, "\n</skill>\n\n"@ + args->0@),
        args is None ==> text::has_suffix(r@, "\n</skill>"@),
{
    reveal_strlit("\">\nReferences are relative to ");
    reveal_strlit("\">");
    reveal_strlit("\n</skill>");
    reveal_strlit("\n\n");
    reveal_strlit("\n</skill>\n\n");
    let head = "<skill name=\""@ + skill.name@ + "\" location=\""@ + file@ + "\">"@;
    assert(r@.take(head.len() as int) =~= head);
    let a = "<skill name=\""@ + skill.name@ + "\" location=\""@ + file@
        + "\">\nReferences are relative to "@;
    let m = skill.path@ + ".\n\n"@ + skills::body_of(content@) + "\n</skill>"@;
    let b = match args {
        Some(x) => "\n\n"@ + x@,
        None => Seq::empty(),
    };
    assert(r@ =~= a + m + b);
    match args {
        Some(x) => {
            let end = "\n</skill>\n\n"@ + x@;
            assert(r@.skip(r@.len() - end.len()) =~= end);
        },
        None => {
            let end = "\n</skill>"@;
            assert(r@.skip(r@.len() - end.len()) =~= end);
        },
    }
}

/// Where the workspace is trusted, all skills may be used; where it is not, none that
/// stands in it may be, and all others may.
pub proof fn lemma_untrusted_skills_are_left_out(
    s: Skills,
    trusted: bool,
    skill_inside: &Vec<bool>,
    warning_inside: &Vec<bool>,
    r: Skills,
    k: int,
)
    requires
        call_ensures(Skills::without_workspace, (s, trusted, skill_inside, warning_inside), r),
        0 <= k < s.skills@.len(),
    ensures
        trusted ==> r == s,
        !(k < skill_inside@.len() && skill_inside@[k]) ==> views::views(r.skills@).contains(
            s.skills@[k]@,
        ),
        !trusted ==> forall|i: int|
            0 <= i < r.skills@.len() ==> crate::skill_laws::is_unmarked(
                views::views(s.skills@),
                skill_inside@,
                (#[trigger] r.skills@[i])@,
            ),
{
    let v = views::views(s.skills@);
    let w = views::views(r.skills@);
    assert(v[k] == s.skills@[k]@);
    if trusted {
        assert(w[k] == v[k]);
    } else {
        crate::skill_laws::lemma_marked_values_are_left_out(v, skill_inside@);
        assert forall|i: int| 0 <= i < r.skills@.len() implies crate::skill_laws::is_unmarked(
            v,
            skill_inside@,
            (#[trigger] r.skills@[i])@,
        ) by {
            assert(w[i] == r.skills@[i]@);
            assert(crate::skill_laws::is_unmarked(v, skill_inside@, w[i]));
        }
    }
}

/// Taking in a command leaves those before it alone. It comes last, unless one before it
/// has its name: that one stays, and there is a warning more.
pub proof fn lemma_first_command_with_a_name_stays(
    cs: &mut CustomCommands,
    path: &str,
    command: Option<CustomCommand>,
    messages: Vec<String>,
)
    requires
        call_ensures(CustomCommands::add, (cs, path, command, messages), ()),
    ensures
        ({
            let before = old(cs).commands@;
            let after = final(cs).commands@;
            let known = command is Some && exists|i: int|
                0 <= i < before.len() && (#[trigger] before[i]).name@ == command->0.name@;
            let n = old(cs).warnings@.len() + messages@.len();
            &&& before.len() <= after.len()
            &&& forall|i: int|
                0 <= i < before.len() ==> (#[trigger] after[i])@ == before[i]@
            &&& command is Some && !known ==> after.len() == before.len() + 1 && after.last()@
                == command->0@
            &&& command is None || known ==> after.len() == before.len()
            &&& known ==> final(cs).warnings@.len() == n + 1 && final(cs).warnings@.last().path@
                == path@
            &&& !known ==> final(cs).warnings@.len() == n
        }),
{
    let before = old(cs).commands@;
    let after = final(cs).commands@;
    let (a, b) = (views::views(after), views::views(before));
    let w = views::views(final(cs).warnings@);
    assert(a.len() == after.len() && b.len() == before.len());
    assert(w.len() == final(cs).warnings@.len());
    assert(views::views(old(cs).warnings@).len() == old(cs).warnings@.len());
    assert(text::texts(messages@).len() == messages@.len());
    let known = command is Some && exists|i: int|
        0 <= i < before.len() && (#[trigger] before[i]).name@ == command->0.name@;
    if command is Some {
        let name = command->0.name@;
        if known {
            let i = choose|i: int| 0 <= i < before.len() && (#[trigger] before[i]).name@ == name;
            assert(b[i].name == name);
            assert(w[w.len() - 1] == final(cs).warnings@[w.len() - 1]@);
        } else if crate::custom_commands::has_name(b, name) {
            let i = choose|i: int| 0 <= i < b.len() && (#[trigger] b[i]).name == name;
            assert(before[i].name@ == name);
        }
        if !known {
            assert(a[a.len() - 1] == after[a.len() - 1]@);
        }
    }
    assert forall|i: int| 0 <= i < before.len() implies (#[trigger] after[i])@ == before[i]@ by {
        assert(a[i] == b[i]);
    }
}

/// The shell that the user names is used where it is found, and else the default one,
/// with a warning that names both. Without a name, or with a blank one, it is the default
/// one, without a warning.
pub proof fn lemma_named_shell_is_used(
    configured: Option<&str>,
    facts: &ShellFacts,
    default: Shell,
    r: Resolution,
)
    requires
        call_ensures(resolve, (configured, facts, default), r),
    ensures
        ({
            let named = configured is Some && text::trimmed(configured->0@).len() > 0;
            let found = facts.path(configured->0@);
            &&& !named ==> r.shell == default && r.warning is None
            &&& named && found is Some ==> r.shell.path@ == found->0 && r.warning is None
            &&& named && found is None ==> r.shell == default && r.warning is Some
                && text::occurs(r.warning->0@, configured->0@) && text::occurs(
                r.warning->0@,
                default.path@,
            )
        }),
{
    if configured is Some && text::trimmed(configured->0@).len() > 0 && facts.path(
        configured->0@,
    ) is None {
        let name = configured->0@;
        let w = r.warning->0@;
        let a = "configured shell '"@;
        let b = "' was not found; falling back to the default shell ("@;
        assert(w.subrange(a.len() as int, (a.len() + name.len()) as int) =~= name);
        assert(text::occurs_at(w, name, a.len() as int));
        let at = (a.len() + name.len() + b.len()) as int;
        assert(w.subrange(at, at + default.path@.len()) =~= default.path@);
        assert(text::occurs_at(w, default.path@, at));
    }
}

/// A shell is handed the command line as its last argument, whole.
pub proof fn lemma_command_line_comes_last(s: &Shell, command: &str, r: Vec<String>)
    requires
        call_ensures(Shell::arguments, (s, command), r),
    ensures
        r@.len() >= 2,
        r@.last()@ == command@,
        s.kind == ShellKind::Bourne ==> r@.len() == 2 && r@[0]@ == "-c"@,
        s.kind == ShellKind::PowerShell ==> r@.len() == 3 && r@[0]@ == "-NoProfile"@ && r@[1]@
            == "-Command"@,
{
    let t = text::texts(r@);
    assert(t.len() == r@.len());
    assert(t[0] == r@[0]@ && t[1] == r@[1]@);
    assert(t[t.len() - 1] == r@[r@.len() - 1]@);
}

/// A model embeds exactly where the provider does, and what is set comes before the
/// defaults, each for itself.
pub proof fn lemma_set_embedding_comes_first(
    config: &EmbeddingConfig,
    kind: EmbeddingProvider,
    supported: bool,
    r: Option<(String, usize)>,
)
    requires
        call_ensures(setup, (config, kind, supported), r),
    ensures
        r is Some <==> supported,
        r matches Some((model, dims)) ==> {
            &&& config.model is Some ==> model@ == config.model->0@
            &&& config.dimensions is Some ==> dims == config.dimensions->0
            &&& config.model is None ==> model@ == crate::embeddings::model_for(kind)
            &&& config.dimensions is None ==> dims == crate::embeddings::dims_for(kind)
        },
{
}

/// The title of a session is the beginning of its first prompt, or says that there is
/// none.
pub proof fn lemma_title_begins_the_prompt(content: &str, max: usize, r: String)
    requires
        call_ensures(title_for, (content, max), r),
    ensures
        text::trimmed(content@).len() == 0 ==> r@ == "Untitled session"@,
        text::trimmed(content@).len() > 0 ==> text::has_prefix(text::trimmed(content@), r@)
            && r@.len() <= max && (r@.len() == max || r@ == text::trimmed(content@)),
{
    crate::title_laws::lemma_prompt_is_cut(content@, max as nat);
}

/// A title is drafted from the first 2000 characters of a prompt, which the task holds,
/// and none from a blank one.
pub proof fn lemma_task_holds_the_prompt(prompt: &str, r: Option<String>)
    requires
        call_ensures(title_task, (prompt,), r),
    ensures
        ({
            let whole = text::trimmed(prompt@);
            let start = whole.take(
                if whole.len() <= 2000 {
                    whole.len() as int
                } else {
                    2000
                },
            );
            &&& r is Some <==> whole.len() > 0
            &&& r is Some ==> text::has_suffix(r->0@, "\n---\n"@ + start + "\n---"@)
        }),
{
    let whole = text::trimmed(prompt@);
    let start = whole.take(
        if whole.len() <= 2000 {
            whole.len() as int
        } else {
            2000
        },
    );
    assert(whole.take(whole.len() as int) =~= whole);
    if r is Some {
        reveal_strlit(
            "Write the session title for the following first message of a new session.\n\n---\n",
        );
        reveal_strlit("\n---\n");
        let end = "\n---\n"@ + start + "\n---"@;
        assert(r->0@.skip(r->0@.len() - end.len()) =~= end);
    }
}

/// A drafted title takes the place of the one that the draft began from, and of no other.
pub proof fn lemma_changed_title_stays(
    title: &mut Option<String>,
    expected: &str,
    drafted: &str,
    b: bool,
)
    requires
        call_ensures(swap_title, (title, expected, drafted), b),
    ensures
        b <==> *old(title) is Some && (*old(title))->0@ == expected@,
        b ==> *final(title) is Some && (*final(title))->0@ == drafted@,
        !b ==> *final(title) == *old(title),
{
}

/// The preamble that is set is used as it is.
pub proof fn lemma_set_preamble_is_used(configured: Option<&str>, r: String, other: String)
    requires
        call_ensures(title_preamble, (configured,), r),
        call_ensures(title_preamble, (None::<&str>,), other),
    ensures
        configured is Some ==> r@ == configured->0@,
        configured is None ==> r@ == other@,
{
}

/// A range of a file counts as read after it was read once, and no other range comes to
/// count as read.
pub proof fn lemma_read_range_is_known(
    cache: &mut ReadCache,
    path: &str,
    offset: Option<u64>,
    limit: Option<u64>,
    again: bool,
)
    requires
        call_ensures(ReadCache::mark, (cache, path, offset, limit), again),
    ensures
        final(cache)@.contains((path@, offset, limit)),
        again ==> final(cache)@ == old(cache)@,
        again <==> old(cache)@.contains((path@, offset, limit)),
        forall|k: (Seq<char>, Option<u64>, Option<u64>)| #[trigger]
            final(cache)@.contains(k) && k != (path@, offset, limit) ==> old(cache)@.contains(k),
{
    if again {
        assert(final(cache)@ =~= old(cache)@);
    }
}

/// What a map is told of a key is what it says of it, and what it says of every other key
/// stays.
pub proof fn lemma_map_holds_what_was_put<V>(
    m: &mut TextMap<V>,
    k: String,
    v: V,
    later: &TextMap<V>,
    other: &str,
    r: Option<&V>,
)
    requires
        call_ensures(TextMap::<V>::insert, (m, k, v), ()),
        *later == *final(m),
        call_ensures(TextMap::<V>::get, (later, other), r),
    ensures
        other@ == k@ ==> r is Some && *r->0 == v,
        other@ != k@ ==> match text_map::lookup(old(m)@, other@) {
            Some(x) => r is Some && *r->0 == x,
            None => r is None,
        },
{
    text_map::lemma_lookup_with(old(m)@, k@, v, other@);
}

/// An argument that is there is handed on, and one that is missing is named.
pub proof fn lemma_missing_argument_is_named(
    found: Option<String>,
    key: &str,
    r: Result<String, String>,
)
    requires
        call_ensures(required_argument, (found, key), r),
    ensures
        r is Ok <==> found is Some,
        r is Ok ==> r->Ok_0 == found->0,
        r is Err ==> text::occurs(r->Err_0@, key@),
{
    if r is Err {
        let e = r->Err_0@;
        let n = "missing string argument '"@.len() as int;
        assert(e.subrange(n, n + key@.len()) =~= key@);
        assert(text::occurs_at(e, key@, n));
    }
}

/// A message that is added to a session comes last, in the role of who wrote it, and all
/// else stays.
pub proof fn lemma_message_comes_last(a: &mut Session, b: &mut Session, content: &str)
    requires
        call_ensures(Session::push_user, (a, content), ()),
        call_ensures(Session::push_assistant, (b, content), ()),
    ensures
        final(a).messages@.len() == old(a).messages@.len() + 1,
        final(a).messages@.last().role == Role::User,
        final(a).messages@.last().content@ == content@,
        final(b).messages@.len() == old(b).messages@.len() + 1,
        final(b).messages@.last().role == Role::Assistant,
        final(b).messages@.last().content@ == content@,
        forall|i: int|
            0 <= i < old(a).messages@.len() ==> #[trigger] final(a).messages@[i]
                == old(a).messages@[i],
        forall|i: int|
            0 <= i < old(b).messages@.len() ==> #[trigger] final(b).messages@[i]
                == old(b).messages@[i],
        final(a).leaf_id == old(a).leaf_id && final(a).id == old(a).id,
        final(b).leaf_id == old(b).leaf_id && final(b).id == old(b).id,
{
    assert forall|i: int| 0 <= i < old(a).messages@.len() implies #[trigger] final(a).messages@[i]
        == old(a).messages@[i] by {
        assert(final(a).messages@.drop_last()[i] == old(a).messages@[i]);
    }
    assert forall|i: int| 0 <= i < old(b).messages@.len() implies #[trigger] final(b).messages@[i]
        == old(b).messages@[i] by {
        assert(final(b).messages@.drop_last()[i] == old(b).messages@[i]);
    }
}

/// A session that is opened again has every message of its path, with its role and its
/// content.
pub proof fn lemma_opened_session_has_its_messages(st: &StoredSession, s: Session, k: int)
    requires
        call_ensures(Session::from_stored, (st,), s),
        0 <= k < crate::stored::active_path(st.messages@, st.leaf_id).len(),
        crate::stored::active_path(st.messages@, st.leaf_id).len() <= u64::MAX,
    ensures
        ({
            let id = crate::stored::active_path(st.messages@, st.leaf_id)[k];
            let m = st.messages@[crate::stored::index_of(st.messages@, id)->0];
            &&& m.id == id
            &&& s.messages@[k].role == m.role
            &&& s.messages@[k].content@ == m.content@
        }),
{
    session_laws::lemma_messages_survive_reopening(s, *st, k);
}

/// A name passes exactly if it is good, and a description exactly if it is not blank and
/// not too long.
pub proof fn lemma_good_names_and_descriptions_pass(
    name: &str,
    a: Vec<String>,
    description: &str,
    b: Vec<String>,
)
    requires
        call_ensures(validate_name, (name,), a),
        call_ensures(validate_description, (description,), b),
    ensures
        a@.len() == 0 <==> skill_laws::is_good_name(name@),
        b@.len() == 0 <==> text::trimmed(description@).len() > 0 && description@.len() <= 1024,
{
    skill_laws::lemma_good_names_pass(name@, a);
    skill_laws::lemma_good_descriptions_pass(description@, b);
}

/// Taking in a skill leaves those before it alone, and adds it exactly if none of them has
/// its name.
pub proof fn lemma_skill_is_taken_in_once(
    s: &mut Skills,
    path: &str,
    skill: Skill,
    messages: Vec<String>,
)
    requires
        call_ensures(Skills::add, (s, path, Some(skill), messages), ()),
    ensures
        ({
            let known = exists|i: int|
                0 <= i < old(s).skills@.len() && (#[trigger] old(s).skills@[i]).name@
                    == skill.name@;
            &&& forall|i: int|
                0 <= i < old(s).skills@.len() ==> (#[trigger] final(s).skills@[i])@
                    == old(s).skills@[i]@
            &&& known ==> final(s).skills@.len() == old(s).skills@.len()
            &&& !known ==> final(s).skills@.len() == old(s).skills@.len() + 1
                && final(s).skills@.last()@ == skill@
        }),
{
    skill_laws::lemma_first_skill_with_a_name_stays(
        *old(s),
        *final(s),
        path@,
        Some(skill),
        messages@,
    );
}

/// A place is looked into once: looking into it again changes nothing.
pub proof fn lemma_place_is_looked_into_once(
    w: &mut SkillWalk,
    dir: &str,
    facts: DirFacts,
    later: &mut SkillWalk,
    other: &str,
    more: DirFacts,
)
    requires
        call_ensures(SkillWalk::visit, (w, dir, facts), ()),
        call_ensures(SkillWalk::visit, (later, other, more), ()),
        old(later)@ == final(w)@,
        facts.canonical is Some,
        more.canonical is Some,
        more.canonical->0@ == facts.canonical->0@,
    ensures
        final(later)@ == final(w)@,
{
    skill_laws::lemma_directory_is_looked_into_once(*old(w), *final(w), dir@, facts);
    skill_laws::lemma_directory_is_looked_into_once(*old(later), *final(later), other@, more);
}

/// The first provider with the id is found, and the first model with the very id.
pub proof fn lemma_first_entries_are_found(
    ps: &Vec<CatalogProvider>,
    id: &str,
    p: Option<&CatalogProvider>,
    k: int,
    provider: &CatalogProvider,
    model: &str,
    m: Option<&CatalogModel>,
    j: int,
)
    requires
        call_ensures(find_provider, (ps, id), p),
        0 <= k < ps@.len(),
        ps@[k].id@ == id@,
        forall|i: int| 0 <= i < k ==> (#[trigger] ps@[i]).id@ != id@,
        call_ensures(find_model, (provider, model), m),
        0 <= j < provider.models@.len(),
        provider.models@[j].id@ == model@,
        forall|i: int| 0 <= i < j ==> (#[trigger] provider.models@[i]).id@ != model@,
    ensures
        p is Some && *p->0 == ps@[k],
        m is Some && *m->0 == provider.models@[j],
{
    catalog_laws::lemma_first_provider_is_found(ps@, id@, k);
    catalog_laws::lemma_exact_id_comes_first(provider.models@, model@, j);
}

/// A provider with a key that is not blank can be connected to.
pub proof fn lemma_keyed_provider_is_connectable(
    ps: &Vec<CatalogProvider>,
    p: &ProviderConfig,
    b: bool,
)
    requires
        call_ensures(is_connectable, (ps, p), b),
    ensures
        p.api_key is Some && text::trimmed(p.api_key->0@).len() > 0 ==> b,
        p.catalog is None && p.kind@ == "ollama"@ ==> b,
{
    catalog_laws::lemma_key_opens_the_connection(ps@, *p);
    if p.kind@ == "ollama"@ {
        catalog::lemma_type_names_are_read_back(catalog::Transport::Ollama);
    }
}

/// The value of a variable takes the place that names it, and a text without a place
/// stays.
pub proof fn lemma_variable_is_put_in(
    s: &str,
    env: &TextMap<String>,
    r: String,
    head: Seq<char>,
    name: Seq<char>,
    rest: Seq<char>,
)
    requires
        call_ensures(resolve_env, (s, env), r),
        !head.contains('$'),
        !name.contains('}'),
        !rest.contains('$'),
        s@ == head + ("${"@ + name + "}"@ + rest),
    ensures
        text_map::lookup(env@, name) matches Some(v) ==> r@ == head + v@ + rest,
        text_map::lookup(env@, name) is None ==> r@ == s@,
{
    catalog_laws::lemma_braced_variable_is_filled_in(head, name, rest, env@);
    assert forall|i: int| 0 <= i < rest.len() implies #[trigger] rest[i] != '$' by {
        assert(rest.contains(rest[i]));
    }
    catalog::lemma_plain_text_is_kept(rest, env@);
    let written = "${"@ + name + "}"@;
    assert(head + written + rest =~= s@);
}

/// A context file that can be read and holds text is listed and stands in the context,
/// where it is the first and there is room for a character.
pub proof fn lemma_first_file_is_loaded(
    fs: &Vec<ContextFile>,
    budget: usize,
    once: bool,
    r: LoadedContext,
)
    requires
        call_ensures(load_files, (fs, budget, once), r),
        fs@.len() > 0,
        budget >= 4,
        fs@[0].data is Some,
        !fs@[0].data->0@.contains(0u8),
        context_laws::bare_text(
            crate::context::lossy_utf8(crate::context::capped(fs@[0].data->0@)),
        ).len() > 0,
    ensures
        text::texts(r.files@).contains(fs@[0].label@),
        exists|a: Seq<char>, b: Seq<char>|
            r.content@ == #[trigger] (a + "=== "@ + fs@[0].label@ + " ===\n"@ + b) && b.len() > 0,
{
    assert(crate::context::loaded(views::views(fs@), 0, budget as nat, once).1 == budget);
    context_laws::lemma_readable_files_are_loaded(fs@, r, budget as nat, once, 0);
}

/// A first chunk whose context is nowhere in the file makes the whole update fail, and
/// the error names the context.
pub proof fn lemma_unknown_context_is_refused(
    path: &str,
    chunks: &Vec<UpdateChunk>,
    original: &str,
    r: Result<String, String>,
)
    requires
        call_ensures(derive_new_contents, (path, chunks, original), r),
        chunks@.len() > 0,
        chunks@[0].change_context is Some,
        forall|k: int|
            0 <= k < replacements::without_blank_last(text::pieces(original@, '\n')).len()
                ==> !patch_laws::alike(
                #[trigger] replacements::without_blank_last(text::pieces(original@, '\n'))[k],
                chunks@[0].change_context->0@,
            ),
    ensures
        r is Err,
        text::occurs(r->Err_0@, chunks@[0].change_context->0@),
{
    let ls = replacements::without_blank_last(text::pieces(original@, '\n'));
    let cs = apply_patch::chunk_views(chunks@);
    assert(cs[0] == chunks@[0]@);
    let c = chunks@[0].change_context->0@;
    patch_laws::lemma_chunk_lies_behind_its_context(ls, path@, cs[0], 0);
    patch_laws::lemma_each_chunk_is_replaced(ls, path@, cs, 0);
    let e = "Failed to find context '"@ + c + "' in "@ + path@;
    let n = "Failed to find context '"@.len() as int;
    assert(e.subrange(n, n + c.len()) =~= c);
    assert(text::occurs_at(e, c, n));
}

}
