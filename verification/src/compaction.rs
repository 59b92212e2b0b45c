//! Compaction: which part of a conversation is summarized when the context
//! budget is exceeded, and the transcript that is handed to the summarizer.

use crate::json;
use crate::json::json_string_field;
use crate::llm::{FileChange, FileChangeView, PatchFileView, Role};
use crate::stored::StoredMessage;
use crate::text;
use crate::text::{same, trim};
use crate::tool_record::ToolRecord;
use crate::views;
use vstd::prelude::*;

verus! {

pub const TOOL_OUTPUT_MAX_CHARS: usize = 2_000;

pub const TOOL_ARGS_MAX_CHARS: usize = 500;

pub const MIN_TAIL_MESSAGES: usize = 4;

pub const SUMMARY_PREAMBLE: &'static str =
    "You are a conversation summarizer for an agentic coding assistant. You will be given a transcript of an earlier conversation (user messages, assistant replies, and tool activity) that no longer fits in the model's context window. Produce a concise structured summary so the assistant can continue working without the full history. Use this format:\n\n## Objective\nWhat the user asked for and the current goal.\n\n## Important Details\nKey facts, decisions, constraints, and context discovered.\n\n## Work State\nWhat has been done so far, files changed, commands run, and their results.\n\n## Next Move\nWhat remains to be done and the immediate next step.\n\n## Relevant Files\nPaths of files that were read or modified, with a one-line note each.\n\nThe transcript may include tool-activity lines ([tool (worker) status] followed by truncated output) and may end with <read-files> and <modified-files> sections listing the files actually read or modified in the span — ground the Relevant Files section in those lists.\n\nKeep the summary concise and information-dense. Do not include full file contents or tool outputs — reference them by path and line where relevant.";

/// The messages `[start, cut)` to summarize; those from `cut` on are kept.
#[derive(Debug, Clone, Copy, PartialEq, Eq, Structural)]
pub struct CompactionPlan {
    pub start: usize,
    pub cut: usize,
}

/// The place of the last summary, or the beginning.
pub open spec fn last_summary(ms: Seq<StoredMessage>) -> int
    decreases ms.len(),
{
    if ms.len() == 0 {
        0
    } else if ms.last().summary {
        ms.len() - 1
    } else {
        last_summary(ms.drop_last())
    }
}

/// The tokens of the messages from `i` on.
pub open spec fn tail_tokens(estimates: Seq<u64>, i: int) -> int
    decreases estimates.len() - i,
{
    if i >= estimates.len() {
        0
    } else {
        estimates[i] + tail_tokens(estimates, i + 1)
    }
}

/// Where the shortest tail begins that takes up the budget, among those that
/// begin from `start` to before `i`; the end, if none does.
pub open spec fn budget_cut(estimates: Seq<u64>, start: int, i: int, keep: u64) -> int
    decreases i - start,
{
    if i <= start {
        estimates.len() as int
    } else if tail_tokens(estimates, i - 1) >= keep {
        i - 1
    } else {
        budget_cut(estimates, start, i - 1, keep)
    }
}

/// The span to summarize: from the last summary on, up to the tail that takes
/// up the budget, which has at least the least number of messages.
pub open spec fn compaction_span(
    ms: Seq<StoredMessage>,
    estimates: Seq<u64>,
    keep: u64,
) -> Option<(int, int)> {
    let len = ms.len() as int;
    let start = last_summary(ms);
    let by_budget = budget_cut(estimates, start, len, keep);
    let cut = if by_budget < len - MIN_TAIL_MESSAGES {
        by_budget
    } else {
        len - MIN_TAIL_MESSAGES
    };
    if len > MIN_TAIL_MESSAGES && start < cut {
        Some((start, cut))
    } else {
        None
    }
}

/// The last summary is found: no message after it is one.
pub proof fn lemma_last_summary(ms: Seq<StoredMessage>)
    ensures
        0 <= last_summary(ms),
        ms.len() > 0 ==> last_summary(ms) < ms.len(),
        last_summary(ms) > 0 ==> ms[last_summary(ms)].summary,
        forall|i: int| last_summary(ms) < i < ms.len() ==> !(#[trigger] ms[i]).summary,
    decreases ms.len(),
{
    if ms.len() > 0 {
        let d = ms.drop_last();
        lemma_last_summary(d);
        assert(forall|i: int| 0 <= i < d.len() ==> d[i] == ms[i]);
    }
}

proof fn lemma_budget_cut(estimates: Seq<u64>, start: int, i: int, keep: u64)
    requires
        0 <= start,
        i <= estimates.len(),
    ensures
        start <= budget_cut(estimates, start, i, keep) <= estimates.len() || i <= start,
        budget_cut(estimates, start, i, keep) < estimates.len() ==> tail_tokens(
            estimates,
            budget_cut(estimates, start, i, keep),
        ) >= keep,
    decreases i - start,
{
    if i > start {
        lemma_budget_cut(estimates, start, i - 1, keep);
    }
}

/// A plan leaves the tail its least number of messages, summarizes at least
/// one message, begins at the last summary if there is one, and keeps a tail
/// that takes up the budget unless the least number decides.
pub proof fn lemma_compaction_span(ms: Seq<StoredMessage>, estimates: Seq<u64>, keep: u64)
    requires
        ms.len() == estimates.len(),
    ensures
        compaction_span(ms, estimates, keep) matches Some((start, cut)) ==> {
            &&& 0 <= start < cut <= ms.len() - MIN_TAIL_MESSAGES
            &&& start > 0 ==> ms[start].summary
            &&& forall|i: int| start < i < ms.len() ==> !(#[trigger] ms[i]).summary
            &&& cut == ms.len() - MIN_TAIL_MESSAGES || tail_tokens(estimates, cut) >= keep
        },
{
    lemma_last_summary(ms);
    lemma_budget_cut(estimates, last_summary(ms), ms.len() as int, keep);
}

/// Selects the span to summarize, given an estimate of the tokens of each message.
pub fn select_plan(
    messages: &Vec<StoredMessage>,
    estimates: &Vec<u64>,
    keep_recent_tokens: u64,
) -> (r: Option<CompactionPlan>)
    requires
        messages@.len() == estimates@.len(),
    ensures
        match compaction_span(messages@, estimates@, keep_recent_tokens) {
            Some((start, cut)) => r matches Some(p) && p.start == start && p.cut == cut,
            None => r is None,
        },
{
    let len: usize = messages.len();
    if len <= MIN_TAIL_MESSAGES {
        return None;
    }
    let ghost goal = last_summary(messages@);
    let mut start: usize = 0;
    let mut i: usize = len;
    proof {
        lemma_last_summary(messages@);
        assert(messages@.take(len as int) =~= messages@);
    }
    while i > 0
        invariant_except_break
            i <= len == messages@.len(),
            start == 0,
            goal == last_summary(messages@.take(i as int)),
        ensures
            start == goal,
        decreases i,
    {
        proof {
            assert(messages@.take(i as int).drop_last() =~= messages@.take(i - 1));
        }
        if messages[i - 1].summary {
            start = i - 1;
            break;
        }
        i -= 1;
    }
    let ghost whole = budget_cut(estimates@, start as int, len as int, keep_recent_tokens);
    let mut tokens: u64 = 0;
    let mut cut: usize = len;
    let mut k: usize = len;
    while k > start
        invariant_except_break
            start <= k <= len == estimates@.len(),
            cut == len,
            tokens == if tail_tokens(estimates@, k as int) > u64::MAX {
                u64::MAX as int
            } else {
                tail_tokens(estimates@, k as int)
            },
            whole == budget_cut(estimates@, start as int, k as int, keep_recent_tokens),
        ensures
            cut == whole,
        decreases k,
    {
        tokens = tokens.saturating_add(estimates[k - 1]);
        if tokens >= keep_recent_tokens {
            cut = k - 1;
            break;
        }
        k -= 1;
    }
    let most: usize = len - MIN_TAIL_MESSAGES;
    let cut: usize = if cut < most {
        cut
    } else {
        most
    };
    if start < cut {
        Some(CompactionPlan { start, cut })
    } else {
        None
    }
}

/// The first `max` characters of a text.
pub open spec fn shortened(s: Seq<char>, max: int) -> Seq<char> {
    if s.len() <= max {
        s
    } else {
        s.take(max)
    }
}

/// The first `max` characters of a text.
pub fn truncate(s: &str, max: usize) -> (r: &str)
    ensures
        r@ == shortened(s@, max as int),
{
    let n: usize = s.unicode_len();
    if n <= max {
        s
    } else {
        proof {
            assert(s@.take(max as int) =~= s@.subrange(0, max as int));
        }
        s.substring_char(0, max)
    }
}

/// The name of a role in the transcript.
pub open spec fn role_name(r: Role) -> Seq<char> {
    match r {
        Role::User => "User"@,
        Role::Assistant => "Assistant"@,
        Role::System => "System"@,
    }
}

/// The activity of one tool call: a line with its name, worker, status and
/// arguments, and its output, if there is any.
pub open spec fn activity(r: ToolRecord) -> Seq<char> {
    let name = match r.worker {
        Some(w) => r.name@ + " ("@ + w@ + ")"@,
        None => r.name@,
    };
    let status = if r.ok {
        "ok"@
    } else {
        "failed"@
    };
    let head = "["@ + name + " "@ + status + "] "@ + shortened(
        r.args_json@,
        TOOL_ARGS_MAX_CHARS as int,
    ) + "\n"@;
    let output = text::trimmed(r.output@);
    if output.len() == 0 {
        head
    } else {
        head + shortened(output, TOOL_OUTPUT_MAX_CHARS as int) + "\n"@
    }
}

/// Whether the call belongs to the message at the place: by place or by id.
pub open spec fn belongs(r: ToolRecord, id: u64, place: int) -> bool {
    (r.message_seq as usize) == place || r.message_id == id
}

/// The activity of the calls that belong to a message.
pub open spec fn activities(rs: Seq<ToolRecord>, id: u64, place: int) -> Seq<char>
    decreases rs.len(),
{
    if rs.len() == 0 {
        Seq::empty()
    } else if belongs(rs.last(), id, place) {
        activities(rs.drop_last(), id, place) + activity(rs.last())
    } else {
        activities(rs.drop_last(), id, place)
    }
}

/// The section of one message: its role and content, and for a reply its tool activity.
pub open spec fn section(m: StoredMessage, rs: Seq<ToolRecord>, place: int) -> Seq<char> {
    if m.summary {
        "### "@ + role_name(m.role) + " (prior summary)\n"@ + m.content@ + "\n\n"@
    } else {
        let content = shortened(m.content@, TOOL_OUTPUT_MAX_CHARS as int);
        let head = "### "@ + role_name(m.role) + "\n"@ + content;
        let ended = if content.len() > 0 && content.last() == '\n' {
            head
        } else {
            head + "\n"@
        };
        let with_tools = if m.role == Role::Assistant {
            ended + activities(rs, m.id, place)
        } else {
            ended
        };
        with_tools + "\n"@
    }
}

/// The sections of the messages.
pub open spec fn sections(ms: Seq<StoredMessage>, rs: Seq<ToolRecord>, base: int) -> Seq<char>
    decreases ms.len(),
{
    if ms.len() == 0 {
        Seq::empty()
    } else {
        sections(ms.drop_last(), rs, base) + section(ms.last(), rs, base + ms.len() - 1)
    }
}

/// The list with the path, unless it is there already.
pub open spec fn with_path(list: Seq<Seq<char>>, path: Seq<char>) -> Seq<Seq<char>> {
    if list.contains(path) {
        list
    } else {
        list.push(path)
    }
}

/// The list with the paths, each once.
pub open spec fn with_paths(list: Seq<Seq<char>>, paths: Seq<Seq<char>>) -> Seq<Seq<char>>
    decreases paths.len(),
{
    if paths.len() == 0 {
        list
    } else {
        with_path(with_paths(list, paths.drop_last()), paths.last())
    }
}

/// The paths that files of a patch were changed under.
pub open spec fn patch_paths(files: Seq<PatchFileView>) -> Seq<Seq<char>>
    decreases files.len(),
{
    if files.len() == 0 {
        Seq::empty()
    } else {
        let f = files.last();
        let before = patch_paths(files.drop_last()).push(f.path);
        match f.moved_to {
            Some(to) => before.push(to),
            None => before,
        }
    }
}

/// The paths that a file change touched.
pub open spec fn touched(change: Option<FileChangeView>) -> Seq<Seq<char>> {
    match change {
        Some(FileChangeView::Edit { path, .. }) => seq![path],
        Some(FileChangeView::Write { path, .. }) => seq![path],
        Some(FileChangeView::Patch { files }) => patch_paths(files),
        None => Seq::empty(),
    }
}

/// Whether the tool reads.
pub open spec fn reads(name: Seq<char>) -> bool {
    name == "read_file"@ || name == "grep"@ || name == "glob"@ || name == "list_dir"@ || name
        == "lsp"@
}

/// Whether the tool writes.
pub open spec fn writes(name: Seq<char>) -> bool {
    name == "write_file"@ || name == "edit_file"@
}

/// The files that the calls read, each once, given the path of each call.
pub open spec fn read_files(rs: Seq<ToolRecord>, paths: Seq<Option<Seq<char>>>) -> Seq<Seq<char>>
    decreases rs.len(),
{
    if rs.len() == 0 {
        Seq::empty()
    } else {
        let before = read_files(rs.drop_last(), paths.drop_last());
        if reads(rs.last().name@) {
            match paths.last() {
                Some(path) => with_path(before, path),
                None => before,
            }
        } else {
            before
        }
    }
}

/// The files that the calls changed, each once.
pub open spec fn modified_files(rs: Seq<ToolRecord>) -> Seq<Seq<char>>
    decreases rs.len(),
{
    if rs.len() == 0 {
        Seq::empty()
    } else {
        let before = modified_files(rs.drop_last());
        if writes(rs.last().name@) {
            with_paths(before, touched(views::opt_view(rs.last().file_change)))
        } else {
            before
        }
    }
}

/// The paths, each on a line of its own.
pub open spec fn path_lines(paths: Seq<Seq<char>>) -> Seq<char>
    decreases paths.len(),
{
    if paths.len() == 0 {
        Seq::empty()
    } else {
        path_lines(paths.drop_last()) + paths.last() + "\n"@
    }
}

/// A section that lists files; without files there is none.
pub open spec fn file_section(name: Seq<char>, files: Seq<Seq<char>>) -> Seq<char> {
    if files.len() == 0 {
        Seq::empty()
    } else {
        "<"@ + name + ">\n"@ + path_lines(files) + "</"@ + name + ">\n\n"@
    }
}

/// The transcript of messages and their tool calls, given the path of each call.
pub open spec fn transcript(
    ms: Seq<StoredMessage>,
    rs: Seq<ToolRecord>,
    paths: Seq<Option<Seq<char>>>,
    base: int,
) -> Seq<char> {
    sections(ms, rs, base) + file_section("read-files"@, read_files(rs, paths)) + file_section(
        "modified-files"@,
        modified_files(rs),
    )
}

/// A list that takes paths only once never holds one twice.
pub proof fn lemma_with_path_unique(list: Seq<Seq<char>>, path: Seq<char>)
    requires
        list.no_duplicates(),
    ensures
        with_path(list, path).no_duplicates(),
        with_path(list, path).contains(path),
{
    if !list.contains(path) {
        let l = list.push(path);
        assert(l[list.len() as int] == path);
    }
}

/// The files that a transcript lists as read are each listed once.
pub proof fn lemma_read_files_unique(rs: Seq<ToolRecord>, paths: Seq<Option<Seq<char>>>)
    ensures
        read_files(rs, paths).no_duplicates(),
    decreases rs.len(),
{
    if rs.len() > 0 {
        lemma_read_files_unique(rs.drop_last(), paths.drop_last());
        if paths.last() is Some {
            lemma_with_path_unique(
                read_files(rs.drop_last(), paths.drop_last()),
                paths.last()->0,
            );
        }
    }
}

fn push_activity(out: &mut String, r: &ToolRecord)
    ensures
        final(out)@ == old(out)@ + activity(*r),
{
    let ghost start = out@;
    let mut a: String = "[".to_owned();
    let mut name: String = r.name.clone();
    if let Some(w) = &r.worker {
        name.append(" (");
        name.append(w.as_str());
        name.append(")");
    }
    a.append(name.as_str());
    a.append(" ");
    if r.ok {
        a.append("ok");
    } else {
        a.append("failed");
    }
    a.append("] ");
    a.append(truncate(r.args_json.as_str(), TOOL_ARGS_MAX_CHARS));
    a.append("\n");
    let output = trim(r.output.as_str());
    if !output.is_empty() {
        a.append(truncate(output, TOOL_OUTPUT_MAX_CHARS));
        a.append("\n");
    }
    proof {
        assert(a@ == activity(*r));
    }
    out.append(a.as_str());
}

fn push_activities(out: &mut String, rs: &Vec<ToolRecord>, id: u64, place: usize)
    ensures
        final(out)@ == old(out)@ + activities(rs@, id, place as int),
{
    let ghost start = out@;
    let mut i: usize = 0;
    proof {
        assert(start + activities(rs@.take(0), id, place as int) =~= start);
    }
    while i < rs.len()
        invariant
            i <= rs@.len(),
            out@ =~= start + activities(rs@.take(i as int), id, place as int),
        decreases rs@.len() - i,
    {
        proof {
            assert(rs@.take(i + 1).drop_last() =~= rs@.take(i as int));
        }
        if rs[i].message_seq as usize == place || rs[i].message_id == id {
            push_activity(out, &rs[i]);
        }
        i += 1;
    }
    proof {
        assert(rs@.take(i as int) =~= rs@);
    }
}

fn role_label(r: Role) -> (s: &'static str)
    ensures
        s@ == role_name(r),
{
    match r {
        Role::User => "User",
        Role::Assistant => "Assistant",
        Role::System => "System",
    }
}

fn push_section(out: &mut String, m: &StoredMessage, rs: &Vec<ToolRecord>, place: usize)
    ensures
        final(out)@ == old(out)@ + section(*m, rs@, place as int),
{
    proof {
        reveal_strlit("\n");
    }
    let mut a: String = "### ".to_owned();
    a.append(role_label(m.role));
    if m.summary {
        a.append(" (prior summary)\n");
        a.append(m.content.as_str());
        a.append("\n\n");
    } else {
        a.append("\n");
        let content = truncate(m.content.as_str(), TOOL_OUTPUT_MAX_CHARS);
        a.append(content);
        let n: usize = content.unicode_len();
        if !(n > 0 && content.get_char(n - 1) == '\n') {
            a.append("\n");
        }
        if m.role == Role::Assistant {
            push_activities(&mut a, rs, m.id, place);
        }
        a.append("\n");
    }
    proof {
        assert(a@ == section(*m, rs@, place as int));
    }
    out.append(a.as_str());
}

/// Adds the path, unless it is there already.
pub fn push_unique(list: &mut Vec<String>, path: String)
    ensures
        text::texts(final(list)@) == with_path(text::texts(old(list)@), path@),
{
    let ghost all = text::texts(list@);
    let mut i: usize = 0;
    while i < list.len()
        invariant
            *list == *old(list),
            all == text::texts(list@),
            i <= list@.len(),
            forall|k: int| 0 <= k < i ==> (#[trigger] list@[k])@ != path@,
        decreases list@.len() - i,
    {
        if same(list[i].as_str(), path.as_str()) {
            proof {
                assert(all[i as int] == path@);
            }
            return;
        }
        i += 1;
    }
    proof {
        assert(!all.contains(path@)) by {
            if all.contains(path@) {
                let k = choose|k: int| 0 <= k < all.len() && all[k] == path@;
                assert(list@[k]@ == path@);
            }
        }
    }
    list.push(path);
    proof {
        assert(text::texts(list@) =~= all.push(path@));
    }
}

/// The paths that a file change touched.
pub fn changed_paths(change: &Option<FileChange>) -> (r: Vec<String>)
    ensures
        text::texts(r@) == touched(views::opt_view(*change)),
{
    let mut out: Vec<String> = Vec::new();
    match change {
        Some(FileChange::Edit { path, .. }) => {
            out.push(path.clone());
        },
        Some(FileChange::Write { path, .. }) => {
            out.push(path.clone());
        },
        Some(FileChange::Patch { files }) => {
            let ghost all = views::views(files@);
            let mut i: usize = 0;
            proof {
                assert(text::texts(out@) =~= patch_paths(all.take(0)));
            }
            while i < files.len()
                invariant
                    all == views::views(files@),
                    i <= files@.len(),
                    text::texts(out@) == patch_paths(all.take(i as int)),
                decreases files@.len() - i,
            {
                proof {
                    assert(all.take(i + 1).drop_last() =~= all.take(i as int));
                    assert(all.take(i + 1).last() == files@[i as int]@);
                }
                let ghost before = text::texts(out@);
                out.push(files[i].path.clone());
                if let Some(to) = &files[i].moved_to {
                    out.push(to.clone());
                }
                proof {
                    assert(text::texts(out@) =~= patch_paths(all.take(i + 1)));
                }
                i += 1;
            }
            proof {
                assert(all.take(i as int) =~= all);
            }
        },
        None => {},
    }
    proof {
        assert(text::texts(out@) =~= touched(views::opt_view(*change)));
    }
    out
}

fn push_all_unique(list: &mut Vec<String>, paths: &Vec<String>)
    ensures
        text::texts(final(list)@) == with_paths(text::texts(old(list)@), text::texts(paths@)),
{
    let ghost start = text::texts(list@);
    let ghost all = text::texts(paths@);
    let mut i: usize = 0;
    proof {
        assert(all.take(0) =~= Seq::<Seq<char>>::empty());
    }
    while i < paths.len()
        invariant
            all == text::texts(paths@),
            i <= paths@.len(),
            text::texts(list@) == with_paths(start, all.take(i as int)),
        decreases paths@.len() - i,
    {
        proof {
            assert(all.take(i + 1).drop_last() =~= all.take(i as int));
        }
        push_unique(list, paths[i].clone());
        i += 1;
    }
    proof {
        assert(all.take(i as int) =~= all);
    }
}

fn tool_reads(name: &str) -> (b: bool)
    ensures
        b == reads(name@),
{
    same(name, "read_file") || same(name, "grep") || same(name, "glob") || same(name, "list_dir")
        || same(name, "lsp")
}

fn tool_writes(name: &str) -> (b: bool)
    ensures
        b == writes(name@),
{
    same(name, "write_file") || same(name, "edit_file")
}

/// The files that the calls read and those that they changed, given the path
/// of each call.
pub fn file_lists(rs: &Vec<ToolRecord>, paths: &Vec<Option<String>>) -> (r: (
    Vec<String>,
    Vec<String>,
))
    requires
        rs@.len() == paths@.len(),
    ensures
        text::texts(r.0@) == read_files(rs@, path_views(paths@)),
        text::texts(r.1@) == modified_files(rs@),
{
    let ghost all = path_views(paths@);
    let mut read: Vec<String> = Vec::new();
    let mut modified: Vec<String> = Vec::new();
    let mut i: usize = 0;
    proof {
        assert(text::texts(read@) =~= read_files(rs@.take(0), all.take(0)));
        assert(text::texts(modified@) =~= modified_files(rs@.take(0)));
    }
    while i < rs.len()
        invariant
            rs@.len() == paths@.len(),
            all == path_views(paths@),
            i <= rs@.len(),
            text::texts(read@) == read_files(rs@.take(i as int), all.take(i as int)),
            text::texts(modified@) == modified_files(rs@.take(i as int)),
        decreases rs@.len() - i,
    {
        proof {
            assert(rs@.take(i + 1).drop_last() =~= rs@.take(i as int));
            assert(all.take(i + 1).drop_last() =~= all.take(i as int));
        }
        if tool_reads(rs[i].name.as_str()) {
            if let Some(path) = &paths[i] {
                push_unique(&mut read, path.clone());
            }
        }
        if tool_writes(rs[i].name.as_str()) {
            let changed = changed_paths(&rs[i].file_change);
            push_all_unique(&mut modified, &changed);
        }
        i += 1;
    }
    proof {
        assert(rs@.take(i as int) =~= rs@);
        assert(all.take(i as int) =~= all);
    }
    (read, modified)
}

/// The contents of a list of optional paths.
pub open spec fn path_views(v: Seq<Option<String>>) -> Seq<Option<Seq<char>>> {
    Seq::new(v.len(), |i: int| views::opt_view(v[i]))
}

fn push_file_section(out: &mut String, name: &str, files: &Vec<String>)
    ensures
        final(out)@ == old(out)@ + file_section(name@, text::texts(files@)),
{
    let ghost all = text::texts(files@);
    if files.len() == 0 {
        proof {
            assert(out@ + file_section(name@, all) =~= out@);
        }
        return;
    }
    let mut a: String = "<".to_owned();
    a.append(name);
    a.append(">\n");
    let ghost top = a@;
    let mut i: usize = 0;
    proof {
        assert(top + path_lines(all.take(0)) =~= top);
    }
    while i < files.len()
        invariant
            all == text::texts(files@),
            i <= files@.len(),
            a@ =~= top + path_lines(all.take(i as int)),
        decreases files@.len() - i,
    {
        proof {
            assert(all.take(i + 1).drop_last() =~= all.take(i as int));
        }
        a.append(files[i].as_str());
        a.append("\n");
        i += 1;
    }
    proof {
        assert(all.take(i as int) =~= all);
    }
    a.append("</");
    a.append(name);
    a.append(">\n\n");
    proof {
        assert(a@ == file_section(name@, all));
    }
    out.append(a.as_str());
}

/// The transcript of messages and their tool calls, given the path of each
/// call; the first message is the one at `base_seq`.
pub fn render_transcript(
    messages: &Vec<StoredMessage>,
    records: &Vec<ToolRecord>,
    paths: &Vec<Option<String>>,
    base_seq: usize,
) -> (r: String)
    requires
        records@.len() == paths@.len(),
        base_seq + messages@.len() <= usize::MAX,
    ensures
        r@ == transcript(messages@, records@, path_views(paths@), base_seq as int),
{
    let mut out: String = String::new();
    let mut i: usize = 0;
    proof {
        assert(out@ =~= sections(messages@.take(0), records@, base_seq as int));
    }
    while i < messages.len()
        invariant
            i <= messages@.len(),
            base_seq + messages@.len() <= usize::MAX,
            out@ == sections(messages@.take(i as int), records@, base_seq as int),
        decreases messages@.len() - i,
    {
        proof {
            assert(messages@.take(i + 1).drop_last() =~= messages@.take(i as int));
        }
        push_section(&mut out, &messages[i], records, base_seq + i);
        i += 1;
    }
    proof {
        assert(messages@.take(i as int) =~= messages@);
    }
    let (read, modified) = file_lists(records, paths);
    push_file_section(&mut out, "read-files", &read);
    push_file_section(&mut out, "modified-files", &modified);
    out
}

/// The paths in the calls' arguments.
pub open spec fn argument_paths(rs: Seq<ToolRecord>) -> Seq<Option<Seq<char>>> {
    Seq::new(rs.len(), |i: int| json::json_string(rs[i].args_json@, "path"@))
}

/// The transcript of the messages to summarize, for the summarizer.
pub fn serialize_head(
    messages: &Vec<StoredMessage>,
    records: &Vec<ToolRecord>,
    base_seq: usize,
) -> (r: String)
    requires
        base_seq + messages@.len() <= usize::MAX,
    ensures
        r@ == transcript(messages@, records@, argument_paths(records@), base_seq as int),
{
    let ghost all = argument_paths(records@);
    let mut paths: Vec<Option<String>> = Vec::new();
    let mut i: usize = 0;
    while i < records.len()
        invariant
            all == argument_paths(records@),
            i <= records@.len(),
            paths@.len() == i,
            path_views(paths@) =~= all.take(i as int),
        decreases records@.len() - i,
    {
        let ghost before = paths@;
        let path = json_string_field(records[i].args_json.as_str(), "path");
        paths.push(path);
        proof {
            assert(path_views(paths@) =~= path_views(before).push(all[i as int]));
        }
        i += 1;
    }
    proof {
        assert(all.take(i as int) =~= all);
    }
    render_transcript(messages, records, &paths, base_seq)
}

/// The task for the summarizer.
pub open spec fn task_text(head_text: Seq<char>) -> Seq<char> {
    "Summarize the following conversation transcript. Keep it concise and information-dense, following the format in your instructions.\n\n---\n"@
        + head_text + "\n---"@
}

/// The task for the summarizer.
pub fn summary_task(head_text: &str) -> (r: String)
    ensures
        r@ == task_text(head_text@),
{
    let mut s: String =
        "Summarize the following conversation transcript. Keep it concise and information-dense, following the format in your instructions.\n\n---\n".to_owned();
    s.append(head_text);
    s.append("\n---");
    s
}

}
