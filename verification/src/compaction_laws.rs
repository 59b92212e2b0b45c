//! What holds of every compaction.

use crate::compaction;
use crate::json;
use crate::llm::{FileChangeView, Role};
use crate::stored::StoredMessage;
use crate::text;
use crate::tool_record::ToolRecord;
use crate::views;
use vstd::prelude::*;

verus! {

/// The first so many characters of a text.
pub open spec fn first_chars(s: Seq<char>, n: int) -> Seq<char> {
    s.take(if s.len() <= n {
        s.len() as int
    } else {
        n
    })
}

proof fn lemma_shortened(s: Seq<char>, n: int)
    requires
        0 <= n,
    ensures
        compaction::shortened(s, n) == first_chars(s, n),
{
    assert(s.take(s.len() as int) =~= s);
}

proof fn lemma_part_occurs(before: Seq<char>, part: Seq<char>, after: Seq<char>)
    ensures
        text::occurs(before + part + after, part),
{
    let i = before.len() as int;
    assert((before + part + after).subrange(i, i + part.len()) =~= part);
    assert(text::occurs_at(before + part + after, part, i));
}

proof fn lemma_occurs_in_part(
    whole: Seq<char>,
    before: Seq<char>,
    part: Seq<char>,
    after: Seq<char>,
    p: Seq<char>,
)
    requires
        whole == before + part + after,
        text::occurs(part, p),
    ensures
        text::occurs(whole, p),
{
    let i = choose|i: int| text::occurs_at(part, p, i);
    let k = before.len() + i;
    assert(whole.subrange(k, k + p.len()) =~= part.subrange(i, i + p.len()));
    assert(text::occurs_at(whole, p, k));
}

/// The heading of a message.
pub open spec fn heading(role: Role) -> Seq<char> {
    match role {
        Role::User => "### User"@,
        Role::Assistant => "### Assistant"@,
        Role::System => "### System"@,
    }
}

proof fn lemma_heading(role: Role)
    ensures
        "### "@ + compaction::role_name(role) == heading(role),
{
    reveal_strlit("### ");
    reveal_strlit("User");
    reveal_strlit("Assistant");
    reveal_strlit("System");
    reveal_strlit("### User");
    reveal_strlit("### Assistant");
    reveal_strlit("### System");
    assert("### "@ + compaction::role_name(role) =~= heading(role));
}

proof fn lemma_sections_in_order(
    ms: Seq<StoredMessage>,
    rs: Seq<ToolRecord>,
    base: int,
    i: int,
)
    requires
        0 <= i < ms.len(),
    ensures
        compaction::sections(ms.take(i + 1), rs, base) == compaction::sections(
            ms.take(i),
            rs,
            base,
        ) + compaction::section(ms[i], rs, base + i),
        exists|after: Seq<char>| #[trigger]
            (compaction::sections(ms.take(i + 1), rs, base) + after) == compaction::sections(
                ms,
                rs,
                base,
            ),
    decreases ms.len(),
{
    let front = ms.take(i + 1);
    assert(front.drop_last() =~= ms.take(i));
    assert(front.last() == ms[i]);
    if i + 1 == ms.len() {
        assert(front =~= ms);
        assert(compaction::sections(front, rs, base) + Seq::empty() =~= compaction::sections(
            ms,
            rs,
            base,
        ));
    } else {
        let d = ms.drop_last();
        lemma_sections_in_order(d, rs, base, i);
        assert(d.take(i + 1) =~= front);
        let after = choose|after: Seq<char>| #[trigger]
            (compaction::sections(d.take(i + 1), rs, base) + after) == compaction::sections(
                d,
                rs,
                base,
            );
        let more = compaction::section(ms.last(), rs, base + ms.len() - 1);
        assert(compaction::sections(front, rs, base) + (after + more) =~= compaction::sections(
            ms,
            rs,
            base,
        ));
    }
}

proof fn lemma_section_in_transcript(
    ms: Seq<StoredMessage>,
    rs: Seq<ToolRecord>,
    ps: Seq<Option<Seq<char>>>,
    base: int,
    i: int,
    p: Seq<char>,
)
    requires
        0 <= i < ms.len(),
        text::occurs(compaction::section(ms[i], rs, base + i), p),
    ensures
        text::occurs(compaction::transcript(ms, rs, ps, base), p),
{
    lemma_sections_in_order(ms, rs, base, i);
    let whole = compaction::transcript(ms, rs, ps, base);
    let all = compaction::sections(ms, rs, base);
    let after = choose|after: Seq<char>| #[trigger]
        (compaction::sections(ms.take(i + 1), rs, base) + after) == all;
    let lists = compaction::file_section("read-files"@, compaction::read_files(rs, ps))
        + compaction::file_section("modified-files"@, compaction::modified_files(rs));
    let before = compaction::sections(ms.take(i), rs, base);
    let own = compaction::section(ms[i], rs, base + i);
    assert(whole =~= before + own + (after + lists));
    lemma_occurs_in_part(whole, before, own, after + lists, p);
}

/// A transcript holds each message under its role: a prior summary whole, any
/// other message up to its first two thousand characters.
pub proof fn lemma_transcript_holds_every_message(
    ms: Seq<StoredMessage>,
    rs: Seq<ToolRecord>,
    ps: Seq<Option<Seq<char>>>,
    base: int,
    i: int,
)
    requires
        0 <= i < ms.len(),
    ensures
        ms[i].summary ==> text::occurs(
            compaction::transcript(ms, rs, ps, base),
            heading(ms[i].role) + " (prior summary)\n"@ + ms[i].content@,
        ),
        !ms[i].summary ==> text::occurs(
            compaction::transcript(ms, rs, ps, base),
            heading(ms[i].role) + "\n"@ + first_chars(ms[i].content@, 2000),
        ),
        text::occurs(
            compaction::transcript(ms, rs, ps, base),
            if ms[i].summary {
                ms[i].content@
            } else {
                first_chars(ms[i].content@, 2000)
            },
        ),
{
    let m = ms[i];
    let own = compaction::section(m, rs, base + i);
    lemma_heading(m.role);
    lemma_shortened(m.content@, 2000);
    let none = Seq::<char>::empty();
    if m.summary {
        let p = heading(m.role) + " (prior summary)\n"@ + m.content@;
        assert(own =~= none + p + "\n\n"@);
        lemma_part_occurs(none, p, "\n\n"@);
        lemma_section_in_transcript(ms, rs, ps, base, i, p);
        let head = heading(m.role) + " (prior summary)\n"@;
        assert(own =~= head + m.content@ + "\n\n"@);
        lemma_part_occurs(head, m.content@, "\n\n"@);
        lemma_section_in_transcript(ms, rs, ps, base, i, m.content@);
    } else {
        let content = first_chars(m.content@, 2000);
        let p = heading(m.role) + "\n"@ + content;
        let tools = if m.role == Role::Assistant {
            compaction::activities(rs, m.id, base + i)
        } else {
            none
        };
        let feed = if content.len() > 0 && content.last() == '\n' {
            none
        } else {
            "\n"@
        };
        let after = feed + tools + "\n"@;
        assert(own =~= none + p + after);
        lemma_part_occurs(none, p, after);
        lemma_section_in_transcript(ms, rs, ps, base, i, p);
        let head = heading(m.role) + "\n"@;
        assert(own =~= head + content + after);
        lemma_part_occurs(head, content, after);
        lemma_section_in_transcript(ms, rs, ps, base, i, content);
    }
}

/// The messages come in their order: what a transcript of the first ones says
/// begins any transcript of more, and a message comes behind those before it.
pub proof fn lemma_messages_come_in_order(
    ms: Seq<StoredMessage>,
    rs: Seq<ToolRecord>,
    base: int,
    i: int,
)
    requires
        0 <= i < ms.len(),
    ensures
        text::has_prefix(
            compaction::sections(ms, rs, base),
            compaction::sections(ms.take(i + 1), rs, base),
        ),
        text::has_prefix(
            compaction::sections(ms.take(i + 1), rs, base),
            compaction::sections(ms.take(i), rs, base),
        ),
        text::has_prefix(
            compaction::sections(ms.take(i + 1), rs, base).skip(
                compaction::sections(ms.take(i), rs, base).len() as int,
            ),
            heading(ms[i].role),
        ),
{
    lemma_sections_in_order(ms, rs, base, i);
    let before = compaction::sections(ms.take(i), rs, base);
    let front = compaction::sections(ms.take(i + 1), rs, base);
    let own = compaction::section(ms[i], rs, base + i);
    let all = compaction::sections(ms, rs, base);
    let after = choose|after: Seq<char>| #[trigger] (front + after) == all;
    assert(all.take(front.len() as int) =~= front);
    assert(front.take(before.len() as int) =~= before);
    assert(front.skip(before.len() as int) =~= own);
    lemma_heading(ms[i].role);
    let head = heading(ms[i].role);
    if ms[i].summary {
        assert(own =~= head + (" (prior summary)\n"@ + ms[i].content@ + "\n\n"@));
    } else {
        let content = compaction::shortened(ms[i].content@, 2000);
        assert(own.len() >= head.len());
    }
    assert(own.take(head.len() as int) =~= head);
}

/// What is said of a tool call: its name, the worker it ran in, whether it went
/// well, the first five hundred characters of its arguments and, where it has
/// any, the first two thousand of its output without the white space around it.
pub open spec fn told(r: ToolRecord) -> Seq<char> {
    let who = match r.worker {
        Some(w) => r.name@ + " ("@ + w@ + ")"@,
        None => r.name@,
    };
    let line = "["@ + who + (if r.ok {
        " ok] "@
    } else {
        " failed] "@
    }) + first_chars(r.args_json@, 500) + "\n"@;
    let output = first_chars(text::trimmed(r.output@), 2000);
    if output.len() == 0 {
        line
    } else {
        line + output + "\n"@
    }
}

proof fn lemma_told(r: ToolRecord)
    ensures
        compaction::activity(r) == told(r),
{
    reveal_strlit(" ");
    reveal_strlit("ok");
    reveal_strlit("failed");
    reveal_strlit("] ");
    reveal_strlit(" ok] ");
    reveal_strlit(" failed] ");
    assert(" "@ + "ok"@ + "] "@ =~= " ok] "@);
    assert(" "@ + "failed"@ + "] "@ =~= " failed] "@);
    lemma_shortened(r.args_json@, 500);
    lemma_shortened(text::trimmed(r.output@), 2000);
    assert(compaction::activity(r) =~= told(r));
}

proof fn lemma_activity_among(rs: Seq<ToolRecord>, id: u64, place: int, k: int)
    requires
        0 <= k < rs.len(),
        compaction::belongs(rs[k], id, place),
    ensures
        text::occurs(compaction::activities(rs, id, place), told(rs[k])),
    decreases rs.len(),
{
    let d = rs.drop_last();
    let all = compaction::activities(rs, id, place);
    let before = compaction::activities(d, id, place);
    let none = Seq::<char>::empty();
    lemma_told(rs[k]);
    if k == rs.len() - 1 {
        assert(all =~= before + told(rs[k]) + none);
        lemma_part_occurs(before, told(rs[k]), none);
    } else {
        assert(d[k] == rs[k]);
        lemma_activity_among(d, id, place, k);
        let after = if compaction::belongs(rs.last(), id, place) {
            compaction::activity(rs.last())
        } else {
            none
        };
        assert(all =~= none + before + after);
        lemma_occurs_in_part(all, none, before, after, told(rs[k]));
    }
}

/// A reply's tool calls are told of in its section; a call belongs to the reply
/// with its message id, or at its place.
pub proof fn lemma_tool_calls_are_told_of(
    ms: Seq<StoredMessage>,
    rs: Seq<ToolRecord>,
    ps: Seq<Option<Seq<char>>>,
    base: int,
    i: int,
    k: int,
)
    requires
        0 <= i < ms.len(),
        0 <= k < rs.len(),
        ms[i].role == Role::Assistant,
        !ms[i].summary,
        rs[k].message_id == ms[i].id || rs[k].message_seq == base + i && base + i <= usize::MAX,
    ensures
        text::occurs(compaction::transcript(ms, rs, ps, base), told(rs[k])),
        text::occurs(compaction::section(ms[i], rs, base + i), told(rs[k])),
{
    let m = ms[i];
    let own = compaction::section(m, rs, base + i);
    assert(compaction::belongs(rs[k], m.id, base + i));
    lemma_activity_among(rs, m.id, base + i, k);
    let tools = compaction::activities(rs, m.id, base + i);
    let content = compaction::shortened(m.content@, 2000);
    let head = "### "@ + compaction::role_name(m.role) + "\n"@ + content;
    let ended = if content.len() > 0 && content.last() == '\n' {
        head
    } else {
        head + "\n"@
    };
    assert(own =~= ended + tools + "\n"@);
    lemma_occurs_in_part(own, ended, tools, "\n"@, told(rs[k]));
    lemma_section_in_transcript(ms, rs, ps, base, i, told(rs[k]));
}

proof fn lemma_no_activity(rs: Seq<ToolRecord>, id: u64, place: int)
    requires
        forall|k: int| 0 <= k < rs.len() ==> !compaction::belongs(#[trigger] rs[k], id, place),
    ensures
        compaction::activities(rs, id, place).len() == 0,
    decreases rs.len(),
{
    if rs.len() > 0 {
        let d = rs.drop_last();
        assert(forall|k: int| 0 <= k < d.len() ==> d[k] == rs[k]);
        assert(rs.last() == rs[rs.len() - 1]);
        lemma_no_activity(d, id, place);
    }
}

/// A call is told of under its own reply alone: prompts and summaries tell of
/// none, and a reply of none that belongs to another.
pub proof fn lemma_other_calls_are_not_told_of(
    m: StoredMessage,
    rs: Seq<ToolRecord>,
    place: int,
)
    ensures
        m.summary || m.role != Role::Assistant || (forall|k: int|
            0 <= k < rs.len() ==> (#[trigger] rs[k]).message_id != m.id && rs[k].message_seq
                as usize != place) ==> compaction::section(m, rs, place) == compaction::section(
            m,
            Seq::empty(),
            place,
        ),
{
    if !m.summary && m.role == Role::Assistant && (forall|k: int|
        0 <= k < rs.len() ==> (#[trigger] rs[k]).message_id != m.id && rs[k].message_seq as usize
            != place) {
        assert forall|k: int| 0 <= k < rs.len() implies !compaction::belongs(
            #[trigger] rs[k],
            m.id,
            place,
        ) by {
            assert(rs[k].message_id != m.id);
        }
        lemma_no_activity(rs, m.id, place);
        assert(compaction::activities(rs, m.id, place) =~= compaction::activities(
            Seq::empty(),
            m.id,
            place,
        ));
    }
}

/// The tokens of the tail from a place on: all of its messages count, each once.
pub proof fn lemma_tail_tokens_add_up(estimates: Seq<u64>, i: int)
    requires
        0 <= i <= estimates.len(),
    ensures
        i < estimates.len() ==> compaction::tail_tokens(estimates, i) == estimates[i]
            + compaction::tail_tokens(estimates, i + 1),
        compaction::tail_tokens(estimates, estimates.len() as int) == 0,
        i < estimates.len() ==> compaction::tail_tokens(estimates, i + 1)
            <= compaction::tail_tokens(estimates, i),
{
}

proof fn lemma_tail_shrinks(estimates: Seq<u64>, i: int, j: int)
    requires
        0 <= i <= j,
    ensures
        compaction::tail_tokens(estimates, j) <= compaction::tail_tokens(estimates, i),
        0 <= compaction::tail_tokens(estimates, j),
    decreases j - i, estimates.len() - i,
{
    if i < j {
        if i < estimates.len() {
            lemma_tail_shrinks(estimates, i + 1, j);
            lemma_tail_not_negative(estimates, i);
        } else {
            assert(compaction::tail_tokens(estimates, i) == 0);
            assert(compaction::tail_tokens(estimates, j) == 0);
        }
    } else {
        lemma_tail_not_negative(estimates, j);
    }
}

proof fn lemma_tail_not_negative(estimates: Seq<u64>, i: int)
    requires
        0 <= i,
    ensures
        0 <= compaction::tail_tokens(estimates, i),
    decreases estimates.len() - i,
{
    if i < estimates.len() {
        lemma_tail_not_negative(estimates, i + 1);
    }
}

proof fn lemma_budget_cut_is_shortest(estimates: Seq<u64>, start: int, i: int, keep: u64)
    requires
        0 <= start <= i <= estimates.len(),
        forall|j: int| i <= j < estimates.len() ==> #[trigger] compaction::tail_tokens(estimates, j)
            < keep,
    ensures
        ({
            let cut = compaction::budget_cut(estimates, start, i, keep);
            &&& forall|j: int|
                cut < j < estimates.len() ==> #[trigger] compaction::tail_tokens(estimates, j)
                    < keep
            &&& cut == estimates.len() ==> forall|j: int|
                start <= j < estimates.len() ==> #[trigger] compaction::tail_tokens(estimates, j)
                    < keep
            &&& cut < estimates.len() ==> start <= cut && compaction::tail_tokens(estimates, cut)
                >= keep
            &&& cut <= estimates.len()
        }),
    decreases i - start,
{
    if i > start && compaction::tail_tokens(estimates, i - 1) < keep {
        lemma_budget_cut_is_shortest(estimates, start, i - 1, keep);
    }
}

/// The span to summarize begins at the newest summary, or at the beginning, and
/// ends where the shortest tail begins that takes up the budget, or before the
/// last four messages if that comes earlier. There is one where it holds a
/// message: not for four messages or fewer, nor where the newest summary is among
/// the last four or begins the shortest tail itself.
pub proof fn lemma_span_leaves_the_shortest_tail(
    ms: Seq<StoredMessage>,
    estimates: Seq<u64>,
    keep: u64,
    start: int,
)
    requires
        ms.len() == estimates.len(),
        0 <= start < ms.len(),
        start == 0 || ms[start].summary,
        forall|i: int| start < i < ms.len() ==> !(#[trigger] ms[i]).summary,
    ensures
        match compaction::compaction_span(ms, estimates, keep) {
            Some((from, cut)) => {
                &&& from == start
                &&& start < cut <= ms.len() - 4
                &&& cut < ms.len() - 4 ==> compaction::tail_tokens(estimates, cut) >= keep
                &&& cut < ms.len() - 4 ==> compaction::tail_tokens(estimates, cut + 1) < keep
                &&& cut == ms.len() - 4 ==> compaction::tail_tokens(estimates, cut + 1) < keep
                    || compaction::tail_tokens(estimates, cut) >= keep
            },
            None => ms.len() <= 4 || start >= ms.len() - 4 || compaction::tail_tokens(
                estimates,
                start,
            ) >= keep && compaction::tail_tokens(estimates, start + 1) < keep,
        },
        compaction::compaction_span(ms, estimates, keep) is Some <==> start < ms.len() - 4 && (
        compaction::tail_tokens(estimates, start) < keep || compaction::tail_tokens(
            estimates,
            start + 1,
        ) >= keep),
        compaction::compaction_span(ms, estimates, keep) matches Some((from, cut)) ==> forall|
            later: int,
        |
            cut < later <= ms.len() - 4 ==> #[trigger] compaction::tail_tokens(estimates, later)
                < keep,
{
    let len = ms.len() as int;
    compaction::lemma_last_summary(ms);
    let found = compaction::last_summary(ms);
    assert(found == start) by {
        if found < start {
            assert(!ms[start].summary);
        } else if start < found {
            assert(!ms[found].summary);
        }
    }
    lemma_budget_cut_is_shortest(estimates, start, len, keep);
    let by = compaction::budget_cut(estimates, start, len, keep);
    assert(compaction::tail_tokens(estimates, len) == 0);
    lemma_tail_shrinks(estimates, start, start + 1);
    if start + 1 < len {
        if by == start {
            assert(compaction::tail_tokens(estimates, start + 1) < keep);
        }
        if by < len && by > start {
            lemma_tail_shrinks(estimates, start + 1, by);
        }
        if by == len {
            assert(compaction::tail_tokens(estimates, start) < keep);
        }
    }
    if let Some((from, cut)) = compaction::compaction_span(ms, estimates, keep) {
        if by < len - 4 {
            assert(compaction::tail_tokens(estimates, cut + 1) < keep);
        } else {
            if cut < by && by < len {
                lemma_tail_shrinks(estimates, cut, by);
            }
            if by == len {
                assert(compaction::tail_tokens(estimates, cut) < keep);
                lemma_tail_shrinks(estimates, cut, cut + 1);
            }
            if cut == by {
                assert(compaction::tail_tokens(estimates, cut + 1) < keep);
            }
        }
    }
}

/// Whether the tool reads files.
pub open spec fn is_reader(name: Seq<char>) -> bool {
    name == "read_file"@ || name == "grep"@ || name == "glob"@ || name == "list_dir"@ || name
        == "lsp"@
}

/// The files listed as read are those that a reading tool was called on, and all
/// of those.
pub proof fn lemma_files_read_are_listed(
    rs: Seq<ToolRecord>,
    ps: Seq<Option<Seq<char>>>,
    path: Seq<char>,
)
    requires
        rs.len() == ps.len(),
    ensures
        compaction::read_files(rs, ps).contains(path) <==> exists|i: int|
            0 <= i < rs.len() && is_reader((#[trigger] rs[i]).name@) && ps[i] == Some(path),
    decreases rs.len(),
{
    if rs.len() > 0 {
        let (d, q) = (rs.drop_last(), ps.drop_last());
        let n = rs.len() - 1;
        lemma_files_read_are_listed(d, q, path);
        assert(rs.last() == rs[n] && ps.last() == ps[n]);
        assert(forall|i: int| 0 <= i < n ==> d[i] == rs[i] && q[i] == ps[i]);
        let before = compaction::read_files(d, q);
        let after = compaction::read_files(rs, ps);
        if before.contains(path) {
            let k = choose|k: int| 0 <= k < before.len() && before[k] == path;
            assert(after[k] == path);
            let i = choose|i: int|
                0 <= i < d.len() && is_reader((#[trigger] d[i]).name@) && q[i] == Some(path);
            assert(rs[i] == d[i]);
        }
        if is_reader(rs[n].name@) && ps[n] == Some(path) {
            if !before.contains(path) {
                assert(after == before.push(path));
                assert(after[before.len() as int] == path);
            }
        }
        if after.contains(path) && !before.contains(path) {
            let k = choose|k: int| 0 <= k < after.len() && after[k] == path;
            if k < before.len() {
                assert(before[k] == path);
            }
            assert(is_reader(rs[n].name@) && ps[n] == Some(path));
        }
        if exists|i: int|
            0 <= i < rs.len() && is_reader((#[trigger] rs[i]).name@) && ps[i] == Some(path) {
            let i = choose|i: int|
                0 <= i < rs.len() && is_reader((#[trigger] rs[i]).name@) && ps[i] == Some(path);
            if i < n {
                assert(d[i] == rs[i]);
            }
        }
    } else {
        assert(compaction::read_files(rs, ps) =~= Seq::empty());
    }
}

/// Whether the change touched the file: an edit or a write its own file, a patch
/// the files it changed and those it moved them to.
pub open spec fn touches(change: FileChangeView, path: Seq<char>) -> bool {
    match change {
        FileChangeView::Edit { path: p, .. } => p == path,
        FileChangeView::Write { path: p, .. } => p == path,
        FileChangeView::Patch { files } => exists|i: int|
            0 <= i < files.len() && ((#[trigger] files[i]).path == path || files[i].moved_to
                == Some(path)),
    }
}

proof fn lemma_patch_paths(files: Seq<crate::llm::PatchFileView>, path: Seq<char>)
    ensures
        compaction::patch_paths(files).contains(path) <==> exists|i: int|
            0 <= i < files.len() && ((#[trigger] files[i]).path == path || files[i].moved_to
                == Some(path)),
    decreases files.len(),
{
    let all = compaction::patch_paths(files);
    if files.len() > 0 {
        let d = files.drop_last();
        let n = files.len() - 1;
        lemma_patch_paths(d, path);
        let before = compaction::patch_paths(d);
        assert(files.last() == files[n]);
        assert(forall|i: int| 0 <= i < n ==> d[i] == files[i]);
        if before.contains(path) {
            let k = choose|k: int| 0 <= k < before.len() && before[k] == path;
            assert(all[k] == path);
            let i = choose|i: int|
                0 <= i < d.len() && ((#[trigger] d[i]).path == path || d[i].moved_to == Some(path));
            assert(files[i] == d[i]);
        }
        assert(all[before.len() as int] == files[n].path);
        if files[n].moved_to is Some {
            assert(all[before.len() as int + 1] == files[n].moved_to->0);
        }
        if all.contains(path) && !before.contains(path) {
            let k = choose|k: int| 0 <= k < all.len() && all[k] == path;
            if k < before.len() {
                assert(before[k] == path);
            }
            assert(files[n].path == path || files[n].moved_to == Some(path));
        }
        if exists|i: int|
            0 <= i < files.len() && ((#[trigger] files[i]).path == path || files[i].moved_to
                == Some(path)) {
            let i = choose|i: int|
                0 <= i < files.len() && ((#[trigger] files[i]).path == path || files[i].moved_to
                    == Some(path));
            if i < n {
                assert(d[i] == files[i]);
            }
        }
    } else {
        assert(all =~= Seq::empty());
    }
}

proof fn lemma_with_paths(list: Seq<Seq<char>>, ps: Seq<Seq<char>>, path: Seq<char>)
    ensures
        compaction::with_paths(list, ps).contains(path) <==> list.contains(path) || ps.contains(
            path,
        ),
    decreases ps.len(),
{
    if ps.len() > 0 {
        let d = ps.drop_last();
        lemma_with_paths(list, d, path);
        let before = compaction::with_paths(list, d);
        let after = compaction::with_paths(list, ps);
        if before.contains(path) {
            let k = choose|k: int| 0 <= k < before.len() && before[k] == path;
            assert(after[k] == path);
            if d.contains(path) {
                let j = choose|j: int| 0 <= j < d.len() && d[j] == path;
                assert(ps[j] == path);
            }
        }
        if ps.last() == path {
            assert(ps[ps.len() - 1] == path);
            if !before.contains(path) {
                assert(after[before.len() as int] == path);
            }
        }
        if ps.contains(path) && ps.last() != path {
            let j = choose|j: int| 0 <= j < ps.len() && ps[j] == path;
            assert(d[j] == path);
        }
        if after.contains(path) && !before.contains(path) {
            let k = choose|k: int| 0 <= k < after.len() && after[k] == path;
            if k < before.len() {
                assert(before[k] == path);
            }
        }
    } else {
        assert(!ps.contains(path));
    }
}

/// The files listed as modified are those that calls of the writing and the
/// editing tool changed, and all of those.
pub proof fn lemma_files_modified_are_listed(rs: Seq<ToolRecord>, path: Seq<char>)
    ensures
        compaction::modified_files(rs).contains(path) <==> exists|i: int|
            0 <= i < rs.len() && ((#[trigger] rs[i]).name@ == "write_file"@ || rs[i].name@
                == "edit_file"@) && rs[i].file_change is Some && touches(
                rs[i].file_change->0@,
                path,
            ),
    decreases rs.len(),
{
    if rs.len() > 0 {
        let d = rs.drop_last();
        let n = rs.len() - 1;
        lemma_files_modified_are_listed(d, path);
        assert(rs.last() == rs[n]);
        assert(forall|i: int| 0 <= i < n ==> d[i] == rs[i]);
        let before = compaction::modified_files(d);
        let own = compaction::touched(views::opt_view(rs[n].file_change));
        lemma_with_paths(before, own, path);
        match rs[n].file_change {
            None => {
                assert(own =~= Seq::empty());
            },
            Some(change) => {
                match change@ {
                    FileChangeView::Patch { files } => {
                        lemma_patch_paths(files, path);
                    },
                    FileChangeView::Edit { path: p, .. } => {
                        assert(own[0] == p);
                    },
                    FileChangeView::Write { path: p, .. } => {
                        assert(own[0] == p);
                    },
                }
            },
        }
        if before.contains(path) {
            let i = choose|i: int|
                0 <= i < d.len() && ((#[trigger] d[i]).name@ == "write_file"@ || d[i].name@
                    == "edit_file"@) && d[i].file_change is Some && touches(
                    d[i].file_change->0@,
                    path,
                );
            assert(rs[i] == d[i]);
        }
        if exists|i: int|
            0 <= i < rs.len() && ((#[trigger] rs[i]).name@ == "write_file"@ || rs[i].name@
                == "edit_file"@) && rs[i].file_change is Some && touches(
                rs[i].file_change->0@,
                path,
            ) {
            let i = choose|i: int|
                0 <= i < rs.len() && ((#[trigger] rs[i]).name@ == "write_file"@ || rs[i].name@
                    == "edit_file"@) && rs[i].file_change is Some && touches(
                    rs[i].file_change->0@,
                    path,
                );
            if i < n {
                assert(d[i] == rs[i]);
            }
        }
    } else {
        assert(compaction::modified_files(rs) =~= Seq::empty());
    }
}

proof fn lemma_path_line(ps: Seq<Seq<char>>, k: int)
    requires
        0 <= k < ps.len(),
    ensures
        text::occurs(compaction::path_lines(ps), ps[k] + "\n"@),
    decreases ps.len(),
{
    let all = compaction::path_lines(ps);
    let before = compaction::path_lines(ps.drop_last());
    let none = Seq::<char>::empty();
    if k == ps.len() - 1 {
        assert(all =~= before + (ps[k] + "\n"@) + none);
        lemma_part_occurs(before, ps[k] + "\n"@, none);
    } else {
        assert(ps.drop_last()[k] == ps[k]);
        lemma_path_line(ps.drop_last(), k);
        let after = ps.last() + "\n"@;
        assert(all =~= none + before + after);
        lemma_occurs_in_part(all, none, before, after, ps[k] + "\n"@);
    }
}

/// The lists of files end the transcript, each between its tags and each file on a
/// line of its own; a list without files is left out.
pub proof fn lemma_transcript_ends_with_the_files(
    ms: Seq<StoredMessage>,
    rs: Seq<ToolRecord>,
    ps: Seq<Option<Seq<char>>>,
    base: int,
)
    ensures
        ({
            let whole = compaction::transcript(ms, rs, ps, base);
            let told = compaction::sections(ms, rs, base);
            let read = compaction::read_files(rs, ps);
            let modified = compaction::modified_files(rs);
            &&& text::has_prefix(whole, told)
            &&& read.len() == 0 && modified.len() == 0 ==> whole == told
            &&& read.len() > 0 ==> text::has_prefix(
                whole.skip(told.len() as int),
                "<read-files>\n"@ + compaction::path_lines(read) + "</read-files>\n\n"@,
            )
            &&& modified.len() > 0 ==> text::has_suffix(
                whole,
                "<modified-files>\n"@ + compaction::path_lines(modified)
                    + "</modified-files>\n\n"@,
            )
            &&& forall|k: int|
                0 <= k < read.len() ==> text::occurs(
                    compaction::path_lines(read),
                    #[trigger] read[k] + "\n"@,
                )
            &&& forall|k: int|
                0 <= k < modified.len() ==> text::occurs(
                    compaction::path_lines(modified),
                    #[trigger] modified[k] + "\n"@,
                )
        }),
{
    reveal_strlit("<");
    reveal_strlit(">\n");
    reveal_strlit("</");
    reveal_strlit(">\n\n");
    reveal_strlit("read-files");
    reveal_strlit("modified-files");
    reveal_strlit("<read-files>\n");
    reveal_strlit("</read-files>\n\n");
    reveal_strlit("<modified-files>\n");
    reveal_strlit("</modified-files>\n\n");
    let whole = compaction::transcript(ms, rs, ps, base);
    let told = compaction::sections(ms, rs, base);
    let read = compaction::read_files(rs, ps);
    let modified = compaction::modified_files(rs);
    let a = compaction::file_section("read-files"@, read);
    let b = compaction::file_section("modified-files"@, modified);
    assert(whole == told + a + b);
    assert(whole.take(told.len() as int) =~= told);
    if read.len() > 0 {
        let listed = "<read-files>\n"@ + compaction::path_lines(read) + "</read-files>\n\n"@;
        assert("<"@ + "read-files"@ + ">\n"@ =~= "<read-files>\n"@);
        assert("</"@ + "read-files"@ + ">\n\n"@ =~= "</read-files>\n\n"@);
        assert(a =~= listed);
        assert(whole.skip(told.len() as int).take(listed.len() as int) =~= listed);
    }
    if modified.len() > 0 {
        let listed = "<modified-files>\n"@ + compaction::path_lines(modified)
            + "</modified-files>\n\n"@;
        assert("<"@ + "modified-files"@ + ">\n"@ =~= "<modified-files>\n"@);
        assert("</"@ + "modified-files"@ + ">\n\n"@ =~= "</modified-files>\n\n"@);
        assert(b =~= listed);
        assert(whole.skip(whole.len() - listed.len()) =~= listed);
    }
    if read.len() == 0 && modified.len() == 0 {
        assert(whole =~= told);
    }
    assert forall|k: int| 0 <= k < read.len() implies text::occurs(
        compaction::path_lines(read),
        #[trigger] read[k] + "\n"@,
    ) by {
        lemma_path_line(read, k);
    }
    assert forall|k: int| 0 <= k < modified.len() implies text::occurs(
        compaction::path_lines(modified),
        #[trigger] modified[k] + "\n"@,
    ) by {
        lemma_path_line(modified, k);
    }
}

/// The summarizer is handed the whole transcript.
pub proof fn lemma_task_holds_the_transcript(head: Seq<char>)
    ensures
        text::occurs(compaction::task_text(head), "\n---\n"@ + head + "\n---"@),
        text::has_suffix(compaction::task_text(head), "\n---\n"@ + head + "\n---"@),
{
    reveal_strlit(
        "Summarize the following conversation transcript. Keep it concise and information-dense, following the format in your instructions.\n\n---\n",
    );
    reveal_strlit("\n---\n");
    let whole = compaction::task_text(head);
    let part = "\n---\n"@ + head + "\n---"@;
    let n = whole.len() - part.len();
    assert(whole.skip(n) =~= part);
    assert(whole =~= whole.take(n) + part + Seq::empty());
    lemma_part_occurs(whole.take(n), part, Seq::empty());
}

/// The files that calls read are the ones that their arguments name as the path.
pub proof fn lemma_read_files_are_named_in_the_arguments(rs: Seq<ToolRecord>, path: Seq<char>)
    ensures
        compaction::read_files(rs, compaction::argument_paths(rs)).contains(path) <==> exists|
            i: int,
        |
            0 <= i < rs.len() && is_reader((#[trigger] rs[i]).name@) && json::json_string(
                rs[i].args_json@,
                "path"@,
            ) == Some(path),
{
    let ps = compaction::argument_paths(rs);
    lemma_files_read_are_listed(rs, ps, path);
    assert(forall|i: int|
        0 <= i < rs.len() ==> ps[i] == json::json_string((#[trigger] rs[i]).args_json@, "path"@));
}

/// The calls of a message are told of in the order in which they were made.
pub proof fn lemma_calls_are_told_of_in_order(
    rs: Seq<ToolRecord>,
    r: ToolRecord,
    id: u64,
    place: int,
)
    requires
        0 <= place <= usize::MAX,
    ensures
        r.message_id == id || r.message_seq == place ==> compaction::activities(
            rs.push(r),
            id,
            place,
        ) == compaction::activities(rs, id, place) + told(r),
        r.message_id != id && r.message_seq as usize != place ==> compaction::activities(
            rs.push(r),
            id,
            place,
        ) == compaction::activities(rs, id, place),
        compaction::activities(Seq::empty(), id, place) == Seq::<char>::empty(),
{
    lemma_told(r);
    assert(rs.push(r).drop_last() =~= rs);
}

}
