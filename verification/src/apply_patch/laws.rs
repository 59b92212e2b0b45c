//! What holds of every patch.

use crate::apply_patch;
use crate::apply_patch::plan;
use crate::apply_patch::plan::{HunkFacts, Planned};
use crate::apply_patch::replacements;
use crate::apply_patch::replacements::{LineMatch, ReplacementView};
use crate::apply_patch::{ChunkView, Hunk, HunkView};
use crate::llm::{PatchFileChange, PatchFileKind};
use crate::text;
use vstd::prelude::*;

verus! {

/// Whether two lines differ at most in the white space around them and in
/// typographic punctuation.
pub open spec fn alike(a: Seq<char>, b: Seq<char>) -> bool {
    replacements::normalized(text::trimmed(a)) == replacements::normalized(text::trimmed(b))
}

/// ASCII stays as it is; of the rest only quotes, dashes and the ellipsis change,
/// and become ASCII.
pub proof fn lemma_punctuation_becomes_plain(s: Seq<char>, i: int)
    requires
        0 <= i < s.len(),
    ensures
        replacements::normalized(s).len() == s.len(),
        (s[i] as u32) < 128 ==> replacements::normalized(s)[i] == s[i],
        s[i] == '\u{2018}' || s[i] == '\u{2019}' ==> replacements::normalized(s)[i] == '\'',
        s[i] == '\u{201c}' || s[i] == '\u{201d}' ==> replacements::normalized(s)[i] == '"',
        s[i] == '\u{2010}' || s[i] == '\u{2013}' || s[i] == '\u{2014}'
            ==> replacements::normalized(s)[i] == '-',
        s[i] == '\u{2026}' ==> replacements::normalized(s)[i] == '.',
        replacements::normalized(s)[i] != s[i] ==> '\u{2010}' <= s[i] <= '\u{2026}' && (
        replacements::normalized(s)[i] as u32) < 128,
{
}

/// Lines that match under any comparison are alike, and a line matches itself
/// under each of them.
pub proof fn lemma_matching_lines_are_alike(a: Seq<char>, b: Seq<char>, how: LineMatch)
    ensures
        replacements::same_line(a, b, how) ==> alike(a, b),
        a == b ==> replacements::same_line(a, b, how),
        replacements::same_line(a, b, LineMatch::Exact) ==> a == b,
        text::trimmed(a) == text::trimmed(b) ==> replacements::same_line(a, b, LineMatch::Trim),
{
    text::lemma_trimmed_either_way(a);
    text::lemma_trimmed_either_way(b);
}

/// Whether the lines stand in the file at the place, letter for letter.
pub open spec fn verbatim_at(ls: Seq<Seq<char>>, pattern: Seq<Seq<char>>, i: int) -> bool {
    &&& 0 <= i && i + pattern.len() <= ls.len()
    &&& forall|j: int| 0 <= j < pattern.len() ==> ls[i + j] == #[trigger] pattern[j]
}

/// Whether the lines stand in the file at the place, but for white space around
/// them and typographic punctuation.
pub open spec fn alike_at(ls: Seq<Seq<char>>, pattern: Seq<Seq<char>>, i: int) -> bool {
    &&& 0 <= i && i + pattern.len() <= ls.len()
    &&& forall|j: int| 0 <= j < pattern.len() ==> alike(ls[i + j], #[trigger] pattern[j])
}

/// Whether the lines stand in the file at the place, but for white space around
/// them.
pub open spec fn trimmed_at(ls: Seq<Seq<char>>, pattern: Seq<Seq<char>>, i: int) -> bool {
    &&& 0 <= i && i + pattern.len() <= ls.len()
    &&& forall|j: int|
        0 <= j < pattern.len() ==> text::trimmed(ls[i + j]) == text::trimmed(
            #[trigger] pattern[j],
        )
}

proof fn lemma_match_is_alike(
    ls: Seq<Seq<char>>,
    pattern: Seq<Seq<char>>,
    i: int,
    how: LineMatch,
)
    ensures
        replacements::matches_at(ls, pattern, i, how) ==> alike_at(ls, pattern, i),
        verbatim_at(ls, pattern, i) ==> replacements::matches_at(ls, pattern, i, how),
        verbatim_at(ls, pattern, i) == replacements::matches_at(ls, pattern, i, LineMatch::Exact),
{
    if replacements::matches_at(ls, pattern, i, how) {
        assert forall|j: int| 0 <= j < pattern.len() implies alike(
            ls[i + j],
            #[trigger] pattern[j],
        ) by {
            assert(replacements::same_line(ls[i + j], pattern[j], how));
            lemma_matching_lines_are_alike(ls[i + j], pattern[j], how);
        }
    }
    if verbatim_at(ls, pattern, i) {
        assert forall|j: int| 0 <= j < pattern.len() implies replacements::same_line(
            ls[i + j],
            #[trigger] pattern[j],
            how,
        ) by {
            lemma_matching_lines_are_alike(ls[i + j], pattern[j], how);
        }
    }
}

proof fn lemma_located(
    ls: Seq<Seq<char>>,
    pattern: Seq<Seq<char>>,
    start: int,
    how: LineMatch,
    eof: bool,
)
    requires
        0 <= start,
        pattern.len() > 0,
    ensures
        match replacements::located(ls, pattern, start, how, eof) {
            Some(i) => {
                &&& start <= i && replacements::matches_at(ls, pattern, i, how)
                &&& !eof ==> forall|k: int|
                    start <= k < i ==> !(#[trigger] replacements::matches_at(ls, pattern, k, how))
                &&& eof && start <= ls.len() - pattern.len() && replacements::matches_at(
                    ls,
                    pattern,
                    ls.len() - pattern.len(),
                    how,
                ) ==> i == ls.len() - pattern.len()
            },
            None => forall|k: int|
                start <= k ==> !(#[trigger] replacements::matches_at(ls, pattern, k, how)),
        },
{
    replacements::lemma_first_match(ls, pattern, start, how);
}

/// What is found is alike to what was looked for, and lies at or after the start.
/// Where nothing is found nothing stands there that is the same once trimmed.
pub proof fn lemma_found_lines_are_alike(
    ls: Seq<Seq<char>>,
    pattern: Seq<Seq<char>>,
    start: int,
    eof: bool,
)
    requires
        0 <= start,
        pattern.len() > 0,
    ensures
        replacements::sought(ls, pattern, start, eof) matches Some(i) ==> start <= i && alike_at(
            ls,
            pattern,
            i,
        ),
        replacements::sought(ls, pattern, start, eof) is None ==> forall|k: int|
            start <= k ==> !(#[trigger] trimmed_at(ls, pattern, k)),
{
    lemma_located(ls, pattern, start, LineMatch::Normalized, eof);
    lemma_located(ls, pattern, start, LineMatch::Exact, eof);
    lemma_located(ls, pattern, start, LineMatch::TrimEnd, eof);
    lemma_located(ls, pattern, start, LineMatch::Trim, eof);
    if let Some(i) = replacements::sought(ls, pattern, start, eof) {
        lemma_match_is_alike(ls, pattern, i, LineMatch::Normalized);
        lemma_match_is_alike(ls, pattern, i, LineMatch::Exact);
        lemma_match_is_alike(ls, pattern, i, LineMatch::TrimEnd);
        lemma_match_is_alike(ls, pattern, i, LineMatch::Trim);
    } else {
        assert forall|k: int| start <= k implies !(#[trigger] trimmed_at(ls, pattern, k)) by {
            assert(!replacements::matches_at(ls, pattern, k, LineMatch::Trim));
            if trimmed_at(ls, pattern, k) {
                assert forall|j: int| 0 <= j < pattern.len() implies replacements::same_line(
                    ls[k + j],
                    #[trigger] pattern[j],
                    LineMatch::Trim,
                ) by {
                    lemma_matching_lines_are_alike(ls[k + j], pattern[j], LineMatch::Trim);
                }
            }
        }
    }
}

/// The first place where the lines stand letter for letter is passed over by no
/// search, and for lines in ASCII it is the one that is found.
pub proof fn lemma_first_verbatim_place_is_found(
    ls: Seq<Seq<char>>,
    pattern: Seq<Seq<char>>,
    start: int,
    at: int,
)
    requires
        0 <= start <= at,
        pattern.len() > 0,
        verbatim_at(ls, pattern, at),
        forall|k: int| start <= k < at ==> !(#[trigger] verbatim_at(ls, pattern, k)),
    ensures
        replacements::sought(ls, pattern, start, false) is Some,
        replacements::sought(ls, pattern, start, false)->0 <= at,
        !replacements::beyond_ascii(pattern) ==> replacements::sought(ls, pattern, start, false)
            == Some(at),
{
    lemma_located(ls, pattern, start, LineMatch::Normalized, false);
    lemma_located(ls, pattern, start, LineMatch::Exact, false);
    lemma_match_is_alike(ls, pattern, at, LineMatch::Normalized);
    lemma_match_is_alike(ls, pattern, at, LineMatch::Exact);
    assert forall|k: int| start <= k < at implies !(#[trigger] replacements::matches_at(
        ls,
        pattern,
        k,
        LineMatch::Exact,
    )) by {
        lemma_match_is_alike(ls, pattern, k, LineMatch::Exact);
        assert(!verbatim_at(ls, pattern, k));
    }
}

/// Lines in ASCII that are to stand at the end of the file are found there where
/// they do, though they stand before it too.
pub proof fn lemma_end_of_file_comes_first(
    ls: Seq<Seq<char>>,
    pattern: Seq<Seq<char>>,
    start: int,
)
    requires
        0 <= start <= ls.len() - pattern.len(),
        pattern.len() > 0,
        !replacements::beyond_ascii(pattern),
        verbatim_at(ls, pattern, ls.len() - pattern.len()),
    ensures
        replacements::sought(ls, pattern, start, true) == Some(ls.len() - pattern.len()),
{
    lemma_located(ls, pattern, start, LineMatch::Exact, true);
    lemma_match_is_alike(ls, pattern, ls.len() - pattern.len(), LineMatch::Exact);
}

/// A chunk that names a context and removes lines is placed behind a line that is
/// alike to the context; without such a line it is not placed at all.
pub proof fn lemma_chunk_lies_behind_its_context(
    ls: Seq<Seq<char>>,
    path: Seq<char>,
    chunk: ChunkView,
    at: int,
)
    requires
        0 <= at,
        chunk.change_context is Some,
    ensures
        replacements::placed(ls, path, chunk, at) matches Ok((r, next)) ==> r.old_len > 0
            ==> exists|k: int|
            at <= k < r.start && alike(#[trigger] ls[k], chunk.change_context->0),
        (forall|k: int|
            at <= k < ls.len() ==> !alike(#[trigger] ls[k], chunk.change_context->0))
            ==> replacements::placed(ls, path, chunk, at) == Err::<
            (ReplacementView, int),
            Seq<char>,
        >("Failed to find context '"@ + chunk.change_context->0 + "' in "@ + path),
{
    let context = chunk.change_context->0;
    let pattern = seq![context];
    lemma_found_lines_are_alike(ls, pattern, at, false);
    if let Some(k) = replacements::sought(ls, pattern, at, false) {
        assert(alike(ls[k + 0], pattern[0]));
        let old = chunk.old_lines;
        let shorter = replacements::without_blank_last(old);
        replacements::lemma_sought(ls, old, k + 1, chunk.is_end_of_file);
        replacements::lemma_sought(ls, shorter, k + 1, chunk.is_end_of_file);
    }
}

/// Where the context stands in the file letter for letter, in ASCII, the chunk is
/// placed behind its first line, and nothing before that line is looked at.
pub proof fn lemma_first_context_is_taken(
    ls: Seq<Seq<char>>,
    path: Seq<char>,
    chunk: ChunkView,
    at: int,
    k: int,
)
    requires
        0 <= at <= k < ls.len(),
        chunk.change_context == Some(ls[k]),
        forall|j: int| at <= j < k ==> #[trigger] ls[j] != ls[k],
        forall|j: int| 0 <= j < ls[k].len() ==> (#[trigger] ls[k][j]) as u32 <= 127,
    ensures
        replacements::placed(ls, path, chunk, at) == replacements::placed(
            ls,
            path,
            ChunkView { change_context: None, ..chunk },
            k + 1,
        ),
{
    let pattern = seq![ls[k]];
    assert(verbatim_at(ls, pattern, k));
    assert forall|j: int| at <= j < k implies !(#[trigger] verbatim_at(ls, pattern, j)) by {
        assert(ls[j] != ls[k]);
        assert(ls[j + 0] != pattern[0]);
    }
    assert(!replacements::beyond_ascii(pattern));
    lemma_first_verbatim_place_is_found(ls, pattern, at, k);
}

/// What a placed chunk removes is alike to its old lines, one for one, and what
/// comes instead are its new lines; a blank line at the end of both may be left
/// out. The next chunk is looked for behind it.
pub proof fn lemma_chunk_replaces_its_lines(
    ls: Seq<Seq<char>>,
    path: Seq<char>,
    chunk: ChunkView,
    at: int,
)
    requires
        0 <= at,
        chunk.old_lines.len() > 0,
    ensures
        replacements::placed(ls, path, chunk, at) matches Ok((r, next)) ==> {
            &&& at <= r.start && r.start + r.old_len <= ls.len()
            &&& next == r.start + r.old_len
            &&& forall|j: int|
                0 <= j < r.old_len ==> alike(ls[r.start + j], #[trigger] chunk.old_lines[j])
            &&& {
                ||| r.old_len == chunk.old_lines.len() && r.new_lines == chunk.new_lines
                ||| {
                    &&& r.old_len == chunk.old_lines.len() - 1
                    &&& chunk.old_lines.last().len() == 0
                    &&& r.new_lines == chunk.new_lines || chunk.new_lines.last().len() == 0
                        && r.new_lines == chunk.new_lines.drop_last()
                }
            }
        },
{
    let old = chunk.old_lines;
    let shorter = replacements::without_blank_last(old);
    let eof = chunk.is_end_of_file;
    if chunk.change_context is Some {
        replacements::lemma_sought(ls, seq![chunk.change_context->0], at, false);
    }
    if let Some(from) = replacements::search_start(ls, chunk, at) {
        replacements::lemma_sought(ls, old, from, eof);
        replacements::lemma_sought(ls, shorter, from, eof);
        lemma_found_lines_are_alike(ls, old, from, eof);
        if shorter.len() > 0 {
            lemma_found_lines_are_alike(ls, shorter, from, eof);
        }
        if let Ok((r, next)) = replacements::placed(ls, path, chunk, at) {
            assert forall|j: int| 0 <= j < r.old_len implies alike(
                ls[r.start + j],
                #[trigger] chunk.old_lines[j],
            ) by {
                if r.old_len == old.len() {
                    assert(alike(ls[r.start + j], old[j]));
                } else {
                    assert(alike(ls[r.start + j], shorter[j]));
                }
            }
        }
    }
}

/// A chunk without old lines adds its new lines at the end of the file, before a
/// blank line that may stand there.
pub proof fn lemma_added_lines_come_last(
    ls: Seq<Seq<char>>,
    path: Seq<char>,
    chunk: ChunkView,
    at: int,
)
    requires
        chunk.old_lines.len() == 0,
    ensures
        replacements::placed(ls, path, chunk, at) matches Ok((r, next)) ==> {
            &&& r.old_len == 0
            &&& r.new_lines == chunk.new_lines
            &&& r.start == ls.len() || r.start == ls.len() - 1 && ls.last().len() == 0
            &&& ls.len() > 0 && ls.last().len() == 0 ==> r.start == ls.len() - 1
        },
        chunk.change_context is None ==> replacements::placed(ls, path, chunk, at) is Ok,
{
}

/// A chunk without a context whose old lines stand in the file is placed.
pub proof fn lemma_lines_that_stand_are_placed(
    ls: Seq<Seq<char>>,
    path: Seq<char>,
    chunk: ChunkView,
    at: int,
    k: int,
)
    requires
        0 <= at <= k,
        chunk.change_context is None,
        chunk.old_lines.len() > 0,
        verbatim_at(ls, chunk.old_lines, k),
        forall|j: int| at <= j < k ==> !(#[trigger] verbatim_at(ls, chunk.old_lines, j)),
        !replacements::beyond_ascii(chunk.old_lines),
        !chunk.is_end_of_file,
    ensures
        replacements::placed(ls, path, chunk, at) matches Ok((r, next)) && r.start == k && r.old_len
            == chunk.old_lines.len() && r.new_lines == chunk.new_lines,
{
    lemma_first_verbatim_place_is_found(ls, chunk.old_lines, at, k);
}

/// Each chunk has its own replacement, looked for from where the one before it
/// ended; the first chunk that has no place fails them all.
pub proof fn lemma_each_chunk_is_replaced(
    ls: Seq<Seq<char>>,
    path: Seq<char>,
    chunks: Seq<ChunkView>,
    at: int,
)
    requires
        chunks.len() > 0,
    ensures
        match replacements::placed(ls, path, chunks[0], at) {
            Err(e) => replacements::planned(ls, path, chunks, at) == Err::<
                Seq<ReplacementView>,
                Seq<char>,
            >(e),
            Ok((r, next)) => match replacements::planned(ls, path, chunks.skip(1), next) {
                Err(e) => replacements::planned(ls, path, chunks, at) == Err::<
                    Seq<ReplacementView>,
                    Seq<char>,
                >(e),
                Ok(rest) => replacements::planned(ls, path, chunks, at) matches Ok(rs) && rs.len()
                    == chunks.len() && rs[0] == r && rs.skip(1) == rest,
            },
        },
    decreases chunks.len(),
{
    if let Ok((r, next)) = replacements::placed(ls, path, chunks[0], at) {
        if let Ok(rest) = replacements::planned(ls, path, chunks.skip(1), next) {
            lemma_as_many_as_chunks(ls, path, chunks.skip(1), next);
            assert((seq![r] + rest).skip(1) =~= rest);
        }
    }
}

proof fn lemma_as_many_as_chunks(
    ls: Seq<Seq<char>>,
    path: Seq<char>,
    chunks: Seq<ChunkView>,
    at: int,
)
    ensures
        replacements::planned(ls, path, chunks, at) matches Ok(rs) ==> rs.len() == chunks.len(),
    decreases chunks.len(),
{
    if chunks.len() > 0 {
        if let Ok((r, next)) = replacements::placed(ls, path, chunks[0], at) {
            lemma_as_many_as_chunks(ls, path, chunks.skip(1), next);
        }
    }
}

proof fn lemma_rest_is_carried(
    ls: Seq<Seq<char>>,
    rest: Seq<Seq<char>>,
    rs: Seq<ReplacementView>,
)
    requires
        replacements::applicable(ls.len() as int, rs),
    ensures
        replacements::applied(ls + rest, rs) == replacements::applied(ls, rs) + rest,
    decreases rs.len(),
{
    if rs.len() > 0 {
        let r = rs.last();
        let one = replacements::spliced(ls, r);
        assert(replacements::spliced(ls + rest, r) =~= one + rest);
        assert(one.len() == ls.len() - r.old_len + r.new_lines.len());
        lemma_rest_is_carried(one, rest, rs.drop_last());
    }
}

/// Making the replacements puts the new lines of each where its old lines stood:
/// the lines behind the last one stay as they are, its new lines come before
/// them, and what is in front is what the others make of it.
pub proof fn lemma_replacements_keep_the_rest(
    ls: Seq<Seq<char>>,
    rs: Seq<ReplacementView>,
)
    requires
        rs.len() > 0,
        0 <= rs.last().start && 0 <= rs.last().old_len,
        rs.last().start + rs.last().old_len <= ls.len(),
        replacements::applicable(rs.last().start, rs.drop_last()),
    ensures
        replacements::applied(ls, rs) == replacements::applied(
            ls.take(rs.last().start),
            rs.drop_last(),
        ) + rs.last().new_lines + ls.skip(rs.last().start + rs.last().old_len),
        replacements::applied(ls, Seq::empty()) == ls,
{
    let r = rs.last();
    let tail = r.new_lines + ls.skip(r.start + r.old_len);
    lemma_rest_is_carried(ls.take(r.start), tail, rs.drop_last());
    assert(replacements::spliced(ls, r) =~= ls.take(r.start) + tail);
    let front = replacements::applied(ls.take(r.start), rs.drop_last());
    assert(front + tail =~= front + r.new_lines + ls.skip(r.start + r.old_len));
}

/// An update with one chunk changes the lines of the chunk and no others: the new
/// text has the lines before them, the new lines, and the lines after them.
pub proof fn lemma_one_chunk_changes_its_lines_alone(
    path: Seq<char>,
    chunk: ChunkView,
    original: Seq<char>,
)
    requires
        original.len() > 0,
        original.last() == '\n',
        chunk.old_lines.len() > 0,
    ensures
        ({
            let ls = text::pieces(original, '\n').drop_last();
            match replacements::placed(ls, path, chunk, 0) {
                Err(e) => replacements::derived(path, seq![chunk], original) == Err::<
                    Seq<char>,
                    Seq<char>,
                >(e),
                Ok((r, next)) => {
                    let out = ls.take(r.start) + r.new_lines + ls.skip(r.start + r.old_len);
                    &&& replacements::derived(path, seq![chunk], original) matches Ok(new)
                    &&& new == text::joined(out.push(Seq::empty()), "\n"@) || (out.len() > 0
                        && out.last().len() == 0 && new == text::joined(out, "\n"@))
                },
            }
        }),
{
    let all = text::pieces(original, '\n');
    assert(all.last().len() == 0);
    let ls = all.drop_last();
    assert(replacements::without_blank_last(all) == ls);
    let chunks = seq![chunk];
    assert(chunks.skip(1) =~= Seq::empty());
    if let Ok((r, next)) = replacements::placed(ls, path, chunk, 0) {
        lemma_chunk_replaces_its_lines(ls, path, chunk, 0);
        let rs = seq![r];
        assert(replacements::planned(ls, path, chunks.skip(1), next) matches Ok(rest)
            && rest.len() == 0);
        assert(replacements::planned(ls, path, chunks, 0) matches Ok(all) && all =~= rs);
        assert(rs.drop_last() =~= Seq::empty());
        assert(Seq::empty().push(r) =~= rs);
        assert(replacements::in_order(Seq::<ReplacementView>::empty()) =~= Seq::empty());
        assert(replacements::in_order(rs) =~= rs);
        lemma_replacements_keep_the_rest(ls, rs);
        let out = ls.take(r.start) + r.new_lines + ls.skip(r.start + r.old_len);
        assert(replacements::applied(ls.take(r.start), Seq::empty()) == ls.take(r.start));
        assert(replacements::applied(ls, rs) =~= out);
    }
}

/// The lines, each behind the mark.
pub open spec fn behind(mark: char, lines: Seq<Seq<char>>) -> Seq<Seq<char>> {
    lines.map_values(|l: Seq<char>| seq![mark] + l)
}

/// Whether a section may begin here: nothing is left, or a `***` line comes.
pub open spec fn at_section(rest: Seq<Seq<char>>) -> bool {
    rest.len() == 0 || text::has_prefix(rest[0], "***"@)
}

proof fn lemma_added_lines(lines: Seq<Seq<char>>, rest: Seq<Seq<char>>)
    requires
        at_section(rest),
    ensures
        apply_patch::section_len(behind('+', lines) + rest) == lines.len(),
    decreases lines.len(),
{
    reveal_strlit("***");
    let all = behind('+', lines) + rest;
    if lines.len() > 0 {
        assert(all[0][0] == '+');
        if text::has_prefix(all[0], "***"@) {
            assert(all[0].take(3)[0] == '+');
        }
        lemma_added_lines(lines.skip(1), rest);
        assert(all.skip(1) =~= behind('+', lines.skip(1)) + rest);
    } else {
        assert(all =~= rest);
    }
}

proof fn lemma_marks_are_taken_off(lines: Seq<Seq<char>>)
    ensures
        apply_patch::marked(behind('+', lines), '+', '+') == lines,
    decreases lines.len(),
{
    if lines.len() > 0 {
        let all = behind('+', lines);
        lemma_marks_are_taken_off(lines.drop_last());
        assert(all.drop_last() =~= behind('+', lines.drop_last()));
        assert(all.last() == seq!['+'] + lines.last());
        assert(all.last().skip(1) =~= lines.last());
        assert(lines.drop_last().push(lines.last()) =~= lines);
    }
}

proof fn lemma_header_names(line: Seq<char>, header: Seq<char>, path: Seq<char>)
    requires
        line == header + path,
        path.len() > 0,
        text::trimmed(path) == path,
    ensures
        apply_patch::header_path(line, header) == Some(path),
{
    assert(line.take(header.len() as int) =~= header);
    assert(line.skip(header.len() as int) =~= path);
}

/// A section that adds a file is read back: its path, and its lines without
/// their marks. What comes after it is read as if it stood alone.
pub proof fn lemma_add_section_is_read(
    path: Seq<char>,
    lines: Seq<Seq<char>>,
    rest: Seq<Seq<char>>,
)
    requires
        path.len() > 0,
        text::trimmed(path) == path,
        at_section(rest),
    ensures
        apply_patch::hunks_from(seq!["*** Add File: "@ + path] + behind('+', lines) + rest)
            == seq![HunkView::Add { path, contents: text::joined(lines, "\n"@) }]
            + apply_patch::hunks_from(rest),
{
    let header = "*** Add File: "@;
    let ls = seq![header + path] + behind('+', lines) + rest;
    lemma_header_names(ls[0], header, path);
    lemma_added_lines(lines, rest);
    lemma_marks_are_taken_off(lines);
    let body = ls.skip(1);
    assert(body =~= behind('+', lines) + rest);
    assert(body.take(lines.len() as int) =~= behind('+', lines));
    assert(ls.skip(1 + lines.len() as int) =~= rest);
}

/// A section that deletes a file is read back.
pub proof fn lemma_delete_section_is_read(path: Seq<char>, rest: Seq<Seq<char>>)
    requires
        path.len() > 0,
        text::trimmed(path) == path,
    ensures
        apply_patch::hunks_from(seq!["*** Delete File: "@ + path] + rest) == seq![
            HunkView::Delete { path },
        ] + apply_patch::hunks_from(rest),
{
    let header = "*** Delete File: "@;
    let ls = seq![header + path] + rest;
    lemma_header_names(ls[0], header, path);
    apply_patch::lemma_headers_differ(ls[0]);
    assert(text::has_prefix(ls[0], header));
    assert(ls.skip(1) =~= rest);
}

/// A section that updates a file is read back, with the file that it is moved to
/// if it names one, and its chunks.
#[verifier::rlimit(40)]
pub proof fn lemma_update_section_is_read(
    path: Seq<char>,
    target: Option<Seq<char>>,
    body: Seq<Seq<char>>,
)
    requires
        path.len() > 0,
        text::trimmed(path) == path,
        target matches Some(t) ==> t.len() > 0 && text::trimmed(t) == t,
        target is None && body.len() > 0 ==> !text::has_prefix(body[0], "*** Move to: "@),
    ensures
        ({
            let moved: Seq<Seq<char>> = match target {
                Some(t) => seq!["*** Move to: "@ + t],
                None => Seq::empty(),
            };
            let (chunks, taken) = apply_patch::chunks_from(body);
            &&& taken <= body.len()
            &&& apply_patch::hunks_from(seq!["*** Update File: "@ + path] + moved + body) == seq![
                HunkView::Update { path, move_path: target, chunks },
            ] + apply_patch::hunks_from(body.skip(taken as int))
        }),
{
    let header = "*** Update File: "@;
    let mover = "*** Move to: "@;
    let moved: Seq<Seq<char>> = match target {
        Some(t) => seq![mover + t],
        None => Seq::empty(),
    };
    let ls = seq![header + path] + moved + body;
    let (chunks, taken) = apply_patch::chunks_from(body);
    apply_patch::lemma_chunks_len(body);
    lemma_header_names(ls[0], header, path);
    apply_patch::lemma_headers_differ(ls[0]);
    assert(text::has_prefix(ls[0], header));
    let inner = ls.skip(1);
    assert(inner =~= moved + body);
    if target is Some {
        lemma_header_names(inner[0], mover, target->0);
        assert(text::has_prefix(inner[0], mover));
        assert(inner.skip(1) =~= body);
    } else {
        assert(inner =~= body);
        assert(inner.skip(0) =~= body);
    }
    assert(ls.skip(1 + moved.len() + taken as int) =~= body.skip(taken as int));
}

/// The lines of one side of a chunk: those that are kept, and those with the
/// side's own mark.
pub open spec fn side(changes: Seq<(char, Seq<char>)>, own: char) -> Seq<Seq<char>>
    decreases changes.len(),
{
    if changes.len() == 0 {
        Seq::empty()
    } else {
        let before = side(changes.drop_last(), own);
        if changes.last().0 == ' ' || changes.last().0 == own {
            before.push(changes.last().1)
        } else {
            before
        }
    }
}

/// The lines of a chunk as they are written, each behind its mark.
pub open spec fn written(changes: Seq<(char, Seq<char>)>) -> Seq<Seq<char>> {
    changes.map_values(|c: (char, Seq<char>)| seq![c.0] + c.1)
}

/// Whether the lines can be those of a chunk: each has one of the three marks,
/// and none reads as the end of the file.
pub open spec fn writable(changes: Seq<(char, Seq<char>)>) -> bool {
    forall|i: int|
        0 <= i < changes.len() ==> {
            let c = #[trigger] changes[i];
            &&& c.0 == ' ' || c.0 == '-' || c.0 == '+'
            &&& text::trimmed(seq![c.0] + c.1) != "*** End of File"@
        }
}

/// Whether a chunk may end here: nothing is left, or a `@@` or `***` line comes.
pub open spec fn at_chunk_end(rest: Seq<Seq<char>>) -> bool {
    rest.len() == 0 || text::has_prefix(rest[0], "@@"@) || text::has_prefix(rest[0], "***"@)
        || text::trimmed(rest[0]) == "*** End of File"@
}

proof fn lemma_sides(changes: Seq<(char, Seq<char>)>)
    ensures
        apply_patch::marked(written(changes), ' ', '-') == side(changes, '-'),
        apply_patch::marked(written(changes), ' ', '+') == side(changes, '+'),
    decreases changes.len(),
{
    if changes.len() > 0 {
        let all = written(changes);
        lemma_sides(changes.drop_last());
        assert(all.drop_last() =~= written(changes.drop_last()));
        assert(all.last() == seq![changes.last().0] + changes.last().1);
        assert(all.last().skip(1) =~= changes.last().1);
    }
}

proof fn lemma_chunk_ends(changes: Seq<(char, Seq<char>)>, rest: Seq<Seq<char>>)
    requires
        writable(changes),
        at_chunk_end(rest),
    ensures
        apply_patch::change_len(written(changes) + rest) == changes.len(),
    decreases changes.len(),
{
    reveal_strlit("***");
    reveal_strlit("@@");
    let all = written(changes) + rest;
    if changes.len() > 0 {
        let c = changes[0];
        assert(all[0] == seq![c.0] + c.1);
        if text::has_prefix(all[0], "***"@) {
            assert(all[0].take(3)[0] == c.0);
        }
        if text::has_prefix(all[0], "@@"@) {
            assert(all[0].take(2)[0] == c.0);
        }
        let others = changes.skip(1);
        assert(forall|i: int| 0 <= i < others.len() ==> others[i] == changes[i + 1]);
        lemma_chunk_ends(others, rest);
        assert(all.skip(1) =~= written(others) + rest);
    } else {
        assert(all =~= rest);
    }
}

/// A chunk is read back: its context, the lines that it keeps and removes, and
/// those that it keeps and adds, each in order. A mark for the end of the file
/// belongs to the chunk before it.
pub proof fn lemma_chunk_is_read(
    context: Option<Seq<char>>,
    changes: Seq<(char, Seq<char>)>,
    eof: bool,
    rest: Seq<Seq<char>>,
)
    requires
        context matches Some(c) ==> c.len() > 0 && text::trimmed(c) == c && c[0] != '!' && c
            != "@@"@,
        writable(changes),
        at_chunk_end(rest),
        !eof && rest.len() > 0 ==> text::trimmed(rest[0]) != "*** End of File"@,
    ensures
        ({
            let head = match context {
                Some(c) => "@@ "@ + c,
                None => "@@"@,
            };
            let end: Seq<Seq<char>> = if eof {
                seq!["*** End of File"@]
            } else {
                Seq::empty()
            };
            apply_patch::chunks_from(seq![head] + written(changes) + end + rest).0 == seq![
                ChunkView {
                    old_lines: side(changes, '-'),
                    new_lines: side(changes, '+'),
                    change_context: context,
                    is_end_of_file: eof,
                },
            ] + apply_patch::chunks_from(rest).0
        }),
{
    reveal_strlit("@@");
    reveal_strlit("@@ ");
    reveal_strlit("!");
    reveal_strlit("***");
    reveal_strlit("*** End of File");
    let mark = "*** End of File"@;
    let head = match context {
        Some(c) => "@@ "@ + c,
        None => "@@"@,
    };
    let end: Seq<Seq<char>> = if eof {
        seq![mark]
    } else {
        Seq::empty()
    };
    let ls = seq![head] + written(changes) + end + rest;
    assert(head.take(2) =~= "@@"@);
    assert(head[0] == '@');
    if text::has_prefix(head, "***"@) {
        assert(head.take(3)[0] == '@');
    }
    let tail = head.skip(2);
    match context {
        Some(c) => {
            assert(tail =~= seq![' '] + c);
            assert(tail.skip(1) =~= c);
            text::lemma_trimmed_ends(c);
            assert(text::trimmed_start(c) == c);
            assert(text::trimmed_start(tail) == c);
            if text::has_prefix(c, "!"@) {
                assert(c.take(1)[0] == '!');
            }
        },
        None => {
            assert(tail =~= Seq::empty());
            assert(text::trimmed(tail).len() == 0);
            if text::has_prefix(text::trimmed(tail), "!"@) {
                assert(false);
            }
        },
    }
    assert(apply_patch::context_of(head) == context);
    let body = ls.skip(1);
    let after = end + rest;
    assert(body =~= written(changes) + after);
    text::lemma_trimmed_ends(mark);
    if eof {
        assert(after[0] == mark);
    } else {
        assert(after =~= rest);
    }
    lemma_chunk_ends(changes, after);
    lemma_sides(changes);
    let n = changes.len() as int;
    assert(body.take(n) =~= written(changes));
    assert(eof ==> body[n] == mark);
    if eof {
        if text::has_prefix(mark, "@@"@) {
            assert(mark.take(2)[0] == '*');
        }
    } else if rest.len() > 0 {
        assert(body[n] == rest[0]);
    }
    assert(apply_patch::closes_at_eof(body) == eof);
    let m = apply_patch::chunk_len(body) as int;
    assert(m == n + end.len());
    assert(body.skip(m) =~= rest);
}

proof fn lemma_marker_at(ls: Seq<Seq<char>>, marker: Seq<char>)
    ensures
        match apply_patch::marker_at(ls, marker) {
            Some(i) => 0 <= i < ls.len() && text::trimmed(ls[i]) == marker && forall|k: int|
                0 <= k < i ==> text::trimmed(#[trigger] ls[k]) != marker,
            None => forall|k: int| 0 <= k < ls.len() ==> text::trimmed(#[trigger] ls[k]) != marker,
        },
    decreases ls.len(),
{
    if ls.len() > 0 {
        let rest = ls.skip(1);
        lemma_marker_at(rest, marker);
        if text::trimmed(ls[0]) != marker {
            match apply_patch::marker_at(rest, marker) {
                Some(i) => {
                    assert forall|k: int| 0 <= k < i + 1 implies text::trimmed(#[trigger] ls[k])
                        != marker by {
                        if k > 0 {
                            assert(rest[k - 1] == ls[k]);
                        }
                    }
                },
                None => {
                    assert forall|k: int| 0 <= k < ls.len() implies text::trimmed(
                        #[trigger] ls[k],
                    ) != marker by {
                        if k > 0 {
                            assert(rest[k - 1] == ls[k]);
                        }
                    }
                },
            }
        }
    }
}

/// What stands between the first mark of the beginning and the first of the end
/// is the patch; without the marks, or with them the other way round, there is
/// none.
pub proof fn lemma_patch_stands_between_its_marks(ls: Seq<Seq<char>>)
    ensures
        forall|b: int, e: int|
            0 <= b < e < ls.len() && text::trimmed(#[trigger] ls[b]) == "*** Begin Patch"@
                && text::trimmed(#[trigger] ls[e]) == "*** End Patch"@ && (forall|k: int|
                0 <= k < b ==> text::trimmed(#[trigger] ls[k]) != "*** Begin Patch"@) && (forall|
                k: int,
            |
                0 <= k < e ==> text::trimmed(#[trigger] ls[k]) != "*** End Patch"@)
                ==> apply_patch::parsed(ls) == Ok::<Seq<HunkView>, Seq<char>>(
                apply_patch::hunks_from(ls.subrange(b + 1, e)),
            ),
        (forall|k: int|
            0 <= k < ls.len() ==> text::trimmed(#[trigger] ls[k]) != "*** Begin Patch"@)
            ==> apply_patch::parsed(ls) is Err,
        (forall|k: int|
            0 <= k < ls.len() ==> text::trimmed(#[trigger] ls[k]) != "*** End Patch"@)
            ==> apply_patch::parsed(ls) is Err,
{
    lemma_marker_at(ls, "*** Begin Patch"@);
    lemma_marker_at(ls, "*** End Patch"@);
}

/// A section that adds a file writes its text, which ends with a line feed where
/// it has any, and fails where there is a file.
pub proof fn lemma_add_writes_a_new_file(
    hunk: Hunk,
    facts: HunkFacts,
    change: PatchFileChange,
    step: Planned,
)
    requires
        hunk is Add,
        plan::hunk_plan(hunk@, facts) == Ok::<(plan::ChangeView, plan::PlannedView), Seq<char>>(
            (plan::change_view(change), step@),
        ) || facts.exists,
    ensures
        facts.exists ==> plan::hunk_plan(hunk@, facts) is Err,
        !facts.exists ==> {
            &&& step matches Planned::Add { path, content }
            &&& path@ == hunk->Add_path@
            &&& if hunk->Add_contents@.len() == 0 || hunk->Add_contents@.last() == '\n' {
                content@ == hunk->Add_contents@
            } else {
                content@ == hunk->Add_contents@.push('\n')
            }
            &&& change.kind == PatchFileKind::Add
            &&& change.path@ == path@
            &&& change.original is None
            &&& change.moved_to is None
            &&& change.new matches Some(new) && new@ == content@
        },
{
    reveal_strlit("\n");
    if !facts.exists {
        assert(hunk->Add_contents@ + "\n"@ =~= hunk->Add_contents@.push('\n'));
    }
}

/// A section that deletes a file removes the file that is there, and reports the
/// text that goes with it; a file that cannot be read fails it.
pub proof fn lemma_delete_removes_the_file(
    hunk: Hunk,
    facts: HunkFacts,
    change: PatchFileChange,
    step: Planned,
)
    requires
        hunk is Delete,
        plan::hunk_plan(hunk@, facts) == Ok::<(plan::ChangeView, plan::PlannedView), Seq<char>>(
            (plan::change_view(change), step@),
        ) || facts.original is Err,
    ensures
        facts.original is Err ==> plan::hunk_plan(hunk@, facts) is Err,
        facts.original matches Ok(text) ==> {
            &&& step matches Planned::Delete { path } && path@ == facts.abs@
            &&& change.kind == PatchFileKind::Delete
            &&& change.path@ == hunk->Delete_path@
            &&& change.original matches Some(before) && before@ == text@
            &&& change.new is None
            &&& change.moved_to is None
        },
{
}

/// A section that updates a file writes what its chunks make of the file's text:
/// in its place, or where it is moved, and then the file goes. Moving a file onto
/// itself fails, and so do a file that cannot be read and a chunk without a place.
pub proof fn lemma_update_writes_the_derived_text(
    hunk: Hunk,
    facts: HunkFacts,
    change: PatchFileChange,
    step: Planned,
)
    requires
        hunk is Update,
        plan::hunk_plan(hunk@, facts) == Ok::<(plan::ChangeView, plan::PlannedView), Seq<char>>(
            (plan::change_view(change), step@),
        ) || plan::hunk_plan(hunk@, facts) is Err,
    ensures
        ({
            let chunks = apply_patch::chunk_views(hunk->Update_chunks@);
            let onto_itself = hunk->Update_move_path is Some && facts.target_abs is Some
                && facts.target_abs->0@ == facts.abs@;
            let derived = replacements::derived(
                hunk->Update_path@,
                chunks,
                facts.original->Ok_0@,
            );
            &&& plan::hunk_plan(hunk@, facts) is Ok <==> !onto_itself && facts.original is Ok
                && derived is Ok
            &&& plan::hunk_plan(hunk@, facts) is Ok ==> {
                let new = derived->Ok_0;
                &&& match hunk->Update_move_path {
                    None => step matches Planned::Update { path, content } && path@ == facts.abs@
                        && content@ == new,
                    Some(target) => step matches Planned::Move { from, to, content } && from@
                        == facts.abs@ && to@ == target@ && content@ == new,
                }
                &&& change.kind == PatchFileKind::Update
                &&& change.path@ == hunk->Update_path@
                &&& text::opt_text(change.moved_to) == text::opt_text(hunk->Update_move_path)
                &&& change.original matches Some(before) && before@ == facts.original->Ok_0@
                &&& change.new matches Some(after) && after@ == new
            }
        }),
{
}

/// A patch is carried out section by section, or not at all: there is a step for
/// each section, and one section that fails leaves none.
pub proof fn lemma_patch_is_carried_out_whole(hs: Seq<HunkView>, fs: Seq<HunkFacts>)
    requires
        hs.len() == fs.len(),
    ensures
        match plan::patch_plan(hs, fs) {
            Ok(pairs) => {
                &&& pairs.len() == hs.len()
                &&& forall|i: int|
                    0 <= i < hs.len() ==> plan::hunk_plan(#[trigger] hs[i], fs[i]) == Ok::<
                        (plan::ChangeView, plan::PlannedView),
                        Seq<char>,
                    >(pairs[i])
            },
            Err(e) => exists|i: int|
                0 <= i < hs.len() && plan::hunk_plan(#[trigger] hs[i], fs[i]) == Err::<
                    (plan::ChangeView, plan::PlannedView),
                    Seq<char>,
                >(e) && forall|j: int|
                    0 <= j < i ==> plan::hunk_plan(#[trigger] hs[j], fs[j]) is Ok,
        },
    decreases hs.len(),
{
    if hs.len() > 0 {
        let (h, f) = (hs.drop_last(), fs.drop_last());
        let n = hs.len() - 1;
        lemma_patch_is_carried_out_whole(h, f);
        assert(forall|i: int| 0 <= i < n ==> h[i] == hs[i] && f[i] == fs[i]);
        assert(hs.last() == hs[n] && fs.last() == fs[n]);
        match plan::patch_plan(h, f) {
            Err(e) => {
                let i = choose|i: int|
                    0 <= i < h.len() && plan::hunk_plan(#[trigger] h[i], f[i]) == Err::<
                        (plan::ChangeView, plan::PlannedView),
                        Seq<char>,
                    >(e) && forall|j: int|
                        0 <= j < i ==> plan::hunk_plan(#[trigger] h[j], f[j]) is Ok;
                assert(hs[i] == h[i]);
                assert forall|j: int| 0 <= j < i implies plan::hunk_plan(
                    #[trigger] hs[j],
                    fs[j],
                ) is Ok by {
                    assert(plan::hunk_plan(h[j], f[j]) is Ok);
                }
            },
            Ok(before) => {
                assert forall|j: int| 0 <= j < n implies plan::hunk_plan(
                    #[trigger] hs[j],
                    fs[j],
                ) == Ok::<(plan::ChangeView, plan::PlannedView), Seq<char>>(before[j]) by {
                    assert(plan::hunk_plan(h[j], f[j]) is Ok);
                }
                if plan::hunk_plan(hs[n], fs[n]) is Err {
                    assert(plan::patch_plan(hs, fs) is Err);
                }
            },
        }
    }
}

/// Whatever file a section names is locked, the one that it moves to as well.
pub proof fn lemma_named_files_are_locked(hunks: Seq<Hunk>, i: int)
    requires
        0 <= i < hunks.len(),
    ensures
        ({
            let locked = plan::all_paths(apply_patch::hunk_views(hunks));
            match hunks[i] {
                Hunk::Add { path, .. } => locked.contains(path@),
                Hunk::Delete { path } => locked.contains(path@),
                Hunk::Update { path, move_path, .. } => locked.contains(path@) && (
                move_path matches Some(t) ==> locked.contains(t@)),
            }
        }),
    decreases hunks.len(),
{
    let hs = apply_patch::hunk_views(hunks);
    let front = hunks.drop_last();
    assert(apply_patch::hunk_views(front) =~= hs.drop_last());
    let before = plan::all_paths(hs.drop_last());
    let own = plan::named_paths(hs.last());
    assert(plan::all_paths(hs) == before + own);
    assert forall|p: Seq<char>| #[trigger] before.contains(p) implies plan::all_paths(
        hs,
    ).contains(p) by {
        let k = choose|k: int| 0 <= k < before.len() && before[k] == p;
        assert((before + own)[k] == p);
    }
    assert forall|k: int| 0 <= k < own.len() implies plan::all_paths(hs).contains(
        #[trigger] own[k],
    ) by {
        assert((before + own)[before.len() + k] == own[k]);
    }
    if i < front.len() {
        lemma_named_files_are_locked(front, i);
        assert(front[i] == hunks[i]);
    } else {
        assert(hs.last() == hunks[i]@);
        match hunks[i] {
            Hunk::Add { path, .. } => {
                assert(own[0] == path@);
            },
            Hunk::Delete { path } => {
                assert(own[0] == path@);
            },
            Hunk::Update { path, move_path, .. } => {
                assert(own[0] == path@);
                if move_path is Some {
                    assert(own[1] == move_path->0@);
                }
            },
        }
    }
}

/// A step is told of by a letter for what was done and the file it was done to.
pub proof fn lemma_step_is_told_of(step: Planned)
    ensures
        match step {
            Planned::Add { path, .. } => plan::step_line(step@) == "A "@ + path@,
            Planned::Update { path, .. } => plan::step_line(step@) == "M "@ + path@,
            Planned::Move { from, to, .. } => plan::step_line(step@) == "M "@ + from@ + " -> "@
                + to@,
            Planned::Delete { path } => plan::step_line(step@) == "D "@ + path@,
        },
{
}

/// A chunk never has as its context nothing, or the sign that ends a header; the context
/// has no white space around it.
pub proof fn lemma_context_says_something(line: Seq<char>, ls: Seq<Seq<char>>)
    ensures
        apply_patch::chunk_of(line, ls).change_context matches Some(c) ==> c.len() > 0 && c
            != "@@"@ && !text::is_space(c[0]) && !text::is_space(c.last()),
{
    let rest = text::trimmed(line.skip(2));
    lemma_trimmed_has_no_space(line.skip(2));
    lemma_trimmed_has_no_space(rest.skip(1));
}

proof fn lemma_trimmed_has_no_space(s: Seq<char>)
    ensures
        text::trimmed(s).len() > 0 ==> !text::is_space(text::trimmed(s)[0]) && !text::is_space(
            text::trimmed(s).last(),
        ),
{
    lemma_no_space_behind(text::trimmed_start(s));
    lemma_no_space_ahead(text::trimmed_end(s));
    text::lemma_trimmed_either_way(s);
}

proof fn lemma_no_space_behind(s: Seq<char>)
    ensures
        text::trimmed_end(s).len() > 0 ==> !text::is_space(text::trimmed_end(s).last()),
    decreases s.len(),
{
    if s.len() > 0 && text::is_space(s.last()) {
        lemma_no_space_behind(s.drop_last());
    }
}

proof fn lemma_no_space_ahead(s: Seq<char>)
    ensures
        text::trimmed_start(s).len() > 0 ==> !text::is_space(text::trimmed_start(s)[0]),
    decreases s.len(),
{
    if s.len() > 0 && text::is_space(s[0]) {
        lemma_no_space_ahead(s.skip(1));
    }
}

/// What two chunks add at the same place comes in the order of the chunks.
pub proof fn lemma_additions_keep_their_order(
    ls: Seq<Seq<char>>,
    a: ReplacementView,
    b: ReplacementView,
)
    requires
        a.old_len == 0,
        b.old_len == 0,
        0 <= a.start == b.start <= ls.len(),
    ensures
        replacements::applied(ls, replacements::in_order(seq![a, b])) == ls.take(a.start)
            + a.new_lines + b.new_lines + ls.skip(a.start),
{
    let two = seq![a, b];
    let one = seq![a];
    let n = a.start;
    assert(two.drop_last() =~= one);
    assert(one.drop_last() =~= Seq::empty());
    assert(replacements::in_order(Seq::empty()) =~= Seq::<ReplacementView>::empty());
    assert(Seq::<ReplacementView>::empty().push(a) =~= one);
    assert(replacements::in_order(one) == one);
    assert(one.push(b) =~= two);
    assert(replacements::in_order(two) == two);
    let first = replacements::spliced(ls, b);
    let then = replacements::spliced(first, a);
    assert(replacements::applied(then, Seq::empty()) == then);
    assert(replacements::applied(first, one) == then);
    assert(first.take(n) =~= ls.take(n));
    assert(first.skip(n) =~= b.new_lines + ls.skip(n));
    assert(then =~= ls.take(n) + a.new_lines + b.new_lines + ls.skip(n));
}

}
