//! Deriving the new contents of a file from the chunks of an update section.

use crate::apply_patch::{ChunkView, UpdateChunk};
use crate::text;
use crate::text::{chars_of, copy_texts, join, same, split_char, trim, trim_end};
use vstd::prelude::*;

verus! {

/// How two lines are compared when a chunk is looked for in a file.
#[derive(Debug, Clone, Copy, PartialEq, Eq, Structural)]
pub enum LineMatch {
    /// Trimmed, with typographic punctuation taken as its ASCII counterpart.
    Normalized,
    Exact,
    TrimEnd,
    Trim,
}

/// The ASCII counterpart of a typographic quote, dash or ellipsis.
pub open spec fn plain_char(c: char) -> char {
    if '\u{2018}' <= c <= '\u{201b}' {
        '\''
    } else if '\u{201c}' <= c <= '\u{201f}' {
        '"'
    } else if '\u{2010}' <= c <= '\u{2015}' {
        '-'
    } else if c == '\u{2026}' {
        '.'
    } else {
        c
    }
}

/// A text with typographic punctuation replaced by its ASCII counterpart.
pub open spec fn normalized(s: Seq<char>) -> Seq<char> {
    s.map_values(|c: char| plain_char(c))
}

/// Whether two lines are the same under the given comparison.
pub open spec fn same_line(a: Seq<char>, b: Seq<char>, how: LineMatch) -> bool {
    match how {
        LineMatch::Normalized => normalized(text::trimmed(a)) == normalized(text::trimmed(b)),
        LineMatch::Exact => a == b,
        LineMatch::TrimEnd => text::trimmed_end(a) == text::trimmed_end(b),
        LineMatch::Trim => text::trimmed(a) == text::trimmed(b),
    }
}

/// Whether the pattern stands in the lines at position `i`.
pub open spec fn matches_at(
    ls: Seq<Seq<char>>,
    pattern: Seq<Seq<char>>,
    i: int,
    how: LineMatch,
) -> bool {
    &&& 0 <= i && i + pattern.len() <= ls.len()
    &&& forall|j: int| 0 <= j < pattern.len() ==> same_line(ls[i + j], #[trigger] pattern[j], how)
}

/// The first place from `start` on where the pattern stands.
pub open spec fn first_match(
    ls: Seq<Seq<char>>,
    pattern: Seq<Seq<char>>,
    start: int,
    how: LineMatch,
) -> Option<int>
    decreases ls.len() - start,
{
    if pattern.len() == 0 || start + pattern.len() > ls.len() {
        None
    } else if matches_at(ls, pattern, start, how) {
        Some(start)
    } else {
        first_match(ls, pattern, start + 1, how)
    }
}

/// Where the pattern is found from `start` on: with `eof`, at the very end of
/// the lines if it stands there; else at the first place.
pub open spec fn located(
    ls: Seq<Seq<char>>,
    pattern: Seq<Seq<char>>,
    start: int,
    how: LineMatch,
    eof: bool,
) -> Option<int> {
    let from_end = ls.len() - pattern.len();
    if pattern.len() > 0 && eof && from_end >= start && matches_at(ls, pattern, from_end, how) {
        Some(from_end)
    } else {
        first_match(ls, pattern, start, how)
    }
}

/// Whether any character of the pattern is outside ASCII.
pub open spec fn beyond_ascii(pattern: Seq<Seq<char>>) -> bool {
    exists|i: int, j: int|
        0 <= i < pattern.len() && 0 <= j < pattern[i].len() && (#[trigger] pattern[i][j]) as u32
            > 127
}

/// Where a chunk's lines are found: the strictest comparison that finds them
/// wins, after the normalized one for patterns outside ASCII.
pub open spec fn sought(
    ls: Seq<Seq<char>>,
    pattern: Seq<Seq<char>>,
    start: int,
    eof: bool,
) -> Option<int> {
    if beyond_ascii(pattern) && located(ls, pattern, start, LineMatch::Normalized, eof) is Some {
        located(ls, pattern, start, LineMatch::Normalized, eof)
    } else if located(ls, pattern, start, LineMatch::Exact, eof) is Some {
        located(ls, pattern, start, LineMatch::Exact, eof)
    } else if located(ls, pattern, start, LineMatch::TrimEnd, eof) is Some {
        located(ls, pattern, start, LineMatch::TrimEnd, eof)
    } else {
        located(ls, pattern, start, LineMatch::Trim, eof)
    }
}

/// The first place where the lines match is found, if there is one from the start on.
pub proof fn lemma_first_match(
    ls: Seq<Seq<char>>,
    pattern: Seq<Seq<char>>,
    start: int,
    how: LineMatch,
)
    requires
        0 <= start,
    ensures
        first_match(ls, pattern, start, how) matches Some(i) ==> start <= i && i + pattern.len()
            <= ls.len() && matches_at(ls, pattern, i, how) && forall|k: int|
            start <= k < i ==> !matches_at(ls, pattern, k, how),
        first_match(ls, pattern, start, how) is None && pattern.len() > 0 ==> forall|k: int|
            start <= k ==> !matches_at(ls, pattern, k, how),
        first_match(ls, pattern, start, how) is Some ==> pattern.len() > 0,
    decreases ls.len() - start,
{
    if pattern.len() > 0 && start + pattern.len() <= ls.len() {
        lemma_first_match(ls, pattern, start + 1, how);
    }
}

/// What is found lies at or after the start, and within the lines.
pub proof fn lemma_sought(ls: Seq<Seq<char>>, pattern: Seq<Seq<char>>, start: int, eof: bool)
    requires
        0 <= start,
    ensures
        sought(ls, pattern, start, eof) matches Some(i) ==> start <= i && i + pattern.len()
            <= ls.len() && pattern.len() > 0,
{
    lemma_first_match(ls, pattern, start, LineMatch::Normalized);
    lemma_first_match(ls, pattern, start, LineMatch::Exact);
    lemma_first_match(ls, pattern, start, LineMatch::TrimEnd);
    lemma_first_match(ls, pattern, start, LineMatch::Trim);
}

/// A chunk whose lines stand in the file verbatim is always found.
pub proof fn lemma_verbatim_lines_are_found(
    ls: Seq<Seq<char>>,
    pattern: Seq<Seq<char>>,
    start: int,
    eof: bool,
    at: int,
)
    requires
        0 <= start <= at,
        pattern.len() > 0,
        matches_at(ls, pattern, at, LineMatch::Exact),
    ensures
        sought(ls, pattern, start, eof) is Some,
{
    lemma_first_match(ls, pattern, start, LineMatch::Exact);
}

/// Replaces typographic punctuation by its ASCII counterpart.
pub fn normalize_unicode(s: &str) -> (r: String)
    ensures
        r@ == normalized(s@),
{
    let cs = chars_of(s);
    let mut out: String = String::new();
    let mut i: usize = 0;
    while i < cs.len()
        invariant
            cs@ == s@,
            i <= cs.len(),
            out@ =~= normalized(s@.take(i as int)),
        decreases cs.len() - i,
    {
        let c = cs[i];
        let plain = if '\u{2018}' <= c && c <= '\u{201b}' {
            '\''
        } else if '\u{201c}' <= c && c <= '\u{201f}' {
            '"'
        } else if '\u{2010}' <= c && c <= '\u{2015}' {
            '-'
        } else if c == '\u{2026}' {
            '.'
        } else {
            c
        };
        out.push(plain);
        i += 1;
    }
    proof {
        assert(s@.take(i as int) =~= s@);
    }
    out
}

/// Whether two lines are the same under the given comparison.
fn lines_match(a: &str, b: &str, how: LineMatch) -> (r: bool)
    ensures
        r == same_line(a@, b@, how),
{
    match how {
        LineMatch::Normalized => {
            let x = normalize_unicode(trim(a));
            let y = normalize_unicode(trim(b));
            same(x.as_str(), y.as_str())
        },
        LineMatch::Exact => same(a, b),
        LineMatch::TrimEnd => same(trim_end(a), trim_end(b)),
        LineMatch::Trim => same(trim(a), trim(b)),
    }
}

/// Whether the pattern stands in the lines at position `i`.
fn stands_at(ls: &[String], pattern: &[String], i: usize, how: LineMatch) -> (r: bool)
    requires
        i + pattern@.len() <= ls@.len(),
    ensures
        r == matches_at(text::texts(ls@), text::texts(pattern@), i as int, how),
{
    let mut j: usize = 0;
    let count: usize = ls.len();
    let ghost all = text::texts(ls@);
    let ghost wanted = text::texts(pattern@);
    while j < pattern.len()
        invariant
            count == ls@.len(),
            all == text::texts(ls@),
            wanted == text::texts(pattern@),
            i + pattern@.len() <= ls@.len(),
            j <= pattern@.len(),
            forall|k: int| 0 <= k < j ==> same_line(all[i + k], #[trigger] wanted[k], how),
        decreases pattern@.len() - j,
    {
        proof {
            assert(all[i + j] == ls@[i + j]@);
            assert(wanted[j as int] == pattern@[j as int]@);
        }
        if !lines_match(ls[i + j].as_str(), pattern[j].as_str(), how) {
            return false;
        }
        j += 1;
    }
    true
}

/// Looks for the pattern under one comparison.
pub fn try_match(
    ls: &[String],
    pattern: &[String],
    start_index: usize,
    how: LineMatch,
    eof: bool,
) -> (r: Option<usize>)
    ensures
        match located(text::texts(ls@), text::texts(pattern@), start_index as int, how, eof) {
            Some(i) => r matches Some(k) && k == i,
            None => r is None,
        },
{
    if pattern.len() == 0 || pattern.len() > ls.len() {
        return None;
    }
    let ghost all = text::texts(ls@);
    let ghost wanted = text::texts(pattern@);
    let from_end: usize = ls.len() - pattern.len();
    if eof && from_end >= start_index && stands_at(ls, pattern, from_end, how) {
        return Some(from_end);
    }
    let mut i: usize = start_index;
    while i <= from_end
        invariant
            all == text::texts(ls@),
            wanted == text::texts(pattern@),
            pattern@.len() > 0,
            from_end == ls@.len() - pattern@.len(),
            from_end < usize::MAX,
            start_index <= i,
            first_match(all, wanted, start_index as int, how) == first_match(
                all,
                wanted,
                i as int,
                how,
            ),
            located(all, wanted, start_index as int, how, eof) == first_match(
                all,
                wanted,
                start_index as int,
                how,
            ),
        decreases ls@.len() - i,
    {
        if stands_at(ls, pattern, i, how) {
            return Some(i);
        }
        i += 1;
    }
    None
}

/// Whether any character of the lines is outside ASCII.
fn has_beyond_ascii(pattern: &[String]) -> (r: bool)
    ensures
        r == beyond_ascii(text::texts(pattern@)),
{
    let ghost wanted = text::texts(pattern@);
    let mut i: usize = 0;
    while i < pattern.len()
        invariant
            wanted == text::texts(pattern@),
            i <= pattern@.len(),
            forall|k: int, j: int|
                0 <= k < i && 0 <= j < wanted[k].len() ==> (#[trigger] wanted[k][j]) as u32 <= 127,
        decreases pattern@.len() - i,
    {
        let cs = chars_of(pattern[i].as_str());
        let mut j: usize = 0;
        while j < cs.len()
            invariant
                wanted == text::texts(pattern@),
                i < pattern@.len(),
                cs@ == wanted[i as int],
                j <= cs.len(),
                forall|k: int| 0 <= k < j ==> (#[trigger] wanted[i as int][k]) as u32 <= 127,
            decreases cs.len() - j,
        {
            if cs[j] as u32 > 127 {
                proof {
                    assert(wanted[i as int][j as int] as u32 > 127);
                }
                return true;
            }
            j += 1;
        }
        i += 1;
    }
    false
}

/// Finds a chunk's lines in the file.
pub fn seek_sequence(
    ls: &[String],
    pattern: &[String],
    start_index: usize,
    eof: bool,
) -> (r: Option<usize>)
    ensures
        match sought(text::texts(ls@), text::texts(pattern@), start_index as int, eof) {
            Some(i) => r matches Some(k) && k == i && i + pattern@.len() <= ls@.len()
                && start_index <= i && pattern@.len() > 0,
            None => r is None,
        },
{
    proof {
        lemma_sought(text::texts(ls@), text::texts(pattern@), start_index as int, eof);
    }
    if has_beyond_ascii(pattern) {
        let found = try_match(ls, pattern, start_index, LineMatch::Normalized, eof);
        if found.is_some() {
            return found;
        }
    }
    let found = try_match(ls, pattern, start_index, LineMatch::Exact, eof);
    if found.is_some() {
        return found;
    }
    let found = try_match(ls, pattern, start_index, LineMatch::TrimEnd, eof);
    if found.is_some() {
        return found;
    }
    try_match(ls, pattern, start_index, LineMatch::Trim, eof)
}

/// Lines to put in the place of others: where they begin, how many there are,
/// and what comes instead.
pub type Replacement = (usize, usize, Vec<String>);

/// The content of a [`Replacement`].
#[verifier::ext_equal]
pub struct ReplacementView {
    pub start: int,
    pub old_len: int,
    pub new_lines: Seq<Seq<char>>,
}

/// The content of a [`Replacement`].
pub open spec fn replacement_view(r: Replacement) -> ReplacementView {
    ReplacementView { start: r.0 as int, old_len: r.1 as int, new_lines: text::texts(r.2@) }
}

/// The contents of a list of replacements.
pub open spec fn replacement_views(v: Seq<Replacement>) -> Seq<ReplacementView> {
    Seq::new(v.len(), |i: int| replacement_view(v[i]))
}

/// A list of lines without its last line, where that one is empty.
pub open spec fn without_blank_last(ls: Seq<Seq<char>>) -> Seq<Seq<char>> {
    if ls.len() > 0 && ls.last().len() == 0 {
        ls.drop_last()
    } else {
        ls
    }
}

/// Where the search for a chunk's lines begins, given where the previous
/// chunk ended: just after the chunk's context, if it names one.
pub open spec fn search_start(ls: Seq<Seq<char>>, chunk: ChunkView, at: int) -> Option<int> {
    match chunk.change_context {
        None => Some(at),
        Some(context) => match sought(ls, seq![context], at, false) {
            Some(i) => Some(i + 1),
            None => None,
        },
    }
}

/// The replacement of one chunk, and where the next search begins.
pub open spec fn placed(
    ls: Seq<Seq<char>>,
    path: Seq<char>,
    chunk: ChunkView,
    at: int,
) -> Result<(ReplacementView, int), Seq<char>> {
    match search_start(ls, chunk, at) {
        None => Err(
            "Failed to find context '"@ + chunk.change_context->0 + "' in "@ + path,
        ),
        Some(from) => {
            let old = chunk.old_lines;
            let shorter = without_blank_last(old);
            let eof = chunk.is_end_of_file;
            if old.len() == 0 {
                Ok(
                    (
                        ReplacementView {
                            start: without_blank_last(ls).len() as int,
                            old_len: 0,
                            new_lines: chunk.new_lines,
                        },
                        from,
                    ),
                )
            } else if sought(ls, old, from, eof) is Some {
                let i = sought(ls, old, from, eof)->0;
                Ok(
                    (
                        ReplacementView {
                            start: i,
                            old_len: old.len() as int,
                            new_lines: chunk.new_lines,
                        },
                        i + old.len(),
                    ),
                )
            } else if old.last().len() == 0 && sought(ls, shorter, from, eof) is Some {
                let i = sought(ls, shorter, from, eof)->0;
                Ok(
                    (
                        ReplacementView {
                            start: i,
                            old_len: shorter.len() as int,
                            new_lines: without_blank_last(chunk.new_lines),
                        },
                        i + shorter.len(),
                    ),
                )
            } else {
                Err("Failed to find expected lines in "@ + path + ":\n"@ + text::joined(old, "\n"@))
            }
        },
    }
}

/// The replacements of the chunks, in the order of the chunks.
pub open spec fn planned(
    ls: Seq<Seq<char>>,
    path: Seq<char>,
    chunks: Seq<ChunkView>,
    at: int,
) -> Result<Seq<ReplacementView>, Seq<char>>
    decreases chunks.len(),
{
    if chunks.len() == 0 {
        Ok(Seq::empty())
    } else {
        match placed(ls, path, chunks[0], at) {
            Err(e) => Err(e),
            Ok((r, next)) => match planned(ls, path, chunks.skip(1), next) {
                Err(e) => Err(e),
                Ok(rest) => Ok(seq![r] + rest),
            },
        }
    }
}

/// A list in order of `start` with one more element, after those that do not come later.
pub open spec fn inserted(s: Seq<ReplacementView>, r: ReplacementView) -> Seq<ReplacementView>
    decreases s.len(),
{
    if s.len() == 0 || s.last().start <= r.start {
        s.push(r)
    } else {
        inserted(s.drop_last(), r).push(s.last())
    }
}

/// The list in order of `start`; elements that begin at the same line keep their order.
pub open spec fn in_order(s: Seq<ReplacementView>) -> Seq<ReplacementView>
    decreases s.len(),
{
    if s.len() == 0 {
        s
    } else {
        inserted(in_order(s.drop_last()), s.last())
    }
}

/// The lines with one replacement made.
pub open spec fn spliced(ls: Seq<Seq<char>>, r: ReplacementView) -> Seq<Seq<char>> {
    ls.take(r.start) + r.new_lines + ls.skip(r.start + r.old_len)
}

/// The lines with the replacements made, the last one first.
pub open spec fn applied(ls: Seq<Seq<char>>, rs: Seq<ReplacementView>) -> Seq<Seq<char>>
    decreases rs.len(),
{
    if rs.len() == 0 {
        ls
    } else {
        applied(spliced(ls, rs.last()), rs.drop_last())
    }
}

/// Whether each replacement, the last one first, lies within the lines that
/// there are when its turn comes.
pub open spec fn applicable(count: int, rs: Seq<ReplacementView>) -> bool
    decreases rs.len(),
{
    if rs.len() == 0 {
        true
    } else {
        let r = rs.last();
        &&& 0 <= r.start && 0 <= r.old_len && r.start + r.old_len <= count
        &&& applicable(count - r.old_len + r.new_lines.len(), rs.drop_last())
    }
}

/// Two replacements that both remove lines remove different ones.
pub open spec fn apart(a: ReplacementView, b: ReplacementView) -> bool {
    a.old_len > 0 && b.old_len > 0 ==> a.start + a.old_len <= b.start || b.start + b.old_len
        <= a.start
}

/// No element begins after `b`.
pub open spec fn none_later(s: Seq<ReplacementView>, b: int) -> bool {
    forall|i: int| 0 <= i < s.len() ==> (#[trigger] s[i]).start <= b
}

/// Every element is apart from `x`.
pub open spec fn all_apart(s: Seq<ReplacementView>, x: ReplacementView) -> bool {
    forall|i: int| 0 <= i < s.len() ==> apart(#[trigger] s[i], x)
}

/// The replacements lie within the file and no line is removed twice.
pub open spec fn consistent(count: int, rs: Seq<ReplacementView>) -> bool {
    &&& forall|i: int|
        0 <= i < rs.len() ==> 0 <= (#[trigger] rs[i]).start && 0 <= rs[i].old_len && rs[i].start
            + rs[i].old_len <= count
    &&& forall|i: int, j: int|
        0 <= i < rs.len() && 0 <= j < rs.len() && i != j ==> apart(
            #[trigger] rs[i],
            #[trigger] rs[j],
        )
}

/// The list is in order of `start`.
pub open spec fn ascending(rs: Seq<ReplacementView>) -> bool {
    forall|i: int, j: int|
        0 <= i < j < rs.len() ==> (#[trigger] rs[i]).start <= (#[trigger] rs[j]).start
}

/// A placed chunk lies within the file, at or after where its search began,
/// and the next search begins after it.
proof fn lemma_placed(ls: Seq<Seq<char>>, path: Seq<char>, chunk: ChunkView, at: int)
    requires
        0 <= at,
    ensures
        placed(ls, path, chunk, at) matches Ok((r, next)) ==> {
            &&& 0 <= r.start && 0 <= r.old_len && r.start + r.old_len <= ls.len()
            &&& at <= next
            &&& r.old_len > 0 ==> at <= r.start && r.start + r.old_len <= next
        },
{
    if chunk.change_context is Some {
        lemma_sought(ls, seq![chunk.change_context->0], at, false);
    }
    if let Some(from) = search_start(ls, chunk, at) {
        lemma_sought(ls, chunk.old_lines, from, chunk.is_end_of_file);
        lemma_sought(ls, without_blank_last(chunk.old_lines), from, chunk.is_end_of_file);
    }
}

/// The chunks of one file never claim the same line, and stay within the file.
pub proof fn lemma_planned_consistent(
    ls: Seq<Seq<char>>,
    path: Seq<char>,
    chunks: Seq<ChunkView>,
    at: int,
)
    requires
        0 <= at,
    ensures
        planned(ls, path, chunks, at) matches Ok(rs) ==> consistent(ls.len() as int, rs)
            && forall|i: int|
            0 <= i < rs.len() && (#[trigger] rs[i]).old_len > 0 ==> rs[i].start >= at,
    decreases chunks.len(),
{
    if chunks.len() > 0 {
        let first = placed(ls, path, chunks[0], at);
        lemma_placed(ls, path, chunks[0], at);
        if let Ok((r, next)) = first {
            lemma_planned_consistent(ls, path, chunks.skip(1), next);
            if let Ok(rest) = planned(ls, path, chunks.skip(1), next) {
                let rs = seq![r] + rest;
                assert(rs[0] == r);
                assert forall|i: int| 0 < i < rs.len() implies #[trigger] rs[i] == rest[i - 1] by {}
                assert forall|i: int, j: int|
                    0 <= i < rs.len() && 0 <= j < rs.len() && i != j implies apart(
                    #[trigger] rs[i],
                    #[trigger] rs[j],
                ) by {
                    if i > 0 && j > 0 {
                        assert(apart(rest[i - 1], rest[j - 1]));
                    }
                }
            }
        }
    }
}

proof fn lemma_inserted(s: Seq<ReplacementView>, r: ReplacementView, count: int)
    requires
        consistent(count, s),
        ascending(s),
        0 <= r.start && 0 <= r.old_len && r.start + r.old_len <= count,
        all_apart(s, r),
    ensures
        consistent(count, inserted(s, r)),
        ascending(inserted(s, r)),
        inserted(s, r).to_multiset() == s.to_multiset().insert(r),
        inserted(s, r).len() == s.len() + 1,
        forall|b: int| #[trigger]
            none_later(s, b) && r.start <= b ==> none_later(inserted(s, r), b),
        forall|x: ReplacementView| #[trigger]
            all_apart(s, x) && apart(r, x) ==> all_apart(inserted(s, r), x),
    decreases s.len(),
{
    broadcast use vstd::seq_lib::group_to_multiset_ensures;
    if s.len() == 0 || s.last().start <= r.start {
    } else {
        let before = s.drop_last();
        let last = s.last();
        lemma_inserted(before, r, count);
        let t = inserted(before, r);
        assert(s =~= before.push(last));
        assert(inserted(s, r) == t.push(last));
        assert(none_later(before, last.start));
        assert(none_later(t, last.start));
        assert(all_apart(before, last));
        assert(apart(s[s.len() - 1], r));
        assert(all_apart(t, last));
        assert forall|b: int| #[trigger] none_later(s, b) && r.start <= b implies none_later(
            t.push(last),
            b,
        ) by {
            assert(none_later(before, b));
            assert(s[s.len() - 1].start <= b);
        }
        assert forall|x: ReplacementView| #[trigger]
            all_apart(s, x) && apart(r, x) implies all_apart(t.push(last), x) by {
            assert(all_apart(before, x));
            assert(apart(s[s.len() - 1], x));
        }
        assert(t.push(last).to_multiset() =~= s.to_multiset().insert(r));
    }
}

/// Sorting keeps the replacements and what makes them consistent.
pub proof fn lemma_in_order(s: Seq<ReplacementView>, count: int)
    requires
        consistent(count, s),
    ensures
        consistent(count, in_order(s)),
        ascending(in_order(s)),
        in_order(s).to_multiset() == s.to_multiset(),
        in_order(s).len() == s.len(),
        forall|x: ReplacementView| #[trigger] all_apart(s, x) ==> all_apart(in_order(s), x),
    decreases s.len(),
{
    broadcast use vstd::seq_lib::group_to_multiset_ensures;
    if s.len() > 0 {
        let before = s.drop_last();
        let r = s.last();
        assert(consistent(count, before));
        lemma_in_order(before, count);
        let t = in_order(before);
        assert(all_apart(before, r));
        lemma_inserted(t, r, count);
        assert forall|x: ReplacementView| #[trigger] all_apart(s, x) implies all_apart(
            inserted(t, r),
            x,
        ) by {
            assert(all_apart(before, x));
            assert(apart(s[s.len() - 1], x));
        }
        assert(s =~= before.push(r));
    }
}

/// Consistent replacements in order can be made from the last to the first.
pub proof fn lemma_applicable(count: int, current: int, rs: Seq<ReplacementView>)
    requires
        consistent(count, rs),
        ascending(rs),
        forall|i: int| 0 <= i < rs.len() ==> (#[trigger] rs[i]).start + rs[i].old_len <= current,
    ensures
        applicable(current, rs),
    decreases rs.len(),
{
    if rs.len() > 0 {
        let r = rs.last();
        let before = rs.drop_last();
        let left = current - r.old_len + r.new_lines.len();
        assert(consistent(count, before));
        assert forall|i: int| 0 <= i < before.len() implies (#[trigger] before[i]).start
            + before[i].old_len <= left by {
            assert(before[i] == rs[i]);
            assert(rs[i].start <= rs[rs.len() - 1].start);
            assert(apart(rs[i], rs[rs.len() - 1]));
        }
        lemma_applicable(count, left, before);
    }
}

/// The text that an update section makes of a file.
pub open spec fn derived(
    path: Seq<char>,
    chunks: Seq<ChunkView>,
    original: Seq<char>,
) -> Result<Seq<char>, Seq<char>> {
    let ls = without_blank_last(text::pieces(original, '\n'));
    match planned(ls, path, chunks, 0) {
        Err(e) => Err(e),
        Ok(rs) => {
            let out = applied(ls, in_order(rs));
            Ok(
                text::joined(
                    if out.len() > 0 && out.last().len() == 0 {
                        out
                    } else {
                        out.push(Seq::empty())
                    },
                    "\n"@,
                ),
            )
        },
    }
}

/// What an update leaves of a file is empty or ends with a line feed.
pub proof fn lemma_derived_ends_with_newline(
    path: Seq<char>,
    chunks: Seq<ChunkView>,
    original: Seq<char>,
)
    ensures
        derived(path, chunks, original) matches Ok(new) ==> new.len() == 0 || new.last() == '\n',
{
    reveal_strlit("\n");
    let ls = without_blank_last(text::pieces(original, '\n'));
    if let Ok(rs) = planned(ls, path, chunks, 0) {
        let out = applied(ls, in_order(rs));
        let all = if out.len() > 0 && out.last().len() == 0 {
            out
        } else {
            out.push(Seq::empty())
        };
        assert(all.last().len() == 0);
        if all.len() > 1 {
            let head = text::joined(all.drop_last(), "\n"@);
            assert(head + "\n"@ + all.last() =~= head + "\n"@);
        }
    }
}

/// A text without the line feed at its end, if it has one.
pub open spec fn without_last_feed(s: Seq<char>) -> Seq<char> {
    if s.len() > 0 && s.last() == '\n' {
        s.drop_last()
    } else {
        s
    }
}

/// Without chunks a text whose last line is not blank stays as it is, but for a
/// line feed at its end where there was none.
pub proof fn lemma_derived_without_chunks(path: Seq<char>, original: Seq<char>)
    requires
        without_last_feed(original).len() > 0,
        without_last_feed(original).last() != '\n',
    ensures
        derived(path, Seq::empty(), original) == Ok::<Seq<char>, Seq<char>>(
            without_last_feed(original).push('\n'),
        ),
{
    let body = without_last_feed(original);
    let p = text::pieces(original, '\n');
    let q = text::pieces(body, '\n');
    text::lemma_pieces_len(body, '\n');
    text::lemma_join_pieces(body, '\n');
    reveal_strlit("\n");
    assert("\n"@ =~= seq!['\n']);
    assert(q.last().len() > 0);
    assert(without_blank_last(p) =~= q);
    assert(in_order(Seq::<ReplacementView>::empty()).len() == 0);
    assert(applied(q, in_order(Seq::<ReplacementView>::empty())) == q);
    let all = q.push(Seq::<char>::empty());
    assert(all.drop_last() =~= q);
    assert(text::joined(all, "\n"@) =~= body.push('\n'));
}

/// Puts a replacement in its place among those in order.
fn insert_in_order(rs: &mut Vec<Replacement>, r: Replacement)
    ensures
        replacement_views(final(rs)@) == inserted(
            replacement_views(old(rs)@),
            replacement_view(r),
        ),
{
    let ghost views = replacement_views(rs@);
    let ghost v = replacement_view(r);
    let mut at: usize = rs.len();
    proof {
        assert(views.take(at as int) =~= views);
        assert(views.skip(at as int) =~= Seq::empty());
        assert(inserted(views, v) + Seq::<ReplacementView>::empty() =~= inserted(views, v));
    }
    while at > 0 && rs[at - 1].0 > r.0
        invariant
            at <= rs.len(),
            views == replacement_views(rs@),
            v == replacement_view(r),
            inserted(views, v) == inserted(views.take(at as int), v) + views.skip(at as int),
        decreases at,
    {
        proof {
            let here = views.take(at as int);
            assert(here.last() == replacement_view(rs@[at - 1]));
            assert(here.drop_last() =~= views.take(at - 1));
            assert(inserted(here, v) == inserted(views.take(at - 1), v).push(here.last()));
            assert(inserted(here, v) + views.skip(at as int) =~= inserted(views.take(at - 1), v)
                + views.skip(at - 1));
        }
        at -= 1;
    }
    proof {
        if at > 0 {
            assert(views.take(at as int).last() == replacement_view(rs@[at - 1]));
        }
        assert(inserted(views.take(at as int), v) == views.take(at as int).push(v));
    }
    rs.insert(at, r);
    proof {
        assert(replacement_views(rs@) =~= views.take(at as int).push(v) + views.skip(at as int));
    }
}

/// A copy of the lines without an empty last one.
fn drop_blank_last(ls: &Vec<String>) -> (r: Vec<String>)
    ensures
        text::texts(r@) == without_blank_last(text::texts(ls@)),
{
    let mut out = copy_texts(ls);
    proof {
        assert(text::texts(out@) == text::texts(ls@));
    }
    if out.len() > 0 {
        let ghost all = text::texts(out@);
        proof {
            assert(all.last() == out@.last()@);
        }
        if out[out.len() - 1].as_str().is_empty() {
            let _ = out.pop();
            proof {
                assert(text::texts(out@) =~= all.drop_last());
            }
        }
    }
    out
}

/// The replacement of one chunk, and where the next search begins.
fn place_chunk(
    ls: &Vec<String>,
    file_path: &str,
    chunk: &UpdateChunk,
    line_index: usize,
) -> (r: Result<(Replacement, usize), String>)
    requires
        line_index <= ls@.len(),
    ensures
        match placed(text::texts(ls@), file_path@, chunk@, line_index as int) {
            Ok((v, next)) => r matches Ok((x, n)) && replacement_view(x) == v && n == next && next
                <= ls@.len(),
            Err(message) => r matches Err(e) && e@ == message,
        },
{
    let ghost all = text::texts(ls@);
    let mut from: usize = line_index;
    let count: usize = ls.len();
    if let Some(context) = &chunk.change_context {
        let mut wanted: Vec<String> = Vec::new();
        wanted.push(context.clone());
        proof {
            assert(text::texts(wanted@) =~= seq![context@]);
        }
        match seek_sequence(ls, &wanted, line_index, false) {
            Some(i) => {
                from = i + 1;
            },
            None => {
                let mut message: String = "Failed to find context '".to_owned();
                message.append(context.as_str());
                message.append("' in ");
                message.append(file_path);
                return Err(message);
            },
        }
    }
    proof {
        assert(search_start(all, chunk@, line_index as int) == Some(from as int));
    }
    if chunk.old_lines.len() == 0 {
        let at: usize = drop_blank_last(ls).len();
        return Ok(((at, 0, copy_texts(&chunk.new_lines)), from));
    }
    if let Some(i) = seek_sequence(ls, &chunk.old_lines, from, chunk.is_end_of_file) {
        let n: usize = chunk.old_lines.len();
        return Ok(((i, n, copy_texts(&chunk.new_lines)), i + n));
    }
    proof {
        assert(text::texts(chunk.old_lines@).last() == chunk.old_lines@.last()@);
    }
    if chunk.old_lines[chunk.old_lines.len() - 1].as_str().is_empty() {
        let shorter = drop_blank_last(&chunk.old_lines);
        if let Some(i) = seek_sequence(ls, &shorter, from, chunk.is_end_of_file) {
            let n: usize = shorter.len();
            return Ok(((i, n, drop_blank_last(&chunk.new_lines)), i + n));
        }
    }
    let mut message: String = "Failed to find expected lines in ".to_owned();
    message.append(file_path);
    message.append(":\n");
    message.append(join(&chunk.old_lines, "\n").as_str());
    Err(message)
}

/// Finds the place of every chunk; the replacements come in order of their first line.
pub fn compute_replacements(
    original_lines: &Vec<String>,
    file_path: &str,
    chunks: &Vec<UpdateChunk>,
) -> (r: Result<Vec<Replacement>, String>)
    ensures
        match planned(text::texts(original_lines@), file_path@, crate::apply_patch::chunk_views(
            chunks@,
        ), 0) {
            Ok(rs) => r matches Ok(v) && replacement_views(v@) == in_order(rs),
            Err(message) => r matches Err(e) && e@ == message,
        },
{
    let ghost ls = text::texts(original_lines@);
    let ghost cs = crate::apply_patch::chunk_views(chunks@);
    let ghost whole = planned(ls, file_path@, cs, 0);
    let ghost mut found: Seq<ReplacementView> = Seq::empty();
    let mut replacements: Vec<Replacement> = Vec::new();
    let mut line_index: usize = 0;
    let mut k: usize = 0;
    proof {
        assert(cs.skip(0) =~= cs);
        assert(replacement_views(replacements@) =~= in_order(found));
        if let Ok(rest) = whole {
            assert(found + rest =~= rest);
        }
    }
    while k < chunks.len()
        invariant
            ls == text::texts(original_lines@),
            cs == crate::apply_patch::chunk_views(chunks@),
            k <= chunks@.len(),
            line_index <= original_lines@.len(),
            whole == planned(ls, file_path@, cs, 0),
            replacement_views(replacements@) == in_order(found),
            whole == match planned(ls, file_path@, cs.skip(k as int), line_index as int) {
                Ok(rest) => Ok(found + rest),
                Err(e) => Err(e),
            },
        decreases chunks@.len() - k,
    {
        let ghost here = cs.skip(k as int);
        proof {
            assert(here[0] == chunks@[k as int]@);
            assert(here.skip(1) =~= cs.skip(k + 1));
        }
        match place_chunk(original_lines, file_path, &chunks[k], line_index) {
            Ok((r, next)) => {
                let ghost v = replacement_view(r);
                insert_in_order(&mut replacements, r);
                line_index = next;
                proof {
                    assert(found.push(v).drop_last() =~= found);
                    if let Ok(rest) = planned(ls, file_path@, here.skip(1), next as int) {
                        assert(found + (seq![v] + rest) =~= found.push(v) + rest);
                    }
                    found = found.push(v);
                }
            },
            Err(e) => {
                return Err(e);
            },
        }
        k += 1;
    }
    proof {
        assert(found + Seq::<ReplacementView>::empty() =~= found);
    }
    Ok(replacements)
}

/// The lines with one replacement made.
fn splice(ls: &Vec<String>, r: &Replacement) -> (out: Vec<String>)
    requires
        r.0 + r.1 <= ls@.len(),
    ensures
        text::texts(out@) == spliced(text::texts(ls@), replacement_view(*r)),
{
    let ghost all = text::texts(ls@);
    let ghost new = text::texts(r.2@);
    let count: usize = ls.len();
    let end: usize = r.0 + r.1;
    let mut out: Vec<String> = Vec::new();
    let mut i: usize = 0;
    while i < r.0
        invariant
            i <= r.0 <= ls@.len(),
            all == text::texts(ls@),
            text::texts(out@) =~= all.take(i as int),
        decreases r.0 - i,
    {
        let ghost before = out@;
        out.push(ls[i].clone());
        proof {
            assert(text::texts(out@) =~= text::texts(before).push(ls@[i as int]@));
        }
        i += 1;
    }
    let mut j: usize = 0;
    while j < r.2.len()
        invariant
            j <= r.2@.len(),
            r.0 <= all.len(),
            new == text::texts(r.2@),
            text::texts(out@) =~= all.take(r.0 as int) + new.take(j as int),
        decreases r.2@.len() - j,
    {
        let ghost before = out@;
        out.push(r.2[j].clone());
        proof {
            assert(text::texts(out@) =~= text::texts(before).push(r.2@[j as int]@));
        }
        j += 1;
    }
    let mut k: usize = end;
    while k < ls.len()
        invariant
            end == r.0 + r.1,
            end <= k <= ls@.len(),
            all == text::texts(ls@),
            new == text::texts(r.2@),
            text::texts(out@) =~= all.take(r.0 as int) + new + all.subrange(end as int, k as int),
        decreases ls@.len() - k,
    {
        let ghost before = out@;
        out.push(ls[k].clone());
        proof {
            assert(text::texts(out@) =~= text::texts(before).push(ls@[k as int]@));
        }
        k += 1;
    }
    out
}

/// Makes the replacements, the last one first.
pub fn apply_replacements(ls: &Vec<String>, replacements: &Vec<Replacement>) -> (r: Vec<String>)
    requires
        applicable(ls@.len() as int, replacement_views(replacements@)),
    ensures
        text::texts(r@) == applied(text::texts(ls@), replacement_views(replacements@)),
{
    let ghost all = text::texts(ls@);
    let ghost rs = replacement_views(replacements@);
    let mut out = copy_texts(ls);
    let mut i: usize = replacements.len();
    proof {
        assert(rs.take(i as int) =~= rs);
    }
    while i > 0
        invariant
            rs == replacement_views(replacements@),
            i <= replacements@.len(),
            applicable(out@.len() as int, rs.take(i as int)),
            applied(all, rs) == applied(text::texts(out@), rs.take(i as int)),
        decreases i,
    {
        proof {
            assert(rs.take(i as int).last() == replacement_view(replacements@[i - 1]));
            assert(rs.take(i as int).drop_last() =~= rs.take(i - 1));
        }
        let ghost before = text::texts(out@);
        out = splice(&out, &replacements[i - 1]);
        proof {
            assert(text::texts(out@).len() == out@.len());
        }
        i -= 1;
    }
    out
}

/// Derives the new text of a file from the chunks of its update section.
pub fn derive_new_contents(
    file_path: &str,
    chunks: &Vec<UpdateChunk>,
    original_text: &str,
) -> (r: Result<String, String>)
    ensures
        match derived(file_path@, crate::apply_patch::chunk_views(chunks@), original_text@) {
            Ok(new) => r matches Ok(s) && s@ == new,
            Err(message) => r matches Err(e) && e@ == message,
        },
{
    let original_lines = drop_blank_last(&split_char(original_text, '\n'));
    let replacements = match compute_replacements(&original_lines, file_path, chunks) {
        Ok(v) => v,
        Err(e) => return Err(e),
    };
    proof {
        let ls = text::texts(original_lines@);
        let cs = crate::apply_patch::chunk_views(chunks@);
        let rs = planned(ls, file_path@, cs, 0)->Ok_0;
        lemma_planned_consistent(ls, file_path@, cs, 0);
        lemma_in_order(rs, ls.len() as int);
        lemma_applicable(ls.len() as int, ls.len() as int, in_order(rs));
    }
    let mut new_lines = apply_replacements(&original_lines, &replacements);
    let ghost out = text::texts(new_lines@);
    proof {
        if out.len() > 0 {
            assert(out.last() == new_lines@.last()@);
        }
    }
    if new_lines.len() == 0 || !new_lines[new_lines.len() - 1].as_str().is_empty() {
        new_lines.push(String::new());
        proof {
            assert(new_lines@.last()@ =~= Seq::<char>::empty());
            assert(text::texts(new_lines@) =~= out.push(Seq::empty()));
        }
    }
    Ok(join(&new_lines, "\n"))
}

}
