//! The patch envelope format: parsing it, and deriving the new contents of an
//! updated file from its chunks.

use crate::text;
use crate::text::{
    contains, join, lines, same, split_once, starts_with, strip_prefix, trim, trim_end, trim_quotes,
    trim_start_matches,
};
use vstd::prelude::*;

pub mod laws;
pub mod plan;
pub mod replacements;

verus! {

/// One section of a patch.
#[derive(Debug, Clone, PartialEq)]
pub enum Hunk {
    Add { path: String, contents: String },
    Delete { path: String },
    Update { path: String, move_path: Option<String>, chunks: Vec<UpdateChunk> },
}

/// One `@@` chunk of an update section.
#[derive(Debug, Clone, PartialEq)]
pub struct UpdateChunk {
    pub old_lines: Vec<String>,
    pub new_lines: Vec<String>,
    pub change_context: Option<String>,
    pub is_end_of_file: bool,
}

/// The content of an [`UpdateChunk`].
#[verifier::ext_equal]
pub struct ChunkView {
    pub old_lines: Seq<Seq<char>>,
    pub new_lines: Seq<Seq<char>>,
    pub change_context: Option<Seq<char>>,
    pub is_end_of_file: bool,
}

/// The content of a [`Hunk`].
#[verifier::ext_equal]
pub enum HunkView {
    Add { path: Seq<char>, contents: Seq<char> },
    Delete { path: Seq<char> },
    Update { path: Seq<char>, move_path: Option<Seq<char>>, chunks: Seq<ChunkView> },
}

impl View for UpdateChunk {
    type V = ChunkView;

    open spec fn view(&self) -> ChunkView {
        ChunkView {
            old_lines: text::texts(self.old_lines@),
            new_lines: text::texts(self.new_lines@),
            change_context: text::opt_text(self.change_context),
            is_end_of_file: self.is_end_of_file,
        }
    }
}

/// The contents of a list of chunks.
pub open spec fn chunk_views(v: Seq<UpdateChunk>) -> Seq<ChunkView> {
    Seq::new(v.len(), |i: int| v[i]@)
}

impl View for Hunk {
    type V = HunkView;

    open spec fn view(&self) -> HunkView {
        match *self {
            Hunk::Add { path, contents } => HunkView::Add { path: path@, contents: contents@ },
            Hunk::Delete { path } => HunkView::Delete { path: path@ },
            Hunk::Update { path, move_path, chunks } => HunkView::Update {
                path: path@,
                move_path: text::opt_text(move_path),
                chunks: chunk_views(chunks@),
            },
        }
    }
}

/// The contents of a list of hunks.
pub open spec fn hunk_views(v: Seq<Hunk>) -> Seq<HunkView> {
    Seq::new(v.len(), |i: int| v[i]@)
}

pub const BEGIN_MARKER: &'static str = "*** Begin Patch";

pub const END_MARKER: &'static str = "*** End Patch";

pub const ADD_HEADER: &'static str = "*** Add File: ";

pub const DELETE_HEADER: &'static str = "*** Delete File: ";

pub const UPDATE_HEADER: &'static str = "*** Update File: ";

pub const MOVE_HEADER: &'static str = "*** Move to: ";

pub const END_OF_FILE_MARKER: &'static str = "*** End of File";

/// The path that a section header line names: what follows the header,
/// trimmed, if anything is left.
pub open spec fn header_path(line: Seq<char>, header: Seq<char>) -> Option<Seq<char>> {
    let path = text::trimmed(line.skip(header.len() as int));
    if text::has_prefix(line, header) && path.len() > 0 {
        Some(path)
    } else {
        None
    }
}

/// How many lines there are before the next `***` line.
pub open spec fn section_len(ls: Seq<Seq<char>>) -> nat
    decreases ls.len(),
{
    if ls.len() == 0 || text::has_prefix(ls[0], "***"@) {
        0
    } else {
        1 + section_len(ls.skip(1))
    }
}

/// The lines that begin with one of the marks, without the mark.
pub open spec fn marked(ls: Seq<Seq<char>>, a: char, b: char) -> Seq<Seq<char>>
    decreases ls.len(),
{
    if ls.len() == 0 {
        Seq::empty()
    } else {
        let before = marked(ls.drop_last(), a, b);
        let line = ls.last();
        if line.len() > 0 && (line[0] == a || line[0] == b) {
            before.push(line.skip(1))
        } else {
            before
        }
    }
}

/// How many change lines a chunk has: up to the next `@@` line, `***` line or
/// end-of-file marker.
pub open spec fn change_len(ls: Seq<Seq<char>>) -> nat
    decreases ls.len(),
{
    if ls.len() == 0 || text::has_prefix(ls[0], "@@"@) || text::trimmed(ls[0]) == END_OF_FILE_MARKER@
        || text::has_prefix(ls[0], "***"@) {
        0
    } else {
        1 + change_len(ls.skip(1))
    }
}

/// Whether an end-of-file marker closes the chunk whose change lines begin `ls`.
pub open spec fn closes_at_eof(ls: Seq<Seq<char>>) -> bool {
    let n = change_len(ls) as int;
    n < ls.len() && !text::has_prefix(ls[n], "@@"@) && text::trimmed(ls[n]) == END_OF_FILE_MARKER@
}

/// How many lines a chunk takes after its `@@` line.
pub open spec fn chunk_len(ls: Seq<Seq<char>>) -> nat {
    change_len(ls) + if closes_at_eof(ls) {
        1nat
    } else {
        0nat
    }
}

/// The context that an `@@` line names.
pub open spec fn context_of(line: Seq<char>) -> Option<Seq<char>> {
    let rest = text::trimmed(line.skip(2));
    let named = if text::has_prefix(rest, "!"@) {
        text::trimmed(rest.skip(1))
    } else {
        rest
    };
    if named.len() == 0 || named == "@@"@ {
        None
    } else {
        Some(named)
    }
}

/// The chunk of an `@@` line and the lines after it.
pub open spec fn chunk_of(line: Seq<char>, ls: Seq<Seq<char>>) -> ChunkView {
    let changes = ls.take(change_len(ls) as int);
    ChunkView {
        old_lines: marked(changes, ' ', '-'),
        new_lines: marked(changes, ' ', '+'),
        change_context: context_of(line),
        is_end_of_file: closes_at_eof(ls),
    }
}

proof fn lemma_change_len(ls: Seq<Seq<char>>)
    ensures
        change_len(ls) <= ls.len(),
        chunk_len(ls) <= ls.len(),
    decreases ls.len(),
{
    if ls.len() > 0 {
        lemma_change_len(ls.skip(1));
    }
}

proof fn lemma_section_len(ls: Seq<Seq<char>>)
    ensures
        section_len(ls) <= ls.len(),
    decreases ls.len(),
{
    if ls.len() > 0 {
        lemma_section_len(ls.skip(1));
    }
}

/// The chunks of an update section, and how many lines they take: the section
/// ends at a `***` line that no chunk takes in.
pub open spec fn chunks_from(ls: Seq<Seq<char>>) -> (Seq<ChunkView>, nat)
    decreases ls.len(),
{
    if ls.len() == 0 || text::has_prefix(ls[0], "***"@) {
        (Seq::empty(), 0)
    } else if text::has_prefix(ls[0], "@@"@) {
        let body = ls.skip(1);
        let n = chunk_len(body);
        let rest = chunks_from(
            if n <= body.len() {
                body.skip(n as int)
            } else {
                Seq::empty()
            },
        );
        (seq![chunk_of(ls[0], body)] + rest.0, 1 + n + rest.1)
    } else {
        let rest = chunks_from(ls.skip(1));
        (rest.0, 1 + rest.1)
    }
}

proof fn lemma_chunks_len(ls: Seq<Seq<char>>)
    ensures
        chunks_from(ls).1 <= ls.len(),
    decreases ls.len(),
{
    if ls.len() > 0 {
        lemma_chunks_len(ls.skip(1));
        lemma_change_len(ls.skip(1));
        lemma_chunks_len(ls.skip(1).skip(chunk_len(ls.skip(1)) as int));
    }
}

/// The target that a move line names.
pub open spec fn move_target(line: Seq<char>) -> Option<Seq<char>> {
    header_path(line, MOVE_HEADER@)
}

/// How many lines stand between an update header and its chunks.
pub open spec fn move_len(ls: Seq<Seq<char>>) -> nat {
    if ls.len() > 0 && text::has_prefix(ls[0], MOVE_HEADER@) {
        1
    } else {
        0
    }
}

/// How many lines the section takes whose header line is `ls[0]`.
pub open spec fn hunk_len(ls: Seq<Seq<char>>) -> nat {
    let body = ls.skip(1);
    if header_path(ls[0], ADD_HEADER@) is Some {
        1 + section_len(body)
    } else if header_path(ls[0], UPDATE_HEADER@) is Some {
        1 + move_len(body) + chunks_from(body.skip(move_len(body) as int)).1
    } else {
        1
    }
}

/// The section that begins at `ls[0]`, if that line is a header with a path.
pub open spec fn hunk_at(ls: Seq<Seq<char>>) -> Option<HunkView> {
    let body = ls.skip(1);
    match (
        header_path(ls[0], ADD_HEADER@),
        header_path(ls[0], DELETE_HEADER@),
        header_path(ls[0], UPDATE_HEADER@),
    ) {
        (Some(path), _, _) => Some(
            HunkView::Add {
                path,
                contents: text::joined(marked(body.take(section_len(body) as int), '+', '+'), "\n"@),
            },
        ),
        (None, Some(path), _) => Some(HunkView::Delete { path }),
        (None, None, Some(path)) => Some(
            HunkView::Update {
                path,
                move_path: if move_len(body) == 1 {
                    move_target(body[0])
                } else {
                    None
                },
                chunks: chunks_from(body.skip(move_len(body) as int)).0,
            },
        ),
        (None, None, None) => None,
    }
}

proof fn lemma_hunk_len(ls: Seq<Seq<char>>)
    requires
        ls.len() > 0,
    ensures
        1 <= hunk_len(ls) <= ls.len(),
{
    let body = ls.skip(1);
    lemma_section_len(body);
    lemma_chunks_len(body.skip(move_len(body) as int));
}

/// The sections among the lines between the markers; lines outside any
/// section are passed over.
pub open spec fn hunks_from(ls: Seq<Seq<char>>) -> Seq<HunkView>
    decreases ls.len(),
{
    if ls.len() == 0 {
        Seq::empty()
    } else {
        let n = hunk_len(ls) as int;
        let rest = if 1 <= n <= ls.len() {
            hunks_from(ls.skip(n))
        } else {
            Seq::empty()
        };
        match hunk_at(ls) {
            Some(h) => seq![h] + rest,
            None => rest,
        }
    }
}

/// The first line that is `marker` once trimmed.
pub open spec fn marker_at(ls: Seq<Seq<char>>, marker: Seq<char>) -> Option<int>
    decreases ls.len(),
{
    if ls.len() == 0 {
        None
    } else if text::trimmed(ls[0]) == marker {
        Some(0)
    } else {
        match marker_at(ls.skip(1), marker) {
            Some(i) => Some(i + 1),
            None => None,
        }
    }
}

/// What a patch text that has been taken out of its heredoc parses to.
pub open spec fn parsed(ls: Seq<Seq<char>>) -> Result<Seq<HunkView>, Seq<char>> {
    match (marker_at(ls, BEGIN_MARKER@), marker_at(ls, END_MARKER@)) {
        (None, _) => Err("Invalid patch format: missing Begin marker"@),
        (Some(_), None) => Err("Invalid patch format: missing End marker"@),
        (Some(b), Some(e)) => if b >= e {
            Err("Invalid patch format: Begin marker after End marker"@)
        } else {
            Ok(hunks_from(ls.subrange(b + 1, e)))
        },
    }
}

/// Finds the section header of a line: which one, and the path it names.
pub fn parse_hunk_header(line: &str) -> (r: Option<(&'static str, String)>)
    ensures
        match (
            header_path(line@, ADD_HEADER@),
            header_path(line@, DELETE_HEADER@),
            header_path(line@, UPDATE_HEADER@),
        ) {
            (Some(p), _, _) => r matches Some((tag, path)) && tag@ == "add"@ && path@ == p,
            (None, Some(p), _) => r matches Some((tag, path)) && tag@ == "delete"@ && path@ == p,
            (None, None, Some(p)) => r matches Some((tag, path)) && tag@ == "update"@ && path@
                == p,
            (None, None, None) => r is None,
        },
{
    proof {
        lemma_headers_differ(line@);
    }
    if let Some(path) = named_path(line, ADD_HEADER) {
        return Some(("add", path));
    }
    if let Some(path) = named_path(line, DELETE_HEADER) {
        return Some(("delete", path));
    }
    if let Some(path) = named_path(line, UPDATE_HEADER) {
        return Some(("update", path));
    }
    None
}

/// No line begins with two of the section headers.
proof fn lemma_headers_differ(line: Seq<char>)
    ensures
        text::has_prefix(line, ADD_HEADER@) ==> !text::has_prefix(line, DELETE_HEADER@) && !text::has_prefix(
            line,
            UPDATE_HEADER@,
        ),
        text::has_prefix(line, DELETE_HEADER@) ==> !text::has_prefix(line, UPDATE_HEADER@),
{
    reveal_strlit("*** Add File: ");
    reveal_strlit("*** Delete File: ");
    reveal_strlit("*** Update File: ");
    let a = ADD_HEADER@;
    let d = DELETE_HEADER@;
    let u = UPDATE_HEADER@;
    if text::has_prefix(line, a) {
        assert(line[4] == line.take(a.len() as int)[4]);
    }
    if text::has_prefix(line, d) {
        assert(line[4] == line.take(d.len() as int)[4]);
    }
    if text::has_prefix(line, u) {
        assert(line[4] == line.take(u.len() as int)[4]);
    }
}

/// The path that a header line names.
fn named_path(line: &str, header: &str) -> (r: Option<String>)
    ensures
        text::opt_text(r) == header_path(line@, header@),
{
    match strip_prefix(line, header) {
        Some(rest) => {
            let path = trim(rest);
            if path.is_empty() {
                None
            } else {
                Some(path.to_owned())
            }
        },
        None => None,
    }
}

/// The delimiter of a heredoc command line, if the line is one.
pub open spec fn delimiter_of(first: Seq<char>) -> Option<Seq<char>> {
    let body = if text::has_prefix(first, "cat "@) {
        Some(first.skip(4))
    } else if text::has_prefix(first, "<<"@) {
        Some(first.skip(2))
    } else {
        None
    };
    match body {
        Some(b) => {
            let word = text::trimmed(
                text::unquoted(text::stripped_start(text::trimmed(b), "<<"@), '\'', '"'),
            );
            if text::occurs(first, "<<"@) && word.len() > 0 {
                Some(word)
            } else {
                None
            }
        },
        None => None,
    }
}

/// The text of a patch without the heredoc command that may stand around it.
pub open spec fn unwrapped(input: Seq<char>) -> Seq<char> {
    let whole = text::trimmed(input);
    match text::position(whole, "\n"@) {
        Some(i) => {
            let rest = whole.skip(i + 1);
            let ls = text::lines_of(rest);
            let last = if ls.len() > 0 {
                text::trimmed(ls.last())
            } else {
                Seq::empty()
            };
            match delimiter_of(text::trimmed(whole.take(i))) {
                Some(d) => if last == d {
                    text::trimmed_end(rest.take(rest.len() - d.len()))
                } else {
                    whole
                },
                None => whole,
            }
        },
        None => whole,
    }
}

/// A heredoc gives what stands between its command line and its delimiter.
pub proof fn lemma_heredoc_gives_its_body(command: Seq<char>, word: Seq<char>, body: Seq<char>)
    requires
        text::trimmed(command) == command,
        !command.contains('\n'),
        delimiter_of(command) == Some(word),
        text::trimmed(word) == word,
        !word.contains('\n'),
        body.len() > 0,
        text::trimmed(body) == body,
    ensures
        unwrapped(command.push('\n') + body.push('\n') + word) == body,
{
    reveal_strlit("\n");
    reveal_strlit("cat ");
    reveal_strlit("<<");
    let whole = command.push('\n') + body.push('\n') + word;
    let n = command.len() as int;
    text::lemma_trimmed_ends(command);
    text::lemma_trimmed_ends(word);
    text::lemma_trimmed_ends(body);
    text::lemma_trimmed_ends(whole);
    assert(whole[0] == command[0] && whole.last() == word.last());
    assert(whole.subrange(n, n + 1) =~= "\n"@);
    assert forall|k: int| 0 <= k < n implies !text::occurs_at(whole, "\n"@, k) by {
        assert(command.contains(command[k]));
        assert(whole.subrange(k, k + 1)[0] == command[k]);
    }
    assert(text::first_occurrence(whole, "\n"@, n));
    text::lemma_position(whole, "\n"@);
    let rest = whole.skip(n + 1);
    assert(rest =~= body.push('\n') + word);
    assert(whole.take(n) =~= command);
    text::lemma_last_piece(body, '\n', word);
    assert(text::lines_of(rest).last() == word);
    assert(rest.take(rest.len() - word.len()) =~= body.push('\n'));
    assert(body.push('\n').drop_last() =~= body);
    reveal_with_fuel(text::trimmed_end, 3);
}

/// A patch parses as it is where it stands in a heredoc.
pub proof fn lemma_heredoc_parses_as_its_patch(p: Seq<char>)
    requires
        text::trimmed(p) == p,
        text::has_prefix(p, "*** Begin Patch\n"@),
    ensures
        unwrapped(p) == p,
        parsed(text::lines_of(unwrapped("cat <<'EOF'\n"@ + p + "\nEOF"@))) == parsed(
            text::lines_of(unwrapped(p)),
        ),
        parsed(text::lines_of(unwrapped("<<EOF\n"@ + p + "\nEOF"@))) == parsed(
            text::lines_of(unwrapped(p)),
        ),
{
    reveal_strlit("*** Begin Patch\n");
    reveal_strlit("cat <<'EOF'\n");
    reveal_strlit("cat <<'EOF'");
    reveal_strlit("<<EOF\n");
    reveal_strlit("<<EOF");
    reveal_strlit("\nEOF");
    reveal_strlit("EOF");
    assert("cat <<'EOF'\n"@ + p + "\nEOF"@ =~= "cat <<'EOF'"@.push('\n') + p.push('\n') + "EOF"@);
    assert("<<EOF\n"@ + p + "\nEOF"@ =~= "<<EOF"@.push('\n') + p.push('\n') + "EOF"@);
    lemma_bare_delimiters();
    text::lemma_trimmed_ends("EOF"@);
    text::lemma_trimmed_ends("cat <<'EOF'"@);
    text::lemma_trimmed_ends("<<EOF"@);
    lemma_heredoc_gives_its_body("cat <<'EOF'"@, "EOF"@, p);
    lemma_heredoc_gives_its_body("<<EOF"@, "EOF"@, p);
    lemma_patch_is_no_heredoc(p);
}

proof fn lemma_bare_delimiters()
    ensures
        delimiter_of("cat <<'EOF'"@) == Some("EOF"@),
        delimiter_of("<<EOF"@) == Some("EOF"@),
{
    reveal_strlit("cat <<'EOF'");
    reveal_strlit("<<EOF");
    reveal_strlit("EOF");
    reveal_strlit("cat ");
    reveal_strlit("<<");
    let quoted = "cat <<'EOF'"@;
    let bare = "<<EOF"@;
    let word = "EOF"@;
    text::lemma_trimmed_ends(word);
    let body = quoted.skip(4);
    text::lemma_trimmed_ends(body);
    assert(quoted.take(4) =~= "cat "@);
    assert(body.take(2) =~= "<<"@);
    let inner = body.skip(2);
    assert(inner[0] != '<');
    assert(!text::has_prefix(inner, "<<"@)) by {
        assert(inner.take(2)[0] == inner[0]);
    }
    assert(text::stripped_start(inner, "<<"@) == inner);
    assert(text::stripped_start(body, "<<"@) == inner);
    assert(inner.skip(1).drop_last() =~= word);
    reveal_with_fuel(text::unquoted, 4);
    assert(text::unquoted(inner, '\'', '"') == word);
    assert(quoted.subrange(4, 6) =~= "<<"@);
    assert(text::occurs_at(quoted, "<<"@, 4));
    assert(text::occurs(quoted, "<<"@));

    assert(!text::has_prefix(bare, "cat "@)) by {
        assert(bare.take(4)[0] == bare[0]);
    }
    assert(bare.take(2) =~= "<<"@);
    assert(bare.skip(2) =~= word);
    assert(!text::has_prefix(word, "<<"@)) by {
        assert(word.take(2)[0] == word[0]);
    }
    assert(bare.subrange(0, 2) =~= "<<"@);
    assert(text::occurs_at(bare, "<<"@, 0));
    assert(text::occurs(bare, "<<"@));
}

proof fn lemma_patch_is_no_heredoc(p: Seq<char>)
    requires
        text::trimmed(p) == p,
        text::has_prefix(p, "*** Begin Patch\n"@),
    ensures
        unwrapped(p) == p,
{
    reveal_strlit("*** Begin Patch\n");
    reveal_strlit("\n");
    reveal_strlit("cat ");
    reveal_strlit("<<");
    let n: int = 15;
    let start = "*** Begin Patch\n"@;
    assert forall|k: int| 0 <= k <= n implies p[k] == start[k] by {
        assert(p.take(start.len() as int)[k] == p[k]);
    }
    assert(p.subrange(n, n + 1) =~= "\n"@);
    assert forall|k: int| 0 <= k < n implies !text::occurs_at(p, "\n"@, k) by {
        assert(p.subrange(k, k + 1)[0] == p[k]);
    }
    assert(text::first_occurrence(p, "\n"@, n));
    text::lemma_position(p, "\n"@);
    let first = p.take(n);
    text::lemma_trimmed_ends(first);
    assert(!text::has_prefix(first, "cat "@)) by {
        assert(first.take(4)[0] == first[0]);
    }
    assert(!text::has_prefix(first, "<<"@)) by {
        assert(first.take(2)[0] == first[0]);
    }
}

/// The delimiter of a heredoc command line, if the line is one.
fn delimiter(first: &str) -> (r: Option<String>)
    ensures
        text::opt_text(r) == delimiter_of(first@),
{
    proof {
        reveal_strlit("cat ");
        reveal_strlit("<<");
    }
    let body: &str = match strip_prefix(first, "cat ") {
        Some(b) => b,
        None => match strip_prefix(first, "<<") {
            Some(b) => b,
            None => return None,
        },
    };
    if !contains(first, "<<") {
        return None;
    }
    let word = trim(trim_quotes(trim_start_matches(trim(body), "<<"), '\'', '"'));
    if word.is_empty() {
        None
    } else {
        Some(word.to_owned())
    }
}

/// Takes a patch out of the `cat <<'EOF'` command that may stand around it.
pub fn strip_heredoc(input: &str) -> (r: &str)
    ensures
        r@ == unwrapped(input@),
{
    proof {
        reveal_strlit("\n");
    }
    let whole = trim(input);
    let (first, rest) = match split_once(whole, "\n") {
        Some(pair) => pair,
        None => return whole,
    };
    let word = match delimiter(trim(first)) {
        Some(word) => word,
        None => return whole,
    };
    let ls = lines(rest);
    let last: &str = if ls.len() > 0 {
        trim(ls[ls.len() - 1].as_str())
    } else {
        ""
    };
    proof {
        reveal_strlit("");
        text::lemma_lines_len(rest@);
        if ls.len() > 0 {
            let line = ls@[ls@.len() - 1]@;
            assert(text::texts(ls@).last() == line);
            text::lemma_trimmed_len(line);
        } else {
            assert(last@ =~= Seq::<char>::empty());
        }
    }
    if same(last, word.as_str()) {
        let end: usize = rest.unicode_len() - last.unicode_len();
        proof {
            assert(rest@.take(end as int) =~= rest@.subrange(0, end as int));
        }
        trim_end(rest.substring_char(0, end))
    } else {
        whole
    }
}

/// The first line that is `marker` once trimmed.
fn marker_index(ls: &Vec<String>, marker: &str) -> (r: Option<usize>)
    ensures
        match marker_at(text::texts(ls@), marker@) {
            Some(i) => r matches Some(k) && k == i && k < ls@.len(),
            None => r is None,
        },
{
    let ghost all = text::texts(ls@);
    let mut i: usize = 0;
    proof {
        assert(all.skip(0) =~= all);
    }
    while i < ls.len()
        invariant
            i <= ls.len(),
            all == text::texts(ls@),
            marker_at(all, marker@) == match marker_at(all.skip(i as int), marker@) {
                Some(k) => Some(k + i),
                None => None,
            },
        decreases ls.len() - i,
    {
        proof {
            assert(all.skip(i as int)[0] == ls@[i as int]@);
            assert(all.skip(i as int).skip(1) =~= all.skip(i + 1));
        }
        if same(trim(ls[i].as_str()), marker) {
            return Some(i);
        }
        i += 1;
    }
    None
}

/// Reads the contents of an add section from line `i` on, and tells where it ends.
fn parse_added(ls: &Vec<String>, i: usize, end: usize) -> (r: (String, usize))
    requires
        i <= end <= ls@.len(),
    ensures
        ({
            let body = text::texts(ls@).subrange(i as int, end as int);
            &&& r.1 == i + section_len(body) <= end
            &&& r.0@ == text::joined(marked(body.take(section_len(body) as int), '+', '+'), "\n"@)
        }),
{
    let ghost all = text::texts(ls@);
    let ghost body = all.subrange(i as int, end as int);
    let mut added: Vec<String> = Vec::new();
    let mut k: usize = i;
    proof {
        lemma_section_len(body);
        reveal_strlit("+");
        assert(body.take(0) =~= Seq::<Seq<char>>::empty());
        assert(body.skip(0) =~= body);
    }
    while k < end && !starts_with(ls[k].as_str(), "***")
        invariant
            i <= k <= end <= ls@.len(),
            all == text::texts(ls@),
            body == all.subrange(i as int, end as int),
            section_len(body) == (k - i) + section_len(body.skip(k - i)),
            section_len(body) <= body.len(),
            text::texts(added@) =~= marked(body.take(k - i), '+', '+'),
            "+"@ == seq!['+'],
        decreases end - k,
    {
        let ghost at = k - i;
        let ghost so_far = added@;
        proof {
            assert(body[at] == ls@[k as int]@);
            assert(body.skip(at)[0] == body[at]);
            assert(body.skip(at).skip(1) =~= body.skip(at + 1));
            assert(body.take(at + 1).drop_last() =~= body.take(at));
            lemma_mark(body[at], '+', "+"@);
        }
        if let Some(content) = strip_prefix(ls[k].as_str(), "+") {
            added.push(content.to_owned());
            proof {
                assert(text::texts(added@) =~= text::texts(so_far).push(content@));
            }
        }
        k += 1;
    }
    proof {
        if k < end {
            assert(body.skip(k - i)[0] == ls@[k as int]@);
        }
    }
    (join(&added, "\n"), k)
}

/// A one-character prefix is the first character.
proof fn lemma_mark(line: Seq<char>, c: char, mark: Seq<char>)
    requires
        mark == seq![c],
    ensures
        text::has_prefix(line, mark) == (line.len() > 0 && line[0] == c),
{
    if line.len() > 0 {
        assert(line.take(1)[0] == line[0]);
        if line[0] == c {
            assert(line.take(1) =~= mark);
        }
    }
}

/// Reads a chunk whose `@@` line stands at `i`, and tells where it ends.
fn parse_chunk(ls: &Vec<String>, i: usize, end: usize) -> (r: (UpdateChunk, usize))
    requires
        i < end <= ls@.len(),
        text::has_prefix(ls@[i as int]@, "@@"@),
    ensures
        ({
            let body = text::texts(ls@).subrange(i + 1, end as int);
            &&& r.1 == i + 1 + chunk_len(body) <= end
            &&& r.0@ == chunk_of(ls@[i as int]@, body)
        }),
{
    let ghost all = text::texts(ls@);
    let ghost body = all.subrange(i + 1, end as int);
    let context = chunk_context(ls[i].as_str());
    let mut old_lines: Vec<String> = Vec::new();
    let mut new_lines: Vec<String> = Vec::new();
    let mut is_end_of_file = false;
    let mut k: usize = i + 1;
    let ghost count = change_len(body) as int;
    proof {
        lemma_change_len(body);
        reveal_strlit(" ");
        reveal_strlit("-");
        reveal_strlit("+");
        assert(body.take(0) =~= Seq::<Seq<char>>::empty());
        assert(body.skip(0) =~= body);
    }
    while k < end
        invariant_except_break
            i + 1 <= k <= end <= ls@.len(),
            all == text::texts(ls@),
            body == all.subrange(i + 1, end as int),
            count == change_len(body),
            count <= body.len(),
            count == (k - i - 1) + change_len(body.skip(k - i - 1)),
            text::texts(old_lines@) =~= marked(body.take(k - i - 1), ' ', '-'),
            text::texts(new_lines@) =~= marked(body.take(k - i - 1), ' ', '+'),
            " "@ == seq![' '],
            "-"@ == seq!['-'],
            "+"@ == seq!['+'],
            !is_end_of_file,
        ensures
            text::texts(old_lines@) =~= marked(body.take(count), ' ', '-'),
            text::texts(new_lines@) =~= marked(body.take(count), ' ', '+'),
            is_end_of_file == closes_at_eof(body),
            k == i + 1 + chunk_len(body) <= end,
        decreases end - k,
    {
        let line: &str = ls[k].as_str();
        let ghost at = k - i - 1;
        proof {
            assert(body[at] == line@);
            assert(body.skip(at)[0] == body[at]);
            assert(body.skip(at).skip(1) =~= body.skip(at + 1));
            assert(body.take(at + 1).drop_last() =~= body.take(at));
            lemma_mark(body[at], ' ', " "@);
            lemma_mark(body[at], '-', "-"@);
            lemma_mark(body[at], '+', "+"@);
        }
        if starts_with(line, "@@") {
            break;
        }
        if same(trim(line), END_OF_FILE_MARKER) {
            is_end_of_file = true;
            k += 1;
            break;
        }
        if starts_with(line, "***") {
            break;
        }
        let ghost old_before = old_lines@;
        let ghost new_before = new_lines@;
        if let Some(content) = strip_prefix(line, " ") {
            old_lines.push(content.to_owned());
            new_lines.push(content.to_owned());
            proof {
                assert(text::texts(old_lines@) =~= text::texts(old_before).push(content@));
                assert(text::texts(new_lines@) =~= text::texts(new_before).push(content@));
            }
        } else if let Some(content) = strip_prefix(line, "-") {
            old_lines.push(content.to_owned());
            proof {
                assert(text::texts(old_lines@) =~= text::texts(old_before).push(content@));
            }
        } else if let Some(content) = strip_prefix(line, "+") {
            new_lines.push(content.to_owned());
            proof {
                assert(text::texts(new_lines@) =~= text::texts(new_before).push(content@));
            }
        }
        k += 1;
    }
    (UpdateChunk { old_lines, new_lines, change_context: context, is_end_of_file }, k)
}

/// The context that an `@@` line names.
fn chunk_context(line: &str) -> (r: Option<String>)
    requires
        text::has_prefix(line@, "@@"@),
    ensures
        text::opt_text(r) == context_of(line@),
{
    proof {
        reveal_strlit("@@");
        reveal_strlit("!");
    }
    let rest = match strip_prefix(line, "@@") {
        Some(rest) => trim(rest),
        None => "",
    };
    let named = match strip_prefix(rest, "!") {
        Some(named) => trim(named),
        None => rest,
    };
    if named.is_empty() || same(named, "@@") {
        None
    } else {
        Some(named.to_owned())
    }
}

/// Reads the chunks of an update section from line `i` on, and tells where it ends.
fn parse_chunks(ls: &Vec<String>, i: usize, end: usize) -> (r: (Vec<UpdateChunk>, usize))
    requires
        i <= end <= ls@.len(),
    ensures
        ({
            let body = text::texts(ls@).subrange(i as int, end as int);
            &&& chunk_views(r.0@) == chunks_from(body).0
            &&& r.1 == i + chunks_from(body).1 <= end
        }),
{
    let ghost all = text::texts(ls@);
    let ghost whole = chunks_from(all.subrange(i as int, end as int));
    let mut chunks: Vec<UpdateChunk> = Vec::new();
    let mut k: usize = i;
    proof {
        assert(chunk_views(chunks@) + whole.0 =~= whole.0);
    }
    while k < end && !starts_with(ls[k].as_str(), "***")
        invariant
            i <= k <= end <= ls@.len(),
            all == text::texts(ls@),
            whole.0 == chunk_views(chunks@) + chunks_from(all.subrange(k as int, end as int)).0,
            i + whole.1 == k + chunks_from(all.subrange(k as int, end as int)).1,
        decreases end - k,
    {
        let ghost here = all.subrange(k as int, end as int);
        proof {
            assert(here[0] == ls@[k as int]@);
            assert(here.skip(1) =~= all.subrange(k + 1, end as int));
            lemma_change_len(here.skip(1));
        }
        if starts_with(ls[k].as_str(), "@@") {
            let ghost before = chunks@;
            let (chunk, next) = parse_chunk(ls, k, end);
            chunks.push(chunk);
            proof {
                assert(here.skip(1).skip(next - k - 1) =~= all.subrange(next as int, end as int));
                assert(chunk_views(chunks@) =~= chunk_views(before).push(chunk@));
                let rest = chunks_from(all.subrange(next as int, end as int)).0;
                assert(chunk_views(chunks@) + rest =~= chunk_views(before) + (seq![chunk@] + rest));
            }
            k = next;
        } else {
            k += 1;
        }
    }
    proof {
        let here = all.subrange(k as int, end as int);
        if k < end {
            assert(here[0] == ls@[k as int]@);
        }
        assert(chunk_views(chunks@) + Seq::<ChunkView>::empty() =~= chunk_views(chunks@));
    }
    (chunks, k)
}

/// Reads the section whose header stands at line `i`, if one does, and tells where it ends.
fn parse_hunk(ls: &Vec<String>, i: usize, end: usize) -> (r: (Option<Hunk>, usize))
    requires
        i < end <= ls@.len(),
    ensures
        ({
            let here = text::texts(ls@).subrange(i as int, end as int);
            &&& r.1 == i + hunk_len(here)
            &&& i < r.1 <= end
            &&& match hunk_at(here) {
                Some(h) => r.0 matches Some(hunk) && hunk@ == h,
                None => r.0 is None,
            }
        }),
{
    let ghost all = text::texts(ls@);
    let ghost here = all.subrange(i as int, end as int);
    let ghost body = here.skip(1);
    let line: &str = ls[i].as_str();
    proof {
        assert(here[0] == line@);
        assert(body =~= all.subrange(i + 1, end as int));
        lemma_hunk_len(here);
        lemma_headers_differ(line@);
    }
    if let Some(path) = named_path(line, ADD_HEADER) {
        let (contents, next) = parse_added(ls, i + 1, end);
        return (Some(Hunk::Add { path, contents }), next);
    }
    if let Some(path) = named_path(line, DELETE_HEADER) {
        return (Some(Hunk::Delete { path }), i + 1);
    }
    if let Some(path) = named_path(line, UPDATE_HEADER) {
        let mut move_path: Option<String> = None;
        let mut k: usize = i + 1;
        if k < end {
            proof {
                assert(body[0] == ls@[k as int]@);
            }
            if starts_with(ls[k].as_str(), MOVE_HEADER) {
                move_path = named_path(ls[k].as_str(), MOVE_HEADER);
                k += 1;
            }
        }
        proof {
            assert(body.skip(move_len(body) as int) =~= all.subrange(k as int, end as int));
        }
        let (chunks, next) = parse_chunks(ls, k, end);
        return (Some(Hunk::Update { path, move_path, chunks }), next);
    }
    (None, i + 1)
}

/// Parses the envelope format.
pub fn parse_patch(patch_text: &str) -> (r: Result<Vec<Hunk>, String>)
    ensures
        match parsed(text::lines_of(unwrapped(patch_text@))) {
            Ok(hunks) => r matches Ok(v) && hunk_views(v@) == hunks,
            Err(message) => r matches Err(e) && e@ == message,
        },
{
    let ls = lines(strip_heredoc(patch_text));
    let ghost all = text::texts(ls@);
    let begin: usize = match marker_index(&ls, BEGIN_MARKER) {
        Some(i) => i,
        None => return Err("Invalid patch format: missing Begin marker".to_owned()),
    };
    let end: usize = match marker_index(&ls, END_MARKER) {
        Some(i) => i,
        None => return Err("Invalid patch format: missing End marker".to_owned()),
    };
    proof {
        assert(marker_at(all, BEGIN_MARKER@) == Some(begin as int));
        assert(marker_at(all, END_MARKER@) == Some(end as int));
    }
    if begin >= end {
        return Err("Invalid patch format: Begin marker after End marker".to_owned());
    }
    let ghost whole = hunks_from(all.subrange(begin + 1, end as int));
    let mut hunks: Vec<Hunk> = Vec::new();
    let mut i: usize = begin + 1;
    proof {
        assert(hunk_views(hunks@) + whole =~= whole);
    }
    while i < end
        invariant
            i <= end <= ls@.len(),
            all == text::texts(ls@),
            whole == hunk_views(hunks@) + hunks_from(all.subrange(i as int, end as int)),
        decreases end - i,
    {
        let ghost here = all.subrange(i as int, end as int);
        let ghost before = hunks@;
        let (hunk, next) = parse_hunk(&ls, i, end);
        proof {
            lemma_hunk_len(here);
            assert(here.skip(next - i) =~= all.subrange(next as int, end as int));
        }
        if let Some(hunk) = hunk {
            hunks.push(hunk);
            proof {
                let rest = hunks_from(all.subrange(next as int, end as int));
                assert(hunk_views(hunks@) =~= hunk_views(before).push(hunk@));
                assert(hunk_views(hunks@) + rest =~= hunk_views(before) + (seq![hunk@] + rest));
            }
        }
        i = next;
    }
    proof {
        assert(hunk_views(hunks@) + Seq::<HunkView>::empty() =~= hunk_views(hunks@));
    }
    Ok(hunks)
}

}
