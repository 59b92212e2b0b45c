//! Project context files: what of them goes into the preamble.

use crate::order;
use crate::order::{sort, Named};
use crate::text;
use crate::text::{copy_texts, fit, same};
use crate::text_map;
use crate::views;
use vstd::prelude::*;

verus! {

pub const MAX_FILE_BYTES: usize = 65_536;

pub const MAX_TOTAL_BYTES: usize = 262_144;

/// The names of a context file that replaces the plain ones of its directory,
/// and of the plain ones.
pub const OVERRIDE_FILE_NAME: &'static str = "AGENTS.override.md";

pub const CONTEXT_FILE_NAME: &'static str = "AGENTS.md";

pub const CONTEXT_FILE_NAME_UPPER: &'static str = "AGENTS.MD";

/// The context that was loaded: the labels of its files, and their text.
#[derive(Debug, Clone)]
pub struct LoadedContext {
    pub files: Vec<String>,
    pub content: String,
}

/// The content of a [`LoadedContext`].
#[verifier::ext_equal]
pub struct ContextView {
    pub files: Seq<Seq<char>>,
    pub content: Seq<char>,
}

impl View for LoadedContext {
    type V = ContextView;

    open spec fn view(&self) -> ContextView {
        ContextView { files: text::texts(self.files@), content: self.content@ }
    }
}

/// Nothing loaded.
pub open spec fn nothing_loaded() -> ContextView {
    ContextView { files: Seq::empty(), content: Seq::empty() }
}

/// Two contexts together: the second one after the first, on a line of its own.
pub open spec fn merged_context(a: ContextView, b: ContextView) -> ContextView {
    if b.content.len() == 0 {
        a
    } else {
        ContextView {
            files: a.files + b.files,
            content: if a.content.len() == 0 {
                b.content
            } else {
                a.content + "\n"@ + b.content
            },
        }
    }
}

/// How many bytes may still be loaded after the text.
pub open spec fn budget_left(content: Seq<char>) -> nat {
    if text::size(content) <= MAX_TOTAL_BYTES {
        (MAX_TOTAL_BYTES - text::size(content)) as nat
    } else {
        0
    }
}

impl LoadedContext {
    /// A context with the files and their text.
    pub fn new(files: Vec<String>, content: String) -> (c: LoadedContext)
        ensures
            c.files == files,
            c.content == content,
    {
        LoadedContext { files, content }
    }

    /// Whether no file was loaded.
    pub fn is_empty(&self) -> (b: bool)
        ensures
            b == (self@.files.len() == 0),
    {
        self.files.len() == 0
    }

    /// How many bytes may still be loaded.
    pub fn remaining_budget(&self) -> (n: usize)
        ensures
            n == budget_left(self.content@),
    {
        let (part, left) = fit(self.content.as_str(), MAX_TOTAL_BYTES);
        proof {
            text::lemma_fitting(self.content@, MAX_TOTAL_BYTES as nat);
        }
        if part.unicode_len() == self.content.as_str().unicode_len() {
            proof {
                lemma_full_fit(self.content@, MAX_TOTAL_BYTES as nat);
            }
            left
        } else {
            0
        }
    }

    /// The two contexts together.
    pub fn merged(self, other: LoadedContext) -> (r: LoadedContext)
        ensures
            r@ == merged_context(self@, other@),
    {
        if other.content.as_str().is_empty() {
            return self;
        }
        let mut content: String = self.content.clone();
        if !self.content.as_str().is_empty() {
            content.append("\n");
        }
        content.append(other.content.as_str());
        let mut files = self.files;
        let mut more = other.files;
        let ghost a = text::texts(files@);
        let ghost b = text::texts(more@);
        files.append(&mut more);
        proof {
            assert(text::texts(files@) =~= a + b);
            if self.content@.len() == 0 {
                assert(content@ =~= other.content@);
            }
        }
        LoadedContext { files, content }
    }
}

proof fn lemma_full_fit(s: Seq<char>, budget: nat)
    requires
        text::fitting(s, budget).len() == s.len(),
    ensures
        text::size(s) <= budget,
{
    if text::size(s) > budget {
        if s.len() > 0 {
            text::lemma_fitting(s.drop_last(), budget);
        }
    }
}

/// The text of bytes that may not all be UTF-8.
pub uninterp spec fn lossy_utf8(bytes: Seq<u8>) -> Seq<char>;

/// `String::from_utf8_lossy`: the text of the bytes, with replacement
/// characters where they are not UTF-8. The result is a function of the bytes,
/// named [`lossy_utf8`]. Bytes that are UTF-8 decode to the text they encode.
#[verifier::external_body]
fn lossy_text(bytes: &[u8]) -> (r: String)
    ensures
        r@ == lossy_utf8(bytes@),
        vstd::utf8::valid_utf8(bytes@) ==> r@ == vstd::utf8::decode_utf8(bytes@),
{
    String::from_utf8_lossy(bytes).into_owned()
}

/// The text of a file without the mark that may stand before it.
pub open spec fn without_mark(s: Seq<char>) -> Seq<char> {
    if s.len() > 0 && s[0] == '\u{feff}' {
        s.skip(1)
    } else {
        s
    }
}

/// What of a file's text is loaded.
pub open spec fn loaded_part(s: Seq<char>, remaining: nat) -> Seq<char> {
    text::fitting(without_mark(s), remaining)
}

/// The context with a file added, given its text: nothing is added once the
/// budget is used up, or for a file without text.
pub open spec fn with_file(
    c: ContextView,
    remaining: nat,
    label: Seq<char>,
    s: Seq<char>,
    truncated: bool,
) -> ContextView {
    let part = loaded_part(s, remaining);
    let left = remaining - text::size(part);
    if remaining == 0 || part.len() == 0 {
        c
    } else {
        let start = if c.content.len() == 0 {
            c.content
        } else {
            c.content + "\n"@
        };
        let body = start + "=== "@ + label + " ===\n"@ + part;
        let marked = if truncated {
            body + "\n… (file truncated)"@
        } else {
            body
        };
        ContextView {
            files: c.files.push(label),
            content: if left == 0 {
                marked + "\n… (context budget exhausted)"@
            } else {
                marked
            },
        }
    }
}

/// What is left of the budget after a file was added.
pub open spec fn left_after(remaining: nat, s: Seq<char>) -> nat {
    (remaining - text::size(loaded_part(s, remaining))) as nat
}

/// Adds a file's text to the context.
pub fn push_text(
    context: &mut LoadedContext,
    remaining: &mut usize,
    label: &str,
    content: &str,
    truncated: bool,
)
    ensures
        final(context)@ == with_file(
            old(context)@,
            *old(remaining) as nat,
            label@,
            content@,
            truncated,
        ),
        *final(remaining) == left_after(*old(remaining) as nat, content@),
{
    proof {
        reveal_strlit("\u{feff}");
        text::lemma_fitting(without_mark(content@), *remaining as nat);
    }
    let n: usize = content.unicode_len();
    let body: &str = if n > 0 && content.get_char(0) == '\u{feff}' {
        proof {
            assert(content@.skip(1) =~= content@.subrange(1, n as int));
        }
        content.substring_char(1, n)
    } else {
        content
    };
    let (part, left) = fit(body, *remaining);
    if *remaining == 0 || part.is_empty() {
        *remaining = left;
        return;
    }
    *remaining = left;
    let mut out: String = context.content.clone();
    if !context.content.as_str().is_empty() {
        out.append("\n");
    }
    out.append("=== ");
    out.append(label);
    out.append(" ===\n");
    out.append(part);
    if truncated {
        out.append("\n… (file truncated)");
    }
    if left == 0 {
        out.append("\n… (context budget exhausted)");
    }
    let ghost before = text::texts(context.files@);
    context.files.push(label.to_owned());
    context.content = out;
    proof {
        assert(text::texts(context.files@) =~= before.push(label@));
    }
}

/// The bytes of a file that are looked at.
pub open spec fn capped(data: Seq<u8>) -> Seq<u8> {
    if data.len() > MAX_FILE_BYTES {
        data.take(MAX_FILE_BYTES as int)
    } else {
        data
    }
}

/// The context with a file added, given its bytes: a binary file is left out,
/// and only the first part of a long one is taken.
pub open spec fn with_data(
    c: ContextView,
    remaining: nat,
    label: Seq<char>,
    data: Seq<u8>,
) -> ContextView {
    if data.contains(0u8) {
        c
    } else {
        with_file(c, remaining, label, lossy_utf8(capped(data)), data.len() > MAX_FILE_BYTES)
    }
}

/// What is left of the budget after a file was added.
pub open spec fn left_after_data(remaining: nat, data: Seq<u8>) -> nat {
    if data.contains(0u8) {
        remaining
    } else {
        left_after(remaining, lossy_utf8(capped(data)))
    }
}

/// Whether the bytes are text that is looked at whole.
pub open spec fn plain_text(data: Seq<u8>) -> bool {
    data.len() <= MAX_FILE_BYTES && !data.contains(0u8) && vstd::utf8::valid_utf8(data)
}

fn holds_zero(data: &Vec<u8>) -> (b: bool)
    ensures
        b == data@.contains(0u8),
{
    let mut i: usize = 0;
    while i < data.len()
        invariant
            i <= data@.len(),
            forall|k: int| 0 <= k < i ==> data@[k] != 0,
        decreases data@.len() - i,
    {
        if data[i] == 0 {
            return true;
        }
        i += 1;
    }
    false
}

/// Adds a file to the context.
pub fn push_file(
    context: &mut LoadedContext,
    remaining: &mut usize,
    label: &str,
    data: &Vec<u8>,
)
    ensures
        final(context)@ == with_data(old(context)@, *old(remaining) as nat, label@, data@),
        *final(remaining) == left_after_data(*old(remaining) as nat, data@),
        plain_text(data@) ==> {
            let s = vstd::utf8::decode_utf8(data@);
            &&& final(context)@ == with_file(
                old(context)@,
                *old(remaining) as nat,
                label@,
                s,
                false,
            )
            &&& *final(remaining) == left_after(*old(remaining) as nat, s)
        },
{
    if holds_zero(data) {
        return;
    }
    let long = data.len() > MAX_FILE_BYTES;
    let text = if long {
        let mut head: Vec<u8> = Vec::new();
        let mut i: usize = 0;
        while i < MAX_FILE_BYTES
            invariant
                i <= MAX_FILE_BYTES < data@.len(),
                head@ =~= data@.take(i as int),
            decreases MAX_FILE_BYTES - i,
        {
            head.push(data[i]);
            i += 1;
        }
        lossy_text(head.as_slice())
    } else {
        lossy_text(data.as_slice())
    };
    push_text(context, remaining, label, text.as_str(), long);
}

/// A file that may be loaded: its label, where it really lies, and its bytes,
/// if it can be read.
#[derive(Debug)]
pub struct ContextFile {
    pub label: String,
    pub canonical: String,
    pub data: Option<Vec<u8>>,
}

/// The content of a [`ContextFile`].
#[verifier::ext_equal]
pub struct FileView {
    pub label: Seq<char>,
    pub canonical: Seq<char>,
    pub data: Option<Seq<u8>>,
}

impl View for ContextFile {
    type V = FileView;

    open spec fn view(&self) -> FileView {
        FileView {
            label: self.label@,
            canonical: self.canonical@,
            data: match self.data {
                Some(data) => Some(data@),
                None => None,
            },
        }
    }
}

impl Named for ContextFile {
    open spec fn label(v: FileView) -> Seq<char> {
        v.label
    }

    fn name(&self) -> (r: &str) {
        self.label.as_str()
    }
}

/// Whether a file before the `i`th lies at the same place.
pub open spec fn seen_before(fs: Seq<FileView>, i: int) -> bool {
    exists|j: int| 0 <= j < i && (#[trigger] fs[j]).canonical == fs[i].canonical
}

/// The context of the first `n` files, and what is left of the budget. With
/// `once`, a file that was met before is passed over.
pub open spec fn loaded(fs: Seq<FileView>, n: int, budget: nat, once: bool) -> (ContextView, nat)
    decreases n,
{
    if n <= 0 {
        (nothing_loaded(), budget)
    } else {
        let (c, left) = loaded(fs, n - 1, budget, once);
        let f = fs[n - 1];
        match f.data {
            Some(data) => if once && seen_before(fs, n - 1) {
                (c, left)
            } else {
                (with_data(c, left, f.label, data), left_after_data(left, data))
            },
            None => (c, left),
        }
    }
}

fn was_seen(fs: &Vec<ContextFile>, i: usize) -> (b: bool)
    requires
        i < fs@.len(),
    ensures
        b == seen_before(views::views(fs@), i as int),
{
    let ghost all = views::views(fs@);
    let mut j: usize = 0;
    while j < i
        invariant
            all == views::views(fs@),
            j <= i < fs@.len(),
            forall|k: int| 0 <= k < j ==> (#[trigger] all[k]).canonical != all[i as int].canonical,
        decreases i - j,
    {
        if same(fs[j].canonical.as_str(), fs[i].canonical.as_str()) {
            proof {
                assert(all[j as int].canonical == all[i as int].canonical);
            }
            return true;
        }
        j += 1;
    }
    false
}

/// Loads the files in their order, within the budget.
pub fn load_files(fs: &Vec<ContextFile>, budget: usize, once: bool) -> (r: LoadedContext)
    ensures
        r@ == loaded(views::views(fs@), fs@.len() as int, budget as nat, once).0,
{
    let ghost all = views::views(fs@);
    let mut context = LoadedContext::new(Vec::new(), String::new());
    let mut remaining: usize = budget;
    let mut i: usize = 0;
    proof {
        assert(context@ =~= nothing_loaded());
    }
    while i < fs.len()
        invariant
            all == views::views(fs@),
            i <= fs@.len(),
            loaded(all, i as int, budget as nat, once) == (context@, remaining as nat),
        decreases fs@.len() - i,
    {
        proof {
            assert(all[i as int] == fs@[i as int]@);
        }
        if let Some(data) = &fs[i].data {
            if !(once && was_seen(fs, i)) {
                push_file(&mut context, &mut remaining, fs[i].label.as_str(), data);
            }
        }
        i += 1;
    }
    context
}

/// The context of the agent files, of which each is loaded once.
pub open spec fn agents_context(fs: Seq<FileView>) -> ContextView {
    loaded(fs, fs.len() as int, MAX_TOTAL_BYTES as nat, true).0
}

/// The context of the files of the context directory, in the order of their labels.
pub open spec fn dir_context(fs: Seq<FileView>, budget: nat) -> ContextView {
    loaded(order::sorted::<ContextFile>(fs), fs.len() as int, budget, false).0
}

/// The context of the agent files, then of the context directory with what they
/// leave of the budget.
pub open spec fn whole_context(agents: Seq<FileView>, dir: Seq<FileView>) -> ContextView {
    let first = agents_context(agents);
    merged_context(first, dir_context(dir, budget_left(first.content)))
}

/// Loads the agent files of the directories, in their order.
pub fn load_agents_md(agents: &Vec<ContextFile>) -> (r: LoadedContext)
    ensures
        r@ == agents_context(views::views(agents@)),
{
    load_files(agents, MAX_TOTAL_BYTES, true)
}

/// Loads the files of the context directory, in the order of their labels.
pub fn load_context_dir(dir: Vec<ContextFile>, budget: usize) -> (r: LoadedContext)
    ensures
        r@ == dir_context(views::views(dir@), budget as nat),
{
    proof {
        order::lemma_sorted::<ContextFile>(views::views(dir@));
    }
    let fs = sort(dir);
    load_files(&fs, budget, false)
}

/// Loads the agent files of the directories, then the files of the context
/// directory with what is left of the budget.
pub fn load(agents: &Vec<ContextFile>, dir: Vec<ContextFile>) -> (r: LoadedContext)
    ensures
        r@ == whole_context(views::views(agents@), views::views(dir@)),
{
    let first = load_agents_md(agents);
    let budget: usize = first.remaining_budget();
    let second = load_context_dir(dir, budget);
    first.merged(second)
}

/// The directories whose context files are loaded: the global one, then those
/// from the file system's root down. `ancestors` goes from the workspace up.
pub fn context_dirs(global: Option<&str>, ancestors: &Vec<String>) -> (r: Vec<String>)
    ensures
        text::texts(r@) == (match global {
            Some(g) => seq![g@],
            None => Seq::empty(),
        }) + text::texts(ancestors@).reverse(),
{
    let mut out: Vec<String> = Vec::new();
    if let Some(g) = global {
        out.push(g.to_owned());
    }
    let ghost top = text::texts(out@);
    let ghost all = text::texts(ancestors@).reverse();
    let mut i: usize = ancestors.len();
    while i > 0
        invariant
            all == text::texts(ancestors@).reverse(),
            i <= ancestors@.len(),
            text::texts(out@) =~= top + all.take(ancestors@.len() - i),
        decreases i,
    {
        let ghost before = text::texts(out@);
        out.push(ancestors[i - 1].clone());
        proof {
            assert(text::texts(out@) =~= before.push(all[ancestors@.len() - i]));
        }
        i -= 1;
    }
    proof {
        assert(all.take(ancestors@.len() as int) =~= all);
    }
    out
}

/// The names a context file may have in a directory, the one to prefer first.
/// The names that projects have which were written for other agents come last.
pub open spec fn candidate_names(others: Seq<Seq<char>>) -> Seq<Seq<char>> {
    seq![OVERRIDE_FILE_NAME@, CONTEXT_FILE_NAME@, CONTEXT_FILE_NAME_UPPER@] + others
}

/// The names a context file may have in a directory, given those that projects
/// have which were written for other agents.
pub fn dir_candidates(others: &Vec<String>) -> (r: Vec<String>)
    ensures
        text::texts(r@) == candidate_names(text::texts(others@)),
{
    let mut out: Vec<String> = Vec::new();
    out.push(OVERRIDE_FILE_NAME.to_owned());
    out.push(CONTEXT_FILE_NAME.to_owned());
    out.push(CONTEXT_FILE_NAME_UPPER.to_owned());
    let mut more = copy_texts(others.as_slice());
    let ghost tail = text::texts(more@);
    out.append(&mut more);
    proof {
        assert(text::texts(out@) =~= candidate_names(tail));
    }
    out
}

/// The first of the candidates that is there.
pub fn pick_candidate(there: &Vec<bool>) -> (r: Option<usize>)
    ensures
        match r {
            Some(i) => i < there@.len() && there@[i as int] && forall|j: int|
                0 <= j < i ==> !there@[j],
            None => forall|j: int| 0 <= j < there@.len() ==> !there@[j],
        },
{
    let mut i: usize = 0;
    while i < there.len()
        invariant
            i <= there@.len(),
            forall|j: int| 0 <= j < i ==> !there@[j],
        decreases there@.len() - i,
    {
        if there[i] {
            return Some(i);
        }
        i += 1;
    }
    None
}

/// The label of a file: its path below the workspace, or else its whole path.
pub fn label_for(path: &str, below_root: Option<&str>) -> (r: String)
    ensures
        r@ == match below_root {
            Some(rel) => rel@,
            None => path@,
        },
{
    match below_root {
        Some(rel) => rel.to_owned(),
        None => path.to_owned(),
    }
}

/// The preamble with the context after it, if there is any.
pub fn build_preamble(base: &str, context: &LoadedContext) -> (r: String)
    ensures
        r@ == if context@.files.len() == 0 {
            base@
        } else {
            base@
                + "\n\nProject context files are loaded from the workspace. Read them carefully and follow their instructions; they describe the project's structure, conventions, and workflows.\n\n"@
                + context@.content
        },
{
    let mut out: String = base.to_owned();
    if !context.is_empty() {
        out.append(
            "\n\nProject context files are loaded from the workspace. Read them carefully and follow their instructions; they describe the project's structure, conventions, and workflows.\n\n",
        );
        out.append(context.content.as_str());
    }
    out
}

/// No more text is loaded than the budget allows, and what is left of the
/// budget is what no file used.
pub proof fn lemma_budget_is_kept(fs: Seq<FileView>, n: int, budget: nat, once: bool)
    ensures
        loaded(fs, n, budget, once).1 <= budget,
        loaded(fs, n, budget, once).0.files.len() <= if n > 0 {
            n
        } else {
            0
        },
    decreases n,
{
    if n > 0 {
        lemma_budget_is_kept(fs, n - 1, budget, once);
        let (c, left) = loaded(fs, n - 1, budget, once);
        if let Some(data) = fs[n - 1].data {
            text::lemma_fitting(without_mark(lossy_utf8(capped(data))), left);
        }
    }
}

/// Whether each of the labels is that of one of the first `n` files.
spec fn labels_among(labels: Seq<Seq<char>>, fs: Seq<FileView>, n: int) -> bool {
    forall|k: int|
        0 <= k < labels.len() ==> exists|j: int|
            0 <= j < n && (#[trigger] fs[j]).label == #[trigger] labels[k]
}

proof fn lemma_loaded(fs: Seq<FileView>, n: int, budget: nat, once: bool)
    requires
        n <= fs.len(),
    ensures
        ({
            let c = loaded(fs, n, budget, once).0;
            &&& c.content.len() == 0 <==> c.files.len() == 0
            &&& labels_among(c.files, fs, n)
            &&& order::in_order::<ContextFile>(fs) ==> order::in_order::<String>(c.files)
        }),
    decreases n,
{
    if n > 0 {
        lemma_loaded(fs, n - 1, budget, once);
        let (b, left) = loaded(fs, n - 1, budget, once);
        let c = loaded(fs, n, budget, once).0;
        let label = fs[n - 1].label;
        assert(c == b || c.files == b.files.push(label) && c.content.len() > 0) by {
            reveal_strlit("=== ");
        }
        assert forall|k: int| 0 <= k < c.files.len() implies exists|j: int|
            0 <= j < n && (#[trigger] fs[j]).label == #[trigger] c.files[k] by {
            if k < b.files.len() {
                assert(c.files[k] == b.files[k]);
                let j = choose|j: int|
                    0 <= j < n - 1 && (#[trigger] fs[j]).label == #[trigger] b.files[k];
                assert(fs[j].label == c.files[k]);
            } else {
                assert(fs[n - 1].label == c.files[k]);
            }
        }
        if order::in_order::<ContextFile>(fs) {
            assert forall|i: int, j: int| 0 <= i < j < c.files.len() implies !text_map::text_less(
                String::label(#[trigger] c.files[j]),
                String::label(#[trigger] c.files[i]),
            ) by {
                assert(c.files[i] == b.files[i]);
                if j < b.files.len() {
                    assert(c.files[j] == b.files[j]);
                } else {
                    let h = choose|h: int|
                        0 <= h < n - 1 && (#[trigger] fs[h]).label == #[trigger] b.files[i];
                    assert(!text_map::text_less(
                        ContextFile::label(fs[n - 1]),
                        ContextFile::label(fs[h]),
                    ));
                }
            }
        }
    }
}

/// Two texts with a line break between them, if neither is empty.
pub open spec fn on_lines(a: Seq<char>, b: Seq<char>) -> Seq<char> {
    if b.len() == 0 {
        a
    } else if a.len() == 0 {
        b
    } else {
        a + "\n"@ + b
    }
}

/// The whole context lists the agent files and then those of the context
/// directory, the latter in order, and holds their texts one after the other.
pub proof fn lemma_context_is_in_order(agents: Seq<FileView>, dir: Seq<FileView>)
    ensures
        ({
            let a = agents_context(agents);
            let d = dir_context(dir, budget_left(a.content));
            let r = whole_context(agents, dir);
            &&& r.files == a.files + d.files
            &&& r.content == on_lines(a.content, d.content)
            &&& order::in_order::<String>(d.files)
        }),
{
    let a = agents_context(agents);
    let budget = budget_left(a.content);
    let d = dir_context(dir, budget);
    order::lemma_sorted::<ContextFile>(dir);
    lemma_loaded(order::sorted::<ContextFile>(dir), dir.len() as int, budget, false);
    assert(d.files.len() == 0 ==> a.files + d.files =~= a.files);
}

}
