//! What holds of all context that is loaded.

use crate::context;
use crate::context::{ContextFile, ContextView, FileView, LoadedContext};
use crate::text;
use crate::views;
use vstd::prelude::*;

verus! {

/// The text without the mark of its byte order.
pub open spec fn bare_text(s: Seq<char>) -> Seq<char> {
    if s.len() > 0 && s[0] == '\u{feff}' {
        s.skip(1)
    } else {
        s
    }
}

/// What stands before a file in the context: what was loaded before it, on lines of
/// its own, and a line with its label.
pub open spec fn headed(before: LoadedContext, label: Seq<char>) -> Seq<char> {
    (if before.content@.len() == 0 {
        Seq::<char>::empty()
    } else {
        before.content@ + "\n"@
    }) + "=== "@ + label + " ===\n"@
}

/// A text that the budget has room for, and more, is loaded whole, under its label
/// and after what was loaded before it. The budget is less by its bytes.
pub proof fn lemma_text_is_loaded_whole(
    before: LoadedContext,
    after: LoadedContext,
    remaining: nat,
    label: Seq<char>,
    s: Seq<char>,
)
    requires
        after@ == context::with_file(before@, remaining, label, s, false),
        bare_text(s).len() > 0,
        text::size(bare_text(s)) < remaining,
    ensures
        after.content@ == headed(before, label) + bare_text(s),
        after.files@.len() == before.files@.len() + 1,
        after.files@.last()@ == label,
        forall|i: int|
            0 <= i < before.files@.len() ==> (#[trigger] after.files@[i])@ == before.files@[i]@,
        context::left_after(remaining, s) == remaining - text::size(bare_text(s)),
{
    text::lemma_fitting(bare_text(s), remaining);
    lemma_files(before, after, label);
    assert(Seq::<char>::empty() + "=== "@ =~= "=== "@);
    assert(before.content@.len() == 0 ==> before.content@ =~= Seq::<char>::empty());
}

proof fn lemma_files(before: LoadedContext, after: LoadedContext, label: Seq<char>)
    requires
        text::texts(after.files@) == text::texts(before.files@).push(label),
    ensures
        after.files@.len() == before.files@.len() + 1,
        after.files@.last()@ == label,
        forall|i: int|
            0 <= i < before.files@.len() ==> (#[trigger] after.files@[i])@ == before.files@[i]@,
{
    let a = text::texts(after.files@);
    let b = text::texts(before.files@);
    assert(a.len() == after.files@.len() && b.len() == before.files@.len());
    assert(a[b.len() as int] == after.files@[b.len() as int]@);
    assert forall|i: int| 0 <= i < before.files@.len() implies (#[trigger] after.files@[i])@
        == before.files@[i]@ by {
        assert(a[i] == b[i]);
    }
}

proof fn lemma_longest(s: Seq<char>, budget: nat)
    requires
        text::size(s) > budget,
    ensures
        ({
            let n = text::fitting(s, budget).len() as int;
            &&& n < s.len()
            &&& text::fitting(s, budget) == s.take(n)
            &&& text::size(s.take(n)) <= budget
            &&& text::size(s.take(n + 1)) > budget
        }),
    decreases s.len(),
{
    text::lemma_fitting(s, budget);
    if s.len() > 0 {
        let d = s.drop_last();
        if text::size(d) > budget {
            lemma_longest(d, budget);
            let n = text::fitting(d, budget).len() as int;
            assert(d.take(n) =~= s.take(n));
            assert(d.take(n + 1) =~= s.take(n + 1));
        } else {
            text::lemma_fitting(d, budget);
            assert(s.take(d.len() as int) =~= d);
            assert(s.take(d.len() as int + 1) =~= s);
        }
    }
}

/// Of a text that is too long for the budget as many characters are loaded as there
/// is room for, and nothing once there is room for none.
pub proof fn lemma_long_text_is_cut(
    before: LoadedContext,
    after: LoadedContext,
    remaining: nat,
    label: Seq<char>,
    s: Seq<char>,
    truncated: bool,
)
    requires
        after@ == context::with_file(before@, remaining, label, s, truncated),
        text::size(bare_text(s)) > remaining,
    ensures
        exists|n: int|
            {
                &&& 0 <= n < bare_text(s).len()
                &&& text::size(#[trigger] bare_text(s).take(n)) <= remaining < text::size(
                    bare_text(s).take(n + 1),
                )
                &&& n == 0 ==> after@ == before@
                &&& n > 0 ==> text::has_prefix(
                    after.content@,
                    headed(before, label) + bare_text(s).take(n),
                )
                &&& n > 0 ==> text::texts(after.files@) == text::texts(before.files@).push(label)
                &&& context::left_after(remaining, s) == remaining - text::size(
                    bare_text(s).take(n),
                )
            },
{
    let b = bare_text(s);
    lemma_longest(b, remaining);
    let n = text::fitting(b, remaining).len() as int;
    assert(b.take(n).len() == n);
    assert(Seq::<char>::empty() + "=== "@ =~= "=== "@);
    assert(before.content@.len() == 0 ==> before.content@ =~= Seq::<char>::empty());
    let whole = headed(before, label) + b.take(n);
    if n > 0 {
        assert(remaining > 0) by {
            if remaining == 0 {
                let t = b.take(n);
                assert(t.len() > 0);
                assert(text::size(t) == text::size(t.drop_last()) + text::utf8_size(t.last()));
            }
        }
        assert(after.content@.take(whole.len() as int) =~= whole);
    } else {
        assert(b.take(0).len() == 0);
    }
    assert(text::size(b.take(n)) <= remaining < text::size(b.take(n + 1)));
}

/// A file that is cut off says so, and so does the context once its budget is used up.
pub proof fn lemma_cuts_are_told_of(
    before: LoadedContext,
    after: LoadedContext,
    remaining: nat,
    label: Seq<char>,
    s: Seq<char>,
    truncated: bool,
)
    requires
        after@ == context::with_file(before@, remaining, label, s, truncated),
        after.files@.len() > before.files@.len(),
    ensures
        ({
            let left = context::left_after(remaining, s);
            let cut = "\n… (file truncated)"@;
            let used_up = "\n… (context budget exhausted)"@;
            &&& left == 0 ==> text::has_suffix(after.content@, used_up)
            &&& left == 0 && truncated ==> text::has_suffix(after.content@, cut + used_up)
            &&& left > 0 && truncated ==> text::has_suffix(after.content@, cut)
        }),
{
    assert(text::texts(after.files@).len() == after.files@.len());
    assert(text::texts(before.files@).len() == before.files@.len());
    text::lemma_fitting(context::without_mark(s), remaining);
    let cut = "\n… (file truncated)"@;
    let used_up = "\n… (context budget exhausted)"@;
    let c = after.content@;
    if context::left_after(remaining, s) == 0 {
        assert(c.skip(c.len() - used_up.len()) =~= used_up);
        if truncated {
            assert(c.skip(c.len() - (cut + used_up).len()) =~= cut + used_up);
        }
    } else if truncated {
        assert(c.skip(c.len() - cut.len()) =~= cut);
    }
}

/// A file that holds a zero byte is left out.
pub proof fn lemma_binary_file_is_left_out(
    c: ContextView,
    remaining: nat,
    label: Seq<char>,
    data: Seq<u8>,
    i: int,
)
    requires
        0 <= i < data.len(),
        data[i] == 0,
    ensures
        context::with_data(c, remaining, label, data) == c,
        context::left_after_data(remaining, data) == remaining,
{
    assert(data.contains(0u8));
}

/// Only the first 65536 bytes of a file count, and a longer one says that it is cut
/// off.
pub proof fn lemma_long_file_is_cut(
    c: ContextView,
    remaining: nat,
    label: Seq<char>,
    data: Seq<u8>,
)
    requires
        forall|i: int| 0 <= i < data.len() ==> #[trigger] data[i] != 0,
    ensures
        data.len() > 65536 ==> context::with_data(c, remaining, label, data) == context::with_file(
            c,
            remaining,
            label,
            context::lossy_utf8(data.take(65536)),
            true,
        ),
        data.len() <= 65536 ==> context::with_data(c, remaining, label, data) == context::with_file(
            c,
            remaining,
            label,
            context::lossy_utf8(data),
            false,
        ),
{
}

proof fn lemma_start_stays(fs: Seq<FileView>, n: int, m: int, budget: nat, once: bool)
    requires
        0 <= n <= m,
    ensures
        ({
            let a = context::loaded(fs, n, budget, once).0;
            let b = context::loaded(fs, m, budget, once).0;
            &&& text::has_prefix(b.content, a.content)
            &&& a.files.len() <= b.files.len()
            &&& b.files.take(a.files.len() as int) == a.files
        }),
        context::loaded(fs, n, budget, once).1 >= context::loaded(fs, m, budget, once).1,
    decreases m - n,
{
    let a = context::loaded(fs, n, budget, once).0;
    let b = context::loaded(fs, m, budget, once).0;
    if n == m {
        assert(b.content.take(a.content.len() as int) =~= a.content);
        assert(b.files.take(a.files.len() as int) =~= a.files);
    } else {
        lemma_start_stays(fs, n, m - 1, budget, once);
        let c = context::loaded(fs, m - 1, budget, once).0;
        assert(a.content =~= c.content.take(a.content.len() as int));
        assert(a.files =~= c.files.take(a.files.len() as int));
        let left = context::loaded(fs, m - 1, budget, once).1;
        if fs[m - 1].data is Some {
            let data = fs[m - 1].data->0;
            text::lemma_fitting(
                context::without_mark(context::lossy_utf8(context::capped(data))),
                left,
            );
        }
        if b.content != c.content {
            assert(b.content.take(c.content.len() as int) =~= c.content);
            assert(b.files =~= c.files.push(fs[m - 1].label));
        }
        assert(b.content.take(a.content.len() as int) =~= a.content);
        if b.files == c.files {
            assert(b.files.take(a.files.len() as int) =~= a.files);
        } else {
            assert(b.files.take(a.files.len() as int) =~= a.files);
        }
    }
}

/// A file that can be read and holds text is listed, and stands under its label, as
/// long as there is room for a character when its turn comes. Where files count once,
/// it must not lie where one before it lies.
pub proof fn lemma_readable_files_are_loaded(
    fs: Seq<ContextFile>,
    r: LoadedContext,
    budget: nat,
    once: bool,
    i: int,
)
    requires
        r@ == context::loaded(views::views(fs), fs.len() as int, budget, once).0,
        0 <= i < fs.len(),
        fs[i].data is Some,
        !fs[i].data->0@.contains(0u8),
        bare_text(context::lossy_utf8(context::capped(fs[i].data->0@))).len() > 0,
        once ==> forall|j: int| 0 <= j < i ==> (#[trigger] fs[j]).canonical@ != fs[i].canonical@,
        context::loaded(views::views(fs), i, budget, once).1 >= 4,
    ensures
        text::texts(r.files@).contains(fs[i].label@),
        exists|a: Seq<char>, b: Seq<char>|
            r.content@ == #[trigger] (a + "=== "@ + fs[i].label@ + " ===\n"@ + b) && b.len() > 0,
{
    let vs = views::views(fs);
    assert(vs[i] == fs[i]@);
    let (c, left) = context::loaded(vs, i, budget, once);
    let s = bare_text(context::lossy_utf8(context::capped(fs[i].data->0@)));
    if once && context::seen_before(vs, i) {
        let j = choose|j: int| 0 <= j < i && (#[trigger] vs[j]).canonical == vs[i].canonical;
        assert(vs[j] == fs[j]@);
        assert(fs[j].canonical@ != fs[i].canonical@);
    }
    let part = text::fitting(s, left);
    assert(part.len() > 0) by {
        if text::size(s) > left {
            lemma_longest(s, left);
            if part.len() == 0 {
                let t = s.take(1);
                assert(t.drop_last() =~= Seq::empty());
                assert(text::size(t) == text::size(t.drop_last()) + text::utf8_size(t.last()));
                assert(text::size(Seq::<char>::empty()) == 0);
            }
        } else {
            text::lemma_fitting(s, left);
        }
    }
    let d = context::loaded(vs, i + 1, budget, once).0;
    let label = fs[i].label@;
    let start = if c.content.len() == 0 {
        c.content
    } else {
        c.content + "\n"@
    };
    let head = start + "=== "@ + label + " ===\n"@ + part;
    assert(d.files == c.files.push(label));
    assert(text::has_prefix(d.content, head)) by {
        assert(d.content.take(head.len() as int) =~= head);
    }
    lemma_start_stays(vs, i + 1, fs.len() as int, budget, once);
    let all = text::texts(r.files@);
    assert(all.take(d.files.len() as int)[c.files.len() as int] == label);
    assert(all[c.files.len() as int] == label);
    let whole = r.content@;
    let rest = whole.skip(head.len() as int);
    assert(whole.take(d.content.len() as int).take(head.len() as int) =~= whole.take(
        head.len() as int,
    ));
    assert(whole =~= head + rest);
    assert(whole =~= start + "=== "@ + label + " ===\n"@ + (part + rest));
}

/// A file that cannot be read, and where files count once one that lies where another
/// before it lies, makes no difference.
pub proof fn lemma_other_files_make_no_difference(
    fs: Seq<ContextFile>,
    f: ContextFile,
    budget: nat,
    once: bool,
)
    requires
        f.data is None || once && exists|j: int|
            0 <= j < fs.len() && (#[trigger] fs[j]).canonical@ == f.canonical@,
    ensures
        context::loaded(views::views(fs.push(f)), fs.len() as int + 1, budget, once)
            == context::loaded(views::views(fs), fs.len() as int, budget, once),
{
    let vs = views::views(fs);
    let ws = views::views(fs.push(f));
    let n = fs.len() as int;
    assert(ws[n] == f@);
    lemma_front_decides(vs, ws, n, budget, once);
    if f.data is Some {
        let j = choose|j: int| 0 <= j < fs.len() && (#[trigger] fs[j]).canonical@ == f.canonical@;
        assert(ws[j] == fs[j]@);
        assert(context::seen_before(ws, n));
    }
}

proof fn lemma_front_decides(
    a: Seq<FileView>,
    b: Seq<FileView>,
    n: int,
    budget: nat,
    once: bool,
)
    requires
        0 <= n <= a.len(),
        n <= b.len(),
        forall|i: int| 0 <= i < n ==> #[trigger] a[i] == b[i],
    ensures
        context::loaded(a, n, budget, once) == context::loaded(b, n, budget, once),
    decreases n,
{
    if n > 0 {
        lemma_front_decides(a, b, n - 1, budget, once);
        assert(a[n - 1] == b[n - 1]);
        assert(context::seen_before(a, n - 1) == context::seen_before(b, n - 1)) by {
            if context::seen_before(a, n - 1) {
                let j = choose|j: int|
                    0 <= j < n - 1 && (#[trigger] a[j]).canonical == a[n - 1].canonical;
                assert(b[j].canonical == b[n - 1].canonical);
            }
            if context::seen_before(b, n - 1) {
                let j = choose|j: int|
                    0 <= j < n - 1 && (#[trigger] b[j]).canonical == b[n - 1].canonical;
                assert(a[j].canonical == a[n - 1].canonical);
            }
        }
    }
}

/// What was loaded stays as more files come: the context only grows at its end.
pub proof fn lemma_context_only_grows(
    fs: Seq<ContextFile>,
    n: int,
    a: LoadedContext,
    b: LoadedContext,
    budget: nat,
    once: bool,
)
    requires
        0 <= n <= fs.len(),
        a@ == context::loaded(views::views(fs), n, budget, once).0,
        b@ == context::loaded(views::views(fs), fs.len() as int, budget, once).0,
    ensures
        text::has_prefix(b.content@, a.content@),
        a.files@.len() <= b.files@.len(),
        forall|i: int| 0 <= i < a.files@.len() ==> (#[trigger] a.files@[i])@ == b.files@[i]@,
{
    lemma_start_stays(views::views(fs), n, fs.len() as int, budget, once);
    let x = text::texts(a.files@);
    let y = text::texts(b.files@);
    assert(x.len() == a.files@.len() && y.len() == b.files@.len());
    assert forall|i: int| 0 <= i < a.files@.len() implies (#[trigger] a.files@[i])@
        == b.files@[i]@ by {
        assert(y.take(x.len() as int)[i] == y[i]);
        assert(x[i] == a.files@[i]@);
    }
}

/// All of the context takes 262144 bytes of text at most: a file that comes after so
/// many is given no room.
pub proof fn lemma_room_is_limited(content: Seq<char>)
    ensures
        text::size(content) <= 262144 ==> context::budget_left(content) + text::size(content)
            == 262144,
        text::size(content) > 262144 ==> context::budget_left(content) == 0,
        context::MAX_TOTAL_BYTES == 262144,
{
}

/// Two contexts are merged in their order, on lines of their own.
pub proof fn lemma_contexts_are_merged_in_order(
    a: LoadedContext,
    b: LoadedContext,
    r: LoadedContext,
)
    requires
        r@ == context::merged_context(a@, b@),
        a.content@.len() > 0,
        b.content@.len() > 0,
    ensures
        r.content@ == a.content@ + "\n"@ + b.content@,
        text::texts(r.files@) == text::texts(a.files@) + text::texts(b.files@),
{
}

/// In a directory a file that replaces the plain one comes first, and what was
/// written for other agents last.
pub proof fn lemma_replacing_file_is_preferred(others: Seq<Seq<char>>)
    ensures
        ({
            let names = context::candidate_names(others);
            &&& names[0] == "AGENTS.override.md"@
            &&& names[1] == "AGENTS.md"@
            &&& names[2] == "AGENTS.MD"@
            &&& names.skip(3) == others
        }),
{
    assert(context::candidate_names(others).skip(3) =~= others);
}

}
