//! What holds of every diff.

use crate::llm;
use crate::llm::{DiffLine, DiffLineKind, DiffLineView};
use crate::text;
use crate::tools;
use crate::tools::LineChangeView;
use vstd::prelude::*;

verus! {

/// Whether the line is that of a change in one of the groups.
pub open spec fn is_of(l: DiffLineView, groups: Seq<Seq<LineChangeView>>) -> bool {
    exists|g: int, i: int|
        0 <= g < groups.len() && 0 <= i < groups[g].len() && l == tools::diff_line(
            #[trigger] groups[g][i],
        )
}

proof fn lemma_lines_are_of_changes(groups: Seq<Seq<LineChangeView>>, k: int)
    requires
        0 <= k < tools::diff_lines(groups).len(),
    ensures
        tools::diff_lines(groups)[k] == tools::ellipsis() || is_of(
            tools::diff_lines(groups)[k],
            groups,
        ),
    decreases groups.len(),
{
    let all = tools::diff_lines(groups);
    if groups.len() > 0 {
        let d = groups.drop_last();
        let before = tools::diff_lines(d);
        let n = groups.len() - 1;
        let last = groups[n];
        let lines = last.map_values(|c: LineChangeView| tools::diff_line(c));
        if k < before.len() {
            lemma_lines_are_of_changes(d, k);
            assert(all[k] == before[k]);
            if is_of(before[k], d) {
                let (g, i) = choose|g: int, i: int|
                    0 <= g < d.len() && 0 <= i < d[g].len() && before[k] == tools::diff_line(
                        #[trigger] d[g][i],
                    );
                assert(groups[g][i] == d[g][i]);
            }
        } else if before.len() > 0 && k == before.len() {
            assert(all[k] == tools::ellipsis());
        } else {
            let i = if before.len() > 0 {
                k - before.len() - 1
            } else {
                k
            };
            assert(all[k] == lines[i]);
            assert(all[k] == tools::diff_line(groups[n][i]));
        }
    }
}

/// A line of a diff is a line of the texts, under its number there: what is kept
/// stands in both, what is removed in the old text alone and what is added in the
/// new one alone. An ellipsis stands for lines, and shows none.
pub proof fn lemma_diff_shows_lines_of_the_texts(
    lines: Seq<DiffLine>,
    old: Seq<char>,
    new: Seq<char>,
    k: int,
)
    requires
        tools::is_diff(llm::diff_views(lines), old, new),
        0 <= k < lines.len(),
        tools::text_lines(old).len() <= u64::MAX,
        tools::text_lines(new).len() <= u64::MAX,
    ensures
        ({
            let l = lines[k];
            let in_old = l.old_line matches Some(a) && 1 <= a <= tools::text_lines(old).len()
                && l.text@ == tools::text_lines(old)[a - 1];
            let in_new = l.new_line matches Some(b) && 1 <= b <= tools::text_lines(new).len()
                && l.text@ == tools::text_lines(new)[b - 1];
            match l.kind {
                DiffLineKind::Context => in_old && in_new,
                DiffLineKind::Remove => in_old && l.new_line is None,
                DiffLineKind::Add => in_new && l.old_line is None,
                DiffLineKind::Ellipsis => l.old_line is None && l.new_line is None && l.text@.len()
                    == 0 && l.edits@.len() == 0,
            }
        }),
{
    let vs = llm::diff_views(lines);
    assert(vs[k] == lines[k]@);
    let groups = choose|groups: Seq<Seq<LineChangeView>>|
        {
            &&& #[trigger] tools::groups_of(groups, old, new, 3)
            &&& tools::places(groups) == tools::line_groups(old, new, 3)
            &&& vs == tools::diff_lines(groups)
        };
    lemma_lines_are_of_changes(groups, k);
    if vs[k] != tools::ellipsis() {
        let (g, i) = choose|g: int, i: int|
            0 <= g < groups.len() && 0 <= i < groups[g].len() && vs[k] == tools::diff_line(
                #[trigger] groups[g][i],
            );
        lemma_change_is_of_the_texts(groups, old, new, g, i);
    }
}

proof fn lemma_change_is_of_the_texts(
    groups: Seq<Seq<LineChangeView>>,
    old: Seq<char>,
    new: Seq<char>,
    g: int,
    i: int,
)
    requires
        tools::groups_of(groups, old, new, 3),
        0 <= g < groups.len(),
        0 <= i < groups[g].len(),
    ensures
        tools::line_of(groups[g][i], old, new),
{
}

proof fn lemma_without_break(s: Seq<char>)
    ensures
        tools::without_break(s).len() <= s.len(),
        s.take(tools::without_break(s).len() as int) == tools::without_break(s),
        forall|i: int|
            tools::without_break(s).len() <= i < s.len() ==> #[trigger] s[i] == '\n' || s[i]
                == '\r',
        tools::without_break(s).len() > 0 ==> tools::without_break(s).last() != '\n'
            && tools::without_break(s).last() != '\r',
    decreases s.len(),
{
    if s.len() > 0 && (s.last() == '\n' || s.last() == '\r') {
        let d = s.drop_last();
        lemma_without_break(d);
        let w = tools::without_break(d);
        assert(s.take(w.len() as int) =~= d.take(w.len() as int));
        assert forall|i: int| w.len() <= i < s.len() implies #[trigger] s[i] == '\n' || s[i]
            == '\r' by {
            if i < d.len() {
                assert(d[i] == s[i]);
            }
        }
    } else {
        assert(s.take(s.len() as int) =~= s);
    }
}

proof fn lemma_cut_ranges(ranges: Seq<(u32, u32)>, limit: u32)
    ensures
        forall|k: int|
            0 <= k < tools::cut_off(ranges, limit).len() ==> {
                let r = #[trigger] tools::cut_off(ranges, limit)[k];
                r.0 < r.1 <= limit
            },
        forall|k: int|
            0 <= k < ranges.len() && (#[trigger] ranges[k]).0 < ranges[k].1 <= limit
                ==> tools::cut_off(ranges, limit).contains(ranges[k]),
    decreases ranges.len(),
{
    if ranges.len() > 0 {
        let d = ranges.drop_last();
        lemma_cut_ranges(d, limit);
        let before = tools::cut_off(d, limit);
        let all = tools::cut_off(ranges, limit);
        assert forall|k: int| 0 <= k < all.len() implies {
            let r = #[trigger] all[k];
            r.0 < r.1 <= limit
        } by {
            if k < before.len() {
                assert(all[k] == before[k]);
            }
        }
        assert forall|k: int|
            0 <= k < ranges.len() && (#[trigger] ranges[k]).0 < ranges[k].1
                <= limit implies all.contains(ranges[k]) by {
            if k < d.len() {
                assert(d[k] == ranges[k]);
                let j = choose|j: int| 0 <= j < before.len() && before[j] == ranges[k];
                assert(all[j] == ranges[k]);
            } else {
                assert(all[before.len() as int] == ranges[k]);
            }
        }
    }
}

/// Emphasis lies within the line and never on its break; each emphasized part that
/// lies before the break is marked from its first byte to its last.
pub proof fn lemma_emphasis_marks_parts_of_the_line(c: LineChangeView, k: int)
    requires
        0 <= k < c.values.len(),
    ensures
        ({
            let l = tools::diff_line(c);
            let limit = tools::byte_len(tools::without_break(l.text));
            let from = tools::byte_len(tools::whole_line(c.values.take(k)));
            let to = tools::byte_len(tools::whole_line(c.values.take(k + 1)));
            &&& forall|j: int|
                0 <= j < l.edits.len() ==> (#[trigger] l.edits[j]).0 < l.edits[j].1 <= limit
            &&& c.values[k].0 && from < to <= limit ==> l.edits.contains((from, to))
            &&& text::has_prefix(l.text, tools::without_break(l.text))
        }),
{
    let l = tools::diff_line(c);
    let ranges = tools::emphasized(c.values);
    lemma_cut_ranges(ranges, tools::byte_len(tools::without_break(l.text)));
    lemma_without_break(l.text);
    if c.values[k].0 {
        lemma_emphasized(c.values, k);
        let r = (
            tools::byte_len(tools::whole_line(c.values.take(k))),
            tools::byte_len(tools::whole_line(c.values.take(k + 1))),
        );
        let j = choose|j: int| 0 <= j < ranges.len() && ranges[j] == r;
        assert(ranges[j] == r);
    }
}

proof fn lemma_emphasized(values: Seq<(bool, Seq<char>)>, k: int)
    requires
        0 <= k < values.len(),
        values[k].0,
    ensures
        tools::emphasized(values).contains(
            (
                tools::byte_len(tools::whole_line(values.take(k))),
                tools::byte_len(tools::whole_line(values.take(k + 1))),
            ),
        ),
    decreases values.len(),
{
    let d = values.drop_last();
    let before = tools::emphasized(d);
    let all = tools::emphasized(values);
    if k == values.len() - 1 {
        assert(values.take(k) =~= d);
        assert(values.take(k + 1) =~= values);
        assert(all[before.len() as int] == all.last());
    } else {
        lemma_emphasized(d, k);
        assert(d.take(k) =~= values.take(k));
        assert(d.take(k + 1) =~= values.take(k + 1));
        let r = (
            tools::byte_len(tools::whole_line(values.take(k))),
            tools::byte_len(tools::whole_line(values.take(k + 1))),
        );
        let j = choose|j: int| 0 <= j < before.len() && before[j] == r;
        assert(all[j] == r);
    }
}

}
