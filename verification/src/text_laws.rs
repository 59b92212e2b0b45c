//! What holds of all texts: how they are taken apart, trimmed, ordered and counted.

use crate::text;
use crate::text_map;
use vstd::prelude::*;

verus! {

/// The text with the lowest first character that differs comes first, and a text comes
/// before every longer one that begins with it.
pub proof fn lemma_first_difference_orders(a: Seq<char>, b: Seq<char>, i: int)
    requires
        0 <= i <= a.len(),
        i < b.len(),
        forall|j: int| 0 <= j < i ==> #[trigger] a[j] == b[j],
    ensures
        i == a.len() ==> text_map::text_less(a, b) && !text_map::text_less(b, a),
        i < a.len() && a[i] < b[i] ==> text_map::text_less(a, b)
            && !text_map::text_less(b, a),
    decreases i,
{
    if i > 0 {
        assert(a[0] == b[0]);
        let (x, y) = (a.skip(1), b.skip(1));
        assert forall|j: int| 0 <= j < i - 1 implies #[trigger] x[j] == y[j] by {
            assert(a[j + 1] == b[j + 1]);
        }
        lemma_first_difference_orders(x, y, i - 1);
    }
}

/// What a text holds of decimal digits, read as a number.
pub open spec fn number(s: Seq<char>) -> nat
    decreases s.len(),
{
    if s.len() == 0 {
        0
    } else {
        number(s.drop_last()) * 10 + (s.last() as u32 - '0' as u32) as nat
    }
}

/// A number that is written in decimal digits is read back, and is written without zeros
/// at its front.
pub proof fn lemma_number_is_read_back(n: nat)
    ensures
        number(text::decimal(n)) == n,
        text::decimal(n).len() > 0,
        forall|i: int|
            0 <= i < text::decimal(n).len() ==> '0' <= #[trigger] text::decimal(n)[i] <= '9',
        n > 0 ==> text::decimal(n)[0] != '0',
    decreases n,
{
    let s = text::decimal(n);
    if n >= 10 {
        lemma_number_is_read_back(n / 10);
        let d = text::decimal(n / 10);
        assert(s.drop_last() =~= d);
        assert(s.last() == text::digit((n % 10) as int));
        assert(s[0] == d[0]);
        assert forall|i: int| 0 <= i < s.len() implies '0' <= #[trigger] s[i] <= '9' by {
            if i < d.len() {
                assert(s[i] == d[i]);
            } else {
                assert(s[i] == s.last());
            }
        }
    } else {
        assert(s.drop_last() =~= Seq::empty());
        assert(number(Seq::empty()) == 0);
        assert(s.last() == s[0]);
    }
}

/// Whether all characters are white space.
pub open spec fn is_blank(s: Seq<char>) -> bool {
    forall|i: int| 0 <= i < s.len() ==> text::is_space(#[trigger] s[i])
}

proof fn lemma_cut_ahead(s: Seq<char>)
    ensures
        ({
            let t = text::trimmed_start(s);
            &&& t.len() <= s.len()
            &&& t == s.skip(s.len() - t.len())
            &&& is_blank(s.take(s.len() - t.len()))
            &&& t.len() > 0 ==> !text::is_space(t[0])
        }),
    decreases s.len(),
{
    let t = text::trimmed_start(s);
    if s.len() > 0 && text::is_space(s[0]) {
        let r = s.skip(1);
        lemma_cut_ahead(r);
        let n = s.len() - t.len();
        assert(r.skip(n - 1) =~= s.skip(n));
        let cut = s.take(n);
        assert forall|i: int| 0 <= i < cut.len() implies text::is_space(#[trigger] cut[i]) by {
            if i > 0 {
                assert(cut[i] == r.take(n - 1)[i - 1]);
            }
        }
    } else {
        assert(s.skip(0) =~= s);
    }
}

proof fn lemma_cut_behind(s: Seq<char>)
    ensures
        ({
            let t = text::trimmed_end(s);
            &&& t.len() <= s.len()
            &&& t == s.take(t.len() as int)
            &&& is_blank(s.skip(t.len() as int))
            &&& t.len() > 0 ==> !text::is_space(t.last())
        }),
    decreases s.len(),
{
    let t = text::trimmed_end(s);
    if s.len() > 0 && text::is_space(s.last()) {
        let r = s.drop_last();
        lemma_cut_behind(r);
        let n = t.len() as int;
        assert(r.take(n) =~= s.take(n));
        let cut = s.skip(n);
        assert forall|i: int| 0 <= i < cut.len() implies text::is_space(#[trigger] cut[i]) by {
            if i < cut.len() - 1 {
                assert(cut[i] == r.skip(n)[i]);
            }
        }
    } else {
        assert(s.take(s.len() as int) =~= s);
    }
}

/// Trimming takes white space away at the two ends of a text, all of it, and nothing else.
pub proof fn lemma_only_white_space_is_trimmed(s: Seq<char>)
    ensures
        exists|a: Seq<char>, b: Seq<char>|
            s == #[trigger] (a + text::trimmed(s) + b) && is_blank(a) && is_blank(b),
        text::trimmed(s).len() > 0 ==> !text::is_space(text::trimmed(s)[0]) && !text::is_space(
            text::trimmed(s).last(),
        ),
        text::trimmed(s).len() == 0 <==> is_blank(s),
{
    lemma_cut_ahead(s);
    let t = text::trimmed_start(s);
    lemma_cut_behind(t);
    let u = text::trimmed_end(t);
    let a = s.take(s.len() - t.len());
    let b = t.skip(u.len() as int);
    assert(s =~= a + u + b);
    assert(s == a + text::trimmed(s) + b);
    if u.len() > 0 {
        assert(u[0] == t[0]);
        assert(!is_blank(s)) by {
            if is_blank(s) {
                assert(text::is_space(s[a.len() as int]));
            }
        }
    } else {
        assert forall|i: int| 0 <= i < s.len() implies text::is_space(#[trigger] s[i]) by {
            if i < a.len() {
                assert(a[i] == s[i]);
            } else {
                assert(b[i - a.len()] == s[i]);
            }
        }
    }
}

proof fn lemma_pieces_concat(a: Seq<char>, c: char, b: Seq<char>)
    ensures
        text::pieces(b, c).len() > 0,
        text::pieces(a.push(c) + b, c) == text::pieces(a, c) + text::pieces(b, c),
    decreases b.len(),
{
    let whole = a.push(c) + b;
    if b.len() == 0 {
        assert(whole =~= a.push(c));
        assert(whole.drop_last() =~= a);
        assert(text::pieces(whole, c) =~= text::pieces(a, c) + text::pieces(b, c));
    } else {
        let d = b.drop_last();
        lemma_pieces_concat(a, c, d);
        assert(whole.drop_last() =~= a.push(c) + d);
        let p = text::pieces(d, c);
        let q = text::pieces(a, c) + p;
        assert(q.last() == p.last());
        assert(q.drop_last() =~= text::pieces(a, c) + p.drop_last());
        assert(text::pieces(whole, c) =~= text::pieces(a, c) + text::pieces(b, c));
    }
}

proof fn lemma_one_piece(s: Seq<char>, c: char)
    requires
        !s.contains(c),
    ensures
        text::pieces(s, c) == seq![s],
    decreases s.len(),
{
    if s.len() > 0 {
        let d = s.drop_last();
        assert forall|i: int| 0 <= i < d.len() implies d[i] != c by {
            assert(s.contains(s[i]));
        }
        lemma_one_piece(d, c);
        assert(s.contains(s.last()));
        assert(d.push(s.last()) =~= s);
        assert(text::pieces(s, c) =~= seq![s]);
    } else {
        assert(s =~= Seq::empty());
    }
}

/// A line ends at its line feed, and a carriage return before that is no part of it. The
/// lines after it are those of the rest.
pub proof fn lemma_line_ends_at_its_feed(line: Seq<char>, rest: Seq<char>)
    requires
        !line.contains('\n'),
        line.len() > 0 ==> line.last() != '\r',
    ensures
        text::lines_of(line.push('\n') + rest) == seq![line] + text::lines_of(rest),
        text::lines_of(line.push('\r').push('\n') + rest) == seq![line] + text::lines_of(rest),
        line.len() > 0 ==> text::lines_of(line) == seq![line],
        text::lines_of(Seq::empty()).len() == 0,
{
    let p = text::pieces(rest, '\n');
    lemma_one_piece(line, '\n');
    lemma_pieces_concat(line, '\n', rest);
    lemma_ended_line(line, line, p);
    let long = line.push('\r');
    assert forall|i: int| 0 <= i < long.len() implies long[i] != '\n' by {
        if i < line.len() {
            assert(line.contains(line[i]));
        }
    }
    lemma_one_piece(long, '\n');
    lemma_pieces_concat(long, '\n', rest);
    assert(long.drop_last() =~= line);
    lemma_ended_line(long, line, p);
    let none = Seq::<Seq<char>>::empty();
    assert(seq![line].drop_last() =~= none);
    assert(none.map_values(|l: Seq<char>| text::without_cr(l)) =~= none);
    assert(none.push(line) =~= seq![line]);
    lemma_one_piece(Seq::empty(), '\n');
    assert(seq![Seq::<char>::empty()].drop_last() =~= none);
}

proof fn lemma_ended_line(raw: Seq<char>, line: Seq<char>, p: Seq<Seq<char>>)
    requires
        p.len() > 0,
        text::without_cr(raw) == line,
    ensures
        ({
            let q = seq![raw] + p;
            let f = |l: Seq<char>| text::without_cr(l);
            &&& q.last() == p.last()
            &&& q.drop_last().map_values(f) == seq![line] + p.drop_last().map_values(f)
            &&& q.drop_last().map_values(f).push(p.last()) == seq![line]
                + p.drop_last().map_values(f).push(p.last())
        }),
{
    let q = seq![raw] + p;
    let f = |l: Seq<char>| text::without_cr(l);
    assert(q.drop_last() =~= seq![raw] + p.drop_last());
    assert(q.drop_last().map_values(f) =~= seq![line] + p.drop_last().map_values(f));
    assert(q.drop_last().map_values(f).push(p.last()) =~= seq![line] + p.drop_last().map_values(
        f,
    ).push(p.last()));
}

}
