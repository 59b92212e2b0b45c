//! What holds of every title that a model drafts.

use crate::catalog;
use crate::catalog::CatalogProvider;
use crate::settings::Connections;
use crate::text;
use crate::title;
use crate::views;
use vstd::prelude::*;

verus! {

/// Whether the line, which is not blank, is what stands first in a reply, without
/// the white space around it: all lines before it are blank.
pub open spec fn opens_with(reply: Seq<char>, line: Seq<char>) -> bool {
    line.len() > 0 && exists|k: int| #[trigger] opens_at(reply, line, k)
}

/// Whether the `k`th line of a reply is the first that is not blank, and is the line.
pub open spec fn opens_at(reply: Seq<char>, line: Seq<char>, k: int) -> bool {
    let ls = text::lines_of(reply);
    &&& 0 <= k < ls.len()
    &&& text::trimmed(ls[k]) == line
    &&& forall|i: int| 0 <= i < k ==> text::trimmed(#[trigger] ls[i]).len() == 0
}

/// Whether the character is a quote, or marks up a line.
pub open spec fn is_mark(c: char) -> bool {
    "\"`\u{201c}\u{201d}\u{2018}\u{2019}*#-"@.contains(c)
}

/// Whether the character ends a sentence without asking.
pub open spec fn ends_sentence(c: char) -> bool {
    ".!\u{3002}\u{ff01}"@.contains(c)
}

proof fn lemma_marks(c: char)
    ensures
        is_mark(c) == title::is_markup(c),
        ends_sentence(c) == title::is_stop(c),
{
    reveal_strlit("\"`\u{201c}\u{201d}\u{2018}\u{2019}*#-");
    reveal_strlit(".!\u{3002}\u{ff01}");
    let m = "\"`\u{201c}\u{201d}\u{2018}\u{2019}*#-"@;
    let e = ".!\u{3002}\u{ff01}"@;
    if title::is_markup(c) {
        assert(m[0] == c || m[1] == c || m[2] == c || m[3] == c || m[4] == c || m[5] == c || m[6]
            == c || m[7] == c || m[8] == c);
    }
    if title::is_stop(c) {
        assert(e[0] == c || e[1] == c || e[2] == c || e[3] == c);
    }
}

proof fn lemma_first_filled(ls: Seq<Seq<char>>, k: int)
    requires
        0 <= k < ls.len(),
        text::trimmed(ls[k]).len() > 0,
        forall|i: int| 0 <= i < k ==> text::trimmed(#[trigger] ls[i]).len() == 0,
    ensures
        title::first_filled(ls) == Some(text::trimmed(ls[k])),
    decreases ls.len(),
{
    if k > 0 {
        assert(text::trimmed(ls[0]).len() == 0);
        let rest = ls.skip(1);
        assert forall|i: int| 0 <= i < k - 1 implies text::trimmed(#[trigger] rest[i]).len()
            == 0 by {
            assert(rest[i] == ls[i + 1]);
        }
        lemma_first_filled(rest, k - 1);
    }
}

proof fn lemma_none_filled(ls: Seq<Seq<char>>)
    requires
        forall|i: int| 0 <= i < ls.len() ==> text::trimmed(#[trigger] ls[i]).len() == 0,
    ensures
        title::first_filled(ls) is None,
    decreases ls.len(),
{
    if ls.len() > 0 {
        assert(text::trimmed(ls[0]).len() == 0);
        assert forall|i: int| 0 <= i < ls.skip(1).len() implies text::trimmed(
            #[trigger] ls.skip(1)[i],
        ).len() == 0 by {
            assert(ls.skip(1)[i] == ls[i + 1]);
        }
        lemma_none_filled(ls.skip(1));
    }
}

proof fn lemma_opens(reply: Seq<char>, line: Seq<char>)
    requires
        opens_with(reply, line),
    ensures
        title::first_filled(text::lines_of(reply)) == Some(line),
{
    let k = choose|k: int| #[trigger] opens_at(reply, line, k);
    lemma_first_filled(text::lines_of(reply), k);
}

/// A reply of blank lines gives no title.
pub proof fn lemma_blank_reply_gives_no_title(reply: Seq<char>)
    requires
        forall|i: int|
            0 <= i < text::lines_of(reply).len() ==> text::trimmed(
                #[trigger] text::lines_of(reply)[i],
            ).len() == 0,
    ensures
        title::cleaned(reply) is None,
{
    lemma_none_filled(text::lines_of(reply));
}

/// Only the first line that is not blank counts: two replies that open with the
/// same line give the same title, whatever comes after it.
pub proof fn lemma_first_line_is_the_title(a: Seq<char>, b: Seq<char>, line: Seq<char>)
    requires
        opens_with(a, line),
        opens_with(b, line),
    ensures
        title::cleaned(a) == title::cleaned(b),
{
    lemma_opens(a, line);
    lemma_opens(b, line);
}

proof fn lemma_unmarked_start(s: Seq<char>)
    ensures
        title::unmarked_start(s).len() <= s.len(),
        title::unmarked_start(s) == s.skip(s.len() - title::unmarked_start(s).len()),
        forall|i: int|
            0 <= i < s.len() - title::unmarked_start(s).len() ==> title::is_markup(#[trigger] s[i]),
    decreases s.len(),
{
    if s.len() > 0 && title::is_markup(s[0]) {
        let rest = s.skip(1);
        lemma_unmarked_start(rest);
        let n = s.len() - title::unmarked_start(s).len();
        assert(rest.skip(n - 1) =~= s.skip(n));
        assert forall|i: int| 0 <= i < n implies title::is_markup(#[trigger] s[i]) by {
            if i > 0 {
                assert(rest[i - 1] == s[i]);
            }
        }
    } else {
        assert(s.skip(0) =~= s);
    }
}

proof fn lemma_unmarked_start_push(s: Seq<char>, c: char)
    ensures
        title::unmarked_start(s.push(c)) == if title::unmarked_start(s).len() > 0 {
            title::unmarked_start(s).push(c)
        } else if title::is_markup(c) {
            Seq::empty()
        } else {
            seq![c]
        },
    decreases s.len(),
{
    if s.len() > 0 {
        assert(s.push(c).skip(1) =~= s.skip(1).push(c));
        if title::is_markup(s[0]) {
            lemma_unmarked_start_push(s.skip(1), c);
        }
    } else {
        assert(s.push(c).skip(1) =~= Seq::empty());
        assert(s.push(c) =~= seq![c]);
        assert(title::unmarked_start(Seq::empty()) =~= Seq::<char>::empty());
    }
}

/// A quote or a mark before the line, or after it, is no part of the title.
pub proof fn lemma_marks_are_dropped(a: Seq<char>, b: Seq<char>, line: Seq<char>, c: char)
    requires
        is_mark(c),
        opens_with(a, line),
        opens_with(b, seq![c] + line) || opens_with(b, line.push(c)),
    ensures
        title::cleaned(a) == title::cleaned(b),
{
    lemma_marks(c);
    lemma_opens(a, line);
    if opens_with(b, seq![c] + line) {
        lemma_opens(b, seq![c] + line);
        assert((seq![c] + line).skip(1) =~= line);
    } else {
        lemma_opens(b, line.push(c));
        lemma_unmarked_start_push(line, c);
        let u = title::unmarked_start(line);
        if u.len() > 0 {
            assert(u.push(c).drop_last() =~= u);
        }
    }
}

proof fn lemma_words_grow(s: Seq<char>, c: char)
    requires
        s.len() > 0,
        !text::is_space(s.last()),
        !text::is_space(c),
    ensures
        text::words(s).len() > 0,
        text::words(s.push(c)) == text::words(s).drop_last().push(text::words(s).last().push(c)),
        text::joined(text::words(s.push(c)), " "@) == text::joined(text::words(s), " "@).push(c),
{
    let w = text::words(s);
    let v = text::words(s.push(c));
    assert(s.push(c).drop_last() =~= s);
    assert(s.push(c)[s.push(c).len() - 2] == s.last());
    assert(v.drop_last() =~= w.drop_last());
    if w.len() > 1 {
        assert(text::joined(v, " "@) =~= text::joined(w, " "@).push(c));
    }
}

/// A stop at the end of the line is no part of the title.
pub proof fn lemma_stops_are_dropped(a: Seq<char>, b: Seq<char>, line: Seq<char>, c: char)
    requires
        ends_sentence(c),
        opens_with(a, line),
        !is_mark(line.last()),
        !text::is_space(line.last()),
        opens_with(b, line.push(c)),
    ensures
        title::cleaned(a) == title::cleaned(b),
{
    lemma_marks(c);
    lemma_marks(line.last());
    lemma_opens(a, line);
    lemma_opens(b, line.push(c));
    lemma_unmarked_start(line);
    lemma_unmarked_start_push(line, c);
    let u = title::unmarked_start(line);
    assert(u.len() > 0) by {
        if u.len() == 0 {
            assert(title::is_markup(line[line.len() - 1]));
        }
    }
    assert(u.last() == line.last());
    lemma_words_grow(u, c);
    let j = text::joined(text::words(u), " "@);
    assert(j.push(c).drop_last() =~= j);
}

/// Whether there is nothing to drop at the ends of the line.
pub open spec fn is_bare(line: Seq<char>) -> bool {
    &&& line.len() > 0
    &&& !is_mark(line[0])
    &&& !is_mark(line.last())
    &&& !ends_sentence(line.last())
    &&& !text::is_space(line.last())
}

proof fn lemma_bare(line: Seq<char>)
    requires
        is_bare(line),
    ensures
        title::plain(line) == text::joined(text::words(line), " "@),
        title::plain(line).len() > 0,
{
    lemma_marks(line[0]);
    lemma_marks(line.last());
    let w = text::words(line);
    let d = line.drop_last();
    assert(w.len() > 0 && w.last().len() > 0 && w.last().last() == line.last());
    let j = text::joined(w, " "@);
    assert(j.len() > 0 && j.last() == line.last());
}

/// A line with nothing to drop at its ends is the title as it stands, with one
/// space between its words, unless it has more than 64 characters then.
pub proof fn lemma_short_line_is_kept(reply: Seq<char>, line: Seq<char>, r: Option<String>)
    requires
        views::opt_view(r) == title::cleaned(reply),
        opens_with(reply, line),
        is_bare(line),
        text::joined(text::words(line), " "@).len() <= 64,
    ensures
        r matches Some(t) && t@ == text::joined(text::words(line), " "@),
{
    lemma_opens(reply, line);
    lemma_bare(line);
}

proof fn lemma_last_space(s: Seq<char>)
    ensures
        match title::last_space(s) {
            Some(i) => 0 <= i < s.len() && s[i] == ' ' && forall|j: int|
                i < j < s.len() ==> #[trigger] s[j] != ' ',
            None => forall|j: int| 0 <= j < s.len() ==> #[trigger] s[j] != ' ',
        },
    decreases s.len(),
{
    if s.len() > 0 && s.last() != ' ' {
        let d = s.drop_last();
        lemma_last_space(d);
        assert forall|j: int| 0 <= j < s.len() implies #[trigger] s[j] == if j < d.len() {
            d[j]
        } else {
            s.last()
        } by {}
    }
}

/// A longer line is cut: the title is the beginning of it, up to the last space
/// among its first 64 characters where that leaves 32 bytes at least, and else all
/// of those characters.
pub proof fn lemma_long_line_is_cut(reply: Seq<char>, line: Seq<char>, r: Option<String>)
    requires
        views::opt_view(r) == title::cleaned(reply),
        opens_with(reply, line),
        is_bare(line),
        text::joined(text::words(line), " "@).len() > 64,
    ensures
        ({
            let whole = text::joined(text::words(line), " "@);
            &&& r is Some
            &&& r->0@ == whole.take(r->0@.len() as int)
            &&& r->0@.len() <= 64
            &&& r->0@.len() < 64 ==> whole[r->0@.len() as int] == ' ' && text::size(r->0@) >= 32
            &&& forall|i: int|
                r->0@.len() < i < 64 ==> #[trigger] whole[i] != ' '
            &&& r->0@.len() == 64 ==> forall|i: int|
                0 <= i < 64 && #[trigger] whole[i] == ' ' && (forall|k: int|
                    i < k < 64 ==> #[trigger] whole[k] != ' ') ==> text::size(whole.take(i)) < 32
        }),
{
    lemma_opens(reply, line);
    lemma_bare(line);
    let whole = text::joined(text::words(line), " "@);
    let cut = whole.take(64);
    lemma_last_space(cut);
    assert forall|i: int| 0 <= i < 64 implies whole[i] == #[trigger] cut[i] by {}
    title::lemma_cleaned_bounds(reply);
    match title::last_space(cut) {
        Some(i) => {
            assert(cut.take(i) =~= whole.take(i));
            assert forall|j: int| i < j < 64 implies #[trigger] whole[j] != ' ' by {
                assert(cut[j] != ' ');
            }
            assert forall|j: int|
                0 <= j < 64 && #[trigger] whole[j] == ' ' && (forall|k: int|
                    j < k < 64 ==> #[trigger] whole[k] != ' ') implies j == i by {
                assert(whole[i] == ' ');
                if j < i {
                    assert(whole[i] != ' ');
                }
            }
        },
        None => {
            assert forall|j: int| 0 <= j < 64 implies #[trigger] whole[j] != ' ' by {
                assert(cut[j] != ' ');
            }
        },
    }
}

/// What a draft is made from is the beginning of the prompt without the white space
/// around it: all of it where that is short enough, else as much as is allowed.
pub proof fn lemma_prompt_is_cut(prompt: Seq<char>, max: nat)
    ensures
        ({
            let whole = text::trimmed(prompt);
            let start = title::start_of(prompt, max);
            &&& text::has_prefix(whole, start)
            &&& whole.len() <= max ==> start == whole
            &&& whole.len() > max ==> start.len() == max
        }),
        title::PROMPT_MAX_CHARS == 2000,
{
    let whole = text::trimmed(prompt);
    assert(whole.take(whole.len() as int) =~= whole);
}

/// The provider asked for drafts the title, else the one in use; it must be set up.
/// A model asked for is taken as it is, and else it is the provider's model for small
/// tasks, if the catalog knows one.
pub proof fn lemma_title_is_drafted_by_the_model_asked_for(
    ps: Seq<CatalogProvider>,
    connections: Connections,
    provider: Option<Seq<char>>,
    model: Option<Seq<char>>,
)
    ensures
        ({
            let r = title::title_model(ps, connections, provider, model);
            let asked = match provider {
                Some(n) => Some(n),
                None => match connections.active {
                    Some(a) => Some(a.provider@),
                    None => None,
                },
            };
            &&& asked is None ==> r is None
            &&& asked is Some && connections.provider(asked->0) is None ==> r is None
            &&& asked is Some && connections.provider(asked->0) is Some && model is Some ==> r
                == Some((asked->0, model->0))
            &&& match r {
                Some((n, _)) => Some(n) == asked,
                None => true,
            }
        }),
        connections.provider(provider->0) is Some && provider is Some && model is None ==> ({
            let id = match connections.provider(provider->0)->0.catalog {
                Some(c) => c@,
                None => connections.provider(provider->0)->0.kind@,
            };
            forall|i: int|
                0 <= i < ps.len() && (#[trigger] ps[i]).id@ == id && (forall|j: int|
                    0 <= j < i ==> (#[trigger] ps[j]).id@ != id) ==> {
                    let r = title::title_model(ps, connections, provider, model);
                    match ps[i].default_small_model_id {
                        Some(m) => r == Some((provider->0, m@)),
                        None => if ps[i].models@.len() > 0 {
                            r == Some((provider->0, ps[i].models@.last().id@))
                        } else {
                            r is None
                        },
                    }
                }
        }),
{
    if connections.provider(provider->0) is Some && provider is Some && model is None {
        let id = match connections.provider(provider->0)->0.catalog {
            Some(c) => c@,
            None => connections.provider(provider->0)->0.kind@,
        };
        assert forall|i: int|
            0 <= i < ps.len() && (#[trigger] ps[i]).id@ == id && (forall|j: int|
                0 <= j < i ==> (#[trigger] ps[j]).id@ != id) implies catalog::provider_with(ps, id)
            == Some(ps[i]) by {
            lemma_first_provider(ps, id, i, 0);
        }
    }
}

proof fn lemma_first_provider(ps: Seq<CatalogProvider>, id: Seq<char>, i: int, from: int)
    requires
        0 <= from <= i < ps.len(),
        ps[i].id@ == id,
        forall|j: int| 0 <= j < i ==> (#[trigger] ps[j]).id@ != id,
    ensures
        catalog::provider_from(ps, id, from) == Some(i),
    decreases i - from,
{
    if from < i {
        assert(ps[from].id@ != id);
        lemma_first_provider(ps, id, i, from + 1);
    }
}

}
