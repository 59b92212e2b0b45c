//! Titles of sessions.

use crate::catalog;
use crate::catalog::{default_small_model, find_provider, CatalogProvider};
use crate::settings::Connections;
use crate::text;
use crate::text::{char_size, chars_of, join, lines, split_words, trim};
use crate::views;
use vstd::prelude::*;

verus! {

pub const DEFAULT_TITLE_PREAMBLE: &'static str =
    "You write session titles for an agentic coding assistant. You will be given the user's first message in a new session. Reply with a short title that names the session's task or topic.\n\nRules:\n- Reply with the title only: no quotes, no markup, no explanation, no trailing punctuation.\n- At most six words, in the language of the user's message.\n- Name the task or topic, skipping filler: greetings, \"help me\", \"please\", and pleasantries.";

/// How much of the first prompt the title's model is given.
pub const PROMPT_MAX_CHARS: usize = 2_000;

/// The most characters of a title.
pub const TITLE_MAX_CHARS: usize = 64;

/// Whether a character is markup around a title.
pub open spec fn is_markup(c: char) -> bool {
    ||| c == '"'
    ||| c == '`'
    ||| c == '\u{201c}'
    ||| c == '\u{201d}'
    ||| c == '\u{2018}'
    ||| c == '\u{2019}'
    ||| c == '*'
    ||| c == '#'
    ||| c == '-'
}

/// Whether a character ends a sentence.
pub open spec fn is_stop(c: char) -> bool {
    c == '.' || c == '!' || c == '\u{3002}' || c == '\u{ff01}'
}

/// The text without the markup before it.
pub open spec fn unmarked_start(s: Seq<char>) -> Seq<char>
    decreases s.len(),
{
    if s.len() > 0 && is_markup(s[0]) {
        unmarked_start(s.skip(1))
    } else {
        s
    }
}

/// The text without the markup after it.
pub open spec fn unmarked_end(s: Seq<char>) -> Seq<char>
    decreases s.len(),
{
    if s.len() > 0 && is_markup(s.last()) {
        unmarked_end(s.drop_last())
    } else {
        s
    }
}

/// The text without the stops after it.
pub open spec fn without_stops(s: Seq<char>) -> Seq<char>
    decreases s.len(),
{
    if s.len() > 0 && is_stop(s.last()) {
        without_stops(s.drop_last())
    } else {
        s
    }
}

/// The first line that is not blank, without the white space around it.
pub open spec fn first_filled(ls: Seq<Seq<char>>) -> Option<Seq<char>>
    decreases ls.len(),
{
    if ls.len() == 0 {
        None
    } else if text::trimmed(ls[0]).len() > 0 {
        Some(text::trimmed(ls[0]))
    } else {
        first_filled(ls.skip(1))
    }
}

/// Where the last space stands.
pub open spec fn last_space(s: Seq<char>) -> Option<int>
    decreases s.len(),
{
    if s.len() == 0 {
        None
    } else if s.last() == ' ' {
        Some(s.len() - 1)
    } else {
        last_space(s.drop_last())
    }
}

/// The title, cut down to the most characters it may have: at the last space
/// within, where at least half of the bytes that many characters take up stand
/// before it.
pub open spec fn capped(s: Seq<char>) -> Seq<char> {
    if s.len() > TITLE_MAX_CHARS {
        let cut = s.take(TITLE_MAX_CHARS as int);
        match last_space(cut) {
            Some(i) => if text::size(cut.take(i)) >= TITLE_MAX_CHARS / 2 {
                cut.take(i)
            } else {
                cut
            },
            None => cut,
        }
    } else {
        s
    }
}

/// The words of a line, without markup around the line and stops after it.
pub open spec fn plain(line: Seq<char>) -> Seq<char> {
    without_stops(text::joined(text::words(unmarked_end(unmarked_start(line))), " "@))
}

/// The title that a model's reply gives.
pub open spec fn cleaned(raw: Seq<char>) -> Option<Seq<char>> {
    match first_filled(text::lines_of(raw)) {
        None => None,
        Some(line) => {
            let title = capped(plain(line));
            if title.len() == 0 {
                None
            } else {
                Some(title)
            }
        },
    }
}

fn markup(c: char) -> (b: bool)
    ensures
        b == is_markup(c),
{
    c == '"' || c == '`' || c == '\u{201c}' || c == '\u{201d}' || c == '\u{2018}' || c
        == '\u{2019}' || c == '*' || c == '#' || c == '-'
}

fn stop(c: char) -> (b: bool)
    ensures
        b == is_stop(c),
{
    c == '.' || c == '!' || c == '\u{3002}' || c == '\u{ff01}'
}

fn strip_markup(s: &str) -> (r: &str)
    ensures
        r@ == unmarked_end(unmarked_start(s@)),
{
    let cs = chars_of(s);
    let n: usize = cs.len();
    let mut i: usize = 0;
    proof {
        assert(s@.skip(0) =~= s@);
    }
    while i < n && markup(cs[i])
        invariant
            cs@ == s@,
            n == cs@.len(),
            i <= n,
            unmarked_start(s@) == unmarked_start(s@.skip(i as int)),
        decreases n - i,
    {
        proof {
            assert(s@.skip(i as int)[0] == s@[i as int]);
            assert(s@.skip(i as int).skip(1) =~= s@.skip(i + 1));
        }
        i += 1;
    }
    proof {
        if i < n {
            assert(s@.skip(i as int)[0] == s@[i as int]);
        }
        assert(unmarked_start(s@) == s@.skip(i as int));
    }
    let ghost t = s@.skip(i as int);
    let mut j: usize = n;
    proof {
        assert(t =~= s@.subrange(i as int, j as int));
    }
    while j > i && markup(cs[j - 1])
        invariant
            cs@ == s@,
            n == cs@.len(),
            i <= j <= n,
            unmarked_end(t) == unmarked_end(s@.subrange(i as int, j as int)),
        decreases j,
    {
        proof {
            assert(s@.subrange(i as int, j as int).last() == s@[j - 1]);
            assert(s@.subrange(i as int, j as int).drop_last() =~= s@.subrange(i as int, j - 1));
        }
        j -= 1;
    }
    proof {
        if j > i {
            assert(s@.subrange(i as int, j as int).last() == s@[j - 1]);
        }
    }
    s.substring_char(i, j)
}

/// A model's reply as a title: its first line that is not blank, without
/// markup, with single spaces, without the stops at its end, and cut down.
pub fn clean(raw: &str) -> (r: Option<String>)
    ensures
        views::opt_view(r) == cleaned(raw@),
{
    let ls = lines(raw);
    let ghost all = text::texts(ls@);
    let mut i: usize = 0;
    proof {
        assert(all.skip(0) =~= all);
    }
    while i < ls.len()
        invariant
            all == text::texts(ls@),
            i <= ls@.len(),
            first_filled(all) == first_filled(all.skip(i as int)),
            all == text::lines_of(raw@),
        decreases ls@.len() - i,
    {
        proof {
            assert(all.skip(i as int)[0] == all[i as int]);
            assert(all.skip(i as int).skip(1) =~= all.skip(i + 1));
        }
        let line = trim(ls[i].as_str());
        if !line.is_empty() {
            return clean_line(line);
        }
        i += 1;
    }
    None
}

fn clean_line(line: &str) -> (r: Option<String>)
    ensures
        views::opt_view(r) == (if capped(plain(line@)).len() == 0 {
            None
        } else {
            Some(capped(plain(line@)))
        }),
{
    let ws = split_words(strip_markup(line));
    let title = join(ws.as_slice(), " ");
    let cs = chars_of(title.as_str());
    let mut n: usize = cs.len();
    proof {
        assert(title@.take(n as int) =~= title@);
    }
    while n > 0 && stop(cs[n - 1])
        invariant
            cs@ == title@,
            n <= cs@.len(),
            without_stops(title@) == without_stops(title@.take(n as int)),
        decreases n,
    {
        proof {
            assert(title@.take(n as int).last() == title@[n - 1]);
            assert(title@.take(n as int).drop_last() =~= title@.take(n - 1));
        }
        n -= 1;
    }
    let ghost full = plain(line@);
    proof {
        if n > 0 {
            assert(title@.take(n as int).last() == title@[n - 1]);
        }
        assert(full == title@.take(n as int));
    }
    if n == 0 {
        return None;
    }
    if n <= TITLE_MAX_CHARS {
        return Some(title.as_str().substring_char(0, n).to_owned());
    }
    let ghost cut = full.take(TITLE_MAX_CHARS as int);
    let mut at: usize = TITLE_MAX_CHARS;
    proof {
        assert(cut.take(at as int) =~= cut);
        assert(cut =~= title@.take(TITLE_MAX_CHARS as int));
    }
    while at > 0 && cs[at - 1] != ' '
        invariant
            cs@ == title@,
            cut == title@.take(TITLE_MAX_CHARS as int),
            TITLE_MAX_CHARS <= cs@.len(),
            at <= TITLE_MAX_CHARS,
            last_space(cut) == last_space(cut.take(at as int)),
        decreases at,
    {
        proof {
            assert(cut.take(at as int).last() == title@[at - 1]);
            assert(cut.take(at as int).drop_last() =~= cut.take(at - 1));
        }
        at -= 1;
    }
    proof {
        if at > 0 {
            assert(cut.take(at as int).last() == title@[at - 1]);
        }
    }
    if at > 0 {
        let mut bytes: usize = 0;
        let mut k: usize = 0;
        while k < at - 1
            invariant
                cs@ == title@,
                cut == title@.take(TITLE_MAX_CHARS as int),
                TITLE_MAX_CHARS <= cs@.len(),
                k < at <= TITLE_MAX_CHARS,
                bytes <= 4 * k,
                bytes == text::size(cut.take(k as int)),
            decreases at - k,
        {
            proof {
                assert(cut.take(k + 1).drop_last() =~= cut.take(k as int));
                assert(cut.take(k + 1).last() == title@[k as int]);
            }
            bytes += char_size(cs[k]);
            k += 1;
        }
        if bytes >= TITLE_MAX_CHARS / 2 {
            proof {
                assert(cut.take(at - 1) =~= title@.subrange(0, at - 1));
                lemma_nonempty(cut, at - 1);
            }
            return Some(title.as_str().substring_char(0, at - 1).to_owned());
        }
    }
    Some(title.as_str().substring_char(0, TITLE_MAX_CHARS).to_owned())
}

proof fn lemma_nonempty(s: Seq<char>, n: int)
    requires
        0 <= n <= s.len(),
        text::size(s.take(n)) > 0,
    ensures
        s.take(n).len() > 0,
{
}

/// A title has a character, and no more than it may have.
pub proof fn lemma_cleaned_bounds(raw: Seq<char>)
    ensures
        cleaned(raw) matches Some(t) ==> 0 < t.len() <= TITLE_MAX_CHARS,
{
    if let Some(line) = first_filled(text::lines_of(raw)) {
        let s = plain(line);
        if s.len() > TITLE_MAX_CHARS {
            lemma_last_space(s.take(TITLE_MAX_CHARS as int));
        }
    }
}

proof fn lemma_last_space(s: Seq<char>)
    ensures
        last_space(s) matches Some(i) ==> 0 <= i < s.len() && s[i] == ' ',
    decreases s.len(),
{
    if s.len() > 0 && s.last() != ' ' {
        lemma_last_space(s.drop_last());
    }
}

/// At most so many characters of a text, without the white space around it.
pub open spec fn start_of(content: Seq<char>, max: nat) -> Seq<char> {
    let t = text::trimmed(content);
    if t.len() <= max {
        t
    } else {
        t.take(max as int)
    }
}

fn shorten(content: &str, max: usize) -> (r: &str)
    ensures
        r@ == start_of(content@, max as nat),
{
    let t = trim(content);
    let n: usize = t.unicode_len();
    if n <= max {
        t
    } else {
        t.substring_char(0, max)
    }
}

/// The preamble for the model that drafts a title: the one in the settings, or
/// else the built-in one.
pub fn title_preamble(configured: Option<&str>) -> (r: String)
    ensures
        r@ == match configured {
            Some(p) => p@,
            None => DEFAULT_TITLE_PREAMBLE@,
        },
{
    match configured {
        Some(p) => p.to_owned(),
        None => DEFAULT_TITLE_PREAMBLE.to_owned(),
    }
}

/// The task for the model that drafts a title from the first prompt, unless
/// the prompt is blank.
pub fn title_task(prompt: &str) -> (r: Option<String>)
    ensures
        views::opt_view(r) == ({
            let p = start_of(prompt@, PROMPT_MAX_CHARS as nat);
            if p.len() == 0 {
                None
            } else {
                Some(
                    "Write the session title for the following first message of a new session.\n\n---\n"@
                        + p + "\n---"@,
                )
            }
        }),
{
    let p = shorten(prompt, PROMPT_MAX_CHARS);
    if p.is_empty() {
        return None;
    }
    let mut s: String =
        "Write the session title for the following first message of a new session.\n\n---\n".to_owned();
    s.append(p);
    s.append("\n---");
    Some(s)
}

/// The title that stands until one is drafted: the start of the first prompt.
pub fn title_for(content: &str, max_chars: usize) -> (r: String)
    ensures
        r@ == if text::trimmed(content@).len() == 0 {
            "Untitled session"@
        } else {
            start_of(content@, max_chars as nat)
        },
{
    if trim(content).is_empty() {
        "Untitled session".to_owned()
    } else {
        shorten(content, max_chars).to_owned()
    }
}

/// Puts a drafted title in the place of the one that the draft began from. A
/// title that was changed meanwhile stays. Returns whether it was put.
pub fn swap_title(title: &mut Option<String>, expected: &str, drafted: &str) -> (b: bool)
    ensures
        b == (views::opt_view(*old(title)) == Some(expected@)),
        b ==> views::opt_view(*final(title)) == Some(drafted@),
        !b ==> *final(title) == *old(title),
{
    let stands = match title {
        Some(t) => text::same(t.as_str(), expected),
        None => false,
    };
    if stands {
        *title = Some(drafted.to_owned());
    }
    stands
}

/// The provider and the model that draft titles: the ones asked for, else the
/// provider in use and its model for small tasks.
pub open spec fn title_model(
    ps: Seq<CatalogProvider>,
    connections: Connections,
    provider: Option<Seq<char>>,
    model: Option<Seq<char>>,
) -> Option<(Seq<char>, Seq<char>)> {
    let name = match provider {
        Some(n) => Some(n),
        None => match connections.active {
            Some(a) => Some(a.provider@),
            None => None,
        },
    };
    match name {
        None => None,
        Some(n) => match connections.provider(n) {
            None => None,
            Some(pc) => match model {
                Some(m) => Some((n, m)),
                None => match catalog::provider_with(ps, pc@.catalog_id()) {
                    None => None,
                    Some(p) => match catalog::small_model(p) {
                        Some(m) => Some((n, m)),
                        None => None,
                    },
                },
            },
        },
    }
}

/// The provider and the model that draft titles, unless the provider is not set
/// up, or no model was asked for and the catalog has none.
pub fn resolve_model(
    providers: &Vec<CatalogProvider>,
    connections: &Connections,
    provider: Option<&str>,
    model: Option<&str>,
) -> (r: Option<(String, String)>)
    ensures
        match title_model(
            providers@,
            *connections,
            text::opt_str(provider),
            text::opt_str(model),
        ) {
            Some((n, m)) => r matches Some((a, b)) && a@ == n && b@ == m,
            None => r is None,
        },
{
    let name = match provider {
        Some(n) => n,
        None => match &connections.active {
            Some(a) => a.provider.as_str(),
            None => return None,
        },
    };
    let pc = match connections.providers.get(name) {
        Some(pc) => pc,
        None => return None,
    };
    if let Some(m) = model {
        return Some((name.to_owned(), m.to_owned()));
    }
    let entry = match find_provider(providers, pc.catalog_id()) {
        Some(p) => p,
        None => return None,
    };
    match default_small_model(entry) {
        Some(m) => Some((name.to_owned(), m.to_owned())),
        None => None,
    }
}

}
