//! What holds of every search by words and by meaning, and of the shell and the
//! places in a file that people are told of.

use crate::config::EmbeddingConfig;
use crate::connections::Connections;
use crate::embeddings;
use crate::embeddings::{EmbeddingProvider, HitRanks};
use crate::error;
use crate::question;
use crate::question::QuestionPrompt;
use crate::shell;
use crate::shell::{ShellFacts, ShellKind};
use crate::text;
use crate::text_map;
use crate::views;
use vstd::prelude::*;

verus! {

/// Whether these are the messages that the two searches found.
pub open spec fn are_hits(r: Seq<HitRanks>, words: Seq<u64>, meaning: Seq<u64>) -> bool {
    let hits = embeddings::ranked(words, meaning);
    let places = embeddings::first_places(hits, hits.len() as int);
    &&& r.len() == places.len()
    &&& forall|i: int|
        0 <= i < r.len() ==> embeddings::is_hit(#[trigger] r[i], hits, places[i])
}

spec fn comes_up(hits: Seq<(u64, u64)>, ps: Seq<int>, id: u64) -> bool {
    exists|i: int| 0 <= i < ps.len() && hits[#[trigger] ps[i]].0 == id
}

proof fn lemma_places(hits: Seq<(u64, u64)>, n: int)
    requires
        0 <= n <= hits.len(),
    ensures
        forall|i: int|
            0 <= i < embeddings::first_places(hits, n).len() ==> 0
                <= #[trigger] embeddings::first_places(hits, n)[i] < n,
        forall|i: int, j: int|
            0 <= i < j < embeddings::first_places(hits, n).len() ==> hits[
                #[trigger] embeddings::first_places(hits, n)[i]
            ].0 != hits[#[trigger] embeddings::first_places(hits, n)[j]].0,
    decreases n,
{
    if n > 0 {
        lemma_places(hits, n - 1);
        let before = embeddings::first_places(hits, n - 1);
        let ps = embeddings::first_places(hits, n);
        if ps.len() > before.len() {
            assert forall|i: int, j: int| 0 <= i < j < ps.len() implies hits[#[trigger] ps[i]].0
                != hits[#[trigger] ps[j]].0 by {
                assert(ps[i] == before[i]);
                if j < before.len() {
                    assert(ps[j] == before[j]);
                } else {
                    assert(0 <= before[i] < n - 1);
                    assert(hits[before[i]].0 != hits[n - 1].0);
                }
            }
        }
    }
}

proof fn lemma_comes_up(hits: Seq<(u64, u64)>, n: int, k: int)
    requires
        0 <= k < n <= hits.len(),
    ensures
        comes_up(hits, embeddings::first_places(hits, n), hits[k].0),
    decreases n,
{
    let before = embeddings::first_places(hits, n - 1);
    let ps = embeddings::first_places(hits, n);
    if k < n - 1 {
        lemma_comes_up(hits, n - 1, k);
        let i = choose|i: int| 0 <= i < before.len() && hits[#[trigger] before[i]].0 == hits[k].0;
        assert(ps[i] == before[i]);
    } else if exists|j: int| 0 <= j < n - 1 && (#[trigger] hits[j]).0 == hits[n - 1].0 {
        let j = choose|j: int| 0 <= j < n - 1 && (#[trigger] hits[j]).0 == hits[n - 1].0;
        lemma_comes_up(hits, n - 1, j);
    } else {
        assert(hits[ps[ps.len() - 1]].0 == hits[k].0);
    }
}

proof fn lemma_ranks(hits: Seq<(u64, u64)>, id: u64)
    ensures
        forall|k: int|
            0 <= k < hits.len() && hits[k].0 == id ==> embeddings::ranks_of(hits, id).contains(
                (#[trigger] hits[k]).1,
            ),
        forall|i: int|
            0 <= i < embeddings::ranks_of(hits, id).len() ==> ranked_so(
                hits,
                id,
                #[trigger] embeddings::ranks_of(hits, id)[i],
            ),
    decreases hits.len(),
{
    if hits.len() > 0 {
        let d = hits.drop_last();
        lemma_ranks(d, id);
        let before = embeddings::ranks_of(d, id);
        let after = embeddings::ranks_of(hits, id);
        assert forall|k: int| 0 <= k < hits.len() && hits[k].0 == id implies after.contains(
            (#[trigger] hits[k]).1,
        ) by {
            if k < d.len() {
                assert(d[k] == hits[k]);
                assert(before.contains(d[k].1));
                let i = choose|i: int| 0 <= i < before.len() && before[i] == d[k].1;
                assert(after[i] == hits[k].1);
            } else {
                assert(after[after.len() - 1] == hits[k].1);
            }
        }
        assert forall|i: int| 0 <= i < after.len() implies ranked_so(
            hits,
            id,
            #[trigger] after[i],
        ) by {
            if i < before.len() {
                assert(after[i] == before[i]);
                assert(ranked_so(d, id, before[i]));
                let k = choose|k: int|
                    0 <= k < d.len() && (#[trigger] d[k]).0 == id && d[k].1 == before[i];
                assert(hits[k] == d[k]);
            } else {
                assert(hits[hits.len() - 1].1 == after[i]);
            }
        }
    }
}

spec fn ranked_so(hits: Seq<(u64, u64)>, id: u64, rank: u64) -> bool {
    exists|k: int| 0 <= k < hits.len() && (#[trigger] hits[k]).0 == id && hits[k].1 == rank
}

/// Each message that either search found comes up once, and nothing else does. It is
/// scored by its places in the two searches, each counted from nothing.
pub proof fn lemma_each_hit_comes_up_once(r: Seq<HitRanks>, words: Seq<u64>, meaning: Seq<u64>)
    requires
        are_hits(r, words, meaning),
        words.len() + meaning.len() <= usize::MAX,
    ensures
        forall|i: int, j: int|
            0 <= i < j < r.len() ==> (#[trigger] r[i]).id != (#[trigger] r[j]).id,
        forall|k: int|
            0 <= k < words.len() ==> has_rank(r, #[trigger] words[k], k as u64),
        forall|k: int|
            0 <= k < meaning.len() ==> has_rank(r, #[trigger] meaning[k], k as u64),
        forall|i: int, n: int|
            0 <= i < r.len() && 0 <= n < r[i].ranks@.len() ==> is_rank(
                words,
                meaning,
                r[i].id,
                #[trigger] r[i].ranks@[n],
            ),
{
    let hits = embeddings::ranked(words, meaning);
    let places = embeddings::first_places(hits, hits.len() as int);
    lemma_places(hits, hits.len() as int);
    assert forall|i: int, j: int| 0 <= i < j < r.len() implies (#[trigger] r[i]).id != (
    #[trigger] r[j]).id by {
        assert(embeddings::is_hit(r[i], hits, places[i]));
        assert(embeddings::is_hit(r[j], hits, places[j]));
        assert(hits[places[i]].0 != hits[places[j]].0);
    }
    assert forall|k: int| 0 <= k < words.len() implies has_rank(
        r,
        #[trigger] words[k],
        k as u64,
    ) by {
        lemma_found(r, words, meaning, k);
    }
    assert forall|k: int| 0 <= k < meaning.len() implies has_rank(
        r,
        #[trigger] meaning[k],
        k as u64,
    ) by {
        lemma_found(r, words, meaning, words.len() + k);
    }
    assert forall|i: int, n: int| 0 <= i < r.len() && 0 <= n < r[i].ranks@.len() implies is_rank(
        words,
        meaning,
        r[i].id,
        #[trigger] r[i].ranks@[n],
    ) by {
        assert(embeddings::is_hit(r[i], hits, places[i]));
        lemma_ranks(hits, r[i].id);
        let rank = r[i].ranks@[n];
        assert(ranked_so(hits, r[i].id, rank));
        let k = choose|k: int|
            0 <= k < hits.len() && (#[trigger] hits[k]).0 == r[i].id && hits[k].1 == rank;
    }
}

/// Whether one of the two searches has the message at the rank.
pub open spec fn is_rank(words: Seq<u64>, meaning: Seq<u64>, id: u64, rank: u64) -> bool {
    ||| rank < words.len() && words[rank as int] == id
    ||| rank < meaning.len() && meaning[rank as int] == id
}

/// Whether the message is among those that came up, with the rank.
pub open spec fn has_rank(r: Seq<HitRanks>, id: u64, rank: u64) -> bool {
    exists|i: int| 0 <= i < r.len() && (#[trigger] r[i]).id == id && r[i].ranks@.contains(rank)
}

proof fn lemma_found(r: Seq<HitRanks>, words: Seq<u64>, meaning: Seq<u64>, k: int)
    requires
        are_hits(r, words, meaning),
        0 <= k < words.len() + meaning.len(),
    ensures
        ({
            let hit = embeddings::ranked(words, meaning)[k];
            has_rank(r, hit.0, hit.1)
        }),
{
    let hits = embeddings::ranked(words, meaning);
    let places = embeddings::first_places(hits, hits.len() as int);
    lemma_places(hits, hits.len() as int);
    lemma_comes_up(hits, hits.len() as int, k);
    let i = choose|i: int| 0 <= i < places.len() && hits[#[trigger] places[i]].0 == hits[k].0;
    assert(embeddings::is_hit(r[i], hits, places[i]));
    lemma_ranks(hits, r[i].id);
    assert(r[i].ranks@.contains(hits[k].1));
}

/// Exactly the texts of up to 8000 characters are embedded, in their order: a text
/// that is put to a list comes last, if it is short enough.
pub proof fn lemma_short_texts_are_embedded(contents: Seq<Seq<char>>, content: Seq<char>)
    ensures
        embeddings::short_texts(contents.push(content)) == if content.len() <= 8000 {
            embeddings::short_texts(contents).push(content)
        } else {
            embeddings::short_texts(contents)
        },
        embeddings::short_texts(Seq::empty()) == Seq::<Seq<char>>::empty(),
        embeddings::is_embedded(content) <==> content.len() <= 8000,
{
    assert(contents.push(content).drop_last() =~= contents);
}

/// The length of a vector is that of the model that is taken where none is set.
pub proof fn lemma_defaults_fit_together(kind: EmbeddingProvider)
    ensures
        embeddings::model_for(kind) == "nomic-embed-text"@ ==> embeddings::dims_for(kind) == 768,
        embeddings::model_for(kind) == "text-embedding-3-small"@ || embeddings::model_for(kind)
            == "gemini-embedding-001"@ ==> embeddings::dims_for(kind) == 1536,
        kind == EmbeddingProvider::Gemini ==> embeddings::model_for(kind)
            == "gemini-embedding-001"@,
        kind == EmbeddingProvider::Other ==> embeddings::model_for(kind)
            == "text-embedding-3-small"@,
        kind == EmbeddingProvider::Ollama || kind == EmbeddingProvider::OllamaCloud
            ==> embeddings::model_for(kind) == "nomic-embed-text"@,
{
    reveal_strlit("nomic-embed-text");
    reveal_strlit("text-embedding-3-small");
    reveal_strlit("gemini-embedding-001");
    assert("nomic-embed-text"@.len() == 16);
    assert("text-embedding-3-small"@.len() == 22);
    assert("gemini-embedding-001"@.len() == 20);
}

/// What follows the last separator of a path is the file name, and the directories
/// before it make no difference.
pub proof fn lemma_file_name_follows_the_separators(dir: Seq<char>, c: char, name: Seq<char>)
    requires
        c == '/' || c == '\\',
        !name.contains('/'),
        !name.contains('\\'),
    ensures
        shell::file_name(dir.push(c) + name) == name,
        shell::file_name(name) == name,
    decreases name.len(),
{
    let whole = dir.push(c) + name;
    if name.len() == 0 {
        assert(whole =~= dir.push(c));
        assert(name =~= Seq::empty());
    } else {
        let d = name.drop_last();
        assert forall|i: int| 0 <= i < d.len() implies d[i] != '/' && d[i] != '\\' by {
            assert(name.contains(name[i]));
        }
        lemma_file_name_follows_the_separators(dir, c, d);
        assert(whole.drop_last() =~= dir.push(c) + d);
        assert(name.contains(name.last()));
        assert(d.push(name.last()) =~= name);
    }
}

/// A shell is a PowerShell exactly if its name says so, and an ending for executables
/// makes no difference.
pub proof fn lemma_power_shell_is_known_by_its_name(name: Seq<char>)
    requires
        !text::has_suffix(name, ".exe"@),
    ensures
        shell::kind_named(name) == ShellKind::PowerShell <==> name == "pwsh"@ || text::occurs(
            name,
            "powershell"@,
        ),
        shell::kind_named(name + ".exe"@) == shell::kind_named(name),
{
    reveal_strlit(".exe");
    let long = name + ".exe"@;
    assert(long.skip(long.len() - 4) =~= ".exe"@);
    assert(long.take(long.len() - 4) =~= name);
}

proof fn lemma_first_runnable(cs: Seq<(String, bool)>, i: int)
    requires
        0 <= i <= cs.len(),
    ensures
        match shell::first_runnable(cs, i) {
            Some(p) => exists|k: int|
                i <= k < cs.len() && #[trigger] cs[k].1 && cs[k].0@ == p && forall|j: int|
                    i <= j < k ==> !(#[trigger] cs[j]).1,
            None => forall|j: int| i <= j < cs.len() ==> !(#[trigger] cs[j]).1,
        },
    decreases cs.len() - i,
{
    if i < cs.len() {
        if cs[i].1 {
            assert(cs[i].0@ == shell::first_runnable(cs, i)->0);
        } else {
            lemma_first_runnable(cs, i + 1);
            if shell::first_runnable(cs, i) is Some {
                let p = shell::first_runnable(cs, i)->0;
                let k = choose|k: int|
                    i + 1 <= k < cs.len() && #[trigger] cs[k].1 && cs[k].0@ == p && forall|j: int|
                        i + 1 <= j < k ==> !(#[trigger] cs[j]).1;
                assert(cs[k].1);
            }
        }
    }
}

/// A path that can be run is the shell, though others are in the search path. Else it
/// is the first in the search path that can be run; there is none exactly if none
/// can be.
pub proof fn lemma_first_shell_is_taken(facts: ShellFacts, name: Seq<char>)
    ensures
        facts.is_path && facts.runnable ==> facts.path(name) == Some(name),
        !(facts.is_path && facts.runnable) ==> match facts.path(name) {
            Some(p) => exists|k: int|
                0 <= k < facts.candidates@.len() && (#[trigger] facts.candidates@[k]).1
                    && facts.candidates@[k].0@ == p && forall|j: int|
                    0 <= j < k ==> !(#[trigger] facts.candidates@[j]).1,
            None => forall|j: int|
                0 <= j < facts.candidates@.len() ==> !(#[trigger] facts.candidates@[j]).1,
        },
{
    let cs = facts.candidates@;
    lemma_first_runnable(cs, 0);
    if shell::first_runnable(cs, 0) is Some {
        let p = shell::first_runnable(cs, 0)->0;
        let k = choose|k: int|
            0 <= k < cs.len() && #[trigger] cs[k].1 && cs[k].0@ == p && forall|j: int|
                0 <= j < k ==> !(#[trigger] cs[j]).1;
        assert(cs[k].1);
    }
}

/// The default shell is the first that was found, and the last resort only where none
/// was.
pub proof fn lemma_default_shell_is_the_first_found(
    found: Seq<Option<String>>,
    last_resort: Seq<char>,
    k: int,
)
    requires
        0 <= k <= found.len(),
        forall|j: int| 0 <= j < k ==> (#[trigger] found[j]) is None,
    ensures
        k < found.len() && found[k] is Some ==> shell::default_path(found, last_resort)
            == found[k]->0@,
        k == found.len() ==> shell::default_path(found, last_resort) == last_resort,
{
    lemma_first_found(found, 0, k);
}

proof fn lemma_first_found(found: Seq<Option<String>>, i: int, k: int)
    requires
        0 <= i <= k <= found.len(),
        forall|j: int| 0 <= j < k ==> (#[trigger] found[j]) is None,
    ensures
        shell::first_found(found, i) == shell::first_found(found, k),
    decreases k - i,
{
    if i < k {
        assert(found[i] is None);
        lemma_first_found(found, i + 1, k);
    }
}

proof fn lemma_breaks_concat(a: Seq<char>, b: Seq<char>)
    ensures
        error::breaks(a + b) == error::breaks(a) + error::breaks(b),
        !b.contains('\n') ==> error::breaks(b) == 0,
    decreases b.len(),
{
    if b.len() == 0 {
        assert(a + b =~= a);
    } else {
        let d = b.drop_last();
        lemma_breaks_concat(a, d);
        assert((a + b).drop_last() =~= a + d);
        if !b.contains('\n') {
            assert(b.contains(b.last()));
            assert forall|i: int| 0 <= i < d.len() implies d[i] != '\n' by {
                assert(b.contains(b[i]));
            }
        }
    }
}

proof fn lemma_after_break(a: Seq<char>, b: Seq<char>)
    requires
        !b.contains('\n'),
        a.len() == 0 || a.last() == '\n',
    ensures
        error::after_break(a + b) == b.len(),
    decreases b.len(),
{
    if b.len() == 0 {
        assert(a + b =~= a);
    } else {
        let d = b.drop_last();
        assert forall|i: int| 0 <= i < d.len() implies d[i] != '\n' by {
            assert(b.contains(b[i]));
        }
        lemma_after_break(a, d);
        assert((a + b).drop_last() =~= a + d);
        assert(b.contains(b.last()));
    }
}

/// Lines and columns are counted from one. A place on the first line has as its column
/// one more than the characters before it, and each line break before a place makes
/// its line one more.
pub proof fn lemma_places_are_counted_from_one(
    lines: Seq<char>,
    line: Seq<char>,
    rest: Seq<char>,
)
    requires
        !line.contains('\n'),
        lines.len() + line.len() + rest.len() + 2 <= usize::MAX,
    ensures
        error::line_column(line + rest, line.len()) == (1nat, line.len() + 1),
        ({
            let input = lines.push('\n') + line + rest;
            let at = error::line_column(input, lines.len() + 1 + line.len());
            &&& at.1 == line.len() + 1
            &&& at.0 == error::line_column(lines, lines.len()).0 + 1
        }),
{
    let first = line + rest;
    assert(first.take(line.len() as int) =~= line);
    let none = Seq::<char>::empty();
    assert(none + line =~= line);
    lemma_breaks_concat(none, line);
    lemma_after_break(none, line);
    let input = lines.push('\n') + line + rest;
    let n = lines.len() + 1 + line.len();
    assert(input.take(n as int) =~= lines.push('\n') + line);
    lemma_breaks_concat(lines.push('\n'), line);
    lemma_after_break(lines.push('\n'), line);
    assert(lines.push('\n').drop_last() =~= lines);
    assert(lines.take(lines.len() as int) =~= lines);
    lemma_breaks_bound(lines);
}

proof fn lemma_breaks_bound(s: Seq<char>)
    ensures
        error::breaks(s) <= s.len(),
    decreases s.len(),
{
    if s.len() > 0 {
        lemma_breaks_bound(s.drop_last());
    }
}

/// The provider that is set embeds, and else the one in use, if embedding is on and the
/// provider is known. One that is set and not known is not replaced by the one in use.
pub proof fn lemma_set_provider_embeds(
    config: EmbeddingConfig,
    connections: Connections,
    r: Option<String>,
)
    requires
        views::opt_view(r) == embeddings::embedding_provider(config, connections),
    ensures
        config.disabled ==> r is None,
        ({
            let asked = if config.provider is Some {
                config.provider
            } else {
                connections.active_provider
            };
            let known = asked is Some && text_map::lookup(
                connections.providers@,
                asked->0@,
            ) is Some;
            &&& !config.disabled && known ==> r is Some && r->0@ == asked->0@
            &&& !known ==> r is None
        }),
{
}

/// Questions can be asked exactly if there are some, and each can be answered: by an
/// option or by words of the user's own.
pub proof fn lemma_questions_can_be_answered(qs: Seq<QuestionPrompt>)
    ensures
        question::question_fault(qs) is None <==> qs.len() > 0 && forall|i: int|
            0 <= i < qs.len() ==> (#[trigger] qs[i]).options@.len() > 0 || qs[i].custom,
{
    if qs.len() > 0 && (forall|i: int|
        0 <= i < qs.len() ==> (#[trigger] qs[i]).options@.len() > 0 || qs[i].custom) {
        assert forall|i: int| 0 <= i < qs.len() implies question::answerable(
            #[trigger] qs[i],
        ) by {
            assert(qs[i].options@.len() > 0 || qs[i].custom);
        }
    } else if question::question_fault(qs) is None {
        let i = choose|i: int|
            0 <= i < qs.len() && !((#[trigger] qs[i]).options@.len() > 0 || qs[i].custom);
        assert(!question::answerable(qs[i]));
    }
}

/// The kind of a shell does not rest on the directory that it stands in, nor on whether
/// its name is written in capitals.
pub proof fn lemma_kind_rests_on_the_name_alone(
    dir: Seq<char>,
    name: Seq<char>,
    kind: ShellKind,
)
    requires
        !name.contains('/'),
        !name.contains('\\'),
        forall|i: int| 0 <= i < name.len() ==> #[trigger] name[i] <= '\u{7f}',
        shell::is_kind_of(kind, dir.push('/') + name),
    ensures
        (forall|i: int| 0 <= i < name.len() ==> !('A' <= #[trigger] name[i] <= 'Z')) ==> kind
            == shell::kind_named(name),
        forall|other: Seq<char>|
            other.len() == name.len() && (forall|i: int|
                0 <= i < name.len() ==> in_small(#[trigger] name[i]) == other[i]) ==> kind
                == #[trigger] shell::kind_named(other),
{
    lemma_file_name_follows_the_separators(dir, '/', name);
    let lower = name.map_values(|c: char| shell::ascii_lower(c));
    if forall|i: int| 0 <= i < name.len() ==> !('A' <= #[trigger] name[i] <= 'Z') {
        assert forall|i: int| 0 <= i < name.len() implies lower[i] == name[i] by {
            assert(!('A' <= name[i] <= 'Z'));
        }
        assert(lower =~= name);
    }
    assert forall|other: Seq<char>|
        other.len() == name.len() && (forall|i: int|
            0 <= i < name.len() ==> in_small(#[trigger] name[i]) == other[i]) implies kind
        == #[trigger] shell::kind_named(other) by {
        assert forall|i: int| 0 <= i < name.len() implies lower[i] == other[i] by {
            assert(in_small(name[i]) == other[i]);
        }
        assert(lower =~= other);
    }
}

/// The character with a capital letter made small.
pub open spec fn in_small(c: char) -> char {
    if c == 'A' {
        'a'
    } else if 'A' < c <= 'Z' {
        ((c as u32 - 'A' as u32) + 'a' as u32) as char
    } else {
        c
    }
}

}
