//! The embedding of messages, so that they can be found by meaning.

use crate::config::EmbeddingConfig;
use crate::connections::Connections;
use crate::text;
use crate::text_map;
use crate::views;
use vstd::prelude::*;

verus! {

/// The most characters of a text that is embedded.
pub const MAX_TEXT_CHARS: usize = 8_000;

/// How many messages are embedded at once.
pub const BATCH_SIZE: u64 = 64;

/// The providers whose defaults differ.
#[derive(Debug, Clone, Copy, PartialEq, Eq, Structural)]
pub enum EmbeddingProvider {
    Ollama,
    OllamaCloud,
    Gemini,
    Other,
}

/// The model that embeds, where none is set.
pub open spec fn model_for(kind: EmbeddingProvider) -> Seq<char> {
    match kind {
        EmbeddingProvider::Ollama => "nomic-embed-text"@,
        EmbeddingProvider::OllamaCloud => "nomic-embed-text"@,
        EmbeddingProvider::Gemini => "gemini-embedding-001"@,
        EmbeddingProvider::Other => "text-embedding-3-small"@,
    }
}

/// How long a vector is, where nothing is set.
pub open spec fn dims_for(kind: EmbeddingProvider) -> usize {
    match kind {
        EmbeddingProvider::Ollama => 768,
        EmbeddingProvider::OllamaCloud => 768,
        _ => 1536,
    }
}

/// The model that embeds, where none is set.
pub fn default_model(kind: EmbeddingProvider) -> (r: String)
    ensures
        r@ == model_for(kind),
{
    match kind {
        EmbeddingProvider::Ollama => "nomic-embed-text".to_owned(),
        EmbeddingProvider::OllamaCloud => "nomic-embed-text".to_owned(),
        EmbeddingProvider::Gemini => "gemini-embedding-001".to_owned(),
        EmbeddingProvider::Other => "text-embedding-3-small".to_owned(),
    }
}

/// How long a vector is, where nothing is set.
pub fn default_dims(kind: EmbeddingProvider) -> (r: usize)
    ensures
        r == dims_for(kind),
{
    match kind {
        EmbeddingProvider::Ollama => 768,
        EmbeddingProvider::OllamaCloud => 768,
        _ => 1536,
    }
}

/// The name of the provider that embeds: the one set, else the one in use, if
/// embedding is on and the provider is set up.
pub open spec fn embedding_provider(
    config: EmbeddingConfig,
    connections: Connections,
) -> Option<Seq<char>> {
    let name = match config.provider {
        Some(p) => Some(p@),
        None => views::opt_view(connections.active_provider),
    };
    match name {
        Some(n) => if !config.disabled && text_map::lookup(connections.providers@, n) is Some {
            Some(n)
        } else {
            None
        },
        None => None,
    }
}

/// The name of the provider that embeds.
pub fn choose_provider(config: &EmbeddingConfig, connections: &Connections) -> (r: Option<String>)
    ensures
        views::opt_view(r) == embedding_provider(*config, *connections),
{
    if config.disabled {
        return None;
    }
    let name = match &config.provider {
        Some(p) => p,
        None => match &connections.active_provider {
            Some(p) => p,
            None => return None,
        },
    };
    if connections.providers.get(name.as_str()).is_some() {
        Some(name.clone())
    } else {
        None
    }
}

/// The model that embeds and how long its vectors are, if the provider embeds
/// at all: what is set, else the provider's defaults.
pub fn setup(
    config: &EmbeddingConfig,
    kind: EmbeddingProvider,
    supports_embeddings: bool,
) -> (r: Option<(String, usize)>)
    ensures
        supports_embeddings <==> r is Some,
        r matches Some((model, dims)) ==> {
            &&& model@ == (match config.model {
                Some(m) => m@,
                None => model_for(kind),
            })
            &&& dims == (match config.dimensions {
                Some(d) => d as usize,
                None => dims_for(kind),
            })
        },
{
    if !supports_embeddings {
        return None;
    }
    let model = match &config.model {
        Some(m) => m.clone(),
        None => default_model(kind),
    };
    let dims: usize = match config.dimensions {
        Some(d) => d as usize,
        None => default_dims(kind),
    };
    Some((model, dims))
}

/// Whether a text is short enough to be embedded.
pub open spec fn is_embedded(content: Seq<char>) -> bool {
    content.len() <= MAX_TEXT_CHARS
}

/// Whether a text is short enough to be embedded.
pub fn embeddable(content: &str) -> (b: bool)
    ensures
        b == is_embedded(content@),
{
    content.unicode_len() <= MAX_TEXT_CHARS
}

/// The texts that are short enough to be embedded.
pub open spec fn short_texts(contents: Seq<Seq<char>>) -> Seq<Seq<char>>
    decreases contents.len(),
{
    if contents.len() == 0 {
        contents
    } else if is_embedded(contents.last()) {
        short_texts(contents.drop_last()).push(contents.last())
    } else {
        short_texts(contents.drop_last())
    }
}

/// The texts of a batch that are embedded.
pub fn batch_texts(contents: &Vec<String>) -> (r: Vec<String>)
    ensures
        text::texts(r@) == short_texts(text::texts(contents@)),
{
    let ghost all = text::texts(contents@);
    let mut out: Vec<String> = Vec::new();
    let mut i: usize = 0;
    proof {
        assert(text::texts(out@) =~= short_texts(all.take(0)));
    }
    while i < contents.len()
        invariant
            all == text::texts(contents@),
            i <= contents@.len(),
            text::texts(out@) =~= short_texts(all.take(i as int)),
        decreases contents@.len() - i,
    {
        proof {
            assert(all.take(i + 1).drop_last() =~= all.take(i as int));
            assert(all.take(i + 1).last() == contents@[i as int]@);
        }
        let ghost before = out@;
        if embeddable(contents[i].as_str()) {
            let x = contents[i].clone();
            out.push(x);
            proof {
                assert(text::texts(out@) =~= text::texts(before).push(x@));
            }
        }
        i += 1;
    }
    proof {
        assert(all.take(i as int) =~= all);
    }
    out
}

/// The messages of a batch that a vector is stored for: one each for the short
/// ones, in order, as far as there are vectors.
pub open spec fn vector_places(contents: Seq<Seq<char>>, vectors: nat) -> Seq<(int, int)>
    decreases contents.len(),
{
    if contents.len() == 0 {
        Seq::empty()
    } else {
        let before = vector_places(contents.drop_last(), vectors);
        if is_embedded(contents.last()) && before.len() < vectors {
            before.push((contents.len() - 1, before.len() as int))
        } else {
            before
        }
    }
}

/// Which message of a batch each vector belongs to, as pairs of a message's
/// place and a vector's.
pub fn assign_vectors(contents: &Vec<String>, vectors: usize) -> (r: Vec<(usize, usize)>)
    ensures
        r@.len() == vector_places(text::texts(contents@), vectors as nat).len(),
        forall|i: int|
            0 <= i < r@.len() ==> {
                let p = #[trigger] vector_places(text::texts(contents@), vectors as nat)[i];
                r@[i].0 == p.0 && r@[i].1 == p.1
            },
{
    let ghost all = text::texts(contents@);
    let mut out: Vec<(usize, usize)> = Vec::new();
    let mut i: usize = 0;
    while i < contents.len()
        invariant
            all == text::texts(contents@),
            i <= contents@.len(),
            out@.len() == vector_places(all.take(i as int), vectors as nat).len(),
            forall|k: int|
                0 <= k < out@.len() ==> {
                    let p = #[trigger] vector_places(all.take(i as int), vectors as nat)[k];
                    out@[k].0 == p.0 && out@[k].1 == p.1
                },
        decreases contents@.len() - i,
    {
        proof {
            assert(all.take(i + 1).drop_last() =~= all.take(i as int));
            assert(all.take(i + 1).last() == contents@[i as int]@);
        }
        let next: usize = out.len();
        if embeddable(contents[i].as_str()) && next < vectors {
            out.push((i, next));
        }
        i += 1;
    }
    proof {
        assert(all.take(i as int) =~= all);
    }
    out
}

/// Every vector goes to the message whose text it was made from.
pub proof fn lemma_vectors_match_texts(contents: Seq<Seq<char>>, vectors: nat)
    ensures
        ({
            let places = vector_places(contents, vectors);
            let texts = short_texts(contents);
            &&& places.len() <= texts.len() && places.len() <= vectors
            &&& places.len() == vectors || places.len() == texts.len()
            &&& forall|i: int|
                0 <= i < places.len() ==> {
                    let p = #[trigger] places[i];
                    0 <= p.0 < contents.len() && p.1 == i && contents[p.0] == texts[i]
                }
        }),
    decreases contents.len(),
{
    if contents.len() > 0 {
        lemma_vectors_match_texts(contents.drop_last(), vectors);
        let places = vector_places(contents, vectors);
        let texts = short_texts(contents);
        let before = vector_places(contents.drop_last(), vectors);
        let fewer = short_texts(contents.drop_last());
        assert forall|i: int| 0 <= i < places.len() implies {
            let p = #[trigger] places[i];
            0 <= p.0 < contents.len() && p.1 == i && contents[p.0] == texts[i]
        } by {
            if i < before.len() {
                assert(places[i] == before[i]);
                assert(texts[i] == fewer[i]);
                assert(contents.drop_last()[before[i].0] == contents[before[i].0]);
            }
        }
    }
}

/// A message that a search found: where it was found first, and its ranks.
#[derive(Debug)]
pub struct HitRanks {
    pub id: u64,
    pub first: usize,
    pub ranks: Vec<u64>,
}

/// What two searches found, each message with its rank in its own search.
pub open spec fn ranked(words: Seq<u64>, meaning: Seq<u64>) -> Seq<(u64, u64)> {
    Seq::new(
        words.len() + meaning.len(),
        |i: int|
            if i < words.len() {
                (words[i], i as u64)
            } else {
                (meaning[i - words.len()], (i - words.len()) as u64)
            },
    )
}

/// Where each message is found first, in order.
pub open spec fn first_places(hits: Seq<(u64, u64)>, n: int) -> Seq<int>
    decreases n,
{
    if n <= 0 {
        Seq::empty()
    } else if exists|j: int| 0 <= j < n - 1 && (#[trigger] hits[j]).0 == hits[n - 1].0 {
        first_places(hits, n - 1)
    } else {
        first_places(hits, n - 1).push(n - 1)
    }
}

/// The ranks of a message.
pub open spec fn ranks_of(hits: Seq<(u64, u64)>, id: u64) -> Seq<u64>
    decreases hits.len(),
{
    if hits.len() == 0 {
        Seq::empty()
    } else if hits.last().0 == id {
        ranks_of(hits.drop_last(), id).push(hits.last().1)
    } else {
        ranks_of(hits.drop_last(), id)
    }
}

/// Whether this is the message at the place, with its ranks.
pub open spec fn is_hit(h: HitRanks, hits: Seq<(u64, u64)>, place: int) -> bool {
    &&& h.first == place
    &&& 0 <= place < hits.len()
    &&& h.id == hits[place].0
    &&& h.ranks@ == ranks_of(hits, h.id)
}

fn collect_ranks(hits: &Vec<(u64, u64)>, id: u64) -> (r: Vec<u64>)
    ensures
        r@ == ranks_of(hits@, id),
{
    let mut out: Vec<u64> = Vec::new();
    let mut i: usize = 0;
    while i < hits.len()
        invariant
            i <= hits@.len(),
            out@ == ranks_of(hits@.take(i as int), id),
        decreases hits@.len() - i,
    {
        proof {
            assert(hits@.take(i + 1).drop_last() =~= hits@.take(i as int));
        }
        if hits[i].0 == id {
            out.push(hits[i].1);
        }
        i += 1;
    }
    proof {
        assert(hits@.take(i as int) =~= hits@);
    }
    out
}

fn seen_before(hits: &Vec<(u64, u64)>, n: usize) -> (b: bool)
    requires
        n < hits@.len(),
    ensures
        b == exists|j: int| 0 <= j < n && (#[trigger] hits@[j]).0 == hits@[n as int].0,
{
    let mut i: usize = 0;
    while i < n
        invariant
            i <= n < hits@.len(),
            forall|j: int| 0 <= j < i ==> (#[trigger] hits@[j]).0 != hits@[n as int].0,
        decreases n - i,
    {
        if hits[i].0 == hits[n].0 {
            return true;
        }
        i += 1;
    }
    false
}

/// The messages that two searches found, each once and in the order in which
/// they come up, with the ranks that it is scored by.
pub fn hit_ranks(words: &Vec<u64>, meaning: &Vec<u64>) -> (r: Vec<HitRanks>)
    requires
        words@.len() + meaning@.len() <= usize::MAX,
    ensures
        ({
            let hits = ranked(words@, meaning@);
            let places = first_places(hits, hits.len() as int);
            &&& r@.len() == places.len()
            &&& forall|i: int| 0 <= i < r@.len() ==> is_hit(#[trigger] r@[i], hits, places[i])
        }),
{
    let ghost all = ranked(words@, meaning@);
    let mut hits: Vec<(u64, u64)> = Vec::new();
    let mut i: usize = 0;
    while i < words.len()
        invariant
            all == ranked(words@, meaning@),
            i <= words@.len(),
            hits@ =~= all.take(i as int),
        decreases words@.len() - i,
    {
        hits.push((words[i], i as u64));
        i += 1;
    }
    let mut k: usize = 0;
    while k < meaning.len()
        invariant
            all == ranked(words@, meaning@),
            k <= meaning@.len(),
            hits@ =~= all.take(words@.len() + k),
        decreases meaning@.len() - k,
    {
        hits.push((meaning[k], k as u64));
        k += 1;
    }
    proof {
        assert(hits@ =~= all);
    }
    let mut out: Vec<HitRanks> = Vec::new();
    let mut n: usize = 0;
    while n < hits.len()
        invariant
            hits@ == all,
            n <= hits@.len(),
            out@.len() == first_places(all, n as int).len(),
            forall|j: int|
                0 <= j < out@.len() ==> is_hit(
                    #[trigger] out@[j],
                    all,
                    first_places(all, n as int)[j],
                ),
        decreases hits@.len() - n,
    {
        if !seen_before(&hits, n) {
            let id: u64 = hits[n].0;
            let ranks = collect_ranks(&hits, id);
            out.push(HitRanks { id, first: n, ranks });
        }
        n += 1;
    }
    out
}

}
