//! What holds of every summary that makes room, of the list of scenes, and of the
//! models that a provider lists.

use crate::catalog;
use crate::catalog::CatalogProvider;
use crate::compaction;
use crate::compaction_laws;
use crate::compaction_laws::lemma_transcript_holds_every_message;
use crate::core_task::compact;
use crate::core_task::compact::{SummaryPlan, SummaryStep};
use crate::core_task::request;
use crate::core_task::services;
use crate::core_task::target;
use crate::core_task::tree;
use crate::llm::ModelInfo;
use crate::scenes;
use crate::scenes::{SceneConfig, SceneListEntry};
use crate::session;
use crate::settings::{Connections, ProviderConfig};
use crate::stored;
use crate::stored::{StoredMessage, StoredSession};
use crate::text;
use crate::text_map;
use crate::tool_record;
use crate::views;
use vstd::prelude::*;

verus! {

/// Whether the plan is the one for the session: its span, its transcript, and the
/// messages around the cut.
pub open spec fn is_plan(
    p: SummaryPlan,
    st: StoredSession,
    estimates: Seq<u64>,
    keep: u64,
    start: int,
    cut: int,
) -> bool {
    let path = stored::active_path(st.messages@, st.leaf_id);
    let chain = stored::chain(st.messages@, stored::tip(st.messages@, st.leaf_id));
    &&& compaction::compaction_span(
        session::path_messages(st.messages@, path),
        compact::estimates_on(st.messages@, estimates, path),
        keep,
    ) == Some((start, cut))
    &&& compact::is_span_text(p.head_text@, st, path, chain, start, cut)
    &&& 0 < cut <= path.len()
    &&& p.parent == path[cut - 1]
    &&& p.reparent == if cut < path.len() {
        Some(path[cut])
    } else {
        None
    }
}

/// The message with the id on the path of the session.
pub open spec fn message_on(st: StoredSession, k: int) -> StoredMessage {
    st.messages@[stored::index_of(
        st.messages@,
        stored::active_path(st.messages@, st.leaf_id)[k],
    )->0]
}

/// Making room summarizes what stands on the active path between the last summary and a
/// tail: every message of that stretch is in the transcript, the summary comes below the
/// last of them, and the first message of the tail comes below the summary. The tail has
/// four messages at least.
pub proof fn lemma_summarized_messages_are_in_the_transcript(
    p: SummaryPlan,
    st: StoredSession,
    estimates: Seq<u64>,
    keep: u64,
    start: int,
    cut: int,
    k: int,
)
    requires
        is_plan(p, st, estimates, keep, start, cut),
        start <= k < cut,
    ensures
        ({
            let m = message_on(st, k);
            &&& m.summary ==> text::occurs(
                p.head_text@,
                compaction_laws::heading(m.role) + " (prior summary)\n"@ + m.content@,
            )
            &&& !m.summary ==> text::occurs(
                p.head_text@,
                compaction_laws::heading(m.role) + "\n"@ + compaction_laws::first_chars(
                    m.content@,
                    2000,
                ),
            )
        }),
        ({
            let path = stored::active_path(st.messages@, st.leaf_id);
            &&& 0 <= start < cut <= path.len() - 4
            &&& p.parent == path[cut - 1]
            &&& p.reparent == Some(path[cut])
            &&& start > 0 ==> message_on(st, start).summary
            &&& forall|i: int|
                start < i < path.len() ==> !(#[trigger] message_on(st, i)).summary
        }),
{
    let path = stored::active_path(st.messages@, st.leaf_id);
    let chain = stored::chain(st.messages@, stored::tip(st.messages@, st.leaf_id));
    let pm = session::path_messages(st.messages@, path);
    let es = compact::estimates_on(st.messages@, estimates, path);
    compaction::lemma_compaction_span(pm, es, keep);
    assert forall|i: int| start < i < path.len() implies !(#[trigger] message_on(
        st,
        i,
    )).summary by {
        assert(pm[i] == message_on(st, i));
        assert(!pm[i].summary);
    }
    let (ms, rs) = choose|ms: Seq<StoredMessage>, rs: Seq<tool_record::ToolRecord>|
        #[trigger] views::views(ms) == tree::prefix_views(st.messages@, path).subrange(start, cut)
            && #[trigger] views::views(rs) == tool_record::records_on(
            st.tool_calls@,
            chain,
            start,
            cut,
        ) && p.head_text@ == compaction::transcript(
            ms,
            rs,
            compaction::argument_paths(rs),
            start,
        );
    let i = k - start;
    let pv = tree::prefix_views(st.messages@, path);
    assert(views::views(ms).len() == ms.len());
    assert(views::views(ms)[i] == ms[i]@);
    assert(pv.subrange(start, cut)[i] == pv[k]);
    assert(pv[k] == message_on(st, k)@);
    lemma_transcript_holds_every_message(ms, rs, compaction::argument_paths(rs), start, i);
}

/// The summarizer is announced before it works, and called done after it, and it is given
/// the transcript. With nothing to summarize nothing happens.
pub proof fn lemma_summarizer_works_between_its_signs(
    plan: Option<SummaryPlan>,
    r: Seq<SummaryStep>,
)
    requires
        views::views(r) == match plan {
            Some(p) => compact::framed(p.head_text@),
            None => Seq::empty(),
        },
    ensures
        plan is None ==> r.len() == 0,
        plan is Some ==> {
            &&& r.len() == 3
            &&& r[0] is CompactionStarted
            &&& r[1] matches SummaryStep::Summarize { preamble, task } && preamble@
                == compaction::SUMMARY_PREAMBLE@ && text::occurs(
                task@,
                "\n---\n"@ + plan->0.head_text@ + "\n---"@,
            )
            &&& r[2] is CompactionFinished
        },
{
    let v = views::views(r);
    assert(v.len() == r.len());
    if plan is Some {
        let head = plan->0.head_text@;
        assert(v[0] == r[0]@ && v[1] == r[1]@ && v[2] == r[2]@);
        compaction_laws::lemma_task_holds_the_transcript(head);
    }
}

proof fn lemma_rows(s: Seq<(Seq<char>, SceneConfig)>, i: int)
    requires
        0 <= i < s.len(),
    ensures
        request::scene_rows(s).len() == s.len() + 1,
        request::scene_rows(s)[0] == request::scene_rows(Seq::empty())[0],
        request::scene_rows(s)[i + 1] == (scenes::SceneRow {
            id: Some(s[i].0),
            name: s[i].0,
            description: text::opt_text(s[i].1.description),
            switchable: scenes::has_content(s[i].1.system_prompts.interlude),
        }),
    decreases s.len(),
{
    let d = s.drop_last();
    if d.len() > 0 {
        if i < d.len() {
            assert(d[i] == s[i]);
            lemma_rows(d, i);
        } else {
            lemma_rows(d, 0);
        }
    } else {
        assert(d =~= Seq::empty());
        assert(request::scene_rows(d).len() == 1);
    }
}

/// The list of scenes begins with the default one, which can always be switched to, and
/// then has each scene by its name, with its description. One can be switched to exactly
/// if it says something on the way.
pub proof fn lemma_every_scene_is_listed(
    s: Seq<(Seq<char>, SceneConfig)>,
    r: Seq<SceneListEntry>,
    i: int,
)
    requires
        views::views(r) == request::scene_rows(s),
        0 <= i < s.len(),
    ensures
        r.len() == s.len() + 1,
        r[0].id is None && r[0].switchable,
        r[i + 1].id is Some && r[i + 1].id->0@ == s[i].0,
        r[i + 1].name@ == s[i].0,
        text::opt_text(r[i + 1].description) == text::opt_text(s[i].1.description),
        ({
            let interlude = s[i].1.system_prompts.interlude;
            r[i + 1].switchable <==> interlude is Some && text::trimmed(interlude->0@).len() > 0
        }),
{
    lemma_rows(s, i);
    let v = views::views(r);
    assert(v.len() == r.len());
    assert(v[0] == r[0]@);
    assert(v[i + 1] == r[i + 1]@);
}

/// What a provider says of a model's context counts, though the catalog says otherwise.
/// Where it says nothing, the catalog is asked, and a length below nothing counts as none.
pub proof fn lemma_listed_length_comes_first(entry: Option<CatalogProvider>, m: ModelInfo)
    ensures
        m.context_length is Some ==> services::listed_length(entry, m) == m.context_length,
        m.context_length is None && entry is None ==> services::listed_length(entry, m) is None,
        m.context_length is None && entry is Some ==> match catalog::model_named(
            entry->0.models@,
            m.id@,
        ) {
            None => services::listed_length(entry, m) is None,
            Some(c) => match c.context {
                None => services::listed_length(entry, m) is None,
                Some(n) => services::listed_length(entry, m) == Some(
                    if n < 0 {
                        0u32
                    } else {
                        n as u32
                    },
                ),
            },
        },
{
}

/// A provider is looked up in the catalog by the entry that it names, or else by its kind.
pub proof fn lemma_provider_has_its_entry(
    connections: Connections,
    ps: Seq<CatalogProvider>,
    name: Seq<char>,
    p: ProviderConfig,
)
    requires
        text_map::lookup(connections.providers@, name) == Some(p),
    ensures
        target::entry_of(text_map::viewed(connections.providers@), ps, name)
            == catalog::provider_with(
            ps,
            if p.catalog is Some {
                p.catalog->0@
            } else {
                p.kind@
            },
        ),
{
    text_map::lemma_viewed_lookup(connections.providers@, name);
}

/// A provider that is not set up has no entry in the catalog.
pub proof fn lemma_unknown_provider_has_no_entry(
    connections: Connections,
    ps: Seq<CatalogProvider>,
    name: Seq<char>,
)
    requires
        text_map::lookup(connections.providers@, name) is None,
    ensures
        target::entry_of(text_map::viewed(connections.providers@), ps, name) is None,
{
    text_map::lemma_viewed_lookup(connections.providers@, name);
}

}
