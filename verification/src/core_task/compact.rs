//! Making room in a session whose history overflowed: the older part of its
//! active path gives way to a summary.

use crate::compaction;
use crate::compaction::{select_plan, serialize_head, summary_task, SUMMARY_PREAMBLE};
use crate::core_task::tree;
use crate::core_task::tree::{chain_of, messages_of};
use crate::session;
use crate::stored;
use crate::stored::{find_message, path_ids, StoredMessage, StoredSession};
use crate::tool_record;
use crate::tool_record::span_tool_records;
use crate::views;
use vstd::prelude::*;

verus! {

/// What making room does: summarize the transcript, add the summary under
/// `parent`, and make it the parent of `reparent`.
#[derive(Debug)]
pub struct SummaryPlan {
    pub head_text: String,
    pub parent: u64,
    pub reparent: Option<u64>,
}

/// The estimates of the messages on a path, given one for each message.
pub open spec fn estimates_on(
    ms: Seq<StoredMessage>,
    estimates: Seq<u64>,
    path: Seq<u64>,
) -> Seq<u64> {
    Seq::new(path.len(), |i: int| estimates[stored::index_of(ms, path[i])->0])
}

/// Whether the text is the transcript of the messages on the path from `start`
/// up to `cut`, with the tool calls that the chain places there.
pub open spec fn is_span_text(
    text: Seq<char>,
    st: StoredSession,
    path: Seq<u64>,
    chain: Seq<u64>,
    start: int,
    cut: int,
) -> bool {
    exists|ms: Seq<StoredMessage>, rs: Seq<tool_record::ToolRecord>| #[trigger]
        views::views(ms) == tree::prefix_views(st.messages@, path).subrange(start, cut)
            && #[trigger] views::views(rs) == tool_record::records_on(
            st.tool_calls@,
            chain,
            start,
            cut,
        ) && text == compaction::transcript(ms, rs, compaction::argument_paths(rs), start)
}

proof fn lemma_same_last_summary(a: Seq<StoredMessage>, b: Seq<StoredMessage>)
    requires
        views::views(a) == views::views(b),
    ensures
        compaction::last_summary(a) == compaction::last_summary(b),
    decreases a.len(),
{
    assert(views::views(a).len() == a.len() && views::views(b).len() == b.len());
    if a.len() > 0 {
        let (c, d) = (a.drop_last(), b.drop_last());
        assert(views::views(c) =~= views::views(a).drop_last());
        assert(views::views(d) =~= views::views(b).drop_last());
        lemma_same_last_summary(c, d);
        assert(views::views(a).last() == views::views(b).last());
        assert(a.last()@ == b.last()@);
    }
}

/// The messages from `start` up to `cut`.
fn span(ms: Vec<StoredMessage>, start: usize, cut: usize) -> (r: Vec<StoredMessage>)
    requires
        start <= cut <= ms@.len(),
    ensures
        r@ == ms@.subrange(start as int, cut as int),
{
    let mut head = ms;
    head.truncate(cut);
    let mut out: Vec<StoredMessage> = Vec::new();
    let ghost all = head@;
    while head.len() > start
        invariant
            start <= head@.len() <= all.len(),
            head@ =~= all.take(head@.len() as int),
            out@ =~= all.skip(head@.len() as int),
        decreases head@.len(),
    {
        let n: usize = head.len() - 1;
        let m = head.remove(n);
        out.insert(0, m);
    }
    out
}

/// What is done to make room, given an estimate of the tokens of each message
/// and how many of the newest are to be kept. There may be nothing to summarize.
pub fn plan_summary(
    st: &StoredSession,
    estimates: &Vec<u64>,
    keep_recent_tokens: u64,
) -> (r: Option<SummaryPlan>)
    requires
        estimates@.len() == st.messages@.len(),
    ensures
        ({
            let path = stored::active_path(st.messages@, st.leaf_id);
            let chain = stored::chain(st.messages@, stored::tip(st.messages@, st.leaf_id));
            match compaction::compaction_span(
                session::path_messages(st.messages@, path),
                estimates_on(st.messages@, estimates@, path),
                keep_recent_tokens,
            ) {
                None => r is None,
                Some((start, cut)) => {
                    &&& r matches Some(p)
                    &&& is_span_text(p.head_text@, *st, path, chain, start, cut)
                    &&& 0 < cut <= path.len()
                    &&& p.parent == path[cut - 1]
                    &&& p.reparent == if cut < path.len() {
                        Some(path[cut])
                    } else {
                        None
                    }
                },
            }
        }),
{
    let path = path_ids(&st.messages, st.leaf_id);
    let chain = chain_of(st);
    let ghost ms = session::path_messages(st.messages@, path@);
    let ghost es = estimates_on(st.messages@, estimates@, path@);
    proof {
        stored::lemma_active_path(st.messages@, st.leaf_id);
    }
    let messages = messages_of(&st.messages, &path);
    let mut sizes: Vec<u64> = Vec::new();
    let mut i: usize = 0;
    while i < path.len()
        invariant
            i <= path@.len(),
            estimates@.len() == st.messages@.len(),
            es == estimates_on(st.messages@, estimates@, path@),
            forall|k: int|
                0 <= k < path@.len() ==> stored::index_of(
                    st.messages@,
                    #[trigger] path@[k],
                ) is Some,
            sizes@ =~= es.take(i as int),
        decreases path@.len() - i,
    {
        proof {
            stored::lemma_index_of(st.messages@, path@[i as int]);
            assert(stored::index_of(st.messages@, path@[i as int]) is Some);
        }
        if let Some(k) = find_message(&st.messages, path[i]) {
            sizes.push(estimates[k]);
        }
        i += 1;
    }
    proof {
        assert(sizes@ =~= es);
        assert(views::views(messages@).len() == messages@.len());
        assert(views::views(messages@) =~= views::views(ms));
        lemma_same_last_summary(messages@, ms);
        compaction::lemma_compaction_span(ms, es, keep_recent_tokens);
    }
    match select_plan(&messages, &sizes, keep_recent_tokens) {
        None => None,
        Some(plan) => {
            let ghost whole = views::views(messages@);
            let head = span(messages, plan.start, plan.cut);
            let records = span_tool_records(&st.tool_calls, &chain, plan.start, plan.cut);
            let head_text = serialize_head(&head, &records, plan.start);
            proof {
                assert(views::views(head@) =~= whole.subrange(
                    plan.start as int,
                    plan.cut as int,
                ));
            }
            let reparent: Option<u64> = if plan.cut < path.len() {
                Some(path[plan.cut])
            } else {
                None
            };
            Some(SummaryPlan { head_text, parent: path[plan.cut - 1], reparent })
        },
    }
}

/// A step in having a transcript summarized.
#[derive(Debug, Clone, PartialEq, Eq)]
pub enum SummaryStep {
    /// Tell the user that the summarizer is at work.
    CompactionStarted,
    /// Hand the summarizer its preamble and its task, and wait for its answer.
    Summarize { preamble: String, task: String },
    /// Tell the user that the summarizer has answered, whatever the answer.
    CompactionFinished,
}

/// The content of a [`SummaryStep`].
#[verifier::ext_equal]
pub enum StepView {
    CompactionStarted,
    Summarize { preamble: Seq<char>, task: Seq<char> },
    CompactionFinished,
}

impl View for SummaryStep {
    type V = StepView;

    open spec fn view(&self) -> StepView {
        match self {
            SummaryStep::CompactionStarted => StepView::CompactionStarted,
            SummaryStep::Summarize { preamble, task } => StepView::Summarize {
                preamble: preamble@,
                task: task@,
            },
            SummaryStep::CompactionFinished => StepView::CompactionFinished,
        }
    }
}

/// The steps in having a transcript summarized: the summarizer works between
/// being announced and being done.
pub open spec fn framed(head_text: Seq<char>) -> Seq<StepView> {
    seq![
        StepView::CompactionStarted,
        StepView::Summarize {
            preamble: SUMMARY_PREAMBLE@,
            task: compaction::task_text(head_text),
        },
        StepView::CompactionFinished,
    ]
}

/// The steps in having a transcript summarized.
pub fn summary_steps(head_text: &str) -> (r: Vec<SummaryStep>)
    ensures
        views::views(r@) == framed(head_text@),
{
    let mut out: Vec<SummaryStep> = Vec::new();
    out.push(SummaryStep::CompactionStarted);
    out.push(
        SummaryStep::Summarize {
            preamble: SUMMARY_PREAMBLE.to_owned(),
            task: summary_task(head_text),
        },
    );
    out.push(SummaryStep::CompactionFinished);
    proof {
        assert(views::views(out@) =~= framed(head_text@));
    }
    out
}

/// The steps in making room. Where there is nothing to summarize there are none,
/// and the user is told of none.
pub fn compaction_steps(plan: &Option<SummaryPlan>) -> (r: Vec<SummaryStep>)
    ensures
        views::views(r@) == match plan {
            Some(p) => framed(p.head_text@),
            None => Seq::empty(),
        },
{
    match plan {
        Some(p) => summary_steps(p.head_text.as_str()),
        None => {
            let out: Vec<SummaryStep> = Vec::new();
            proof {
                assert(views::views(out@) =~= Seq::empty());
            }
            out
        },
    }
}

/// What the summarizer's answer leads to.
#[derive(Debug, Clone, PartialEq, Eq)]
pub enum SummaryMade {
    /// Add the summary under `parent`.
    Append { parent: u64, summary: String },
    /// Tell the user what went wrong.
    StreamError { error: String },
}

/// What the summarizer's answer leads to.
pub fn summary_made(plan: &SummaryPlan, answer: Result<String, String>) -> (r: SummaryMade)
    ensures
        match answer {
            Ok(summary) => r == (SummaryMade::Append { parent: plan.parent, summary }),
            Err(e) => r matches SummaryMade::StreamError { error } && error@
                == "compaction failed: "@ + e@,
        },
{
    match answer {
        Ok(summary) => SummaryMade::Append { parent: plan.parent, summary },
        Err(e) => {
            let mut error: String = "compaction failed: ".to_owned();
            error.append(e.as_str());
            SummaryMade::StreamError { error }
        },
    }
}

/// Whether room was made, given the message that the summary was stored as, if
/// it was; and which message is to get which parent then.
pub fn summary_added(plan: &SummaryPlan, row: Option<u64>) -> (r: (bool, Option<(u64, u64)>))
    ensures
        r.0 == row is Some,
        r.1 == match (plan.reparent, row) {
            (Some(child), Some(parent)) => Some((child, parent)),
            _ => None,
        },
{
    match (plan.reparent, row) {
        (Some(child), Some(parent)) => (true, Some((child, parent))),
        _ => (row.is_some(), None),
    }
}

/// The summary for a fork. Where there is none, the fork fails.
pub fn fork_summary(answer: Result<String, String>) -> (r: Result<String, String>)
    ensures
        match answer {
            Ok(summary) => r == Ok::<String, String>(summary),
            Err(e) => r matches Err(m) && m@ == "summarization failed: "@ + e@,
        },
{
    match answer {
        Ok(summary) => Ok(summary),
        Err(e) => {
            let mut m: String = "summarization failed: ".to_owned();
            m.append(e.as_str());
            Err(m)
        },
    }
}

}
