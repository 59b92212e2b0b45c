//! The record of a tool call.

use crate::llm::{FileChange, FileChangeView};
use crate::stored::StoredToolCall;
use crate::views;
use crate::views::{duplicate_opt, Duplicate};
use vstd::prelude::*;

verus! {

/// A tool call of a turn. `killed` marks one that never returned.
#[derive(Debug, Clone)]
pub struct ToolRecord {
    pub name: String,
    pub args_json: String,
    pub output: String,
    pub stderr: String,
    pub ok: bool,
    pub killed: bool,
    pub worker: Option<String>,
    pub message_id: u64,
    pub message_seq: u64,
    pub file_change: Option<FileChange>,
    pub original_content: Option<String>,
    pub new_content: Option<String>,
    pub duration_ms: u64,
}

/// The content of a [`ToolRecord`].
#[verifier::ext_equal]
pub struct ToolRecordView {
    pub name: Seq<char>,
    pub args_json: Seq<char>,
    pub output: Seq<char>,
    pub stderr: Seq<char>,
    pub ok: bool,
    pub killed: bool,
    pub worker: Option<Seq<char>>,
    pub message_id: u64,
    pub message_seq: u64,
    pub file_change: Option<FileChangeView>,
    pub original_content: Option<Seq<char>>,
    pub new_content: Option<Seq<char>>,
    pub duration_ms: u64,
}

impl View for ToolRecord {
    type V = ToolRecordView;

    open spec fn view(&self) -> ToolRecordView {
        ToolRecordView {
            name: self.name@,
            args_json: self.args_json@,
            output: self.output@,
            stderr: self.stderr@,
            ok: self.ok,
            killed: self.killed,
            worker: views::opt_view(self.worker),
            message_id: self.message_id,
            message_seq: self.message_seq,
            file_change: views::opt_view(self.file_change),
            original_content: views::opt_view(self.original_content),
            new_content: views::opt_view(self.new_content),
            duration_ms: self.duration_ms,
        }
    }
}

impl Duplicate for ToolRecord {
    fn duplicate(&self) -> (r: Self) {
        ToolRecord {
            name: self.name.clone(),
            args_json: self.args_json.clone(),
            output: self.output.clone(),
            stderr: self.stderr.clone(),
            ok: self.ok,
            killed: self.killed,
            worker: duplicate_opt(&self.worker),
            message_id: self.message_id,
            message_seq: self.message_seq,
            file_change: duplicate_opt(&self.file_change),
            original_content: duplicate_opt(&self.original_content),
            new_content: duplicate_opt(&self.new_content),
            duration_ms: self.duration_ms,
        }
    }
}

/// The record of a stored call.
pub open spec fn record_of(tc: StoredToolCall) -> ToolRecordView {
    ToolRecordView {
        name: tc.name@,
        args_json: tc.args_json@,
        output: tc.output@,
        stderr: tc.stderr@,
        ok: tc.ok,
        killed: tc.killed,
        worker: views::opt_view(tc.worker),
        message_id: tc.message_id,
        message_seq: tc.seq,
        file_change: views::opt_view(tc.file_change),
        original_content: views::opt_view(tc.original_content),
        new_content: views::opt_view(tc.new_content),
        duration_ms: tc.duration_ms,
    }
}

impl ToolRecord {
    /// The record of a stored call.
    pub fn from_stored(tc: &StoredToolCall) -> (r: ToolRecord)
        ensures
            r@ == record_of(*tc),
    {
        ToolRecord {
            name: tc.name.clone(),
            args_json: tc.args_json.clone(),
            output: tc.output.clone(),
            stderr: tc.stderr.clone(),
            ok: tc.ok,
            killed: tc.killed,
            worker: duplicate_opt(&tc.worker),
            message_id: tc.message_id,
            message_seq: tc.seq,
            file_change: duplicate_opt(&tc.file_change),
            original_content: duplicate_opt(&tc.original_content),
            new_content: duplicate_opt(&tc.new_content),
            duration_ms: tc.duration_ms,
        }
    }
}

/// The records of those calls whose message is among the ids from `from` up
/// to `to`, each with the place of its message there.
pub open spec fn records_on(
    calls: Seq<StoredToolCall>,
    ids: Seq<u64>,
    from: int,
    to: int,
) -> Seq<ToolRecordView>
    decreases calls.len(),
{
    if calls.len() == 0 {
        Seq::empty()
    } else {
        let before = records_on(calls.drop_last(), ids, from, to);
        let tc = calls.last();
        match place_of(ids, tc.message_id) {
            Some(i) => if from <= i < to {
                before.push(ToolRecordView { message_seq: i as u64, ..record_of(tc) })
            } else {
                before
            },
            None => before,
        }
    }
}

/// Where the id is in the list: the last place, should there be several.
pub open spec fn place_of(ids: Seq<u64>, id: u64) -> Option<int>
    decreases ids.len(),
{
    if ids.len() == 0 {
        None
    } else if ids.last() == id {
        Some(ids.len() - 1)
    } else {
        place_of(ids.drop_last(), id)
    }
}

/// Where the id is in the list.
pub fn find_place(ids: &Vec<u64>, id: u64) -> (r: Option<usize>)
    ensures
        match place_of(ids@, id) {
            Some(i) => r matches Some(k) && k == i && k < ids@.len(),
            None => r is None,
        },
{
    let mut i: usize = ids.len();
    proof {
        assert(ids@.take(i as int) =~= ids@);
    }
    while i > 0
        invariant
            i <= ids@.len(),
            place_of(ids@, id) == place_of(ids@.take(i as int), id),
        decreases i,
    {
        proof {
            assert(ids@.take(i as int).drop_last() =~= ids@.take(i - 1));
        }
        if ids[i - 1] == id {
            return Some(i - 1);
        }
        i -= 1;
    }
    None
}

/// The records of those calls whose message is among the ids from `from` up
/// to `to`, each with the place of its message there.
pub fn span_tool_records(
    calls: &Vec<StoredToolCall>,
    ids: &Vec<u64>,
    from: usize,
    to: usize,
) -> (r: Vec<ToolRecord>)
    ensures
        views::views(r@) == records_on(calls@, ids@, from as int, to as int),
{
    let mut out: Vec<ToolRecord> = Vec::new();
    let mut i: usize = 0;
    proof {
        assert(views::views(out@) =~= records_on(calls@.take(0), ids@, from as int, to as int));
    }
    while i < calls.len()
        invariant
            i <= calls@.len(),
            views::views(out@) == records_on(calls@.take(i as int), ids@, from as int, to as int),
        decreases calls@.len() - i,
    {
        proof {
            assert(calls@.take(i + 1).drop_last() =~= calls@.take(i as int));
        }
        let ghost before = out@;
        if let Some(k) = find_place(ids, calls[i].message_id) {
            if from <= k && k < to {
                let mut record = ToolRecord::from_stored(&calls[i]);
                record.message_seq = k as u64;
                out.push(record);
                proof {
                    assert(views::views(out@) =~= views::views(before).push(record@));
                }
            }
        }
        i += 1;
    }
    proof {
        assert(calls@.take(i as int) =~= calls@);
    }
    out
}

}
