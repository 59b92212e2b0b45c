//! Tool calls that have started and not yet returned.

use crate::json::json_string_field;
use crate::text::same;
use crate::views;
use crate::views::{duplicate_opt, Duplicate};
use vstd::prelude::*;

verus! {

/// A started tool call. `command` is the command line of a shell call;
/// `started` is the clock's reading in milliseconds.
#[derive(Debug, Clone)]
pub struct PendingToolCall {
    pub call_id: String,
    pub name: String,
    pub args_json: String,
    pub command: Option<String>,
    pub worker: Option<String>,
    pub started: u64,
}

/// The content of a [`PendingToolCall`].
#[verifier::ext_equal]
pub struct PendingView {
    pub call_id: Seq<char>,
    pub name: Seq<char>,
    pub args_json: Seq<char>,
    pub command: Option<Seq<char>>,
    pub worker: Option<Seq<char>>,
    pub started: u64,
}

impl View for PendingToolCall {
    type V = PendingView;

    open spec fn view(&self) -> PendingView {
        PendingView {
            call_id: self.call_id@,
            name: self.name@,
            args_json: self.args_json@,
            command: views::opt_view(self.command),
            worker: views::opt_view(self.worker),
            started: self.started,
        }
    }
}

impl Duplicate for PendingToolCall {
    fn duplicate(&self) -> (r: Self) {
        PendingToolCall {
            call_id: self.call_id.clone(),
            name: self.name.clone(),
            args_json: self.args_json.clone(),
            command: duplicate_opt(&self.command),
            worker: duplicate_opt(&self.worker),
            started: self.started,
        }
    }
}

/// The time since `started`.
pub open spec fn elapsed(now: u64, started: u64) -> u64 {
    if now >= started {
        (now - started) as u64
    } else {
        0
    }
}

/// The time since `started`.
pub fn elapsed_ms(now: u64, started: u64) -> (r: u64)
    ensures
        r == elapsed(now, started),
{
    if now >= started {
        now - started
    } else {
        0
    }
}

/// The command line in a call's arguments.
pub fn args_command(args_json: &str) -> (r: Option<String>)
    ensures
        views::opt_view(r) == crate::json::json_string(args_json@, "command"@),
{
    json_string_field(args_json, "command")
}

/// The calls but for those with the id.
pub open spec fn dropped(s: Seq<PendingView>, id: Seq<char>) -> Seq<PendingView>
    decreases s.len(),
{
    if s.len() == 0 {
        s
    } else if s.last().call_id == id {
        dropped(s.drop_last(), id)
    } else {
        dropped(s.drop_last(), id).push(s.last())
    }
}

/// The call with the id; the last one, should there be several.
pub open spec fn pending(s: Seq<PendingView>, id: Seq<char>) -> Option<PendingView>
    decreases s.len(),
{
    if s.len() == 0 {
        None
    } else if s.last().call_id == id {
        Some(s.last())
    } else {
        pending(s.drop_last(), id)
    }
}

/// The calls with one more, which takes the place of one with the same id.
pub open spec fn put(s: Seq<PendingView>, p: PendingView) -> Seq<PendingView> {
    dropped(s, p.call_id).push(p)
}

/// A call that was dropped is not pending any more; any other is as it was.
pub proof fn lemma_dropped(s: Seq<PendingView>, id: Seq<char>, other: Seq<char>)
    ensures
        pending(dropped(s, id), id) is None,
        other != id ==> pending(dropped(s, id), other) == pending(s, other),
        dropped(s, id).len() <= s.len(),
    decreases s.len(),
{
    if s.len() > 0 {
        lemma_dropped(s.drop_last(), id, other);
        if s.last().call_id != id {
            let d = dropped(s.drop_last(), id);
            assert(d.push(s.last()).drop_last() =~= d);
        }
    }
}

/// Takes the call with the id out.
pub fn drop_call(v: &Vec<PendingToolCall>, id: &str) -> (r: Vec<PendingToolCall>)
    ensures
        views::views(r@) == dropped(views::views(v@), id@),
{
    let ghost all = views::views(v@);
    let mut out: Vec<PendingToolCall> = Vec::new();
    let mut i: usize = 0;
    proof {
        assert(views::views(out@) =~= dropped(all.take(0), id@));
    }
    while i < v.len()
        invariant
            all == views::views(v@),
            i <= v@.len(),
            views::views(out@) == dropped(all.take(i as int), id@),
        decreases v@.len() - i,
    {
        proof {
            assert(all.take(i + 1).drop_last() =~= all.take(i as int));
        }
        let ghost before = out@;
        if !same(v[i].call_id.as_str(), id) {
            let p = v[i].duplicate();
            out.push(p);
            proof {
                assert(views::views(out@) =~= views::views(before).push(p@));
            }
        }
        i += 1;
    }
    proof {
        assert(all.take(i as int) =~= all);
    }
    out
}

/// The call with the id.
pub fn find_call<'a>(v: &'a Vec<PendingToolCall>, id: &str) -> (r: Option<&'a PendingToolCall>)
    ensures
        match pending(views::views(v@), id@) {
            Some(p) => r matches Some(x) && x@ == p,
            None => r is None,
        },
{
    let ghost all = views::views(v@);
    let mut i: usize = v.len();
    proof {
        assert(all.take(i as int) =~= all);
    }
    while i > 0
        invariant
            all == views::views(v@),
            i <= v@.len(),
            pending(all, id@) == pending(all.take(i as int), id@),
        decreases i,
    {
        proof {
            assert(all.take(i as int).drop_last() =~= all.take(i - 1));
            assert(all.take(i as int).last() == v@[i - 1]@);
        }
        if same(v[i - 1].call_id.as_str(), id) {
            return Some(&v[i - 1]);
        }
        i -= 1;
    }
    None
}

/// Whether two optional texts are the same.
pub fn same_opt(a: &Option<String>, b: &Option<String>) -> (r: bool)
    ensures
        r == (views::opt_view(*a) == views::opt_view(*b)),
{
    match (a, b) {
        (Some(x), Some(y)) => same(x.as_str(), y.as_str()),
        (None, None) => true,
        _ => false,
    }
}

/// The shell calls of an agent that run the command.
pub open spec fn shell_calls(
    s: Seq<PendingView>,
    worker: Option<Seq<char>>,
    command: Seq<char>,
) -> Seq<PendingView>
    decreases s.len(),
{
    if s.len() == 0 {
        Seq::empty()
    } else {
        let before = shell_calls(s.drop_last(), worker, command);
        let p = s.last();
        if p.worker == worker && p.name == "run_shell"@ && p.command == Some(command) {
            before.push(p)
        } else {
            before
        }
    }
}

/// The call that a chunk of shell output belongs to: the only one of its
/// agent that runs its command.
pub open spec fn chunk_call(
    s: Seq<PendingView>,
    worker: Option<Seq<char>>,
    command: Seq<char>,
) -> Option<Seq<char>> {
    let calls = shell_calls(s, worker, command);
    if calls.len() == 1 {
        Some(calls[0].call_id)
    } else {
        None
    }
}

/// Finds the call that a chunk of shell output belongs to. With two calls of
/// one command, or none left, there is no telling.
pub fn resolve_shell_call(
    worker: &Option<String>,
    command: &str,
    calls: &Vec<PendingToolCall>,
) -> (r: Option<String>)
    ensures
        views::opt_view(r) == chunk_call(views::views(calls@), views::opt_view(*worker), command@),
{
    let ghost all = views::views(calls@);
    let ghost w = views::opt_view(*worker);
    let mut found: Option<usize> = None;
    let mut count: usize = 0;
    let mut i: usize = 0;
    while i < calls.len()
        invariant
            all == views::views(calls@),
            w == views::opt_view(*worker),
            i <= calls@.len(),
            count <= i,
            count == shell_calls(all.take(i as int), w, command@).len(),
            count > 0 ==> (found matches Some(k) && k < calls@.len() && shell_calls(
                all.take(i as int),
                w,
                command@,
            )[0] == calls@[k as int]@),
        decreases calls@.len() - i,
    {
        proof {
            assert(all.take(i + 1).drop_last() =~= all.take(i as int));
            assert(all.take(i + 1).last() == calls@[i as int]@);
        }
        let runs = match &calls[i].command {
            Some(c) => same(c.as_str(), command),
            None => false,
        };
        if runs && same(calls[i].name.as_str(), "run_shell") && same_opt(&calls[i].worker, worker) {
            if count == 0 {
                found = Some(i);
            }
            count += 1;
        }
        i += 1;
    }
    proof {
        assert(all.take(i as int) =~= all);
    }
    if count == 1 {
        match found {
            Some(k) => Some(calls[k].call_id.clone()),
            None => None,
        }
    } else {
        None
    }
}

}
