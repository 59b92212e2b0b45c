//! Paths, taken apart into their components.

use crate::text;
use crate::text::{ends_with, same, starts_with, strip_prefix};
use crate::views;
use crate::views::{duplicate_all, Duplicate};
use vstd::prelude::*;

verus! {

/// A component of a path, as `std::path::Component` tells them apart.
#[derive(Debug, Clone, PartialEq, Eq)]
pub enum PathPart {
    Prefix(String),
    Root,
    Current,
    Parent,
    Name(String),
}

/// The content of a [`PathPart`].
#[verifier::ext_equal]
pub enum PartView {
    Prefix(Seq<char>),
    Root,
    Current,
    Parent,
    Name(Seq<char>),
}

impl View for PathPart {
    type V = PartView;

    open spec fn view(&self) -> PartView {
        match self {
            PathPart::Prefix(s) => PartView::Prefix(s@),
            PathPart::Root => PartView::Root,
            PathPart::Current => PartView::Current,
            PathPart::Parent => PartView::Parent,
            PathPart::Name(s) => PartView::Name(s@),
        }
    }
}

impl Duplicate for PathPart {
    fn duplicate(&self) -> (r: Self) {
        match self {
            PathPart::Prefix(s) => PathPart::Prefix(s.clone()),
            PathPart::Root => PathPart::Root,
            PathPart::Current => PathPart::Current,
            PathPart::Parent => PathPart::Parent,
            PathPart::Name(s) => PathPart::Name(s.clone()),
        }
    }
}

fn same_part(a: &PathPart, b: &PathPart) -> (r: bool)
    ensures
        r == (a@ == b@),
{
    match (a, b) {
        (PathPart::Prefix(x), PathPart::Prefix(y)) => same(x.as_str(), y.as_str()),
        (PathPart::Root, PathPart::Root) => true,
        (PathPart::Current, PathPart::Current) => true,
        (PathPart::Parent, PathPart::Parent) => true,
        (PathPart::Name(x), PathPart::Name(y)) => same(x.as_str(), y.as_str()),
        _ => false,
    }
}

/// Whether the path lies at or below the base.
pub open spec fn is_below(path: Seq<PartView>, base: Seq<PartView>) -> bool {
    base.len() <= path.len() && path.take(base.len() as int) == base
}

/// Whether the path lies at or below the base.
pub fn below(path: &Vec<PathPart>, base: &Vec<PathPart>) -> (b: bool)
    ensures
        b == is_below(views::views(path@), views::views(base@)),
{
    let ghost p = views::views(path@);
    let ghost q = views::views(base@);
    if base.len() > path.len() {
        return false;
    }
    let mut i: usize = 0;
    while i < base.len()
        invariant
            p == views::views(path@),
            q == views::views(base@),
            i <= base@.len() <= path@.len(),
            forall|k: int| 0 <= k < i ==> p[k] == #[trigger] q[k],
        decreases base@.len() - i,
    {
        if !same_part(&path[i], &base[i]) {
            proof {
                assert(p[i as int] != q[i as int]);
                assert(p.take(q.len() as int)[i as int] == p[i as int]);
            }
            return false;
        }
        i += 1;
    }
    proof {
        assert(p.take(q.len() as int) =~= q);
    }
    true
}

/// The components so far, with one more taken in. A parent takes the last name
/// away; at the root there is none above, and a chain of parents stays.
pub open spec fn taken_in(done: (Seq<PartView>, bool), part: PartView) -> (Seq<PartView>, bool) {
    let (parts, absolute) = done;
    match part {
        PartView::Prefix(_) => (parts.push(part), absolute),
        PartView::Root => (Seq::empty(), true),
        PartView::Current => (parts, absolute),
        PartView::Parent => if parts.len() > 0 && parts.last() != PartView::Parent {
            (parts.drop_last(), absolute)
        } else if absolute {
            (parts, absolute)
        } else {
            (parts.push(part), absolute)
        },
        PartView::Name(_) => (parts.push(part), absolute),
    }
}

/// The components of a path, each taken in in turn, and whether it has a root.
pub open spec fn resolved(path: Seq<PartView>) -> (Seq<PartView>, bool)
    decreases path.len(),
{
    if path.len() == 0 {
        (Seq::empty(), false)
    } else {
        taken_in(resolved(path.drop_last()), path.last())
    }
}

/// The path without the components that lead nowhere.
pub open spec fn normalized(path: Seq<PartView>) -> Seq<PartView> {
    let (parts, absolute) = resolved(path);
    if absolute {
        seq![PartView::Root] + parts
    } else if parts.len() == 0 {
        seq![PartView::Current]
    } else {
        parts
    }
}

/// The path without the components that lead nowhere.
pub fn normalize(path: &Vec<PathPart>) -> (r: Vec<PathPart>)
    ensures
        views::views(r@) == normalized(views::views(path@)),
{
    let ghost all = views::views(path@);
    let mut parts: Vec<PathPart> = Vec::new();
    let mut absolute = false;
    let mut i: usize = 0;
    proof {
        assert(views::views(parts@) =~= Seq::empty());
        assert(all.take(0) =~= Seq::empty());
    }
    while i < path.len()
        invariant
            all == views::views(path@),
            i <= path@.len(),
            (views::views(parts@), absolute) == resolved(all.take(i as int)),
        decreases path@.len() - i,
    {
        proof {
            assert(all.take(i + 1).drop_last() =~= all.take(i as int));
            assert(all.take(i + 1).last() == path@[i as int]@);
        }
        let ghost before = parts@;
        let n: usize = parts.len();
        match &path[i] {
            PathPart::Root => {
                absolute = true;
                parts = Vec::new();
                proof {
                    assert(views::views(parts@) =~= Seq::empty());
                }
            },
            PathPart::Current => {},
            PathPart::Parent => {
                proof {
                    if n > 0 {
                        assert(views::views(before).last() == before[n - 1]@);
                    }
                }
                if n > 0 && !same_part(&parts[n - 1], &PathPart::Parent) {
                    let _ = parts.pop();
                    proof {
                        assert(views::views(parts@) =~= views::views(before).drop_last());
                    }
                } else if !absolute {
                    parts.push(PathPart::Parent);
                    proof {
                        assert(views::views(parts@) =~= views::views(before).push(
                            PartView::Parent,
                        ));
                    }
                }
            },
            part => {
                let x = part.duplicate();
                parts.push(x);
                proof {
                    assert(views::views(parts@) =~= views::views(before).push(x@));
                }
            },
        }
        i += 1;
    }
    proof {
        assert(all.take(i as int) =~= all);
    }
    if absolute {
        let mut out: Vec<PathPart> = Vec::new();
        let ghost rest = views::views(parts@);
        out.push(PathPart::Root);
        out.append(&mut parts);
        proof {
            assert(views::views(out@) =~= seq![PartView::Root] + rest);
        }
        out
    } else if parts.len() == 0 {
        let mut out: Vec<PathPart> = Vec::new();
        out.push(PathPart::Current);
        proof {
            assert(views::views(out@) =~= seq![PartView::Current]);
        }
        out
    } else {
        parts
    }
}

/// Whether parents stand only at the front.
pub open spec fn parents_first(parts: Seq<PartView>) -> bool {
    forall|i: int, j: int|
        0 <= i < j < parts.len() && #[trigger] parts[j] == PartView::Parent ==> #[trigger] parts[i]
            == PartView::Parent
}

proof fn lemma_resolved_plain(path: Seq<PartView>)
    ensures
        forall|i: int|
            0 <= i < resolved(path).0.len() ==> (#[trigger] resolved(path).0[i]) != PartView::Current
                && resolved(path).0[i] != PartView::Root,
        parents_first(resolved(path).0),
        resolved(path).1 ==> forall|i: int|
            0 <= i < resolved(path).0.len() ==> #[trigger] resolved(path).0[i] != PartView::Parent,
    decreases path.len(),
{
    if path.len() > 0 {
        lemma_resolved_plain(path.drop_last());
        let (parts, absolute) = resolved(path.drop_last());
        if path.last() == PartView::Parent && parts.len() > 0 && parts.last() == PartView::Parent {
            assert(!absolute);
        }
    }
}

/// A normalized path has no component that leads nowhere: below a root there is
/// no parent, and else parents stand only at the front.
pub proof fn lemma_normalized_is_plain(path: Seq<PartView>)
    ensures
        resolved(path).1 ==> forall|i: int|
            0 < i < normalized(path).len() ==> {
                let p = #[trigger] normalized(path)[i];
                p != PartView::Parent && p != PartView::Current && p != PartView::Root
            },
        parents_first(normalized(path)),
{
    lemma_resolved_plain(path);
}

/// The path that a relative one names from the base: an absolute one stands for itself.
pub open spec fn from_base(path: Seq<PartView>, base: Seq<PartView>) -> Seq<PartView> {
    if path.contains(PartView::Root) {
        path
    } else {
        base + path
    }
}

/// Where a rule's path lies: from the base, without the components that lead nowhere.
pub fn rule_path(path: &Vec<PathPart>, base: &Vec<PathPart>) -> (r: Vec<PathPart>)
    ensures
        views::views(r@) == normalized(from_base(views::views(path@), views::views(base@))),
{
    let ghost p = views::views(path@);
    let mut i: usize = 0;
    while i < path.len()
        invariant
            p == views::views(path@),
            i <= path@.len(),
            forall|k: int| 0 <= k < i ==> #[trigger] p[k] != PartView::Root,
        decreases path@.len() - i,
    {
        if same_part(&path[i], &PathPart::Root) {
            proof {
                assert(p[i as int] == PartView::Root);
            }
            return normalize(path);
        }
        i += 1;
    }
    let mut joined = duplicate_all(base);
    let mut more = duplicate_all(path);
    let ghost b = views::views(joined@);
    joined.append(&mut more);
    proof {
        assert(!p.contains(PartView::Root));
        assert(views::views(joined@) =~= b + p);
    }
    normalize(&joined)
}

/// What follows the sign of the home directory, where the path begins with it.
pub open spec fn below_home(path: Seq<char>) -> Option<Seq<char>> {
    if path == "~"@ {
        Some(Seq::empty())
    } else if text::has_prefix(path, "~/"@) {
        Some(path.skip(2))
    } else if text::has_prefix(path, "~\\"@) {
        Some(path.skip(2))
    } else {
        None
    }
}

/// What follows the sign of the home directory, where the path begins with it.
pub fn expand_home(path: &str) -> (r: Option<String>)
    ensures
        views::opt_view(r) == below_home(path@),
{
    proof {
        reveal_strlit("~/");
        reveal_strlit("~\\");
        reveal_strlit("");
        assert(""@ =~= Seq::empty());
    }
    if same(path, "~") {
        return Some("".to_owned());
    }
    if let Some(rest) = strip_prefix(path, "~/") {
        return Some(rest.to_owned());
    }
    match strip_prefix(path, "~\\") {
        Some(rest) => Some(rest.to_owned()),
        None => None,
    }
}

/// How many components of a path to write to exist already, given for each
/// number of components whether that much of it exists. Nothing where a
/// component that does not exist is no name.
pub open spec fn existing(path: Seq<PartView>, exists_to: Seq<bool>, n: int) -> Option<int>
    decreases n,
{
    if n < 0 || n >= exists_to.len() || n > path.len() {
        None
    } else if exists_to[n] {
        Some(n)
    } else if n == 0 || !(path[n - 1] is Name) {
        None
    } else {
        existing(path, exists_to, n - 1)
    }
}

/// How many components of a path to write to exist already.
pub fn closest_existing(path: &Vec<PathPart>, exists_to: &Vec<bool>) -> (r: Option<usize>)
    requires
        exists_to@.len() == path@.len() + 1,
    ensures
        match existing(views::views(path@), exists_to@, path@.len() as int) {
            Some(k) => r matches Some(n) && n == k && k <= path@.len(),
            None => r is None,
        },
{
    let ghost p = views::views(path@);
    let mut n: usize = path.len();
    while n > 0 && !exists_to[n]
        invariant
            p == views::views(path@),
            n <= path@.len(),
            exists_to@.len() == path@.len() + 1,
            existing(p, exists_to@, path@.len() as int) == existing(p, exists_to@, n as int),
        decreases n,
    {
        proof {
            assert(p[n - 1] == path@[n - 1]@);
        }
        match &path[n - 1] {
            PathPart::Name(_) => {},
            _ => return None,
        }
        n -= 1;
    }
    if exists_to[n] {
        Some(n)
    } else {
        None
    }
}

/// The components below the base. All of them where the path does not lie below it.
pub open spec fn relative(path: Seq<PartView>, base: Seq<PartView>) -> Seq<PartView> {
    if is_below(path, base) {
        path.skip(base.len() as int)
    } else {
        path
    }
}

/// The text of a component.
pub open spec fn part_text(p: PartView) -> Seq<char> {
    match p {
        PartView::Prefix(s) => s,
        PartView::Root => "/"@,
        PartView::Current => "."@,
        PartView::Parent => ".."@,
        PartView::Name(s) => s,
    }
}

/// Whether a component is hidden: it begins with a dot, and does not just lead
/// nowhere or up.
pub open spec fn is_hidden(p: PartView) -> bool {
    &&& p is Name || p is Prefix
    &&& text::has_prefix(part_text(p), "."@)
    &&& part_text(p) != "."@
    &&& part_text(p) != ".."@
}

/// Whether a component is hidden.
pub fn hidden(p: &PathPart) -> (b: bool)
    ensures
        b == is_hidden(p@),
{
    let s = match p {
        PathPart::Name(s) => s,
        PathPart::Prefix(s) => s,
        _ => return false,
    };
    starts_with(s.as_str(), ".") && !same(s.as_str(), ".") && !same(s.as_str(), "..")
}

/// The path of a name in a directory.
pub open spec fn joined(dir: Seq<char>, name: Seq<char>) -> Seq<char> {
    if dir.len() == 0 || text::has_suffix(dir, "/"@) {
        dir + name
    } else {
        dir + "/"@ + name
    }
}

/// The path of a name in a directory.
pub fn join(dir: &str, name: &str) -> (r: String)
    ensures
        r@ == joined(dir@, name@),
{
    let mut out: String = dir.to_owned();
    if !dir.is_empty() && !ends_with(dir, "/") {
        out.append("/");
    }
    out.append(name);
    out
}

}
