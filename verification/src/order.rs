//! Sorting of values by their names.

use crate::text_map;
use crate::text_map::less;
use crate::views;
use vstd::prelude::*;

verus! {

/// Values that are sorted by a name.
pub trait Named: View + Sized {
    /// The name of a value with the content.
    spec fn label(v: Self::V) -> Seq<char>;

    /// The name of the value.
    fn name(&self) -> (r: &str)
        ensures
            r@ == Self::label(self@),
    ;
}

impl Named for String {
    open spec fn label(v: Seq<char>) -> Seq<char> {
        v
    }

    fn name(&self) -> (r: &str) {
        self.as_str()
    }
}

/// How many values at the front have a smaller name.
pub open spec fn place<T: Named>(s: Seq<T::V>, name: Seq<char>) -> int
    decreases s.len(),
{
    if s.len() > 0 && text_map::text_less(T::label(s[0]), name) {
        1 + place::<T>(s.skip(1), name)
    } else {
        0
    }
}

/// The values in the order of their names. Values with one name keep their order.
pub open spec fn sorted<T: Named>(s: Seq<T::V>) -> Seq<T::V>
    decreases s.len(),
{
    if s.len() == 0 {
        s
    } else {
        let rest = sorted::<T>(s.skip(1));
        rest.insert(place::<T>(rest, T::label(s[0])), s[0])
    }
}

/// Whether no name is smaller than the one before it.
pub open spec fn in_order<T: Named>(s: Seq<T::V>) -> bool {
    forall|i: int, j: int|
        0 <= i < j < s.len() ==> !text_map::text_less(
            T::label(#[trigger] s[j]),
            T::label(#[trigger] s[i]),
        )
}

proof fn lemma_place<T: Named>(s: Seq<T::V>, name: Seq<char>)
    ensures
        0 <= place::<T>(s, name) <= s.len(),
        forall|i: int|
            0 <= i < place::<T>(s, name) ==> text_map::text_less(T::label(#[trigger] s[i]), name),
        place::<T>(s, name) < s.len() ==> !text_map::text_less(
            T::label(s[place::<T>(s, name)]),
            name,
        ),
    decreases s.len(),
{
    if s.len() > 0 && text_map::text_less(T::label(s[0]), name) {
        lemma_place::<T>(s.skip(1), name);
        assert forall|i: int| 0 <= i < place::<T>(s, name) implies text_map::text_less(
            T::label(#[trigger] s[i]),
            name,
        ) by {
            if i > 0 {
                assert(s[i] == s.skip(1)[i - 1]);
            }
        }
    }
}

/// Sorting keeps the values, and puts them in the order of their names.
pub proof fn lemma_sorted<T: Named>(s: Seq<T::V>)
    ensures
        in_order::<T>(sorted::<T>(s)),
        sorted::<T>(s).to_multiset() == s.to_multiset(),
        sorted::<T>(s).len() == s.len(),
    decreases s.len(),
{
    broadcast use vstd::seq_lib::group_to_multiset_ensures;

    if s.len() > 0 {
        let rest = sorted::<T>(s.skip(1));
        let name = T::label(s[0]);
        let at = place::<T>(rest, name);
        let all = rest.insert(at, s[0]);
        lemma_sorted::<T>(s.skip(1));
        lemma_place::<T>(rest, name);
        assert(s =~= seq![s[0]] + s.skip(1));
        assert(s =~= s.skip(1).insert(0, s[0]));
        assert forall|i: int, j: int| 0 <= i < j < all.len() implies !text_map::text_less(
            T::label(#[trigger] all[j]),
            T::label(#[trigger] all[i]),
        ) by {
            let a = T::label(all[i]);
            let b = T::label(all[j]);
            if i < at && j == at {
                assert(all[i] == rest[i]);
                if text_map::text_less(b, a) {
                    text_map::lemma_less_transitive(a, b, a);
                    text_map::lemma_less_irreflexive(a);
                }
            } else if i == at {
                assert(all[j] == rest[j - 1]);
                let c = T::label(rest[at]);
                if text_map::text_less(b, name) {
                    if j - 1 > at {
                        assert(!text_map::text_less(b, c));
                        text_map::lemma_less_total(b, c);
                        if text_map::text_less(c, b) {
                            text_map::lemma_less_transitive(c, b, name);
                        }
                    }
                }
            } else {
                let x = if i < at {
                    i
                } else {
                    i - 1
                };
                let y = if j < at {
                    j
                } else {
                    j - 1
                };
                assert(all[i] == rest[x] && all[j] == rest[y]);
            }
        }
    }
}

/// Sorts the values by their names.
pub fn sort<T: Named>(values: Vec<T>) -> (r: Vec<T>)
    ensures
        views::views(r@) == sorted::<T>(views::views(values@)),
{
    let ghost all = views::views(values@);
    let mut rest = values;
    let mut out: Vec<T> = Vec::new();
    proof {
        assert(all.skip(all.len() as int) =~= Seq::empty());
        assert(views::views(out@) =~= Seq::empty());
    }
    while rest.len() > 0
        invariant
            rest@.len() <= all.len(),
            views::views(rest@) =~= all.take(rest@.len() as int),
            views::views(out@) =~= sorted::<T>(all.skip(rest@.len() as int)),
        decreases rest@.len(),
    {
        let ghost n = rest@.len();
        let ghost before = rest@;
        if let Some(x) = rest.pop() {
            proof {
                assert(x == before[n - 1]);
                assert(views::views(before)[n - 1] == all[n - 1]);
                assert(all.skip(n - 1).skip(1) =~= all.skip(n as int));
                assert(all.skip(n - 1)[0] == x@);
                assert forall|i: int| 0 <= i < n - 1 implies views::views(rest@)[i] == all.take(
                    n - 1,
                )[i] by {
                    assert(views::views(before)[i] == all.take(n as int)[i]);
                }
            }
            let ghost s = views::views(out@);
            let mut at: usize = 0;
            proof {
                assert(s.skip(0) =~= s);
            }
            while at < out.len() && less(out[at].name(), x.name())
                invariant
                    s == views::views(out@),
                    at <= out@.len(),
                    place::<T>(s, T::label(x@)) == at + place::<T>(s.skip(at as int), T::label(x@)),
                decreases out@.len() - at,
            {
                proof {
                    assert(s.skip(at as int)[0] == s[at as int]);
                    assert(s.skip(at as int).skip(1) =~= s.skip(at + 1));
                }
                at += 1;
            }
            proof {
                if at < s.len() {
                    assert(s.skip(at as int)[0] == s[at as int]);
                }
            }
            let ghost old_out = out@;
            out.insert(at, x);
            proof {
                assert(views::views(out@) =~= s.insert(at as int, x@));
            }
        }
    }
    proof {
        assert(all.skip(0) =~= all);
    }
    out
}

/// Each value is among the sorted ones.
pub proof fn lemma_sorted_holds<T: Named>(s: Seq<T::V>, k: int)
    requires
        0 <= k < s.len(),
    ensures
        exists|i: int| 0 <= i < sorted::<T>(s).len() && #[trigger] sorted::<T>(s)[i] == s[k],
{
    broadcast use vstd::seq_lib::group_to_multiset_ensures;

    lemma_sorted::<T>(s);
    assert(s.contains(s[k]));
    assert(s.to_multiset().contains(s[k]));
    assert(sorted::<T>(s).contains(s[k]));
}

/// Each of the sorted values is one of those that were sorted.
pub proof fn lemma_sorted_is_of<T: Named>(s: Seq<T::V>, i: int)
    requires
        0 <= i < s.len(),
    ensures
        exists|k: int| 0 <= k < s.len() && #[trigger] s[k] == sorted::<T>(s)[i],
{
    broadcast use vstd::seq_lib::group_to_multiset_ensures;

    lemma_sorted::<T>(s);
    let v = sorted::<T>(s)[i];
    assert(sorted::<T>(s).contains(v));
    assert(sorted::<T>(s).to_multiset().contains(v));
    assert(s.contains(v));
}

}
