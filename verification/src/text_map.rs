//! A map with string keys, kept in the order of its keys.

use crate::text::{chars_of, same};
use vstd::prelude::*;

verus! {

/// Whether `a` comes before `b`: by the first character in which they differ,
/// and a prefix before what extends it.
pub open spec fn text_less(a: Seq<char>, b: Seq<char>) -> bool
    decreases a.len(),
{
    if b.len() == 0 {
        false
    } else if a.len() == 0 {
        true
    } else if a[0] != b[0] {
        a[0] < b[0]
    } else {
        text_less(a.skip(1), b.skip(1))
    }
}

/// No text comes before itself.
pub proof fn lemma_less_irreflexive(a: Seq<char>)
    ensures
        !text_less(a, a),
    decreases a.len(),
{
    if a.len() > 0 {
        lemma_less_irreflexive(a.skip(1));
    }
}

/// The order is transitive.
pub proof fn lemma_less_transitive(a: Seq<char>, b: Seq<char>, c: Seq<char>)
    requires
        text_less(a, b),
        text_less(b, c),
    ensures
        text_less(a, c),
    decreases a.len(),
{
    if a.len() > 0 && b.len() > 0 && c.len() > 0 && a[0] == b[0] && b[0] == c[0] {
        lemma_less_transitive(a.skip(1), b.skip(1), c.skip(1));
    }
}

/// Of two different texts one comes first.
pub proof fn lemma_less_total(a: Seq<char>, b: Seq<char>)
    ensures
        a == b || text_less(a, b) || text_less(b, a),
    decreases a.len(),
{
    if a.len() > 0 && b.len() > 0 {
        if a[0] == b[0] {
            lemma_less_total(a.skip(1), b.skip(1));
            if a.skip(1) == b.skip(1) {
                assert(a =~= seq![a[0]] + a.skip(1));
                assert(b =~= seq![b[0]] + b.skip(1));
            }
        }
    } else {
        if a.len() == 0 && b.len() == 0 {
            assert(a =~= b);
        }
    }
}

/// Whether `a` comes before `b`.
pub fn less(a: &str, b: &str) -> (r: bool)
    ensures
        r == text_less(a@, b@),
{
    let x = chars_of(a);
    let y = chars_of(b);
    let mut i: usize = 0;
    proof {
        assert(a@.skip(0) =~= a@);
        assert(b@.skip(0) =~= b@);
    }
    while i < x.len() && i < y.len()
        invariant
            x@ == a@,
            y@ == b@,
            i <= x.len(),
            i <= y.len(),
            text_less(a@, b@) == text_less(a@.skip(i as int), b@.skip(i as int)),
        decreases x.len() - i,
    {
        if x[i] != y[i] {
            return x[i] < y[i];
        }
        proof {
            assert(a@.skip(i as int).skip(1) =~= a@.skip(i + 1));
            assert(b@.skip(i as int).skip(1) =~= b@.skip(i + 1));
        }
        i += 1;
    }
    i < y.len()
}

/// The value of the first entry with the key.
pub open spec fn lookup<V>(s: Seq<(Seq<char>, V)>, k: Seq<char>) -> Option<V>
    decreases s.len(),
{
    if s.len() == 0 {
        None
    } else if s[0].0 == k {
        Some(s[0].1)
    } else {
        lookup(s.skip(1), k)
    }
}

/// The entries are in the order of their keys, and no key occurs twice.
pub open spec fn ordered<V>(s: Seq<(Seq<char>, V)>) -> bool {
    forall|i: int, j: int|
        0 <= i < j < s.len() ==> text_less(#[trigger] s[i].0, #[trigger] s[j].0)
}

/// The entries with the key set to the value.
pub open spec fn with<V>(s: Seq<(Seq<char>, V)>, k: Seq<char>, v: V) -> Seq<(Seq<char>, V)>
    decreases s.len(),
{
    if s.len() == 0 || text_less(k, s[0].0) {
        seq![(k, v)] + s
    } else if s[0].0 == k {
        s.update(0, (k, v))
    } else {
        seq![s[0]] + with(s.skip(1), k, v)
    }
}

/// The entries without the key.
pub open spec fn without<V>(s: Seq<(Seq<char>, V)>, k: Seq<char>) -> Seq<(Seq<char>, V)>
    decreases s.len(),
{
    if s.len() == 0 {
        s
    } else if s[0].0 == k {
        s.skip(1)
    } else {
        seq![s[0]] + without(s.skip(1), k)
    }
}

/// A map with string keys, kept in the order of its keys.
#[derive(Debug, PartialEq)]
pub struct TextMap<V> {
    entries: Vec<(String, V)>,
}

impl<V> Default for TextMap<V> {
    fn default() -> (m: Self)
        ensures
            m@ == Seq::<(Seq<char>, V)>::empty(),
    {
        TextMap::new()
    }
}

impl<V> View for TextMap<V> {
    type V = Seq<(Seq<char>, V)>;

    /// The entries in order.
    closed spec fn view(&self) -> Seq<(Seq<char>, V)> {
        entry_views(self.entries@)
    }
}

spec fn entry_views<V>(s: Seq<(String, V)>) -> Seq<(Seq<char>, V)> {
    Seq::new(s.len(), |i: int| (s[i].0@, s[i].1))
}

/// Where the key is, or would go.
spec fn slot<V>(s: Seq<(Seq<char>, V)>, k: Seq<char>, at: int) -> bool {
    &&& 0 <= at <= s.len()
    &&& forall|i: int| 0 <= i < at ==> text_less(#[trigger] s[i].0, k)
    &&& at < s.len() ==> !text_less(s[at].0, k)
}

proof fn lemma_slot<V>(s: Seq<(Seq<char>, V)>, k: Seq<char>, at: int, v: V)
    requires
        slot(s, k, at),
        ordered(s),
    ensures
        at < s.len() && s[at].0 == k ==> lookup(s, k) == Some(s[at].1) && with(s, k, v)
            == s.update(at, (k, v)) && without(s, k) == s.remove(at),
        !(at < s.len() && s[at].0 == k) ==> lookup(s, k) is None && with(s, k, v) == s.insert(
            at,
            (k, v),
        ) && without(s, k) == s,
    decreases s.len(),
{
    lemma_less_irreflexive(k);
    if s.len() > 0 {
        let rest = s.skip(1);
        assert(s =~= seq![s[0]] + rest);
        assert(forall|i: int| 0 <= i < rest.len() ==> rest[i] == s[i + 1]);
        if at == 0 {
            lemma_less_total(s[0].0, k);
            if s[0].0 != k {
                assert forall|i: int| 0 <= i < s.len() implies text_less(k, #[trigger] s[i].0) by {
                    if i > 0 {
                        lemma_less_transitive(k, s[0].0, s[i].0);
                    }
                }
                lemma_absent(s, k);
                assert(seq![(k, v)] + s =~= s.insert(0, (k, v)));
            } else {
                assert(s.skip(1) =~= s.remove(0));
            }
        } else {
            lemma_slot(rest, k, at - 1, v);
            assert(text_less(s[0].0, k));
            if text_less(k, s[0].0) {
                lemma_less_transitive(k, s[0].0, k);
            }
            assert(seq![s[0]] + rest.insert(at - 1, (k, v)) =~= s.insert(at, (k, v)));
            if at < s.len() {
                assert(seq![s[0]] + rest.update(at - 1, (k, v)) =~= s.update(at, (k, v)));
                assert(seq![s[0]] + rest.remove(at - 1) =~= s.remove(at));
            }
        }
    } else {
        assert(seq![(k, v)] + s =~= s.insert(0, (k, v)));
    }
}

proof fn lemma_absent<V>(s: Seq<(Seq<char>, V)>, k: Seq<char>)
    requires
        forall|i: int| 0 <= i < s.len() ==> #[trigger] s[i].0 != k,
    ensures
        lookup(s, k) is None,
        without(s, k) == s,
    decreases s.len(),
{
    if s.len() > 0 {
        let rest = s.skip(1);
        assert(forall|i: int| 0 <= i < rest.len() ==> rest[i] == s[i + 1]);
        lemma_absent(rest, k);
        assert(s =~= seq![s[0]] + rest);
    }
}

/// After setting a key, looking it up gives the value, and every other key what it had.
pub proof fn lemma_lookup_with<V>(s: Seq<(Seq<char>, V)>, k: Seq<char>, v: V, other: Seq<char>)
    ensures
        lookup(with(s, k, v), k) == Some(v),
        other != k ==> lookup(with(s, k, v), other) == lookup(s, other),
    decreases s.len(),
{
    let t = with(s, k, v);
    if s.len() == 0 || text_less(k, s[0].0) {
        assert(t.skip(1) =~= s);
    } else if s[0].0 == k {
        assert(t.skip(1) =~= s.skip(1));
    } else {
        lemma_lookup_with(s.skip(1), k, v, other);
        assert(t.skip(1) =~= with(s.skip(1), k, v));
    }
}

impl<V: Clone> Clone for TextMap<V> {
    /// A map with the same keys, and a clone of each value.
    fn clone(&self) -> (r: Self)
        ensures
            r@.len() == self@.len(),
            forall|i: int|
                0 <= i < r@.len() ==> (#[trigger] r@[i]).0 == self@[i].0 && cloned(
                    self@[i].1,
                    r@[i].1,
                ),
    {
        proof {
            use_type_invariant(self);
        }
        let mut entries: Vec<(String, V)> = Vec::new();
        let mut i: usize = 0;
        while i < self.entries.len()
            invariant
                i <= self.entries@.len(),
                entries@.len() == i,
                forall|k: int|
                    0 <= k < i ==> (#[trigger] entries@[k]).0@ == self.entries@[k].0@ && cloned(
                        self.entries@[k].1,
                        entries@[k].1,
                    ),
            decreases self.entries@.len() - i,
        {
            let key = self.entries[i].0.clone();
            let value = self.entries[i].1.clone();
            entries.push((key, value));
            i += 1;
        }
        proof {
            let a = entry_views(self.entries@);
            let b = entry_views(entries@);
            assert(forall|k: int| 0 <= k < b.len() ==> (#[trigger] b[k]).0 == a[k].0);
        }
        TextMap { entries }
    }
}

impl<V> TextMap<V> {
    #[verifier::type_invariant]
    spec fn invariant_holds(&self) -> bool {
        ordered(entry_views(self.entries@))
    }

    /// The map without entries.
    pub fn new() -> (m: Self)
        ensures
            m@ == Seq::<(Seq<char>, V)>::empty(),
    {
        let m = TextMap { entries: Vec::new() };
        proof {
            assert(m@ =~= Seq::<(Seq<char>, V)>::empty());
        }
        m
    }

    /// How many entries there are.
    pub fn len(&self) -> (n: usize)
        ensures
            n == self@.len(),
            ordered(self@),
    {
        proof {
            use_type_invariant(self);
        }
        self.entries.len()
    }

    /// Whether there are no entries.
    pub fn is_empty(&self) -> (b: bool)
        ensures
            b == (self@.len() == 0),
    {
        self.entries.len() == 0
    }

    fn slot_of(&self, k: &str) -> (at: usize)
        ensures
            slot(self@, k@, at as int),
    {
        let mut i: usize = 0;
        while i < self.entries.len() && less(self.entries[i].0.as_str(), k)
            invariant
                i <= self.entries@.len(),
                forall|j: int| 0 <= j < i ==> text_less(#[trigger] self@[j].0, k@),
            decreases self.entries@.len() - i,
        {
            i += 1;
        }
        i
    }

    /// The value of the key.
    pub fn get(&self, k: &str) -> (r: Option<&V>)
        ensures
            match lookup(self@, k@) {
                Some(v) => r matches Some(x) && *x == v,
                None => r is None,
            },
    {
        let at: usize = self.slot_of(k);
        proof {
            use_type_invariant(self);
            if at < self@.len() {
                lemma_slot(self@, k@, at as int, self@[at as int].1);
            } else {
                lemma_absent_after(self@, k@);
            }
        }
        if at < self.entries.len() && same(self.entries[at].0.as_str(), k) {
            Some(&self.entries[at].1)
        } else {
            None
        }
    }

    /// Sets the key to the value.
    pub fn insert(&mut self, k: String, v: V)
        ensures
            final(self)@ == with(old(self)@, k@, v),
    {
        proof {
            use_type_invariant(&*self);
        }
        let at: usize = self.slot_of(k.as_str());
        let ghost before = self@;
        let ghost key = k@;
        let mut entries: Vec<(String, V)> = Vec::new();
        std::mem::swap(&mut entries, &mut self.entries);
        proof {
            lemma_slot(before, key, at as int, v);
            lemma_with_ordered(before, key, v);
        }
        if at < entries.len() && same(entries[at].0.as_str(), k.as_str()) {
            entries.set(at, (k, v));
            proof {
                assert(entry_views(entries@) =~= before.update(at as int, (key, v)));
            }
        } else {
            entries.insert(at, (k, v));
            proof {
                assert(entry_views(entries@) =~= before.insert(at as int, (key, v)));
            }
        }
        self.entries = entries;
    }

    /// Takes the key out.
    pub fn remove(&mut self, k: &str) -> (r: Option<V>)
        ensures
            final(self)@ == without(old(self)@, k@),
            r == lookup(old(self)@, k@),
    {
        proof {
            use_type_invariant(&*self);
        }
        let at: usize = self.slot_of(k);
        let ghost before = self@;
        let mut entries: Vec<(String, V)> = Vec::new();
        std::mem::swap(&mut entries, &mut self.entries);
        let mut taken: Option<V> = None;
        proof {
            if at < before.len() {
                lemma_slot(before, k@, at as int, before[at as int].1);
            } else {
                lemma_absent_after(before, k@);
            }
        }
        if at < entries.len() && same(entries[at].0.as_str(), k) {
            let (_, v) = entries.remove(at);
            taken = Some(v);
            proof {
                assert(entry_views(entries@) =~= before.remove(at as int));
                assert(ordered(before.remove(at as int)));
            }
        }
        self.entries = entries;
        taken
    }

    /// The key of the `i`th entry in order.
    pub fn key(&self, i: usize) -> (k: &str)
        requires
            i < self@.len(),
        ensures
            k@ == self@[i as int].0,
    {
        self.entries[i].0.as_str()
    }

    /// The value of the `i`th entry in order.
    pub fn value(&self, i: usize) -> (v: &V)
        requires
            i < self@.len(),
        ensures
            *v == self@[i as int].1,
    {
        &self.entries[i].1
    }
}

proof fn lemma_absent_after<V>(s: Seq<(Seq<char>, V)>, k: Seq<char>)
    requires
        forall|i: int| 0 <= i < s.len() ==> text_less(#[trigger] s[i].0, k),
    ensures
        lookup(s, k) is None,
        without(s, k) == s,
{
    lemma_less_irreflexive(k);
    lemma_absent(s, k);
}

/// Setting a key keeps the order.
pub proof fn lemma_with_ordered<V>(s: Seq<(Seq<char>, V)>, k: Seq<char>, v: V)
    requires
        ordered(s),
    ensures
        ordered(with(s, k, v)),
        forall|b: Seq<char>| #[trigger] text_less(b, k) && (s.len() > 0 ==> text_less(b, s[0].0))
            ==> text_less(b, with(s, k, v)[0].0),
    decreases s.len(),
{
    let t = with(s, k, v);
    if s.len() == 0 || text_less(k, s[0].0) {
        assert forall|i: int, j: int| 0 <= i < j < t.len() implies text_less(
            #[trigger] t[i].0,
            #[trigger] t[j].0,
        ) by {
            if i == 0 && j > 1 {
                lemma_less_transitive(k, s[0].0, s[j - 1].0);
            }
        }
    } else if s[0].0 == k {
    } else {
        let rest = s.skip(1);
        assert(forall|i: int| 0 <= i < rest.len() ==> rest[i] == s[i + 1]);
        lemma_with_ordered(rest, k, v);
        lemma_less_total(s[0].0, k);
        let r = with(rest, k, v);
        assert(text_less(s[0].0, r[0].0));
        assert forall|i: int, j: int| 0 <= i < j < t.len() implies text_less(
            #[trigger] t[i].0,
            #[trigger] t[j].0,
        ) by {
            assert(t[j] == r[j - 1]);
            if i == 0 {
                if j > 1 {
                    lemma_less_transitive(s[0].0, r[0].0, r[j - 1].0);
                }
            } else {
                assert(t[i] == r[i - 1]);
            }
        }
    }
}

/// The entries with the views of their values.
pub open spec fn viewed<V: View>(s: Seq<(Seq<char>, V)>) -> Seq<(Seq<char>, V::V)> {
    Seq::new(s.len(), |i: int| (s[i].0, s[i].1@))
}

/// Setting a key and taking the views of the values can be done in either order.
pub proof fn lemma_viewed_with<V: View>(s: Seq<(Seq<char>, V)>, k: Seq<char>, v: V)
    ensures
        viewed(with(s, k, v)) == with(viewed(s), k, v@),
    decreases s.len(),
{
    if s.len() == 0 || text_less(k, s[0].0) {
        assert(viewed(with(s, k, v)) =~= with(viewed(s), k, v@));
    } else if s[0].0 == k {
        assert(viewed(with(s, k, v)) =~= with(viewed(s), k, v@));
    } else {
        lemma_viewed_with(s.skip(1), k, v);
        assert(viewed(s.skip(1)) =~= viewed(s).skip(1));
        assert(viewed(with(s, k, v)) =~= seq![viewed(s)[0]] + viewed(with(s.skip(1), k, v)));
    }
}

/// Looking up the key of an entry gives the value of that entry.
pub proof fn lemma_lookup_at<V>(s: Seq<(Seq<char>, V)>, i: int)
    requires
        ordered(s),
        0 <= i < s.len(),
    ensures
        lookup(s, s[i].0) == Some(s[i].1),
    decreases s.len(),
{
    if i > 0 {
        lemma_less_irreflexive(s[i].0);
        assert(text_less(s[0].0, s[i].0));
        let rest = s.skip(1);
        assert(forall|j: int| 0 <= j < rest.len() ==> rest[j] == s[j + 1]);
        lemma_lookup_at(rest, i - 1);
    }
}

/// Looking a key up and taking the view of its value can be done in either order.
pub proof fn lemma_viewed_lookup<V: View>(s: Seq<(Seq<char>, V)>, k: Seq<char>)
    ensures
        lookup(viewed(s), k) == (match lookup(s, k) {
            Some(v) => Some(v@),
            None => None,
        }),
    decreases s.len(),
{
    if s.len() > 0 && s[0].0 != k {
        lemma_viewed_lookup(s.skip(1), k);
        assert(viewed(s.skip(1)) =~= viewed(s).skip(1));
    }
}

/// Taking a key out and taking the views of the values can be done in either order.
pub proof fn lemma_viewed_without<V: View>(s: Seq<(Seq<char>, V)>, k: Seq<char>)
    ensures
        viewed(without(s, k)) == without(viewed(s), k),
    decreases s.len(),
{
    if s.len() == 0 {
        assert(viewed(without(s, k)) =~= without(viewed(s), k));
    } else if s[0].0 == k {
        assert(viewed(without(s, k)) =~= without(viewed(s), k));
    } else {
        lemma_viewed_without(s.skip(1), k);
        assert(viewed(s.skip(1)) =~= viewed(s).skip(1));
        assert(viewed(without(s, k)) =~= seq![viewed(s)[0]] + viewed(without(s.skip(1), k)));
    }
}

/// Setting a key that comes after all others puts it last.
pub proof fn lemma_with_last<V>(s: Seq<(Seq<char>, V)>, k: Seq<char>, v: V)
    requires
        forall|i: int| 0 <= i < s.len() ==> text_less(#[trigger] s[i].0, k),
    ensures
        with(s, k, v) == s.push((k, v)),
        lookup(s, k) is None,
    decreases s.len(),
{
    if s.len() > 0 {
        let rest = s.skip(1);
        assert forall|i: int| 0 <= i < rest.len() implies text_less(#[trigger] rest[i].0, k) by {
            assert(rest[i] == s[i + 1]);
        }
        lemma_with_last(rest, k, v);
        lemma_less_irreflexive(k);
        assert(text_less(s[0].0, k));
        if text_less(k, s[0].0) {
            lemma_less_transitive(k, s[0].0, k);
        }
        assert(s.push((k, v)) =~= seq![s[0]] + rest.push((k, v)));
    } else {
        assert(with(s, k, v) =~= s.push((k, v)));
    }
}

}
