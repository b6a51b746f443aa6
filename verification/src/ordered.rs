//! A map from text keys to values that keeps its entries sorted by key.
//!
//! The map is stored as a vector of entries whose keys strictly increase in
//! the lexicographic order of [`text_lt`]. Contracts speak of two models: the
//! mathematical map `m@` from key text to the value's view, and the sequence
//! `m.entries()` of entries in key order. The second is determined by the
//! first: see [`lemma_sorted_entries_unique`].

use vstd::prelude::*;
use crate::text::{
    lemma_text_lt_irreflexive, lemma_text_lt_total, lemma_text_lt_transitive, same_text, text_before,
    text_lt,
};

verus! {

/// Keys strictly increase along `e`.
pub open spec fn strictly_sorted<T>(e: Seq<(Seq<char>, T)>) -> bool {
    forall|i: int, j: int| 0 <= i < j < e.len() ==> text_lt(#[trigger] e[i].0, #[trigger] e[j].0)
}

/// The map that a sequence of entries stands for; of two entries with the
/// same key the later one counts.
pub open spec fn entries_map<T>(e: Seq<(Seq<char>, T)>) -> Map<Seq<char>, T>
    decreases e.len(),
{
    if e.len() == 0 {
        Map::empty()
    } else {
        entries_map(e.drop_last()).insert(e.last().0, e.last().1)
    }
}

/// The entries of `m` in key order.
pub open spec fn ordered<T>(m: Map<Seq<char>, T>) -> Seq<(Seq<char>, T)> {
    choose|e: Seq<(Seq<char>, T)>| strictly_sorted(e) && entries_map(e) == m
}

/// A key occurs in `e`.
pub open spec fn has_key<T>(e: Seq<(Seq<char>, T)>, k: Seq<char>) -> bool {
    exists|i: int| 0 <= i < e.len() && #[trigger] e[i].0 == k
}

/// In a sorted sequence no key occurs twice.
pub proof fn lemma_sorted_keys_distinct<T>(e: Seq<(Seq<char>, T)>)
    requires
        strictly_sorted(e),
    ensures
        forall|i: int, j: int|
            0 <= i < e.len() && 0 <= j < e.len() && i != j ==> #[trigger] e[i].0 != #[trigger] e[j].0,
{
    assert forall|i: int, j: int|
        0 <= i < e.len() && 0 <= j < e.len() && i != j implies #[trigger] e[i].0 != #[trigger] e[j].0 by {
        lemma_text_lt_irreflexive(e[i].0);
        if i < j {
            assert(text_lt(e[i].0, e[j].0));
        } else {
            assert(text_lt(e[j].0, e[i].0));
        }
    }
}

/// What the map of a sorted sequence holds: exactly its keys, each with the
/// value that stands beside it.
pub proof fn lemma_entries_map_sorted<T>(e: Seq<(Seq<char>, T)>)
    requires
        strictly_sorted(e),
    ensures
        entries_map(e).dom().finite(),
        entries_map(e).dom().len() == e.len(),
        forall|k: Seq<char>| #[trigger] entries_map(e).dom().contains(k) <==> has_key(e, k),
        forall|i: int| 0 <= i < e.len() ==> entries_map(e)[#[trigger] e[i].0] == e[i].1,
    decreases e.len(),
{
    if e.len() > 0 {
        let front = e.drop_last();
        let last = e.last();
        assert forall|i: int, j: int| 0 <= i < j < front.len() implies text_lt(
            #[trigger] front[i].0,
            #[trigger] front[j].0,
        ) by {
            assert(front[i] == e[i] && front[j] == e[j]);
        }
        lemma_entries_map_sorted(front);
        lemma_sorted_keys_distinct(e);
        assert(!has_key(front, last.0)) by {
            if has_key(front, last.0) {
                let i = choose|i: int| 0 <= i < front.len() && #[trigger] front[i].0 == last.0;
                assert(front[i] == e[i]);
                assert(e[i].0 != e[e.len() - 1].0);
            }
        }
        assert forall|k: Seq<char>| #[trigger] entries_map(e).dom().contains(k) <==> has_key(
            e,
            k,
        ) by {
            if has_key(e, k) {
                let i = choose|i: int| 0 <= i < e.len() && #[trigger] e[i].0 == k;
                if i < e.len() - 1 {
                    assert(front[i].0 == k);
                }
            }
            if has_key(front, k) {
                let i = choose|i: int| 0 <= i < front.len() && #[trigger] front[i].0 == k;
                assert(e[i].0 == k);
            }
            if k == last.0 {
                assert(e[e.len() - 1].0 == k);
            }
        }
        assert forall|i: int| 0 <= i < e.len() implies entries_map(e)[#[trigger] e[i].0]
            == e[i].1 by {
            if i < e.len() - 1 {
                assert(front[i] == e[i]);
                assert(e[i].0 != e[e.len() - 1].0);
            }
        }
    }
}

/// Two sorted sequences that stand for the same map are the same sequence.
pub proof fn lemma_sorted_entries_unique<T>(a: Seq<(Seq<char>, T)>, b: Seq<(Seq<char>, T)>)
    requires
        strictly_sorted(a),
        strictly_sorted(b),
        entries_map(a) == entries_map(b),
    ensures
        a == b,
    decreases a.len(),
{
    lemma_entries_map_sorted(a);
    lemma_entries_map_sorted(b);
    assert(a.len() == b.len());
    if a.len() > 0 {
        let n = a.len() - 1;
        // The greatest key of each sequence occurs in the other, so they agree.
        assert(has_key(b, a[n].0)) by {
            assert(entries_map(a).dom().contains(a[n].0));
        }
        assert(has_key(a, b[n].0)) by {
            assert(entries_map(b).dom().contains(b[n].0));
        }
        let i = choose|i: int| 0 <= i < b.len() && #[trigger] b[i].0 == a[n].0;
        let j = choose|j: int| 0 <= j < a.len() && #[trigger] a[j].0 == b[n].0;
        assert(a[n].0 == b[n].0) by {
            lemma_text_lt_total(a[n].0, b[n].0);
            if i < n {
                assert(text_lt(b[i].0, b[n].0));
            }
            if j < n {
                assert(text_lt(a[j].0, a[n].0));
            }
        }
        assert(a[n].1 == b[n].1) by {
            assert(entries_map(a)[a[n].0] == a[n].1);
            assert(entries_map(b)[b[n].0] == b[n].1);
        }
        let fa = a.drop_last();
        let fb = b.drop_last();
        assert forall|i: int, j: int| 0 <= i < j < fa.len() implies text_lt(
            #[trigger] fa[i].0,
            #[trigger] fa[j].0,
        ) by {
            assert(fa[i] == a[i] && fa[j] == a[j]);
        }
        assert forall|i: int, j: int| 0 <= i < j < fb.len() implies text_lt(
            #[trigger] fb[i].0,
            #[trigger] fb[j].0,
        ) by {
            assert(fb[i] == b[i] && fb[j] == b[j]);
        }
        lemma_entries_map_sorted(fa);
        lemma_entries_map_sorted(fb);
        lemma_sorted_keys_distinct(a);
        lemma_sorted_keys_distinct(b);
        assert(entries_map(fa) =~= entries_map(fb)) by {
            assert forall|k: Seq<char>| entries_map(fa).dom().contains(k) implies entries_map(
                fb,
            ).dom().contains(k) && entries_map(fa)[k] == entries_map(fb)[k] by {
                let p = choose|p: int| 0 <= p < fa.len() && #[trigger] fa[p].0 == k;
                assert(a[p].0 == k);
                assert(entries_map(b).dom().contains(k));
                let q = choose|q: int| 0 <= q < b.len() && #[trigger] b[q].0 == k;
                assert(q != n);
                assert(fb[q].0 == k);
                assert(entries_map(a)[a[p].0] == a[p].1);
                assert(entries_map(b)[b[q].0] == b[q].1);
                assert(entries_map(fa)[fa[p].0] == fa[p].1);
                assert(entries_map(fb)[fb[q].0] == fb[q].1);
            }
            assert forall|k: Seq<char>| entries_map(fb).dom().contains(k) implies entries_map(
                fa,
            ).dom().contains(k) by {
                let q = choose|q: int| 0 <= q < fb.len() && #[trigger] fb[q].0 == k;
                assert(b[q].0 == k);
                assert(entries_map(a).dom().contains(k));
                let p = choose|p: int| 0 <= p < a.len() && #[trigger] a[p].0 == k;
                assert(p != n);
                assert(fa[p].0 == k);
            }
        }
        lemma_sorted_entries_unique(fa, fb);
        assert(a =~= fa.push(a[n]));
        assert(b =~= fb.push(b[n]));
    } else {
        assert(a =~= b);
    }
}

/// A finite set of keys that is not empty has a greatest key.
pub proof fn lemma_greatest_key(keys: Set<Seq<char>>) -> (greatest: Seq<char>)
    requires
        keys.finite(),
        keys.len() > 0,
    ensures
        keys.contains(greatest),
        forall|k: Seq<char>| keys.contains(k) ==> k == greatest || text_lt(k, greatest),
    decreases keys.len(),
{
    let any = keys.choose();
    let rest = keys.remove(any);
    if rest.len() == 0 {
        assert forall|k: Seq<char>| keys.contains(k) implies k == any by {
            if k != any {
                assert(rest.contains(k));
            }
        }
        any
    } else {
        let best = lemma_greatest_key(rest);
        lemma_text_lt_total(any, best);
        if text_lt(any, best) {
            assert forall|k: Seq<char>| keys.contains(k) implies k == best || text_lt(k, best) by {
                if k != any {
                    assert(rest.contains(k));
                }
            }
            best
        } else {
            assert forall|k: Seq<char>| keys.contains(k) implies k == any || text_lt(k, any) by {
                if k != any {
                    assert(rest.contains(k));
                    if k != best {
                        lemma_text_lt_transitive(k, best, any);
                    }
                }
            }
            any
        }
    }
}

/// Every finite map has its entries in key order: `ordered(m)` is sorted
/// and stands for `m`.
pub proof fn lemma_ordered_exists<T>(m: Map<Seq<char>, T>)
    requires
        m.dom().finite(),
    ensures
        strictly_sorted(ordered(m)),
        entries_map(ordered(m)) == m,
    decreases m.dom().len(),
{
    if m.dom().len() == 0 {
        let none = Seq::<(Seq<char>, T)>::empty();
        assert(m.dom() =~= Set::<Seq<char>>::empty());
        assert(entries_map(none) =~= m);
        assert(strictly_sorted(none));
    } else {
        let greatest = lemma_greatest_key(m.dom());
        let less = m.remove(greatest);
        lemma_ordered_exists(less);
        let front = ordered(less);
        lemma_entries_map_sorted(front);
        let all = front.push((greatest, m[greatest]));
        assert forall|i: int, j: int| 0 <= i < j < all.len() implies text_lt(
            #[trigger] all[i].0,
            #[trigger] all[j].0,
        ) by {
            assert(all[i] == front[i]);
            assert(has_key(front, front[i].0));
            assert(less.dom().contains(front[i].0));
            if j < front.len() {
                assert(all[j] == front[j]);
            }
        }
        assert(all.drop_last() =~= front);
        assert(entries_map(all) =~= m);
    }
}

/// Putting a new key at its place in a sorted sequence adds it to the map.
pub proof fn lemma_insert_new_key<T>(e: Seq<(Seq<char>, T)>, at: int, k: Seq<char>, v: T)
    requires
        strictly_sorted(e),
        0 <= at <= e.len(),
        forall|j: int| 0 <= j < at ==> text_lt(#[trigger] e[j].0, k),
        forall|j: int| at <= j < e.len() ==> text_lt(k, #[trigger] e[j].0),
    ensures
        strictly_sorted(e.insert(at, (k, v))),
        entries_map(e.insert(at, (k, v))) == entries_map(e).insert(k, v),
{
    let r = e.insert(at, (k, v));
    assert forall|i: int, j: int| 0 <= i < j < r.len() implies text_lt(
        #[trigger] r[i].0,
        #[trigger] r[j].0,
    ) by {
        if j < at {
            assert(r[i] == e[i] && r[j] == e[j]);
        } else if j == at {
            assert(r[i] == e[i]);
        } else if i < at {
            assert(r[i] == e[i] && r[j] == e[j - 1]);
            if i + 1 < j {
                assert(text_lt(e[i].0, e[j - 1].0));
            } else {
                lemma_text_lt_transitive(e[i].0, k, e[j - 1].0);
            }
        } else if i == at {
            assert(r[j] == e[j - 1]);
        } else {
            assert(r[i] == e[i - 1] && r[j] == e[j - 1]);
        }
    }
    lemma_entries_map_sorted(e);
    lemma_entries_map_sorted(r);
    let target = entries_map(e).insert(k, v);
    assert forall|x: Seq<char>| entries_map(r).dom().contains(x) <==> target.dom().contains(x) by {
        if has_key(r, x) {
            let i = choose|i: int| 0 <= i < r.len() && #[trigger] r[i].0 == x;
            if i < at {
                assert(e[i].0 == x);
            } else if i > at {
                assert(e[i - 1].0 == x);
            }
        }
        if has_key(e, x) {
            let i = choose|i: int| 0 <= i < e.len() && #[trigger] e[i].0 == x;
            if i < at {
                assert(r[i].0 == x);
            } else {
                assert(r[i + 1].0 == x);
            }
        }
        if x == k {
            assert(r[at].0 == x);
        }
    }
    assert forall|x: Seq<char>| entries_map(r).dom().contains(x) implies entries_map(r)[x]
        == target[x] by {
        let i = choose|i: int| 0 <= i < r.len() && #[trigger] r[i].0 == x;
        assert(entries_map(r)[r[i].0] == r[i].1);
        if i < at {
            assert(r[i] == e[i]);
            assert(entries_map(e)[e[i].0] == e[i].1);
            lemma_text_lt_irreflexive(k);
        } else if i > at {
            assert(r[i] == e[i - 1]);
            assert(entries_map(e)[e[i - 1].0] == e[i - 1].1);
            lemma_text_lt_irreflexive(k);
        }
    }
    assert(entries_map(r) =~= target);
}

/// Replacing the value beside a key of a sorted sequence updates the map.
pub proof fn lemma_replace_value<T>(e: Seq<(Seq<char>, T)>, at: int, v: T)
    requires
        strictly_sorted(e),
        0 <= at < e.len(),
    ensures
        strictly_sorted(e.update(at, (e[at].0, v))),
        entries_map(e.update(at, (e[at].0, v))) == entries_map(e).insert(e[at].0, v),
{
    let k = e[at].0;
    let r = e.update(at, (k, v));
    assert forall|i: int, j: int| 0 <= i < j < r.len() implies text_lt(
        #[trigger] r[i].0,
        #[trigger] r[j].0,
    ) by {
        assert(r[i].0 == e[i].0 && r[j].0 == e[j].0);
    }
    lemma_entries_map_sorted(e);
    lemma_entries_map_sorted(r);
    lemma_sorted_keys_distinct(e);
    let target = entries_map(e).insert(k, v);
    assert forall|x: Seq<char>| entries_map(r).dom().contains(x) <==> target.dom().contains(x) by {
        if has_key(r, x) {
            let i = choose|i: int| 0 <= i < r.len() && #[trigger] r[i].0 == x;
            assert(e[i].0 == x);
        }
        if has_key(e, x) {
            let i = choose|i: int| 0 <= i < e.len() && #[trigger] e[i].0 == x;
            assert(r[i].0 == x);
        }
    }
    assert forall|x: Seq<char>| entries_map(r).dom().contains(x) implies entries_map(r)[x]
        == target[x] by {
        let i = choose|i: int| 0 <= i < r.len() && #[trigger] r[i].0 == x;
        assert(entries_map(r)[r[i].0] == r[i].1);
        if i != at {
            assert(r[i] == e[i]);
            assert(entries_map(e)[e[i].0] == e[i].1);
            assert(e[i].0 != e[at].0);
        }
    }
    assert(entries_map(r) =~= target);
}

/// A map from text keys to values, kept sorted by key.
#[derive(Debug)]
pub struct StringMap<V: DeepView> {
    items: Vec<(String, V)>,
}

impl<V: DeepView> View for StringMap<V> {
    type V = Map<Seq<char>, V::V>;

    /// The map from key text to the view of the value stored under it.
    open spec fn view(&self) -> Map<Seq<char>, V::V> {
        entries_map(self.entries())
    }
}

impl<V: DeepView> StringMap<V> {
    /// The entries in key order: key text and the view of the value.
    pub closed spec fn entries(&self) -> Seq<(Seq<char>, V::V)> {
        Seq::new(self.items@.len(), |i: int| (self.items@[i].0@, self.items@[i].1.deep_view()))
    }

    #[verifier::type_invariant]
    spec fn keys_increase(&self) -> bool {
        strictly_sorted(self.entries())
    }

    /// An empty map.
    pub fn new() -> (m: Self)
        ensures
            m.entries() == Seq::<(Seq<char>, V::V)>::empty(),
            m@ == Map::<Seq<char>, V::V>::empty(),
    {
        let m = StringMap { items: Vec::new() };
        assert(m.entries() =~= Seq::<(Seq<char>, V::V)>::empty());
        m
    }

    /// States what every map satisfies: its entries are sorted by key, they
    /// are the entries of `self@` in key order, and there is one per key.
    pub fn sorted(&self)
        ensures
            strictly_sorted(self.entries()),
            self.entries() == ordered(self@),
            self@.dom().finite(),
            self@.dom().len() == self.entries().len(),
    {
        proof {
            use_type_invariant(self);
            lemma_entries_map_sorted(self.entries());
            let e = ordered(self@);
            assert(strictly_sorted(self.entries()) && entries_map(self.entries()) == self@);
            lemma_sorted_entries_unique(self.entries(), e);
        }
    }

    /// The number of entries.
    pub fn len(&self) -> (n: usize)
        ensures
            n == self.entries().len(),
    {
        self.items.len()
    }

    /// The key of the entry at position `i` in key order.
    pub fn key_at(&self, i: usize) -> (k: &String)
        requires
            i < self.entries().len(),
        ensures
            k@ == self.entries()[i as int].0,
    {
        &self.items[i].0
    }

    /// The value of the entry at position `i` in key order.
    pub fn value_at(&self, i: usize) -> (v: &V)
        requires
            i < self.entries().len(),
        ensures
            v.deep_view() == self.entries()[i as int].1,
    {
        &self.items[i].1
    }

    /// The position of the first entry whose key does not come before `key`.
    fn lower_bound(&self, key: &str) -> (at: usize)
        ensures
            at <= self.entries().len(),
            forall|j: int| 0 <= j < at ==> text_lt(#[trigger] self.entries()[j].0, key@),
            forall|j: int|
                at <= j < self.entries().len() ==> !text_lt(#[trigger] self.entries()[j].0, key@),
    {
        proof {
            use_type_invariant(self);
        }
        let mut at: usize = 0;
        while at < self.items.len() && text_before(self.items[at].0.as_str(), key)
            invariant
                at <= self.items.len(),
                self.items.len() == self.entries().len(),
                forall|j: int| 0 <= j < at ==> text_lt(#[trigger] self.entries()[j].0, key@),
            decreases self.items.len() - at,
        {
            at = at + 1;
        }
        proof {
            if at < self.items.len() {
                let here = self.entries()[at as int].0;
                assert(!text_lt(here, key@));
                assert forall|j: int| at <= j < self.entries().len() implies !text_lt(
                    #[trigger] self.entries()[j].0,
                    key@,
                ) by {
                    if j > at && text_lt(self.entries()[j].0, key@) {
                        assert(text_lt(here, self.entries()[j].0));
                        lemma_text_lt_transitive(here, self.entries()[j].0, key@);
                    }
                }
            }
        }
        at
    }

    /// The position of `key` among the entries, if it is a key of the map.
    pub fn position(&self, key: &str) -> (found: Option<usize>)
        ensures
            found matches Some(i) ==> i < self.entries().len() && self.entries()[i as int].0
                == key@,
            found is Some <==> self@.dom().contains(key@),
    {
        proof {
            use_type_invariant(self);
            lemma_entries_map_sorted(self.entries());
        }
        let at = self.lower_bound(key);
        if at < self.items.len() && same_text(self.items[at].0.as_str(), key) {
            assert(self.entries()[at as int].0 == key@);
            Some(at)
        } else {
            proof {
                if has_key(self.entries(), key@) {
                    let i = choose|i: int|
                        0 <= i < self.entries().len() && #[trigger] self.entries()[i].0 == key@;
                    lemma_text_lt_irreflexive(key@);
                    if i > at {
                        assert(text_lt(self.entries()[at as int].0, self.entries()[i].0));
                    }
                }
            }
            None
        }
    }

    /// Whether `key` is a key of the map.
    pub fn contains_key(&self, key: &str) -> (found: bool)
        ensures
            found == self@.dom().contains(key@),
    {
        self.position(key).is_some()
    }

    /// The value stored under `key`, if any.
    pub fn get(&self, key: &str) -> (value: Option<&V>)
        ensures
            value is Some <==> self@.dom().contains(key@),
            value matches Some(v) ==> v.deep_view() == self@[key@],
    {
        proof {
            use_type_invariant(self);
            lemma_entries_map_sorted(self.entries());
        }
        match self.position(key) {
            Some(i) => {
                assert(self@[self.entries()[i as int].0] == self.entries()[i as int].1);
                Some(&self.items[i].1)
            },
            None => None,
        }
    }

    /// Stores `value` under `key`, in place of what was stored there before.
    pub fn insert(&mut self, key: String, value: V)
        ensures
            final(self)@ == old(self)@.insert(key@, value.deep_view()),
    {
        proof {
            use_type_invariant(&*self);
        }
        let at = self.lower_bound(key.as_str());
        let ghost before = self.entries();
        let ghost k = key@;
        let ghost v = value.deep_view();
        let mut items: Vec<(String, V)> = Vec::new();
        core::mem::swap(&mut self.items, &mut items);
        if at < items.len() && same_text(items[at].0.as_str(), key.as_str()) {
            proof {
                lemma_replace_value(before, at as int, v);
            }
            items.set(at, (key, value));
            assert(Seq::new(items@.len(), |i: int| (items@[i].0@, items@[i].1.deep_view()))
                =~= before.update(at as int, (k, v)));
            self.items = items;
        } else {
            proof {
                assert forall|j: int| at <= j < before.len() implies text_lt(
                    k,
                    #[trigger] before[j].0,
                ) by {
                    lemma_text_lt_total(k, before[j].0);
                    if j > at {
                        assert(text_lt(before[at as int].0, before[j].0));
                    }
                }
                lemma_insert_new_key(before, at as int, k, v);
            }
            items.insert(at, (key, value));
            assert(Seq::new(items@.len(), |i: int| (items@[i].0@, items@[i].1.deep_view()))
                =~= before.insert(at as int, (k, v)));
            self.items = items;
        }
    }

    /// Puts `value` in place of the value at position `i` in key order and
    /// returns the value that stood there.
    pub fn replace_at(&mut self, i: usize, value: V) -> (before: V)
        requires
            i < old(self).entries().len(),
        ensures
            before.deep_view() == old(self).entries()[i as int].1,
            final(self).entries() == old(self).entries().update(
                i as int,
                (old(self).entries()[i as int].0, value.deep_view()),
            ),
            final(self)@ == old(self)@.insert(old(self).entries()[i as int].0, value.deep_view()),
    {
        proof {
            use_type_invariant(&*self);
        }
        let ghost entries = self.entries();
        let ghost v = value.deep_view();
        let mut items: Vec<(String, V)> = Vec::new();
        core::mem::swap(&mut self.items, &mut items);
        let (key, before) = items.remove(i);
        items.insert(i, (key, value));
        proof {
            lemma_replace_value(entries, i as int, v);
            assert(Seq::new(items@.len(), |j: int| (items@[j].0@, items@[j].1.deep_view()))
                =~= entries.update(i as int, (entries[i as int].0, v)));
        }
        self.items = items;
        before
    }

    /// The values in key order, taken out of the map.
    pub fn into_values(self) -> (values: Vec<V>)
        ensures
            values.len() == self.entries().len(),
            forall|i: int|
                0 <= i < values.len() ==> (#[trigger] values[i]).deep_view() == self.entries()[i].1,
    {
        let ghost entries = self.entries();
        let mut items = self.items;
        let ghost all = items@;
        let mut values: Vec<V> = Vec::new();
        while items.len() > 0
            invariant
                values.len() + items.len() == all.len(),
                all.len() == entries.len(),
                forall|j: int| 0 <= j < all.len() ==> (#[trigger] all[j]).1.deep_view() == entries[j].1,
                forall|j: int| 0 <= j < items.len() ==> #[trigger] items@[j] == all[values.len() + j],
                forall|j: int| 0 <= j < values.len() ==> (#[trigger] values@[j]).deep_view() == entries[j].1,
            decreases items.len(),
        {
            let ghost left = items@;
            let (_, value) = items.remove(0);
            assert(value == left[0].1);
            assert forall|j: int| 0 <= j < items.len() implies #[trigger] items@[j] == all[values.len()
                + 1 + j] by {
                assert(items@[j] == left[j + 1]);
            }
            values.push(value);
        }
        values
    }

    /// The entries in key order, taken out of the map.
    pub fn into_items(self) -> (items: Vec<(String, V)>)
        ensures
            items.len() == self.entries().len(),
            forall|i: int|
                0 <= i < items.len() ==> (#[trigger] items[i]).0@ == self.entries()[i].0
                    && items[i].1.deep_view() == self.entries()[i].1,
    {
        self.items
    }
}

} // verus!
