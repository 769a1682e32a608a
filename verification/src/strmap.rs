//! A map keyed by strings that keeps its entries in the order in which their
//! keys were first inserted.
//!
//! The service keeps all of its tables (accounts, sessions, conversations and
//! connections) in maps of this kind. Its model is the sequence of its
//! entries, keys taken by their characters and values by their deep view; the
//! map view is read off that sequence.

use vstd::prelude::*;

verus! {

/// Some entry of `p` has key `k`.
pub open spec fn has_key<W>(p: Seq<(Seq<char>, W)>, k: Seq<char>) -> bool {
    exists|i: int| 0 <= i < p.len() && #[trigger] p[i].0 == k
}

/// The position of an entry of `p` with key `k` (meaningful where `has_key`).
pub open spec fn key_index<W>(p: Seq<(Seq<char>, W)>, k: Seq<char>) -> int {
    choose|i: int| 0 <= i < p.len() && #[trigger] p[i].0 == k
}

/// No two entries of `p` share a key.
pub open spec fn distinct_keys<W>(p: Seq<(Seq<char>, W)>) -> bool {
    forall|i: int, j: int| 0 <= i < p.len() && 0 <= j < p.len() && i != j ==> #[trigger] p[i].0
        != #[trigger] p[j].0
}

/// The map that the entries `p` describe.
pub open spec fn pairs_view<W>(p: Seq<(Seq<char>, W)>) -> Map<Seq<char>, W> {
    Map::new(|k: Seq<char>| has_key(p, k), |k: Seq<char>| p[key_index(p, k)].1)
}

/// The entries `p` after storing `v` under `k`: an entry with that key takes
/// the new value in place, otherwise a new entry goes last.
pub open spec fn pairs_insert<W>(p: Seq<(Seq<char>, W)>, k: Seq<char>, v: W) -> Seq<(Seq<char>, W)> {
    if has_key(p, k) {
        p.update(key_index(p, k), (k, v))
    } else {
        p.push((k, v))
    }
}

/// The entries `p` without the entry with key `k`, the others in their order.
pub open spec fn pairs_remove<W>(p: Seq<(Seq<char>, W)>, k: Seq<char>) -> Seq<(Seq<char>, W)> {
    if has_key(p, k) {
        p.remove(key_index(p, k))
    } else {
        p
    }
}

/// The entries `p`, whose values are sequences, after `item` was appended to
/// the sequence under `k`; without such an entry, a new one holding `item`
/// alone goes last.
pub open spec fn pairs_append<W>(p: Seq<(Seq<char>, Seq<W>)>, k: Seq<char>, item: W) -> Seq<
    (Seq<char>, Seq<W>),
> {
    if has_key(p, k) {
        let i = key_index(p, k);
        p.update(i, (k, p[i].1.push(item)))
    } else {
        p.push((k, seq![item]))
    }
}

/// The sequence that `p` holds under `k`, or the empty one.
pub open spec fn values_under<W>(p: Seq<(Seq<char>, Seq<W>)>, k: Seq<char>) -> Seq<W> {
    if pairs_view(p).contains_key(k) {
        pairs_view(p)[k]
    } else {
        Seq::<W>::empty()
    }
}

/// Appending under a key adds the item at the end of what that key holds,
/// and keeps the keys distinct.
pub proof fn lemma_append_view<W>(p: Seq<(Seq<char>, Seq<W>)>, k: Seq<char>, item: W)
    requires
        distinct_keys(p),
    ensures
        distinct_keys(pairs_append(p, k, item)),
        values_under(pairs_append(p, k, item), k) == values_under(p, k).push(item),
        pairs_view(pairs_append(p, k, item)) == pairs_view(p).insert(
            k,
            values_under(p, k).push(item),
        ),
{
    let v = values_under(p, k).push(item);
    if has_key(p, k) {
        let i = key_index(p, k);
        lemma_entry_in_view(p, i);
        assert(pairs_append(p, k, item) == pairs_insert(p, k, v));
    } else {
        assert(values_under(p, k) =~= Seq::<W>::empty());
        assert(seq![item] =~= v);
        assert(pairs_append(p, k, item) == pairs_insert(p, k, v));
    }
    lemma_insert_view(p, k, v);
}

/// With distinct keys, the entry at `i` is the one that the map shows for its key.
pub proof fn lemma_entry_in_view<W>(p: Seq<(Seq<char>, W)>, i: int)
    requires
        distinct_keys(p),
        0 <= i < p.len(),
    ensures
        pairs_view(p).contains_key(p[i].0),
        pairs_view(p)[p[i].0] == p[i].1,
        key_index(p, p[i].0) == i,
{
    assert(has_key(p, p[i].0));
    let j = key_index(p, p[i].0);
    assert(p[j].0 == p[i].0);
}

/// A string-keyed map whose entries keep their insertion order.
#[derive(Debug)]
pub struct StrMap<V: DeepView> {
    entries: Vec<(String, V)>,
}

impl<V: DeepView> StrMap<V> {
    /// The entries in order: each key by its characters, each value by its deep view.
    pub closed spec fn pairs(&self) -> Seq<(Seq<char>, V::V)> {
        self.entries@.map_values(|e: (String, V)| (e.0@, e.1.deep_view()))
    }

    /// The map from keys to values.
    pub open spec fn view(&self) -> Map<Seq<char>, V::V> {
        pairs_view(self.pairs())
    }

    #[verifier::type_invariant]
    closed spec fn keys_are_distinct(self) -> bool {
        distinct_keys(self.pairs())
    }

    /// An empty map.
    pub fn new() -> (m: Self)
        ensures
            m.pairs() == Seq::<(Seq<char>, V::V)>::empty(),
            m@ == Map::<Seq<char>, V::V>::empty(),
    {
        let m = StrMap { entries: Vec::new() };
        assert(m.pairs() =~= Seq::<(Seq<char>, V::V)>::empty());
        assert(m@ =~= Map::<Seq<char>, V::V>::empty());
        m
    }

    /// The number of entries.
    pub fn len(&self) -> (n: usize)
        ensures
            n == self.pairs().len(),
    {
        self.entries.len()
    }

    /// Brings into a caller's proof that no two entries share a key.
    pub fn assert_distinct_keys(&self)
        ensures
            distinct_keys(self.pairs()),
    {
        proof {
            use_type_invariant(self);
        }
    }

    /// The position of the entry with key `key`, if there is one.
    pub fn position(&self, key: &str) -> (r: Option<usize>)
        ensures
            match r {
                Some(i) => i < self.pairs().len() && self.pairs()[i as int].0 == key@,
                None => !has_key(self.pairs(), key@),
            },
    {
        let k = key.to_owned();
        let n = self.entries.len();
        let mut i: usize = 0;
        while i < n
            invariant
                n == self.entries@.len(),
                i <= n,
                k@ == key@,
                forall|j: int| 0 <= j < i ==> self.pairs()[j].0 != key@,
            decreases n - i,
        {
            if self.entries[i].0 == k {
                return Some(i);
            }
            i += 1;
        }
        None
    }

    /// The key and value of the entry at position `i`.
    pub fn entry_at(&self, i: usize) -> (r: (&String, &V))
        requires
            i < self.pairs().len(),
        ensures
            r.0@ == self.pairs()[i as int].0,
            r.1.deep_view() == self.pairs()[i as int].1,
    {
        let e = &self.entries[i];
        (&e.0, &e.1)
    }

    /// Whether some entry has key `key`.
    pub fn contains_key(&self, key: &str) -> (r: bool)
        ensures
            r == self@.contains_key(key@),
    {
        match self.position(key) {
            Some(_) => true,
            None => false,
        }
    }

    /// The value stored under `key`.
    pub fn get(&self, key: &str) -> (r: Option<&V>)
        ensures
            r is Some <==> self@.contains_key(key@),
            r matches Some(v) ==> v.deep_view() == self@[key@],
    {
        proof {
            use_type_invariant(self);
        }
        match self.position(key) {
            Some(i) => {
                proof {
                    lemma_entry_in_view(self.pairs(), i as int);
                }
                Some(&self.entries[i].1)
            },
            None => None,
        }
    }

    /// Replaces the value of the entry at position `i` by `value` and gives back
    /// the value it held; the entry keeps its key and its position.
    pub fn replace_at(&mut self, i: usize, value: V) -> (old_value: V)
        requires
            i < old(self).pairs().len(),
        ensures
            final(self).pairs() == old(self).pairs().update(
                i as int,
                (old(self).pairs()[i as int].0, value.deep_view()),
            ),
            old_value.deep_view() == old(self).pairs()[i as int].1,
    {
        proof {
            use_type_invariant(&*self);
        }
        let ghost before = self.pairs();
        let mut entries: Vec<(String, V)> = Vec::new();
        std::mem::swap(&mut entries, &mut self.entries);
        let (k, v) = entries.remove(i);
        entries.insert(i, (k, value));
        proof {
            let updated = entries@.map_values(|e: (String, V)| (e.0@, e.1.deep_view()));
            assert(updated =~= before.update(i as int, (before[i as int].0, value.deep_view())));
            assert(distinct_keys(updated));
        }
        self.entries = entries;
        proof {
            assert(self.pairs() =~= before.update(i as int, (before[i as int].0, value.deep_view())));
        }
        v
    }

    /// Stores `value` under `key`. An entry with that key keeps its position and
    /// takes the new value; otherwise a new entry goes last. Gives back the value
    /// that was stored under `key` before, if any.
    pub fn insert(&mut self, key: String, value: V) -> (r: Option<V>)
        ensures
            final(self)@ == old(self)@.insert(key@, value.deep_view()),
            r is Some <==> old(self)@.contains_key(key@),
            r matches Some(v) ==> v.deep_view() == old(self)@[key@],
            final(self).pairs() == pairs_insert(old(self).pairs(), key@, value.deep_view()),
    {
        proof {
            use_type_invariant(&*self);
            lemma_insert_view(self.pairs(), key@, value.deep_view());
        }
        let ghost before = self.pairs();
        match self.position(key.as_str()) {
            Some(i) => {
                proof {
                    lemma_entry_in_view(before, i as int);
                }
                let old_value = self.replace_at(i, value);
                Some(old_value)
            },
            None => {
                let ghost kv = key@;
                let mut entries: Vec<(String, V)> = Vec::new();
                std::mem::swap(&mut entries, &mut self.entries);
                entries.push((key, value));
                proof {
                    let grown = entries@.map_values(|e: (String, V)| (e.0@, e.1.deep_view()));
                    assert(grown =~= before.push((kv, value.deep_view())));
                }
                self.entries = entries;
                proof {
                    assert(self.pairs() =~= before.push((kv, value.deep_view())));
                }
                None
            },
        }
    }

    /// Removes the entry with key `key`, if there is one, and gives back its
    /// value; the other entries keep their order.
    pub fn remove(&mut self, key: &str) -> (r: Option<V>)
        ensures
            final(self)@ == old(self)@.remove(key@),
            r is Some <==> old(self)@.contains_key(key@),
            r matches Some(v) ==> v.deep_view() == old(self)@[key@],
            final(self).pairs() == pairs_remove(old(self).pairs(), key@),
    {
        proof {
            use_type_invariant(&*self);
            lemma_remove_view(self.pairs(), key@);
        }
        let ghost before = self.pairs();
        match self.position(key) {
            Some(i) => {
                proof {
                    lemma_entry_in_view(before, i as int);
                }
                let mut entries: Vec<(String, V)> = Vec::new();
                std::mem::swap(&mut entries, &mut self.entries);
                let (_k, v) = entries.remove(i);
                proof {
                    let shrunk = entries@.map_values(|e: (String, V)| (e.0@, e.1.deep_view()));
                    assert(shrunk =~= before.remove(i as int));
                }
                self.entries = entries;
                proof {
                    assert(self.pairs() =~= before.remove(i as int));
                }
                Some(v)
            },
            None => None,
        }
    }
}

/// Storing under a key changes the map as `Map::insert` does and keeps the
/// keys distinct.
pub proof fn lemma_insert_view<W>(p: Seq<(Seq<char>, W)>, k: Seq<char>, v: W)
    requires
        distinct_keys(p),
    ensures
        distinct_keys(pairs_insert(p, k, v)),
        pairs_view(pairs_insert(p, k, v)) == pairs_view(p).insert(k, v),
{
    let after = pairs_insert(p, k, v);
    if has_key(p, k) {
        let i = key_index(p, k);
        assert(after == p.update(i, (k, v)));
        assert forall|a: int, b: int|
            0 <= a < after.len() && 0 <= b < after.len() && a != b implies #[trigger] after[a].0
            != #[trigger] after[b].0 by {
            if a != i && b != i {
                assert(p[a].0 != p[b].0);
            } else if a == i {
                assert(p[b].0 != p[i].0);
            } else {
                assert(p[a].0 != p[i].0);
            }
        }
        assert forall|q: Seq<char>| #[trigger]
            pairs_view(after).contains_key(q) == pairs_view(p).insert(k, v).contains_key(q) by {
            if has_key(p, q) {
                let j = key_index(p, q);
                assert(after[j].0 == q);
            }
            if has_key(after, q) {
                let j = key_index(after, q);
                assert(p[j].0 == q || j == i);
            }
        }
        assert forall|q: Seq<char>| #[trigger]
            pairs_view(after).contains_key(q) implies pairs_view(after)[q] == pairs_view(p).insert(
            k,
            v,
        )[q] by {
            let j = key_index(after, q);
            lemma_entry_in_view(after, j);
            if j != i {
                lemma_entry_in_view(p, j);
            }
        }
    } else {
        assert(after == p.push((k, v)));
        assert forall|a: int, b: int|
            0 <= a < after.len() && 0 <= b < after.len() && a != b implies #[trigger] after[a].0
            != #[trigger] after[b].0 by {
            if a < p.len() && b < p.len() {
                assert(p[a].0 != p[b].0);
            } else if a < p.len() {
                assert(p[a].0 != k);
            } else {
                assert(p[b].0 != k);
            }
        }
        assert forall|q: Seq<char>| #[trigger]
            pairs_view(after).contains_key(q) == pairs_view(p).insert(k, v).contains_key(q) by {
            if has_key(p, q) {
                let j = key_index(p, q);
                assert(after[j].0 == q);
            }
            if q == k {
                assert(after[p.len() as int].0 == q);
            }
        }
        assert forall|q: Seq<char>| #[trigger]
            pairs_view(after).contains_key(q) implies pairs_view(after)[q] == pairs_view(p).insert(
            k,
            v,
        )[q] by {
            let j = key_index(after, q);
            lemma_entry_in_view(after, j);
            if j < p.len() {
                lemma_entry_in_view(p, j);
            }
        }
    }
    assert(pairs_view(after) =~= pairs_view(p).insert(k, v));
}

/// Removing a key changes the map as `Map::remove` does and keeps the keys
/// distinct.
pub proof fn lemma_remove_view<W>(p: Seq<(Seq<char>, W)>, k: Seq<char>)
    requires
        distinct_keys(p),
    ensures
        distinct_keys(pairs_remove(p, k)),
        pairs_view(pairs_remove(p, k)) == pairs_view(p).remove(k),
{
    let after = pairs_remove(p, k);
    if has_key(p, k) {
        let i = key_index(p, k);
        assert(after == p.remove(i));
        assert forall|a: int, b: int|
            0 <= a < after.len() && 0 <= b < after.len() && a != b implies #[trigger] after[a].0
            != #[trigger] after[b].0 by {
            let a2 = if a < i { a } else { a + 1 };
            let b2 = if b < i { b } else { b + 1 };
            assert(p[a2].0 != p[b2].0);
        }
        assert forall|q: Seq<char>| #[trigger]
            pairs_view(after).contains_key(q) == pairs_view(p).remove(k).contains_key(q) by {
            if has_key(p, q) && q != k {
                let j = key_index(p, q);
                if j < i {
                    assert(after[j].0 == q);
                } else {
                    assert(after[j - 1].0 == q);
                }
            }
            if has_key(after, q) {
                let j = key_index(after, q);
                if j < i {
                    assert(p[j].0 == q);
                } else {
                    assert(p[j + 1].0 == q);
                }
            }
        }
        assert forall|q: Seq<char>| #[trigger]
            pairs_view(after).contains_key(q) implies pairs_view(after)[q] == pairs_view(p).remove(
            k,
        )[q] by {
            let j = key_index(after, q);
            lemma_entry_in_view(after, j);
            if j < i {
                lemma_entry_in_view(p, j);
            } else {
                lemma_entry_in_view(p, j + 1);
            }
        }
        assert(pairs_view(after) =~= pairs_view(p).remove(k));
    } else {
        assert(pairs_view(p) =~= pairs_view(p).remove(k));
    }
}

/// After storing under a key, the map holds that key, whatever the keys were.
pub proof fn lemma_insert_has_key<W>(p: Seq<(Seq<char>, W)>, k: Seq<char>, v: W)
    ensures
        pairs_view(pairs_insert(p, k, v)).contains_key(k),
{
    let after = pairs_insert(p, k, v);
    if has_key(p, k) {
        let i = key_index(p, k);
        assert(after[i].0 == k);
    } else {
        assert(after[p.len() as int].0 == k);
    }
}

} // verus!
