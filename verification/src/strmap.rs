//! A small map from strings to values that remembers insertion order.
//!
//! Headers, query parameters and request metadata are such maps. Keys are
//! compared by their characters; inserting an existing key replaces its value
//! in place.

use vstd::prelude::*;

verus! {

/// A string-keyed map whose entries keep the order in which keys were first inserted.
#[derive(Debug)]
pub struct StrMap<V> {
    entries: Vec<(String, V)>,
}

impl<V> StrMap<V> {
    /// The entries, in insertion order, keys taken by their characters.
    pub closed spec fn pairs(self) -> Seq<(Seq<char>, V)> {
        self.entries@.map_values(|e: (String, V)| (e.0@, e.1))
    }

    /// No key occurs twice.
    #[verifier::type_invariant]
    closed spec fn keys_unique(self) -> bool {
        forall|i: int, j: int|
            0 <= i < self.entries@.len() && 0 <= j < self.entries@.len() && i != j
                ==> #[trigger] self.entries@[i].0@ != #[trigger] self.entries@[j].0@
    }

    /// The keys of `pairs`, in order.
    pub open spec fn key_seq(self) -> Seq<Seq<char>> {
        self.pairs().map_values(|e: (Seq<char>, V)| e.0)
    }

    /// Position of `k` among the entries, when present.
    pub open spec fn index_of(self, k: Seq<char>) -> int {
        choose|i: int| 0 <= i < self.pairs().len() && self.pairs()[i].0 == k
    }

    /// Whether `k` is a key.
    pub open spec fn has_key(self, k: Seq<char>) -> bool {
        exists|i: int| 0 <= i < self.pairs().len() && self.pairs()[i].0 == k
    }

    /// Finds the position of `key`.
    fn position(&self, key: &str) -> (r: Option<usize>)
        ensures
            match r {
                Some(i) => i < self.pairs().len() && self.pairs()[i as int].0 == key@,
                None => !self.has_key(key@),
            },
    {
        let k = key.to_owned();
        let mut i: usize = 0;
        while i < self.entries.len()
            invariant
                k@ == key@,
                i <= self.entries@.len(),
                forall|j: int| 0 <= j < i ==> #[trigger] self.entries@[j].0@ != key@,
            decreases self.entries.len() - i,
        {
            if self.entries[i].0 == k {
                return Some(i);
            }
            i = i + 1;
        }
        assert(!self.has_key(key@)) by {
            assert forall|j: int| 0 <= j < self.pairs().len() implies self.pairs()[j].0 != key@ by {
                assert(self.pairs()[j].0 == self.entries@[j].0@);
            }
        }
        None
    }
}

/// A key of the map is exactly a key among its entries.
pub proof fn lemma_key_seq_dom<V>(m: StrMap<V>, k: Seq<char>)
    ensures
        m@.dom().contains(k) == m.key_seq().contains(k),
{
    if m.has_key(k) {
        let i = m.index_of(k);
        assert(m.key_seq()[i] == k);
    }
    if m.key_seq().contains(k) {
        let i = choose|i: int| 0 <= i < m.key_seq().len() && m.key_seq()[i] == k;
        assert(m.pairs()[i].0 == k);
    }
}

impl<V> View for StrMap<V> {
    type V = Map<Seq<char>, V>;

    open spec fn view(&self) -> Map<Seq<char>, V> {
        Map::new(|k: Seq<char>| self.has_key(k), |k: Seq<char>| self.pairs()[self.index_of(k)].1)
    }
}

impl<V> StrMap<V> {
    /// An empty map.
    pub fn new() -> (m: Self)
        ensures
            m.pairs() == Seq::<(Seq<char>, V)>::empty(),
            m@ == Map::<Seq<char>, V>::empty(),
    {
        let m = StrMap { entries: Vec::new() };
        assert(m.pairs() =~= Seq::<(Seq<char>, V)>::empty());
        assert(m@ =~= Map::<Seq<char>, V>::empty());
        m
    }

    /// The number of entries.
    pub fn len(&self) -> (n: usize)
        ensures
            n == self.pairs().len(),
    {
        self.entries.len()
    }

    /// Whether there is no entry.
    pub fn is_empty(&self) -> (b: bool)
        ensures
            b == (self.pairs().len() == 0),
            b ==> self@ == Map::<Seq<char>, V>::empty(),
    {
        let b = self.entries.len() == 0;
        if b {
            assert(self@ =~= Map::<Seq<char>, V>::empty());
        }
        b
    }

    /// The value stored under `key`, if any.
    pub fn get(&self, key: &str) -> (r: Option<&V>)
        ensures
            match r {
                Some(v) => self@.contains_key(key@) && *v == self@[key@],
                None => !self@.contains_key(key@),
            },
    {
        proof { use_type_invariant(self); }
        match self.position(key) {
            Some(i) => {
                assert(self.has_key(key@));
                let ghost j = self.index_of(key@);
                assert(self.pairs()[j].0 == key@);
                assert(j == i as int) by {
                    if j != i as int {
                        assert(self.entries@[j].0@ == self.pairs()[j].0);
                        assert(self.entries@[i as int].0@ == self.pairs()[i as int].0);
                    }
                }
                Some(&self.entries[i].1)
            },
            None => None,
        }
    }

    /// Whether `key` is present.
    pub fn contains_key(&self, key: &str) -> (b: bool)
        ensures
            b == self@.contains_key(key@),
    {
        self.position(key).is_some()
    }

    /// The entry at position `i`.
    pub fn entry(&self, i: usize) -> (r: (&String, &V))
        requires
            i < self.pairs().len(),
        ensures
            r.0@ == self.pairs()[i as int].0,
            *r.1 == self.pairs()[i as int].1,
    {
        let e = &self.entries[i];
        (&e.0, &e.1)
    }

    /// Stores `value` under `key`, replacing the value of an existing key in place.
    pub fn insert(&mut self, key: String, value: V)
        ensures
            final(self)@ == old(self)@.insert(key@, value),
            old(self).has_key(key@) ==> final(self).pairs() == old(self).pairs().update(
                old(self).index_of(key@),
                (key@, value),
            ),
            !old(self).has_key(key@) ==> final(self).pairs() == old(self).pairs().push((key@, value)),
    {
        proof { use_type_invariant(&*self); }
        let ghost old_pairs = self.pairs();
        let ghost old_map = self@;
        let ghost kv = key@;
        match self.position(key.as_str()) {
            Some(i) => {
                let ghost j = self.index_of(kv);
                assert(j == i as int) by {
                    if j != i as int {
                        assert(self.entries@[j].0@ == old_pairs[j].0);
                        assert(self.entries@[i as int].0@ == old_pairs[i as int].0);
                    }
                }
                let mut entries = Vec::new();
                std::mem::swap(&mut entries, &mut self.entries);
                entries.set(i, (key, value));
                assert forall|a: int, b: int|
                    0 <= a < entries@.len() && 0 <= b < entries@.len() && a != b
                        implies #[trigger] entries@[a].0@ != #[trigger] entries@[b].0@ by {
                    assert(old(self).entries@[a].0@ == old_pairs[a].0);
                    assert(old(self).entries@[b].0@ == old_pairs[b].0);
                }
                self.entries = entries;
                assert(self.pairs() =~= old_pairs.update(i as int, (kv, value)));
            },
            None => {
                let mut entries = Vec::new();
                std::mem::swap(&mut entries, &mut self.entries);
                entries.push((key, value));
                assert forall|a: int, b: int|
                    0 <= a < entries@.len() && 0 <= b < entries@.len() && a != b
                        implies #[trigger] entries@[a].0@ != #[trigger] entries@[b].0@ by {
                    if a < old_pairs.len() {
                        assert(old(self).entries@[a].0@ == old_pairs[a].0);
                    }
                    if b < old_pairs.len() {
                        assert(old(self).entries@[b].0@ == old_pairs[b].0);
                    }
                }
                self.entries = entries;
                assert(self.pairs() =~= old_pairs.push((kv, value)));
            },
        }
        proof {
            use_type_invariant(&*self);
            assert forall|k: Seq<char>| #[trigger] self@.contains_key(k) == old_map.insert(kv, value).contains_key(k) by {
                if k == kv {
                    assert(self.pairs()[self.pairs().len() - 1].0 == kv || old(self).has_key(kv));
                    if old(self).has_key(kv) {
                        let j = old(self).index_of(kv);
                        assert(self.pairs()[j].0 == kv);
                    }
                } else if old(self).has_key(k) {
                    let j = old(self).index_of(k);
                    assert(self.pairs()[j].0 == k);
                } else if self.has_key(k) {
                    let j = self.index_of(k);
                    assert(j < old_pairs.len() ==> old_pairs[j].0 == k);
                }
            }
            assert forall|k: Seq<char>| #[trigger] self@.contains_key(k) implies self@[k] == old_map.insert(kv, value)[k] by {
                let j = self.index_of(k);
                assert(self.pairs()[j].0 == k);
                if k == kv {
                    if old(self).has_key(kv) {
                        let i = old(self).index_of(kv);
                        assert(self.pairs()[i].0 == kv);
                        assert(self.entries@[i].0@ == self.pairs()[i].0);
                        assert(self.entries@[j].0@ == self.pairs()[j].0);
                        assert(i == j);
                    } else {
                        let last = old_pairs.len() as int;
                        assert(self.pairs()[last].0 == kv);
                        assert(self.entries@[last].0@ == self.pairs()[last].0);
                        assert(self.entries@[j].0@ == self.pairs()[j].0);
                        assert(last == j);
                    }
                } else {
                    assert(j < old_pairs.len());
                    assert(old_pairs[j].0 == k);
                    assert(old(self).has_key(k));
                    let i = old(self).index_of(k);
                    assert(old_pairs[i].0 == k);
                    assert(self.pairs()[i].0 == k);
                    assert(self.entries@[i].0@ == self.pairs()[i].0);
                    assert(self.entries@[j].0@ == self.pairs()[j].0);
                    assert(i == j);
                }
            }
            assert(self@ =~= old_map.insert(kv, value));
        }
    }

    /// Removes `key`, returning its value; the other entries keep their order.
    pub fn remove(&mut self, key: &str) -> (r: Option<V>)
        ensures
            final(self)@ == old(self)@.remove(key@),
            match r {
                Some(v) => old(self)@.contains_key(key@) && v == old(self)@[key@],
                None => !old(self)@.contains_key(key@),
            },
            old(self).has_key(key@) ==> final(self).pairs() == old(self).pairs().remove(
                old(self).index_of(key@),
            ),
            !old(self).has_key(key@) ==> final(self).pairs() == old(self).pairs(),
    {
        proof { use_type_invariant(&*self); }
        let ghost old_pairs = self.pairs();
        let ghost old_map = self@;
        match self.position(key) {
            Some(i) => {
                let ghost j = self.index_of(key@);
                assert(j == i as int) by {
                    if j != i as int {
                        assert(self.entries@[j].0@ == old_pairs[j].0);
                        assert(self.entries@[i as int].0@ == old_pairs[i as int].0);
                    }
                }
                let mut entries = Vec::new();
                std::mem::swap(&mut entries, &mut self.entries);
                let ghost before = entries@;
                let removed = entries.remove(i);
                assert forall|a: int, b: int|
                    0 <= a < entries@.len() && 0 <= b < entries@.len() && a != b
                        implies #[trigger] entries@[a].0@ != #[trigger] entries@[b].0@ by {
                    let a0 = if a < i { a } else { a + 1 };
                    let b0 = if b < i { b } else { b + 1 };
                    assert(entries@[a] == before[a0]);
                    assert(entries@[b] == before[b0]);
                }
                self.entries = entries;
                assert(self.pairs() =~= old_pairs.remove(i as int));
                proof {
                    assert forall|k: Seq<char>| #[trigger] self@.contains_key(k) == old_map.remove(key@).contains_key(k) by {
                        if k == key@ {
                            if self.has_key(k) {
                                let a = self.index_of(k);
                                let a0 = if a < i { a } else { a + 1 };
                                assert(old_pairs[a0].0 == k);
                                assert(old(self).entries@[a0].0@ == old_pairs[a0].0);
                                assert(old(self).entries@[i as int].0@ == old_pairs[i as int].0);
                            }
                        } else if old(self).has_key(k) {
                            let b = old(self).index_of(k);
                            assert(b != i);
                            let a = if b < i { b } else { b - 1 };
                            assert(self.pairs()[a].0 == k);
                        } else if self.has_key(k) {
                            let a = self.index_of(k);
                            let a0 = if a < i { a } else { a + 1 };
                            assert(old_pairs[a0].0 == k);
                        }
                    }
                    assert forall|k: Seq<char>| #[trigger] self@.contains_key(k) implies self@[k] == old_map.remove(key@)[k] by {
                        let a = self.index_of(k);
                        let a0 = if a < i { a } else { a + 1 };
                        assert(old_pairs[a0].0 == k);
                        let b = old(self).index_of(k);
                        assert(old_pairs[b].0 == k);
                        assert(old(self).entries@[a0].0@ == old_pairs[a0].0);
                        assert(old(self).entries@[b].0@ == old_pairs[b].0);
                        assert(a0 == b);
                    }
                    assert(self@ =~= old_map.remove(key@));
                }
                Some(removed.1)
            },
            None => {
                assert(self@ =~= old_map.remove(key@));
                None
            },
        }
    }

    /// Removes every entry.
    pub fn clear(&mut self)
        ensures
            final(self).pairs() == Seq::<(Seq<char>, V)>::empty(),
            final(self)@ == Map::<Seq<char>, V>::empty(),
    {
        self.entries = Vec::new();
        assert(self.pairs() =~= Seq::<(Seq<char>, V)>::empty());
        assert(self@ =~= Map::<Seq<char>, V>::empty());
    }
}

impl<V: Clone> Clone for StrMap<V> {
    /// A copy with the same keys in the same order; each value is cloned.
    fn clone(&self) -> (r: Self)
        ensures
            r.key_seq() == self.key_seq(),
            forall|i: int| 0 <= i < self.pairs().len() ==> cloned::<V>(self.pairs()[i].1, #[trigger] r.pairs()[i].1),
            r@.dom() == self@.dom(),
            forall|k: Seq<char>| #[trigger] self@.contains_key(k) ==> cloned::<V>(self@[k], r@[k]),
    {
        proof { use_type_invariant(self); }
        let mut entries: Vec<(String, V)> = Vec::new();
        let mut i: usize = 0;
        while i < self.entries.len()
            invariant
                i <= self.entries@.len(),
                entries@.len() == i,
                forall|j: int| 0 <= j < i ==> #[trigger] entries@[j].0@ == self.entries@[j].0@,
                forall|j: int| 0 <= j < i ==> cloned::<V>(self.entries@[j].1, #[trigger] entries@[j].1),
                forall|a: int, b: int|
                    0 <= a < self.entries@.len() && 0 <= b < self.entries@.len() && a != b
                        ==> #[trigger] self.entries@[a].0@ != #[trigger] self.entries@[b].0@,
            decreases self.entries.len() - i,
        {
            let k = self.entries[i].0.clone();
            let v = self.entries[i].1.clone();
            entries.push((k, v));
            i = i + 1;
        }
        assert forall|a: int, b: int|
            0 <= a < entries@.len() && 0 <= b < entries@.len() && a != b
                implies #[trigger] entries@[a].0@ != #[trigger] entries@[b].0@ by {
            assert(entries@[a].0@ == self.entries@[a].0@);
            assert(entries@[b].0@ == self.entries@[b].0@);
        }
        let r = StrMap { entries };
        assert(r.key_seq() =~= self.key_seq());
        proof {
            assert(r.pairs().len() == r.key_seq().len());
            assert forall|k: Seq<char>| #[trigger] r@.contains_key(k) == self@.contains_key(k) by {
                if r.has_key(k) {
                    let i = r.index_of(k);
                    assert(r.key_seq()[i] == self.key_seq()[i]);
                }
                if self.has_key(k) {
                    let i = self.index_of(k);
                    assert(r.key_seq()[i] == self.key_seq()[i]);
                }
            }
            assert(r@.dom() =~= self@.dom());
            assert forall|k: Seq<char>| #[trigger] self@.contains_key(k) implies cloned::<V>(self@[k], r@[k]) by {
                let i = r.index_of(k);
                let j = self.index_of(k);
                assert(r.key_seq()[i] == self.key_seq()[i]);
                assert(self.entries@[i].0@ == self.pairs()[i].0);
                assert(self.entries@[j].0@ == self.pairs()[j].0);
                assert(i == j);
                assert(self.pairs()[j].1 == self.entries@[j].1);
                assert(r.pairs()[i].1 == r.entries@[i].1);
            }
        }
        r
    }
}

/// Inserts each `(key, value)` pair of `pairs` into `m`, in order.
pub open spec fn insert_all<V>(m: Map<Seq<char>, V>, pairs: Seq<(Seq<char>, V)>) -> Map<Seq<char>, V>
    decreases pairs.len(),
{
    if pairs.len() == 0 {
        m
    } else {
        insert_all(m, pairs.drop_last()).insert(pairs.last().0, pairs.last().1)
    }
}

impl StrMap<String> {
    /// The map with every value taken by its characters.
    pub open spec fn texts(self) -> Map<Seq<char>, Seq<char>> {
        self@.map_values(|s: String| s@)
    }

    /// A copy with the same keys, values and order.
    pub fn copy(&self) -> (r: Self)
        ensures
            r.texts() == self.texts(),
            r.key_seq() == self.key_seq(),
            r.pairs().len() == self.pairs().len(),
    {
        proof { use_type_invariant(self); }
        let r = self.clone();
        proof {
            use_type_invariant(&r);
            assert(r.pairs().len() == r.key_seq().len());
            assert forall|i: int| 0 <= i < r.pairs().len() implies #[trigger] r.pairs()[i].1@ == self.pairs()[i].1@ by {
                assert(cloned::<String>(self.pairs()[i].1, r.pairs()[i].1));
                assert(r.key_seq()[i] == self.key_seq()[i]);
            }
            assert forall|k: Seq<char>| #[trigger] r@.contains_key(k) == self@.contains_key(k) by {
                if r.has_key(k) {
                    let i = r.index_of(k);
                    assert(r.key_seq()[i] == self.key_seq()[i]);
                }
                if self.has_key(k) {
                    let i = self.index_of(k);
                    assert(r.key_seq()[i] == self.key_seq()[i]);
                }
            }
            assert forall|k: Seq<char>| #[trigger] r@.contains_key(k) implies r@[k]@ == self@[k]@ by {
                let i = r.index_of(k);
                let j = self.index_of(k);
                assert(r.key_seq()[i] == self.key_seq()[i]);
                assert(self.entries@[i].0@ == self.pairs()[i].0);
                assert(self.entries@[j].0@ == self.pairs()[j].0);
                assert(i == j);
            }
            assert(r.texts() =~= self.texts());
        }
        r
    }

    /// Stores a copy of `value` under a copy of `key`.
    pub fn insert_str(&mut self, key: &str, value: &str)
        ensures
            final(self).texts() == old(self).texts().insert(key@, value@),
            final(self)@.dom() == old(self)@.dom().insert(key@),
    {
        let ghost before = self.texts();
        self.insert(key.to_owned(), value.to_owned());
        assert(self.texts() =~= before.insert(key@, value@));
    }

    /// Inserts each pair of `pairs` in order.
    pub fn insert_pairs(&mut self, pairs: &[(&str, &str)])
        ensures
            final(self).texts() == insert_all(
                old(self).texts(),
                pairs@.map_values(|p: (&str, &str)| (p.0@, p.1@)),
            ),
    {
        let ghost start = self.texts();
        let ghost views = pairs@.map_values(|p: (&str, &str)| (p.0@, p.1@));
        let mut i: usize = 0;
        while i < pairs.len()
            invariant
                i <= pairs@.len(),
                views == pairs@.map_values(|p: (&str, &str)| (p.0@, p.1@)),
                self.texts() == insert_all(start, views.take(i as int)),
            decreases pairs.len() - i,
        {
            let (k, v) = pairs[i];
            self.insert_str(k, v);
            assert(views.take(i + 1).drop_last() =~= views.take(i as int));
            i = i + 1;
        }
        assert(views.take(pairs@.len() as int) =~= views);
    }
}

} // verus!
