//! A JSON value held as plain data: scraped items and request metadata.

use vstd::prelude::*;
use crate::order::{lemma_seq_le_antisymmetric, lemma_seq_le_total, lemma_seq_le_transitive, seq_le, str_le};
use crate::text::{decimal, decimal_text, push_char, str_eq};

verus! {

/// A JSON number: an unsigned integer, a negative integer, or a floating-point
/// number kept as its decimal text.
#[derive(Debug, PartialEq)]
pub enum JsonNumber {
    PosInt(u64),
    NegInt(i64),
    Float(String),
}

/// A JSON value.
#[derive(Debug)]
pub enum JsonValue {
    Null,
    Bool(bool),
    Number(JsonNumber),
    String(String),
    Array(Vec<JsonValue>),
    Object(JsonMap),
}

/// `a` sorts strictly before `b`.
pub open spec fn key_lt(a: Seq<char>, b: Seq<char>) -> bool {
    seq_le(a, b) && a != b
}

/// Keys in strictly ascending order.
pub open spec fn keys_ascending(keys: Seq<Seq<char>>) -> bool {
    forall|i: int, j: int| 0 <= i < j < keys.len() ==> key_lt(#[trigger] keys[i], #[trigger] keys[j])
}

/// Inserting `k` at its place among ascending keys keeps them ascending and
/// adds it to their set.
pub proof fn lemma_ascending_insert(keys: Seq<Seq<char>>, i: int, k: Seq<char>)
    requires
        keys_ascending(keys),
        0 <= i <= keys.len(),
        forall|j: int| 0 <= j < i ==> key_lt(#[trigger] keys[j], k),
        i < keys.len() ==> key_lt(k, keys[i]),
    ensures
        keys_ascending(keys.insert(i, k)),
        keys.insert(i, k).to_set() == keys.to_set().insert(k),
{
    let n = keys.insert(i, k);
    assert forall|a: int, b: int| 0 <= a < b < n.len() implies key_lt(#[trigger] n[a], #[trigger] n[b]) by {
        if b < i {
            assert(key_lt(keys[a], keys[b]));
        } else if b == i {
            assert(n[a] == keys[a]);
        } else if a < i {
            assert(key_lt(keys[a], keys[b - 1]));
        } else if a == i {
            if b - 1 > i {
                assert(key_lt(keys[i], keys[b - 1]));
                lemma_key_lt_transitive(k, keys[i], keys[b - 1]);
            }
        } else {
            assert(key_lt(keys[a - 1], keys[b - 1]));
        }
    }
    assert forall|x: Seq<char>| #[trigger] n.to_set().contains(x) == keys.to_set().insert(k).contains(x) by {
        if n.contains(x) {
            let j = choose|j: int| 0 <= j < n.len() && n[j] == x;
            if j < i {
                assert(keys[j] == x);
            } else if j > i {
                assert(keys[j - 1] == x);
            }
        }
        if keys.contains(x) {
            let j = choose|j: int| 0 <= j < keys.len() && keys[j] == x;
            if j < i {
                assert(n[j] == x);
            } else {
                assert(n[j + 1] == x);
            }
        }
        if x == k {
            assert(n[i] == x);
        }
    }
    assert(n.to_set() =~= keys.to_set().insert(k));
}

/// Whether `k` is the key of one of `members`.
pub open spec fn member_has_key(members: Seq<(Seq<char>, JsonValue)>, k: Seq<char>) -> bool {
    exists|i: int| 0 <= i < members.len() && #[trigger] members[i].0 == k
}

/// A position of key `k` among `members`, when it is one of their keys.
pub open spec fn member_index(members: Seq<(Seq<char>, JsonValue)>, k: Seq<char>) -> int {
    choose|i: int| 0 <= i < members.len() && #[trigger] members[i].0 == k
}

/// The map that `members` describe (their keys are distinct).
pub open spec fn members_map(members: Seq<(Seq<char>, JsonValue)>) -> Map<Seq<char>, JsonValue> {
    Map::new(|k: Seq<char>| member_has_key(members, k), |k: Seq<char>| members[member_index(members, k)].1)
}

pub proof fn lemma_key_lt_transitive(a: Seq<char>, b: Seq<char>, c: Seq<char>)
    requires
        key_lt(a, b),
        key_lt(b, c),
    ensures
        key_lt(a, c),
{
    lemma_seq_le_transitive(a, b, c);
    if a == c {
        lemma_seq_le_antisymmetric(a, b);
    }
}

/// In ascending keys, a key occurs at one position only.
proof fn lemma_ascending_unique(members: Seq<(Seq<char>, JsonValue)>, i: int, j: int)
    requires
        keys_ascending(members.map_values(|e: (Seq<char>, JsonValue)| e.0)),
        0 <= i < members.len(),
        0 <= j < members.len(),
        members[i].0 == members[j].0,
    ensures
        i == j,
{
    let keys = members.map_values(|e: (Seq<char>, JsonValue)| e.0);
    if i < j {
        assert(key_lt(keys[i], keys[j]));
    } else if j < i {
        assert(key_lt(keys[j], keys[i]));
    }
}

/// The value stored under the key at position `i` of ascending members.
proof fn lemma_members_map_at(members: Seq<(Seq<char>, JsonValue)>, i: int)
    requires
        keys_ascending(members.map_values(|e: (Seq<char>, JsonValue)| e.0)),
        0 <= i < members.len(),
    ensures
        members_map(members).contains_key(members[i].0),
        members_map(members)[members[i].0] == members[i].1,
{
    let k = members[i].0;
    assert(member_has_key(members, k));
    let j = member_index(members, k);
    lemma_ascending_unique(members, i, j);
}

/// Members of a JSON object, kept in ascending order of their keys, each key once.
#[derive(Debug)]
pub struct JsonMap {
    entries: Vec<(String, JsonValue)>,
}

impl JsonMap {
    /// The members, in ascending order of keys.
    pub closed spec fn members(self) -> Seq<(Seq<char>, JsonValue)> {
        self.entries@.map_values(|e: (String, JsonValue)| (e.0@, e.1))
    }

    /// The keys, in ascending order.
    pub open spec fn keys(self) -> Seq<Seq<char>> {
        self.members().map_values(|e: (Seq<char>, JsonValue)| e.0)
    }

    #[verifier::type_invariant]
    closed spec fn ascending(self) -> bool {
        keys_ascending(self.keys())
    }

    /// An empty object.
    pub fn new() -> (m: Self)
        ensures
            m.members() == Seq::<(Seq<char>, JsonValue)>::empty(),
            m@ == Map::<Seq<char>, JsonValue>::empty(),
    {
        let m = JsonMap { entries: Vec::new() };
        assert(m.members() =~= Seq::<(Seq<char>, JsonValue)>::empty());
        assert(m@ =~= Map::<Seq<char>, JsonValue>::empty());
        m
    }

    /// The number of members.
    pub fn len(&self) -> (n: usize)
        ensures
            n == self.members().len(),
    {
        self.entries.len()
    }

    /// Whether there is no member.
    pub fn is_empty(&self) -> (b: bool)
        ensures
            b == (self.members().len() == 0),
    {
        self.entries.len() == 0
    }

    /// The member at position `i` (in ascending key order).
    pub fn entry(&self, i: usize) -> (r: (&String, &JsonValue))
        requires
            i < self.members().len(),
        ensures
            r.0@ == self.members()[i as int].0,
            *r.1 == self.members()[i as int].1,
    {
        let e = &self.entries[i];
        (&e.0, &e.1)
    }

    /// The value stored under `key`, if any.
    pub fn get(&self, key: &str) -> (r: Option<&JsonValue>)
        ensures
            match r {
                Some(v) => self@.contains_key(key@) && *v == self@[key@],
                None => !self@.contains_key(key@),
            },
    {
        proof { use_type_invariant(self); }
        let mut i: usize = 0;
        while i < self.entries.len()
            invariant
                i <= self.members().len(),
                keys_ascending(self.keys()),
                forall|j: int| 0 <= j < i ==> #[trigger] self.members()[j].0 != key@,
            decreases self.entries.len() - i,
        {
            if str_eq(self.entries[i].0.as_str(), key) {
                assert(self.members()[i as int].0 == key@);
                proof { lemma_members_map_at(self.members(), i as int); }
                return Some(&self.entries[i].1);
            }
            assert(self.members()[i as int].0 == self.entries@[i as int].0@);
            i = i + 1;
        }
        None
    }

    /// Stores `value` under `key`, keeping the keys in ascending order; the
    /// value of an existing key is replaced.
    pub fn insert(&mut self, key: String, value: JsonValue)
        ensures
            final(self)@ == old(self)@.insert(key@, value),
            final(self).keys().to_set() == old(self).keys().to_set().insert(key@),
    {
        proof { use_type_invariant(&*self); }
        let ghost old_members = self.members();
        let ghost keys = self.keys();
        let ghost kv = key@;
        let mut i: usize = 0;
        while i < self.entries.len() && !str_le(key.as_str(), self.entries[i].0.as_str())
            invariant
                i <= old_members.len(),
                old_members == self.members(),
                keys == self.keys(),
                kv == key@,
                keys_ascending(keys),
                forall|j: int| 0 <= j < i ==> key_lt(#[trigger] keys[j], kv),
            decreases self.entries.len() - i,
        {
            proof {
                assert(keys[i as int] == self.entries@[i as int].0@);
                lemma_seq_le_total(kv, keys[i as int]);
            }
            i = i + 1;
        }
        let mut entries = Vec::new();
        std::mem::swap(&mut entries, &mut self.entries);
        let ghost found = i < entries@.len() && entries@[i as int].0@ == kv;
        if i < entries.len() && str_eq(entries[i].0.as_str(), key.as_str()) {
            entries.set(i, (key, value));
            let ghost new_members = entries@.map_values(|e: (String, JsonValue)| (e.0@, e.1));
            assert(new_members =~= old_members.update(i as int, (kv, value)));
            let ghost new_keys = new_members.map_values(|e: (Seq<char>, JsonValue)| e.0);
            assert(new_keys =~= keys);
            proof { lemma_members_update(old_members, i as int, value); }
            self.entries = entries;
        } else {
            proof {
                if i < keys.len() {
                    assert(keys[i as int] == entries@[i as int].0@);
                    assert(seq_le(kv, keys[i as int]));
                }
            }
            entries.insert(i, (key, value));
            let ghost new_members = entries@.map_values(|e: (String, JsonValue)| (e.0@, e.1));
            assert(new_members =~= old_members.insert(i as int, (kv, value)));
            proof {
                assert forall|j: int| 0 <= j < i implies key_lt(#[trigger] old_members[j].0, kv) by {
                    assert(keys[j] == old_members[j].0);
                }
                if i < keys.len() {
                    assert(keys[i as int] == old_members[i as int].0);
                }
                lemma_members_insert(old_members, i as int, kv, value);
            }
            self.entries = entries;
        }
    }
}

/// Replacing the value at position `i` of ascending members replaces the
/// value of that key in their map.
proof fn lemma_members_update(members: Seq<(Seq<char>, JsonValue)>, i: int, v: JsonValue)
    requires
        keys_ascending(members.map_values(|e: (Seq<char>, JsonValue)| e.0)),
        0 <= i < members.len(),
    ensures
        members_map(members.update(i, (members[i].0, v))) == members_map(members).insert(members[i].0, v),
        members.update(i, (members[i].0, v)).map_values(|e: (Seq<char>, JsonValue)| e.0).to_set()
            == members.map_values(|e: (Seq<char>, JsonValue)| e.0).to_set().insert(members[i].0),
{
    let k = members[i].0;
    let n = members.update(i, (k, v));
    let keys = members.map_values(|e: (Seq<char>, JsonValue)| e.0);
    let nkeys = n.map_values(|e: (Seq<char>, JsonValue)| e.0);
    assert(nkeys =~= keys);
    assert forall|x: Seq<char>| #[trigger] member_has_key(n, x) == member_has_key(members, x) by {
        if member_has_key(n, x) {
            let j = choose|j: int| 0 <= j < n.len() && #[trigger] n[j].0 == x;
            assert(members[j].0 == x);
        }
        if member_has_key(members, x) {
            let j = choose|j: int| 0 <= j < members.len() && #[trigger] members[j].0 == x;
            assert(n[j].0 == x);
        }
    }
    assert forall|x: Seq<char>| member_has_key(n, x) implies #[trigger] members_map(n)[x] == members_map(members).insert(k, v)[x] by {
        let j = choose|j: int| 0 <= j < n.len() && #[trigger] n[j].0 == x;
        assert(keys_ascending(nkeys));
        lemma_members_map_at(n, j);
        lemma_members_map_at(members, j);
        if x == k {
            lemma_ascending_unique(members, i, j);
        }
    }
    assert(members_map(n) =~= members_map(members).insert(k, v));
    assert(nkeys.to_set() =~= keys.to_set().insert(k)) by {
        assert(keys.to_set().contains(k)) by {
            assert(keys[i] == k);
        }
    }
}

/// Inserting a new key at its place in ascending members keeps them
/// ascending and adds the key to their map.
proof fn lemma_members_insert(members: Seq<(Seq<char>, JsonValue)>, i: int, k: Seq<char>, v: JsonValue)
    requires
        keys_ascending(members.map_values(|e: (Seq<char>, JsonValue)| e.0)),
        0 <= i <= members.len(),
        forall|j: int| 0 <= j < i ==> key_lt(#[trigger] members[j].0, k),
        i < members.len() ==> seq_le(k, members[i].0) && members[i].0 != k,
    ensures
        keys_ascending(members.insert(i, (k, v)).map_values(|e: (Seq<char>, JsonValue)| e.0)),
        members_map(members.insert(i, (k, v))) == members_map(members).insert(k, v),
        members.insert(i, (k, v)).map_values(|e: (Seq<char>, JsonValue)| e.0).to_set()
            == members.map_values(|e: (Seq<char>, JsonValue)| e.0).to_set().insert(k),
{
    let keys = members.map_values(|e: (Seq<char>, JsonValue)| e.0);
    let n = members.insert(i, (k, v));
    let nkeys = n.map_values(|e: (Seq<char>, JsonValue)| e.0);
    assert(nkeys =~= keys.insert(i, k));
    assert forall|a: int, b: int| 0 <= a < b < nkeys.len() implies key_lt(#[trigger] nkeys[a], #[trigger] nkeys[b]) by {
        if b < i {
            assert(key_lt(keys[a], keys[b]));
        } else if b == i {
            assert(members[a].0 == keys[a]);
        } else if a < i {
            assert(key_lt(keys[a], keys[b - 1]));
        } else if a == i {
            if b - 1 > i {
                assert(key_lt(keys[i], keys[b - 1]));
                lemma_key_lt_transitive(k, keys[i], keys[b - 1]);
            }
        } else {
            assert(key_lt(keys[a - 1], keys[b - 1]));
        }
    }
    assert(!member_has_key(members, k)) by {
        if member_has_key(members, k) {
            let j = choose|j: int| 0 <= j < members.len() && #[trigger] members[j].0 == k;
            if j < i {
                assert(key_lt(members[j].0, k));
            } else if j > i {
                assert(key_lt(keys[i], keys[j]));
                assert(keys[i] == members[i].0);
                assert(keys[j] == members[j].0);
                lemma_key_lt_transitive(k, keys[i], keys[j]);
            }
        }
    }
    assert forall|x: Seq<char>| #[trigger] member_has_key(n, x) == (member_has_key(members, x) || x == k) by {
        if member_has_key(n, x) {
            let j = choose|j: int| 0 <= j < n.len() && #[trigger] n[j].0 == x;
            if j < i {
                assert(members[j].0 == x);
            } else if j > i {
                assert(members[j - 1].0 == x);
            }
        }
        if member_has_key(members, x) {
            let j = choose|j: int| 0 <= j < members.len() && #[trigger] members[j].0 == x;
            if j < i {
                assert(n[j].0 == x);
            } else {
                assert(n[j + 1].0 == x);
            }
        }
        if x == k {
            assert(n[i].0 == x);
        }
    }
    assert forall|x: Seq<char>| member_has_key(n, x) implies #[trigger] members_map(n)[x] == members_map(members).insert(k, v)[x] by {
        let j = choose|j: int| 0 <= j < n.len() && #[trigger] n[j].0 == x;
        lemma_members_map_at(n, j);
        if j < i {
            lemma_members_map_at(members, j);
        } else if j > i {
            lemma_members_map_at(members, j - 1);
        }
    }
    assert(members_map(n) =~= members_map(members).insert(k, v));
    assert forall|x: Seq<char>| #[trigger] nkeys.to_set().contains(x) == keys.to_set().insert(k).contains(x) by {
        if nkeys.contains(x) {
            let j = choose|j: int| 0 <= j < nkeys.len() && nkeys[j] == x;
            if j < i {
                assert(keys[j] == x);
            } else if j > i {
                assert(keys[j - 1] == x);
            }
        }
        if keys.contains(x) {
            let j = choose|j: int| 0 <= j < keys.len() && keys[j] == x;
            if j < i {
                assert(nkeys[j] == x);
            } else {
                assert(nkeys[j + 1] == x);
            }
        }
        if x == k {
            assert(nkeys[i] == x);
        }
    }
    assert(nkeys.to_set() =~= keys.to_set().insert(k));
}

impl View for JsonMap {
    type V = Map<Seq<char>, JsonValue>;

    open spec fn view(&self) -> Map<Seq<char>, JsonValue> {
        members_map(self.members())
    }
}

/// A scraped item.
pub type Item = JsonValue;

impl JsonValue {
    /// A copy of this value, element by element.
    #[verifier::loop_isolation(false)]
    pub fn deep_copy(&self) -> (r: Self)
        ensures
            same_json(*self, r),
            !(self is Array) && !(self is Object) ==> r == *self,
            self is Object ==> r is Object && r->Object_0.keys() == self->Object_0.keys(),
            self is Array ==> r is Array && r->Array_0@.len() == self->Array_0@.len(),
        decreases self,
    {
        match self {
            JsonValue::Null => JsonValue::Null,
            JsonValue::Bool(b) => JsonValue::Bool(*b),
            JsonValue::Number(n) => JsonValue::Number(
                match n {
                    JsonNumber::PosInt(u) => JsonNumber::PosInt(*u),
                    JsonNumber::NegInt(i) => JsonNumber::NegInt(*i),
                    JsonNumber::Float(t) => JsonNumber::Float(t.clone()),
                },
            ),
            JsonValue::String(s) => JsonValue::String(s.clone()),
            JsonValue::Array(items) => {
                let mut out: Vec<JsonValue> = Vec::new();
                let mut i: usize = 0;
                while i < items.len()
                    invariant
                        i <= items@.len(),
                        out@.len() == i,
                        same_items(items@.take(i as int), out@),
                    decreases items.len() - i,
                {
                    proof {
                        assert(decreases_to!(*self => self->Array_0));
                        assert(decreases_to!(items => items@));
                        assert(decreases_to!(items@ => items@[i as int]));
                    }
                    let c = items[i].deep_copy();
                    let ghost before = out@;
                    out.push(c);
                    proof {
                        assert(items@.take(i + 1).drop_last() =~= items@.take(i as int));
                        assert(out@.drop_last() =~= before);
                        assert(items@.take(i + 1).last() == items@[i as int]);
                    }
                    i = i + 1;
                }
                assert(items@.take(items@.len() as int) =~= items@);
                JsonValue::Array(out)
            },
            JsonValue::Object(map) => {
                proof { use_type_invariant(map); }
                let members = &map.entries;
                let mut out: Vec<(String, JsonValue)> = Vec::new();
                let ghost keys = map.keys();
                let mut i: usize = 0;
                while i < members.len()
                    invariant
                        i <= members@.len(),
                        keys == map.keys(),
                        members@ == map.entries@,
                        out@.len() == i,
                        forall|j: int| 0 <= j < i ==> #[trigger] out@[j].0@ == keys[j],
                        forall|j: int| 0 <= j < i ==> same_json(members@[j].1, #[trigger] out@[j].1),
                    decreases members.len() - i,
                {
                    proof {
                        assert(decreases_to!(*self => self->Object_0));
                        assert(decreases_to!(map => map.entries));
                        assert(decreases_to!(map.entries => map.entries@));
                        assert(decreases_to!(map.entries@ => map.entries@[i as int]));
                        assert(decreases_to!(map.entries@[i as int] => map.entries@[i as int].1));
                        assert(keys[i as int] == members@[i as int].0@);
                    }
                    let v = members[i].1.deep_copy();
                    out.push((members[i].0.clone(), v));
                    i = i + 1;
                }
                let ghost out_keys = out@.map_values(|e: (String, JsonValue)| (e.0@, e.1)).map_values(|e: (Seq<char>, JsonValue)| e.0);
                assert(out_keys =~= keys);
                let r = JsonMap { entries: out };
                proof {
                    assert forall|j: int| 0 <= j < map.members().len() implies same_json(
                        map.members()[j].1,
                        #[trigger] r.members()[j].1,
                    ) by {
                        assert(map.members()[j].1 == members@[j].1);
                        assert(r.members()[j].1 == out@[j].1);
                    }
                    lemma_same_members(*map, r, map.members().len());
                }
                JsonValue::Object(r)
            },
        }
    }

    /// The string inside a string value.
    pub open spec fn spec_as_str(self) -> Option<Seq<char>> {
        match self {
            JsonValue::String(s) => Some(s@),
            _ => None,
        }
    }

    /// The boolean inside a boolean value.
    pub open spec fn spec_as_bool(self) -> Option<bool> {
        match self {
            JsonValue::Bool(b) => Some(b),
            _ => None,
        }
    }

    /// The number as a `u64`, when it is a non-negative integer.
    pub open spec fn spec_as_u64(self) -> Option<u64> {
        match self {
            JsonValue::Number(JsonNumber::PosInt(n)) => Some(n),
            JsonValue::Number(JsonNumber::NegInt(i)) => if i >= 0 {
                Some(i as u64)
            } else {
                None
            },
            _ => None,
        }
    }

    /// The number as an `i64`, when it is an integer in range.
    pub open spec fn spec_as_i64(self) -> Option<i64> {
        match self {
            JsonValue::Number(JsonNumber::PosInt(n)) => if n <= i64::MAX {
                Some(n as i64)
            } else {
                None
            },
            JsonValue::Number(JsonNumber::NegInt(i)) => Some(i),
            _ => None,
        }
    }

    /// The string inside a string value.
    pub fn as_str(&self) -> (r: Option<&str>)
        ensures
            match r {
                Some(s) => self.spec_as_str() == Some(s@),
                None => self.spec_as_str() is None,
            },
    {
        match self {
            JsonValue::String(s) => Some(s.as_str()),
            _ => None,
        }
    }

    /// The boolean inside a boolean value.
    pub fn as_bool(&self) -> (r: Option<bool>)
        ensures
            r == self.spec_as_bool(),
    {
        match self {
            JsonValue::Bool(b) => Some(*b),
            _ => None,
        }
    }

    /// The number as a `u64`, when it is a non-negative integer.
    pub fn as_u64(&self) -> (r: Option<u64>)
        ensures
            r == self.spec_as_u64(),
    {
        match self {
            JsonValue::Number(JsonNumber::PosInt(n)) => Some(*n),
            JsonValue::Number(JsonNumber::NegInt(i)) => if *i >= 0 {
                Some(*i as u64)
            } else {
                None
            },
            _ => None,
        }
    }

    /// The number as an `i64`, when it is an integer in range.
    pub fn as_i64(&self) -> (r: Option<i64>)
        ensures
            r == self.spec_as_i64(),
    {
        match self {
            JsonValue::Number(JsonNumber::PosInt(n)) => if *n <= i64::MAX as u64 {
                Some(*n as i64)
            } else {
                None
            },
            JsonValue::Number(JsonNumber::NegInt(i)) => Some(*i),
            _ => None,
        }
    }

    /// A string value holding the characters of `s`.
    pub fn from_str(s: &str) -> (v: Self)
        ensures
            v.spec_as_str() == Some(s@),
    {
        JsonValue::String(s.to_owned())
    }

    /// A non-negative integer value.
    pub open spec fn from_u64_spec(n: u64) -> Self {
        JsonValue::Number(JsonNumber::PosInt(n))
    }

    /// A non-negative integer value.
    pub fn from_u64(n: u64) -> (v: Self)
        ensures
            v == JsonValue::Number(JsonNumber::PosInt(n)),
    {
        JsonValue::Number(JsonNumber::PosInt(n))
    }

    /// An integer value: non-negative integers are stored as unsigned.
    pub fn from_i64(i: i64) -> (v: Self)
        ensures
            i >= 0 ==> v == JsonValue::Number(JsonNumber::PosInt(i as u64)),
            i < 0 ==> v == JsonValue::Number(JsonNumber::NegInt(i)),
    {
        if i >= 0 {
            JsonValue::Number(JsonNumber::PosInt(i as u64))
        } else {
            JsonValue::Number(JsonNumber::NegInt(i))
        }
    }

    /// A boolean value.
    pub fn from_bool(b: bool) -> (v: Self)
        ensures
            v == JsonValue::Bool(b),
    {
        JsonValue::Bool(b)
    }
}

impl Clone for JsonNumber {
    fn clone(&self) -> (r: Self)
        ensures
            r == *self,
    {
        match self {
            JsonNumber::PosInt(u) => JsonNumber::PosInt(*u),
            JsonNumber::NegInt(i) => JsonNumber::NegInt(*i),
            JsonNumber::Float(t) => JsonNumber::Float(t.clone()),
        }
    }
}

impl Clone for JsonValue {
    fn clone(&self) -> (r: Self)
        ensures
            same_json(*self, r),
            !(self is Array) && !(self is Object) ==> r == *self,
    {
        self.deep_copy()
    }
}

/// A lower-case hexadecimal digit, for `d < 16`.
pub open spec fn hex_digit(d: nat) -> char {
    if d < 10 {
        ((48 + d) as u8) as char
    } else {
        ((87 + d) as u8) as char
    }
}

/// How one character of a string is written inside JSON quotes: quote,
/// backslash and control characters are escaped, the short forms where JSON
/// has them and `\u00XX` otherwise; every other character is written as is.
pub open spec fn escaped_char(c: char) -> Seq<char> {
    if c == '"' {
        seq!['\\', '"']
    } else if c == '\\' {
        seq!['\\', '\\']
    } else if c == '\n' {
        seq!['\\', 'n']
    } else if c == '\r' {
        seq!['\\', 'r']
    } else if c == '\t' {
        seq!['\\', 't']
    } else if c == '\x08' {
        seq!['\\', 'b']
    } else if c == '\x0c' {
        seq!['\\', 'f']
    } else if (c as u32) < 32 {
        seq!['\\', 'u', '0', '0', hex_digit(((c as u32) / 16) as nat), hex_digit(((c as u32) % 16) as nat)]
    } else {
        seq![c]
    }
}

/// The characters of `s`, each escaped for a JSON string.
pub open spec fn escaped(s: Seq<char>) -> Seq<char>
    decreases s.len(),
{
    if s.len() == 0 {
        Seq::empty()
    } else {
        escaped(s.drop_last()) + escaped_char(s.last())
    }
}

/// The value of a hexadecimal digit (either case).
pub open spec fn hex_value(c: char) -> int {
    if '0' <= c && c <= '9' {
        (c as int) - 48
    } else if 'a' <= c && c <= 'f' {
        (c as int) - 87
    } else if 'A' <= c && c <= 'F' {
        (c as int) - 55
    } else {
        0
    }
}

/// The characters that the body of a JSON string literal stands for, read
/// by JSON's rules: `\"`, `\\`, `\/`, `\b`, `\f`, `\n`, `\r`, `\t` and
/// `\uXXXX` stand for one character each; any other character for itself.
pub open spec fn json_unescaped(t: Seq<char>) -> Seq<char>
    decreases t.len(),
{
    if t.len() == 0 {
        Seq::empty()
    } else if t[0] == '\\' && t.len() >= 2 {
        let e = t[1];
        if e == 'u' && t.len() >= 6 {
            seq![((hex_value(t[2]) * 4096 + hex_value(t[3]) * 256 + hex_value(t[4]) * 16 + hex_value(t[5])) as char)]
                + json_unescaped(t.skip(6))
        } else {
            let d = if e == 'n' {
                '\n'
            } else if e == 'r' {
                '\r'
            } else if e == 't' {
                '\t'
            } else if e == 'b' {
                '\x08'
            } else if e == 'f' {
                '\x0c'
            } else {
                e
            };
            seq![d] + json_unescaped(t.skip(2))
        }
    } else {
        seq![t[0]] + json_unescaped(t.skip(1))
    }
}

/// Escaping two strings one after the other is escaping their concatenation.
proof fn lemma_escaped_concat(a: Seq<char>, b: Seq<char>)
    ensures
        escaped(a + b) == escaped(a) + escaped(b),
    decreases b.len(),
{
    if b.len() == 0 {
        assert(a + b =~= a);
    } else {
        lemma_escaped_concat(a, b.drop_last());
        assert((a + b).drop_last() =~= a + b.drop_last());
        assert((a + b).last() == b.last());
    }
}

/// Reading one escaped character gives that character back.
proof fn lemma_unescape_char(c: char, t: Seq<char>)
    ensures
        json_unescaped(escaped_char(c) + t) == seq![c] + json_unescaped(t),
{
    let u = escaped_char(c) + t;
    if c == '"' || c == '\\' || c == '\n' || c == '\r' || c == '\t' || c == '\x08' || c == '\x0c' {
        assert(u.skip(2) =~= t);
    } else if (c as u32) < 32 {
        let n = c as u32;
        assert(u.skip(6) =~= t);
        assert(hex_value(u[2]) == 0);
        assert(hex_value(u[3]) == 0);
        assert(hex_value(u[4]) == (n / 16) as int);
        assert(hex_value(u[5]) == (n % 16) as int);
        assert((n / 16) * 16 + n % 16 == n);
        assert(((n as int) as char) == c);
    } else {
        assert(u.skip(1) =~= t);
    }
}

/// Every string escaped for JSON reads back, by JSON's rules, as itself.
pub proof fn lemma_escaped_reads_back(s: Seq<char>)
    ensures
        json_unescaped(escaped(s)) == s,
    decreases s.len(),
{
    if s.len() > 0 {
        let r = s.drop_first();
        assert(s =~= seq![s[0]] + r);
        lemma_escaped_concat(seq![s[0]], r);
        let one = seq![s[0]];
        assert(one.drop_last() =~= Seq::<char>::empty());
        assert(one.last() == s[0]);
        assert(escaped(one.drop_last()) == Seq::<char>::empty());
        assert(escaped(one) == escaped(one.drop_last()) + escaped_char(one.last()));
        assert(escaped(one) =~= escaped_char(s[0]));
        lemma_unescape_char(s[0], escaped(r));
        lemma_escaped_reads_back(r);
    }
}

/// An escaped string holds no character below U+0020: every control
/// character is written as an escape.
pub proof fn lemma_escaped_has_no_control(s: Seq<char>)
    ensures
        forall|i: int| 0 <= i < escaped(s).len() ==> (#[trigger] escaped(s)[i] as u32) >= 32,
    decreases s.len(),
{
    if s.len() > 0 {
        lemma_escaped_has_no_control(s.drop_last());
        let c = s.last();
        let p = escaped(s.drop_last());
        let q = escaped_char(c);
        assert(escaped(s) == p + q);
        if (c as u32) < 32 && !(c == '\n' || c == '\r' || c == '\t' || c == '\x08' || c == '\x0c') {
            let n = c as u32;
            assert(((48 + n / 16) as u8) as char as u32 >= 32);
            assert(n % 16 < 10 ==> ((48 + n % 16) as u8) as char as u32 >= 32);
            assert(n % 16 >= 10 ==> ((87 + n % 16) as u8) as char as u32 >= 32);
        }
        assert forall|i: int| 0 <= i < escaped(s).len() implies (#[trigger] escaped(s)[i] as u32) >= 32 by {
            if i < p.len() {
                assert(escaped(s)[i] == p[i]);
            } else {
                assert(escaped(s)[i] == q[i - p.len()]);
            }
        }
    }
}

/// A string value's JSON text is a quoted literal whose body reads back, by
/// JSON's rules, as the string itself, and which holds no control character:
/// a JSON parser gives the same string back.
pub proof fn lemma_json_string_reads_back(x: String)
    ensures
        ({
            let t = json_text(JsonValue::String(x));
            &&& t.len() >= 2
            &&& t[0] == '"'
            &&& t[t.len() - 1] == '"'
            &&& json_unescaped(t.subrange(1, t.len() - 1)) == x@
            &&& forall|i: int| 0 <= i < t.len() ==> (#[trigger] t[i] as u32) >= 32
        }),
{
    let t = json_text(JsonValue::String(x));
    let e = escaped(x@);
    assert(t == seq!['"'] + e + seq!['"']);
    assert(t.subrange(1, t.len() - 1) =~= e);
    lemma_escaped_reads_back(x@);
    lemma_escaped_has_no_control(x@);
    assert forall|i: int| 0 <= i < t.len() implies (#[trigger] t[i] as u32) >= 32 by {
        if 1 <= i < t.len() - 1 {
            assert(t[i] == e[i - 1]);
        }
    }
}

/// `s` as a JSON string literal.
pub open spec fn quoted(s: Seq<char>) -> Seq<char> {
    seq!['"'] + escaped(s) + seq!['"']
}

/// The text of a JSON number.
pub open spec fn number_text(n: JsonNumber) -> Seq<char> {
    match n {
        JsonNumber::PosInt(u) => decimal(u as nat),
        JsonNumber::NegInt(i) => if i < 0 {
            seq!['-'] + decimal((-i) as nat)
        } else {
            decimal(i as nat)
        },
        JsonNumber::Float(t) => t@,
    }
}

/// The value of member `i` of `m` is smaller than an object holding `m`.
pub proof fn lemma_member_decreases(m: JsonMap, i: int)
    requires
        0 <= i < m.members().len(),
    ensures
        decreases_to!(m => m.members()[i].1),
{
    assert(decreases_to!(m => m.entries));
    assert(decreases_to!(m.entries => m.entries@));
    assert(decreases_to!(m.entries@ => m.entries@[i]));
    assert(decreases_to!(m.entries@[i] => m.entries@[i].1));
    assert(m.members()[i].1 == m.entries@[i].1);
}

/// `b` holds the same JSON value as `a`: the same scalar, the same number of
/// array elements each the same, or the same keys in the same order with the
/// same values.
pub open spec fn same_json(a: JsonValue, b: JsonValue) -> bool
    decreases a, 0nat,
{
    match a {
        JsonValue::Array(xs) => b is Array && same_items(xs@, b->Array_0@),
        JsonValue::Object(m) => b is Object && m.keys() == b->Object_0.keys() && same_members(m, b->Object_0, m.members().len()),
        _ => b == a,
    }
}

/// `ys` holds the same values as `xs`, one for one.
pub open spec fn same_items(xs: Seq<JsonValue>, ys: Seq<JsonValue>) -> bool
    decreases xs, 0nat,
{
    &&& xs.len() == ys.len()
    &&& xs.len() > 0 ==> same_items(xs.drop_last(), ys.drop_last()) && same_json(xs.last(), ys.last())
}

/// The first `n` members of `n_map` hold the same values as those of `m`.
pub open spec fn same_members(m: JsonMap, n_map: JsonMap, n: nat) -> bool
    decreases m, n,
{
    if n == 0 || n > m.members().len() {
        true
    } else {
        same_members(m, n_map, (n - 1) as nat) && {
            proof { lemma_member_decreases(m, n - 1); }
            same_json(m.members()[n - 1].1, n_map.members()[n - 1].1)
        }
    }
}

/// Members that are the same one by one are the same as a whole.
proof fn lemma_same_members(m: JsonMap, r: JsonMap, n: nat)
    requires
        n <= m.members().len(),
        n <= r.members().len(),
        forall|j: int| 0 <= j < n ==> same_json(m.members()[j].1, #[trigger] r.members()[j].1),
    ensures
        same_members(m, r, n),
    decreases n,
{
    if n > 0 {
        lemma_same_members(m, r, (n - 1) as nat);
    }
}

/// Every value is the same as itself.
pub proof fn lemma_same_json_reflexive(a: JsonValue)
    ensures
        same_json(a, a),
    decreases a, 0nat,
{
    match a {
        JsonValue::Array(xs) => {
            assert(decreases_to!(a => xs));
            assert(decreases_to!(xs => xs@));
            lemma_same_items_reflexive(xs@);
        },
        JsonValue::Object(m) => {
            lemma_same_members_reflexive(m, m.members().len());
        },
        _ => {},
    }
}

/// Every sequence of values is the same as itself.
proof fn lemma_same_items_reflexive(xs: Seq<JsonValue>)
    ensures
        same_items(xs, xs),
    decreases xs, 0nat,
{
    if xs.len() > 0 {
        lemma_same_items_reflexive(xs.drop_last());
        lemma_same_json_reflexive(xs.last());
    }
}

/// Every object's members are the same as themselves.
proof fn lemma_same_members_reflexive(m: JsonMap, n: nat)
    ensures
        same_members(m, m, n),
    decreases m, n,
{
    if n > 0 && n <= m.members().len() {
        lemma_same_members_reflexive(m, (n - 1) as nat);
        lemma_member_decreases(m, n - 1);
        lemma_same_json_reflexive(m.members()[n - 1].1);
    }
}

/// The compact JSON text of a value (no whitespace; object members in key order).
pub open spec fn json_text(v: JsonValue) -> Seq<char>
    decreases v, 0nat,
{
    match v {
        JsonValue::Null => seq!['n', 'u', 'l', 'l'],
        JsonValue::Bool(b) => if b {
            seq!['t', 'r', 'u', 'e']
        } else {
            seq!['f', 'a', 'l', 's', 'e']
        },
        JsonValue::Number(n) => number_text(n),
        JsonValue::String(s) => quoted(s@),
        JsonValue::Array(items) => seq!['['] + items_text(items@) + seq![']'],
        JsonValue::Object(m) => seq!['{'] + members_text(m, m.members().len()) + seq!['}'],
    }
}

/// The texts of `items`, separated by commas.
pub open spec fn items_text(items: Seq<JsonValue>) -> Seq<char>
    decreases items, 0nat,
{
    if items.len() == 0 {
        Seq::empty()
    } else if items.len() == 1 {
        json_text(items[0])
    } else {
        items_text(items.drop_last()) + seq![','] + json_text(items.last())
    }
}

/// The first `n` members of `m` as `"key":value`, separated by commas.
pub open spec fn members_text(m: JsonMap, n: nat) -> Seq<char>
    decreases m, n,
{
    if n == 0 || n > m.members().len() {
        Seq::empty()
    } else {
        let e = m.members()[n - 1];
        let member = quoted(e.0) + seq![':'] + {
            proof { lemma_member_decreases(m, n - 1); }
            json_text(e.1)
        };
        if n == 1 {
            member
        } else {
            members_text(m, (n - 1) as nat) + seq![','] + member
        }
    }
}

/// Appends `s` written as a JSON string literal.
fn write_quoted(s: &str, out: &mut String)
    ensures
        final(out)@ == old(out)@ + quoted(s@),
{
    let chars = crate::text::chars_of(s);
    push_char(out, '"');
    let ghost start = out@;
    let mut i: usize = 0;
    while i < chars.len()
        invariant
            chars@ == s@,
            i <= chars@.len(),
            out@ == start + escaped(s@.take(i as int)),
        decreases chars.len() - i,
    {
        let c = chars[i];
        let ghost before = out@;
        if c == '"' {
            push_char(out, '\\');
            push_char(out, '"');
        } else if c == '\\' {
            push_char(out, '\\');
            push_char(out, '\\');
        } else if c == '\n' {
            push_char(out, '\\');
            push_char(out, 'n');
        } else if c == '\r' {
            push_char(out, '\\');
            push_char(out, 'r');
        } else if c == '\t' {
            push_char(out, '\\');
            push_char(out, 't');
        } else if c == '\x08' {
            push_char(out, '\\');
            push_char(out, 'b');
        } else if c == '\x0c' {
            push_char(out, '\\');
            push_char(out, 'f');
        } else if (c as u32) < 32 {
            let code = c as u32;
            push_char(out, '\\');
            push_char(out, 'u');
            push_char(out, '0');
            push_char(out, '0');
            push_char(out, hex_char(code / 16));
            push_char(out, hex_char(code % 16));
        } else {
            push_char(out, c);
        }
        assert(out@ =~= before + escaped_char(c));
        assert(s@.take(i + 1).drop_last() =~= s@.take(i as int));
        i = i + 1;
    }
    assert(s@.take(chars@.len() as int) =~= s@);
    push_char(out, '"');
}

/// The hexadecimal digit for `d < 16`.
fn hex_char(d: u32) -> (c: char)
    requires
        d < 16,
    ensures
        c == hex_digit(d as nat),
{
    if d < 10 {
        ((48 + d) as u8) as char
    } else {
        ((87 + d) as u8) as char
    }
}

/// Appends the text of a number.
fn write_number(n: &JsonNumber, out: &mut String)
    ensures
        final(out)@ == old(out)@ + number_text(*n),
{
    match n {
        JsonNumber::PosInt(u) => {
            out.append(decimal_text(*u).as_str());
        },
        JsonNumber::NegInt(i) => {
            if *i < 0 {
                let magnitude: u64 = if *i == i64::MIN {
                    9223372036854775808u64
                } else {
                    (-*i) as u64
                };
                push_char(out, '-');
                out.append(decimal_text(magnitude).as_str());
            } else {
                out.append(decimal_text(*i as u64).as_str());
            }
        },
        JsonNumber::Float(t) => {
            out.append(t.as_str());
        },
    }
}

/// Appends the compact JSON text of `v`.
#[verifier::loop_isolation(false)]
pub fn write_json(v: &JsonValue, out: &mut String)
    ensures
        final(out)@ == old(out)@ + json_text(*v),
    decreases v,
{
    match v {
        JsonValue::Null => {
            out.append("null");
            proof { reveal_strlit("null"); }
            assert(out@ =~= old(out)@ + json_text(*v));
        },
        JsonValue::Bool(b) => {
            if *b {
                out.append("true");
                proof { reveal_strlit("true"); }
            } else {
                out.append("false");
                proof { reveal_strlit("false"); }
            }
            assert(out@ =~= old(out)@ + json_text(*v));
        },
        JsonValue::Number(n) => {
            write_number(n, out);
        },
        JsonValue::String(s) => {
            write_quoted(s.as_str(), out);
        },
        JsonValue::Array(items) => {
            push_char(out, '[');
            let ghost start = out@;
            let mut i: usize = 0;
            while i < items.len()
                invariant
                    i <= items@.len(),
                    out@ == start + items_text(items@.take(i as int)),
                decreases items.len() - i,
            {
                proof {
                    assert(decreases_to!(*v => v->Array_0));
                    assert(decreases_to!(items => items@));
                    assert(decreases_to!(items@ => items@[i as int]));
                }
                let ghost prefix = items@.take(i as int);
                if i > 0 {
                    push_char(out, ',');
                }
                write_json(&items[i], out);
                assert(items@.take(i + 1).drop_last() =~= prefix);
                assert(out@ =~= start + items_text(items@.take(i + 1)));
                i = i + 1;
            }
            assert(items@.take(items@.len() as int) =~= items@);
            push_char(out, ']');
            assert(out@ =~= old(out)@ + json_text(*v));
        },
        JsonValue::Object(m) => {
            push_char(out, '{');
            let ghost start = out@;
            let mut i: usize = 0;
            while i < m.len()
                invariant
                    i <= m.members().len(),
                    out@ == start + members_text(*m, i as nat),
                decreases m.members().len() - i,
            {
                let (k, value) = m.entry(i);
                proof {
                    assert(decreases_to!(*v => v->Object_0));
                    lemma_member_decreases(*m, i as int);
                }
                let ghost before = out@;
                if i > 0 {
                    push_char(out, ',');
                }
                write_quoted(k.as_str(), out);
                push_char(out, ':');
                write_json(value, out);
                assert(out@ =~= start + members_text(*m, (i + 1) as nat));
                i = i + 1;
            }
            push_char(out, '}');
            assert(out@ =~= old(out)@ + json_text(*v));
        },
    }
}

/// The compact JSON text of `v` (as `serde_json` writes a value).
pub fn to_json_text(v: &JsonValue) -> (r: String)
    ensures
        r@ == json_text(*v),
{
    let mut out = String::new();
    write_json(v, &mut out);
    assert(out@ =~= json_text(*v));
    out
}

} // verus!
