//! Header maps: case-insensitive lookup and normalisation.

use vstd::prelude::*;
use crate::strmap::StrMap;
use crate::text::{ascii_ci_eq, ascii_lowercase, ascii_lowercase_of, concat3, eq_ignore_ascii_case};

verus! {

/// `i` is the first position whose key equals `name` up to ASCII case.
pub open spec fn is_first_ci(keys: Seq<Seq<char>>, name: Seq<char>, i: int) -> bool {
    &&& 0 <= i < keys.len()
    &&& ascii_ci_eq(keys[i], name)
    &&& forall|j: int| 0 <= j < i ==> !ascii_ci_eq(#[trigger] keys[j], name)
}

/// Some key equals `name` up to ASCII case.
pub open spec fn has_ci_key(keys: Seq<Seq<char>>, name: Seq<char>) -> bool {
    exists|i: int| 0 <= i < keys.len() && ascii_ci_eq(#[trigger] keys[i], name)
}

/// The value of the first key that equals `name` up to ASCII case.
pub open spec fn first_ci_value(m: StrMap<String>, name: Seq<char>) -> Option<Seq<char>> {
    if has_ci_key(m.key_seq(), name) {
        Some(m.pairs()[choose|i: int| is_first_ci(m.key_seq(), name, i)].1@)
    } else {
        None
    }
}

/// Header lookup: the exact name first, then any name equal up to ASCII case.
pub open spec fn header_lookup(m: StrMap<String>, name: Seq<char>) -> Option<Seq<char>> {
    if m.texts().contains_key(name) {
        Some(m.texts()[name])
    } else {
        first_ci_value(m, name)
    }
}

/// Header lookup that first tries the ASCII lower-case name.
pub open spec fn header_lookup_lower_first(m: StrMap<String>, name: Seq<char>) -> Option<Seq<char>> {
    if m.texts().contains_key(ascii_lowercase(name)) {
        Some(m.texts()[ascii_lowercase(name)])
    } else {
        header_lookup(m, name)
    }
}

/// The characters of an optional string slice.
pub open spec fn opt_str(s: Option<&str>) -> Option<Seq<char>> {
    match s {
        Some(t) => Some(t@),
        None => None,
    }
}

/// Position of the first key equal to `name` up to ASCII case.
pub fn find_ci(m: &StrMap<String>, name: &str) -> (r: Option<usize>)
    ensures
        match r {
            Some(i) => is_first_ci(m.key_seq(), name@, i as int),
            None => !has_ci_key(m.key_seq(), name@),
        },
{
    let mut i: usize = 0;
    while i < m.len()
        invariant
            i <= m.pairs().len(),
            forall|j: int| 0 <= j < i ==> !ascii_ci_eq(#[trigger] m.key_seq()[j], name@),
        decreases m.pairs().len() - i,
    {
        let (k, _) = m.entry(i);
        if eq_ignore_ascii_case(k.as_str(), name) {
            return Some(i);
        }
        i = i + 1;
    }
    None
}

proof fn lemma_first_ci_unique(keys: Seq<Seq<char>>, name: Seq<char>, i: int, j: int)
    requires
        is_first_ci(keys, name, i),
        is_first_ci(keys, name, j),
    ensures
        i == j,
{
    if i < j {
        assert(!ascii_ci_eq(keys[i], name));
    }
    if j < i {
        assert(!ascii_ci_eq(keys[j], name));
    }
}

/// Some key of the map equals `name` up to ASCII case.
pub open spec fn map_has_ci_key(m: Map<Seq<char>, Seq<char>>, name: Seq<char>) -> bool {
    exists|k: Seq<char>| m.contains_key(k) && ascii_ci_eq(k, name)
}

pub proof fn lemma_ci_key_in_map(m: StrMap<String>, name: Seq<char>)
    ensures
        has_ci_key(m.key_seq(), name) == map_has_ci_key(m.texts(), name),
{
    if has_ci_key(m.key_seq(), name) {
        let i = choose|i: int| 0 <= i < m.key_seq().len() && ascii_ci_eq(#[trigger] m.key_seq()[i], name);
        let k = m.key_seq()[i];
        assert(m.has_key(k));
        assert(m.texts().contains_key(k));
    }
    if map_has_ci_key(m.texts(), name) {
        let k = choose|k: Seq<char>| m.texts().contains_key(k) && ascii_ci_eq(k, name);
        assert(m.has_key(k));
        let i = choose|i: int| 0 <= i < m.pairs().len() && m.pairs()[i].0 == k;
        assert(m.key_seq()[i] == k);
    }
}

/// The value of the first header named `name` up to ASCII case.
pub fn first_ci_header<'a>(m: &'a StrMap<String>, name: &str) -> (r: Option<&'a str>)
    ensures
        opt_str(r) == first_ci_value(*m, name@),
{
    match find_ci(m, name) {
        Some(i) => {
            let (_, v) = m.entry(i);
            proof {
                let c = choose|k: int| is_first_ci(m.key_seq(), name@, k);
                lemma_first_ci_unique(m.key_seq(), name@, i as int, c);
            }
            Some(v.as_str())
        },
        None => None,
    }
}

/// The value of header `name`: an exact match first, then one equal up to ASCII case.
pub fn header_value<'a>(m: &'a StrMap<String>, name: &str) -> (r: Option<&'a str>)
    ensures
        opt_str(r) == header_lookup(*m, name@),
{
    match m.get(name) {
        Some(v) => Some(v.as_str()),
        None => first_ci_header(m, name),
    }
}

/// The value of header `name`, trying its ASCII lower-case form first.
pub fn header_value_lower_first<'a>(m: &'a StrMap<String>, name: &str) -> (r: Option<&'a str>)
    ensures
        opt_str(r) == header_lookup_lower_first(*m, name@),
{
    let lower = ascii_lowercase_of(name);
    match m.get(lower.as_str()) {
        Some(v) => Some(v.as_str()),
        None => header_value(m, name),
    }
}

/// Header pairs folded into a map: names ASCII lower-cased, repeated names
/// joined with `", "` in arrival order.
pub open spec fn normalized(pairs: Seq<(Seq<char>, Seq<char>)>) -> Map<Seq<char>, Seq<char>>
    decreases pairs.len(),
{
    if pairs.len() == 0 {
        Map::empty()
    } else {
        let m = normalized(pairs.drop_last());
        let k = ascii_lowercase(pairs.last().0);
        let v = pairs.last().1;
        if m.contains_key(k) {
            m.insert(k, m[k] + ", "@ + v)
        } else {
            m.insert(k, v)
        }
    }
}

/// Builds the header map of a response from its `(name, value)` pairs.
pub fn normalize_headers(pairs: &Vec<(String, String)>) -> (r: StrMap<String>)
    ensures
        r.texts() == normalized(pairs@.map_values(|p: (String, String)| (p.0@, p.1@))),
{
    let ghost views = pairs@.map_values(|p: (String, String)| (p.0@, p.1@));
    let mut out: StrMap<String> = StrMap::new();
    let mut i: usize = 0;
    while i < pairs.len()
        invariant
            i <= pairs@.len(),
            views == pairs@.map_values(|p: (String, String)| (p.0@, p.1@)),
            out.texts() == normalized(views.take(i as int)),
        decreases pairs.len() - i,
    {
        let (name, value) = &pairs[i];
        assert(views.take(i + 1).drop_last() =~= views.take(i as int));
        assert(views.take(i + 1).last() == (name@, value@));
        let key = ascii_lowercase_of(name.as_str());
        let merged = match out.get(key.as_str()) {
            Some(existing) => Some(concat3(existing.as_str(), ", ", value.as_str())),
            None => None,
        };
        match merged {
            Some(m) => out.insert_str(key.as_str(), m.as_str()),
            None => out.insert_str(key.as_str(), value.as_str()),
        }
        i = i + 1;
    }
    assert(views.take(pairs@.len() as int) =~= views);
    out
}

} // verus!
