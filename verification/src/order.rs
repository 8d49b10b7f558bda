//! The order of strings and of string pairs that std's `Ord` gives them:
//! lexicographic, character by character, by code point.

use vstd::prelude::*;
use crate::text::chars_of;

verus! {

/// `a` sorts before or equal to `b`.
pub open spec fn seq_le(a: Seq<char>, b: Seq<char>) -> bool
    decreases a.len(),
{
    if a.len() == 0 {
        true
    } else if b.len() == 0 {
        false
    } else if a[0] != b[0] {
        (a[0] as int) < (b[0] as int)
    } else {
        seq_le(a.drop_first(), b.drop_first())
    }
}

/// Order of pairs: by the first component, then by the second.
pub open spec fn pair_le(p: (Seq<char>, Seq<char>), q: (Seq<char>, Seq<char>)) -> bool {
    if p.0 == q.0 {
        seq_le(p.1, q.1)
    } else {
        seq_le(p.0, q.0)
    }
}

/// A sequence of pairs in ascending order.
pub open spec fn pairs_sorted(s: Seq<(Seq<char>, Seq<char>)>) -> bool {
    forall|i: int, j: int| 0 <= i < j < s.len() ==> pair_le(#[trigger] s[i], #[trigger] s[j])
}

/// Views of a vector of string pairs.
pub open spec fn pair_views(v: Seq<(String, String)>) -> Seq<(Seq<char>, Seq<char>)> {
    v.map_values(|p: (String, String)| (p.0@, p.1@))
}

pub proof fn lemma_seq_le_reflexive(a: Seq<char>)
    ensures
        seq_le(a, a),
    decreases a.len(),
{
    if a.len() > 0 {
        lemma_seq_le_reflexive(a.drop_first());
    }
}

pub proof fn lemma_seq_le_total(a: Seq<char>, b: Seq<char>)
    ensures
        seq_le(a, b) || seq_le(b, a),
    decreases a.len(),
{
    if a.len() > 0 && b.len() > 0 && a[0] == b[0] {
        lemma_seq_le_total(a.drop_first(), b.drop_first());
    } else if a.len() > 0 && b.len() > 0 {
        assert((a[0] as int) != (b[0] as int));
    }
}

pub proof fn lemma_seq_le_antisymmetric(a: Seq<char>, b: Seq<char>)
    requires
        seq_le(a, b),
        seq_le(b, a),
    ensures
        a == b,
    decreases a.len(),
{
    if a.len() > 0 && b.len() > 0 {
        lemma_seq_le_antisymmetric(a.drop_first(), b.drop_first());
        assert(a =~= seq![a[0]] + a.drop_first());
        assert(b =~= seq![b[0]] + b.drop_first());
    } else {
        assert(a =~= b);
    }
}

pub proof fn lemma_seq_le_transitive(a: Seq<char>, b: Seq<char>, c: Seq<char>)
    requires
        seq_le(a, b),
        seq_le(b, c),
    ensures
        seq_le(a, c),
    decreases a.len(),
{
    if a.len() > 0 && b.len() > 0 && c.len() > 0 && a[0] == b[0] && b[0] == c[0] {
        lemma_seq_le_transitive(a.drop_first(), b.drop_first(), c.drop_first());
    }
}

pub proof fn lemma_pair_le_total(p: (Seq<char>, Seq<char>), q: (Seq<char>, Seq<char>))
    ensures
        pair_le(p, q) || pair_le(q, p),
{
    lemma_seq_le_total(p.0, q.0);
    lemma_seq_le_total(p.1, q.1);
}

pub proof fn lemma_pair_le_transitive(
    p: (Seq<char>, Seq<char>),
    q: (Seq<char>, Seq<char>),
    r: (Seq<char>, Seq<char>),
)
    requires
        pair_le(p, q),
        pair_le(q, r),
    ensures
        pair_le(p, r),
{
    if p.0 == q.0 && q.0 == r.0 {
        lemma_seq_le_transitive(p.1, q.1, r.1);
    } else if p.0 == q.0 {
        assert(seq_le(p.0, r.0));
    } else if q.0 == r.0 {
        assert(seq_le(p.0, r.0));
    } else {
        lemma_seq_le_transitive(p.0, q.0, r.0);
        if p.0 == r.0 {
            lemma_seq_le_antisymmetric(p.0, q.0);
        }
    }
}

/// `pair_le` as a relation value.
pub open spec fn pair_order() -> spec_fn((Seq<char>, Seq<char>), (Seq<char>, Seq<char>)) -> bool {
    |p: (Seq<char>, Seq<char>), q: (Seq<char>, Seq<char>)| pair_le(p, q)
}

pub proof fn lemma_pair_order_total()
    ensures
        vstd::relations::total_ordering(pair_order()),
{
    let r = pair_order();
    assert forall|x: (Seq<char>, Seq<char>)| #[trigger] r(x, x) by {
        lemma_seq_le_reflexive(x.0);
        lemma_seq_le_reflexive(x.1);
    }
    assert forall|x: (Seq<char>, Seq<char>), y: (Seq<char>, Seq<char>)| #[trigger] r(x, y) && #[trigger] r(y, x) implies x == y by {
        if x.0 == y.0 {
            lemma_seq_le_antisymmetric(x.1, y.1);
        } else {
            lemma_seq_le_antisymmetric(x.0, y.0);
        }
    }
    assert forall|x: (Seq<char>, Seq<char>), y: (Seq<char>, Seq<char>), z: (Seq<char>, Seq<char>)| #[trigger] r(x, y) && #[trigger] r(y, z) implies r(x, z) by {
        lemma_pair_le_transitive(x, y, z);
    }
    assert forall|x: (Seq<char>, Seq<char>), y: (Seq<char>, Seq<char>)| #[trigger] r(x, y) || #[trigger] r(y, x) by {
        lemma_pair_le_total(x, y);
    }
}

/// Whether `a` sorts before or equal to `b` (`a <= b` for strings).
pub fn str_le(a: &str, b: &str) -> (r: bool)
    ensures
        r == seq_le(a@, b@),
{
    let x = chars_of(a);
    let y = chars_of(b);
    let mut i: usize = 0;
    assert(a@.skip(0) =~= a@);
    assert(b@.skip(0) =~= b@);
    while i < x.len() && i < y.len() && x[i] == y[i]
        invariant
            x@ == a@,
            y@ == b@,
            i <= x@.len(),
            i <= y@.len(),
            seq_le(a@, b@) == seq_le(a@.skip(i as int), b@.skip(i as int)),
        decreases x.len() - i,
    {
        assert(a@.skip(i as int).drop_first() =~= a@.skip(i + 1));
        assert(b@.skip(i as int).drop_first() =~= b@.skip(i + 1));
        i = i + 1;
    }
    if i == x.len() {
        true
    } else if i == y.len() {
        false
    } else {
        x[i] < y[i]
    }
}

/// Whether pair `p` sorts before or equal to pair `q`.
pub fn pair_leq(p: &(String, String), q: &(String, String)) -> (r: bool)
    ensures
        r == pair_le((p.0@, p.1@), (q.0@, q.1@)),
{
    if p.0 == q.0 {
        str_le(p.1.as_str(), q.1.as_str())
    } else {
        str_le(p.0.as_str(), q.0.as_str())
    }
}

/// The pairs of `v` in ascending order (std's order on `(String, String)`).
pub fn sort_pairs(v: Vec<(String, String)>) -> (r: Vec<(String, String)>)
    ensures
        pair_views(r@) == pair_views(v@).sort_by(pair_order()),
        pairs_sorted(pair_views(r@)),
        pair_views(r@).to_multiset() == pair_views(v@).to_multiset(),
{
    broadcast use vstd::seq_lib::group_to_multiset_ensures;
    broadcast use vstd::multiset::group_multiset_axioms;
    let mut rest = v;
    let mut out: Vec<(String, String)> = Vec::new();
    let ghost total = pair_views(rest@).to_multiset();
    while rest.len() > 0
        invariant
            pairs_sorted(pair_views(out@)),
            forall|i: int, j: int| 0 <= i < out@.len() && 0 <= j < rest@.len()
                ==> pair_le(#[trigger] pair_views(out@)[i], #[trigger] pair_views(rest@)[j]),
            pair_views(out@).to_multiset().add(pair_views(rest@).to_multiset()) == total,
        decreases rest.len(),
    {
        let mut m: usize = 0;
        let mut k: usize = 1;
        proof {
            lemma_seq_le_reflexive(pair_views(rest@)[0].0);
            lemma_seq_le_reflexive(pair_views(rest@)[0].1);
        }
        while k < rest.len()
            invariant
                1 <= k <= rest@.len(),
                m < rest@.len(),
                forall|j: int| 0 <= j < k ==> pair_le(pair_views(rest@)[m as int], #[trigger] pair_views(rest@)[j]),
            decreases rest.len() - k,
        {
            if !pair_leq(&rest[m], &rest[k]) {
                proof {
                    lemma_pair_le_total(pair_views(rest@)[m as int], pair_views(rest@)[k as int]);
                    assert forall|j: int| 0 <= j < k implies pair_le(pair_views(rest@)[k as int], #[trigger] pair_views(rest@)[j]) by {
                        lemma_pair_le_transitive(pair_views(rest@)[k as int], pair_views(rest@)[m as int], pair_views(rest@)[j]);
                    }
                    lemma_seq_le_reflexive(pair_views(rest@)[k as int].0);
                    lemma_seq_le_reflexive(pair_views(rest@)[k as int].1);
                }
                m = k;
            }
            k = k + 1;
        }
        proof {
            lemma_seq_le_reflexive(pair_views(rest@)[m as int].0);
            lemma_seq_le_reflexive(pair_views(rest@)[m as int].1);
        }
        let ghost old_rest = pair_views(rest@);
        let ghost old_out = pair_views(out@);
        let item = rest.remove(m);
        let ghost x = (item.0@, item.1@);
        out.push(item);
        proof {
            assert(pair_views(rest@) =~= old_rest.remove(m as int));
            assert(pair_views(out@) =~= old_out.push(x));
            assert(old_rest[m as int] == x);
            vstd::seq_lib::to_multiset_remove(old_rest, m as int);
            assert forall|i: int, j: int| 0 <= i < j < pair_views(out@).len()
                implies pair_le(#[trigger] pair_views(out@)[i], #[trigger] pair_views(out@)[j]) by {
                if j == pair_views(out@).len() - 1 {
                    assert(pair_le(old_out[i], old_rest[m as int]));
                }
            }
            assert forall|i: int, j: int| 0 <= i < out@.len() && 0 <= j < rest@.len()
                implies pair_le(#[trigger] pair_views(out@)[i], #[trigger] pair_views(rest@)[j]) by {
                let j0 = if j < m { j } else { j + 1 };
                assert(pair_views(rest@)[j] == old_rest[j0]);
                if i == out@.len() - 1 {
                    assert(pair_le(old_rest[m as int], old_rest[j0]));
                } else {
                    assert(pair_le(old_out[i], old_rest[j0]));
                }
            }
            old_rest.to_multiset_ensures();
            vstd::seq_lib::to_multiset_build(old_out, x);
            assert(old_rest.contains(x));
            assert(old_rest.to_multiset().count(x) > 0);
            assert(old_rest.to_multiset() =~= pair_views(rest@).to_multiset().insert(x));
            assert(pair_views(out@).to_multiset() == old_out.to_multiset().insert(x));
            assert(pair_views(out@).to_multiset().add(pair_views(rest@).to_multiset()) =~= total);
        }
    }
    proof {
        assert(pair_views(rest@) =~= Seq::<(Seq<char>, Seq<char>)>::empty());
        assert(pair_views(out@).to_multiset().add(pair_views(rest@).to_multiset()) =~= pair_views(out@).to_multiset());
        lemma_pair_order_total();
        pair_views(v@).lemma_sort_by_ensures(pair_order());
        assert(vstd::relations::sorted_by(pair_views(out@), pair_order())) by {
            assert forall|i: int, j: int| 0 <= i < j < pair_views(out@).len() implies #[trigger] pair_order()(pair_views(out@)[i], pair_views(out@)[j]) by {
                assert(pair_le(pair_views(out@)[i], pair_views(out@)[j]));
            }
        }
        vstd::seq_lib::lemma_sorted_unique(pair_views(out@), pair_views(v@).sort_by(pair_order()), pair_order());
    }
    out
}

} // verus!
