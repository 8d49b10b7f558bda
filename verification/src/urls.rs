//! URL handling: query parameters merged into URLs, fragments dropped,
//! relative references resolved. Parsing and serialisation are the `url`
//! crate's; which pairs end up in the query is this library's rule.

use vstd::prelude::*;
use crate::errors::{SilkwormError, SilkwormResult};
use crate::order::{pair_le, pair_order, pair_views, pairs_sorted, sort_pairs};
use crate::strmap::StrMap;
use crate::text::{concat, concat3};

verus! {

/// The error text of `url::Url::parse(input)`, or `None` when it parses.
pub uninterp spec fn url_parse_error(input: Seq<char>) -> Option<Seq<char>>;

/// The serialisation of `input` parsed by `url::Url::parse`, with its fragment removed.
pub uninterp spec fn url_defragmented(input: Seq<char>) -> Seq<char>;

/// The decoded `(name, value)` pairs of the query of `input` (`Url::query_pairs`).
pub uninterp spec fn url_query(input: Seq<char>) -> Seq<(Seq<char>, Seq<char>)>;

/// `input` parsed, its fragment removed, and its query replaced by `pairs`
/// form-urlencoded in order (`Url::query_pairs_mut`).
pub uninterp spec fn url_with_query(input: Seq<char>, pairs: Seq<(Seq<char>, Seq<char>)>) -> Seq<char>;

/// `href` resolved against `base` (`Url::parse(base)` then `Url::join`), or
/// `None` when either step fails.
pub uninterp spec fn url_joined(base: Seq<char>, href: Seq<char>) -> Option<Seq<char>>;

/// The characters of an optional string.
pub open spec fn opt_text(s: Option<String>) -> Option<Seq<char>> {
    match s {
        Some(t) => Some(t@),
        None => None,
    }
}

/// Calls `url::Url::parse` and renders its error with `ToString`.
#[verifier::external_body]
fn parse_error_of(input: &str) -> (r: Option<String>)
    ensures
        opt_text(r) == url_parse_error(input@),
{
    url::Url::parse(input).err().map(|e| e.to_string())
}

/// Calls `Url::set_fragment(None)` on `input` parsed by `Url::parse`.
#[verifier::external_body]
fn defragment(input: &str) -> (r: String)
    requires
        url_parse_error(input@) is None,
    ensures
        r@ == url_defragmented(input@),
{
    let mut u = url::Url::parse(input).expect("input was checked to parse");
    u.set_fragment(None);
    u.into()
}

/// Calls `Url::query_pairs` on `input` parsed by `Url::parse`.
#[verifier::external_body]
fn query_pairs_of(input: &str) -> (r: Vec<(String, String)>)
    requires
        url_parse_error(input@) is None,
    ensures
        pair_views(r@) == url_query(input@),
{
    let u = url::Url::parse(input).expect("input was checked to parse");
    u.query_pairs().into_owned().collect()
}

/// Calls `Url::set_fragment(None)`, then `Url::query_pairs_mut` with `clear`
/// and `extend_pairs(pairs)`, on `input` parsed by `Url::parse`.
#[verifier::external_body]
fn with_query_pairs(input: &str, pairs: &Vec<(String, String)>) -> (r: String)
    requires
        url_parse_error(input@) is None,
    ensures
        r@ == url_with_query(input@, pair_views(pairs@)),
{
    let mut u = url::Url::parse(input).expect("input was checked to parse");
    u.set_fragment(None);
    u.query_pairs_mut().clear().extend_pairs(pairs.iter());
    u.into()
}

/// Calls `Url::parse(base)` and then `Url::join(href)`.
#[verifier::external_body]
fn join_of(base: &str, href: &str) -> (r: Option<String>)
    ensures
        opt_text(r) == url_joined(base@, href@),
{
    url::Url::parse(base).ok().and_then(|b| b.join(href).ok()).map(String::from)
}

/// The parameters of a map, values taken by their characters, in insertion order.
pub open spec fn text_pairs(m: StrMap<String>) -> Seq<(Seq<char>, Seq<char>)> {
    m.pairs().map_values(|e: (Seq<char>, String)| (e.0, e.1@))
}

/// The query pairs of `url` whose name is not overridden by `params`, followed
/// by the parameters sorted by name and value.
pub open spec fn merged_query(url: Seq<char>, params: StrMap<String>) -> Seq<(Seq<char>, Seq<char>)> {
    url_query(url).filter(|p: (Seq<char>, Seq<char>)| !params.texts().contains_key(p.0))
        + text_pairs(params).sort_by(pair_order())
}

/// The query of the canonical form of `url` with `params`: the query pairs of
/// `url` not overridden by `params`, then the parameters, all sorted by name
/// and then value, duplicates kept.
pub open spec fn canonical_query(url: Seq<char>, params: StrMap<String>) -> Seq<(Seq<char>, Seq<char>)> {
    merged_query(url, params).sort_by(pair_order())
}

/// Keeping the pairs that satisfy `f` keeps each such pair as often as it
/// occurred, and no other.
proof fn lemma_filter_count(
    a: Seq<(Seq<char>, Seq<char>)>,
    f: spec_fn((Seq<char>, Seq<char>)) -> bool,
    x: (Seq<char>, Seq<char>),
)
    ensures
        a.filter(f).to_multiset().count(x) == if f(x) { a.to_multiset().count(x) } else { 0 },
    decreases a.len(),
{
    broadcast use vstd::seq_lib::group_to_multiset_ensures;
    broadcast use vstd::multiset::group_multiset_axioms;
    if a.len() == 0 {
        a.lemma_filter_len(f);
        assert(a.filter(f) =~= Seq::<(Seq<char>, Seq<char>)>::empty());
        assert(a =~= Seq::<(Seq<char>, Seq<char>)>::empty());
    } else {
        let b = a.drop_last();
        let e = a.last();
        assert(a =~= b.push(e));
        lemma_filter_count(b, f, x);
        b.lemma_filter_push(e, f);
        vstd::seq_lib::to_multiset_build(b, e);
        if f(e) {
            vstd::seq_lib::to_multiset_build(b.filter(f), e);
        }
    }
}

/// URLs whose query pairs are the same up to their order get the same
/// canonical query, whatever the parameters.
pub proof fn lemma_canonical_query_ignores_order(u1: Seq<char>, u2: Seq<char>, params: StrMap<String>)
    requires
        url_query(u1).to_multiset() == url_query(u2).to_multiset(),
    ensures
        canonical_query(u1, params) == canonical_query(u2, params),
        pairs_sorted(canonical_query(u1, params)),
{
    broadcast use vstd::multiset::group_multiset_axioms;
    let f = |p: (Seq<char>, Seq<char>)| !params.texts().contains_key(p.0);
    let t = text_pairs(params).sort_by(pair_order());
    let a1 = url_query(u1).filter(f);
    let a2 = url_query(u2).filter(f);
    assert(merged_query(u1, params) == a1 + t);
    assert(merged_query(u2, params) == a2 + t);
    assert forall|x: (Seq<char>, Seq<char>)| a1.to_multiset().count(x) == a2.to_multiset().count(x) by {
        lemma_filter_count(url_query(u1), f, x);
        lemma_filter_count(url_query(u2), f, x);
    }
    assert(a1.to_multiset() =~= a2.to_multiset());
    vstd::seq_lib::lemma_multiset_commutative(a1, t);
    vstd::seq_lib::lemma_multiset_commutative(a2, t);
    let m1 = a1 + t;
    let m2 = a2 + t;
    crate::order::lemma_pair_order_total();
    m1.lemma_sort_by_ensures(pair_order());
    m2.lemma_sort_by_ensures(pair_order());
    vstd::seq_lib::lemma_sorted_unique(m1.sort_by(pair_order()), m2.sort_by(pair_order()), pair_order());
    let c = m1.sort_by(pair_order());
    assert forall|i: int, j: int| 0 <= i < j < c.len() implies pair_le(#[trigger] c[i], #[trigger] c[j]) by {
        assert(pair_order()(c[i], c[j]));
    }
}

/// Two URLs that the `url` crate writes alike once their queries are
/// replaced (the same scheme, authority and path; fragments are dropped in
/// any case), and whose query pairs are the same up to order, have the same
/// canonical form with any parameters.
pub proof fn lemma_canonical_url_ignores_query_order_and_fragment(u1: Seq<char>, u2: Seq<char>, params: StrMap<String>)
    requires
        url_query(u1).to_multiset() == url_query(u2).to_multiset(),
        forall|q: Seq<(Seq<char>, Seq<char>)>| url_with_query(u1, q) == url_with_query(u2, q),
    ensures
        url_with_query(u1, canonical_query(u1, params)) == url_with_query(u2, canonical_query(u2, params)),
{
    lemma_canonical_query_ignores_order(u1, u2, params);
}

/// The error reported for a URL that does not parse: `Http("Invalid URL <url>: <detail>")`.
pub open spec fn is_invalid_url_error(e: SilkwormError, url: Seq<char>) -> bool {
    &&& url_parse_error(url) is Some
    &&& e matches SilkwormError::Http(m) && m@ == "Invalid URL "@ + url + ": "@ + url_parse_error(url)->0
}

/// The parameters of `params` as `(name, value)` pairs, in insertion order.
fn params_as_pairs(params: &StrMap<String>) -> (r: Vec<(String, String)>)
    ensures
        pair_views(r@) == text_pairs(*params),
{
    let mut out: Vec<(String, String)> = Vec::new();
    let mut i: usize = 0;
    while i < params.len()
        invariant
            i <= params.pairs().len(),
            pair_views(out@) == text_pairs(*params).take(i as int),
        decreases params.pairs().len() - i,
    {
        let (k, v) = params.entry(i);
        assert(text_pairs(*params)[i as int] == (k@, v@));
        let ghost prev = out@;
        let kc = k.clone();
        let vc = v.clone();
        out.push((kc, vc));
        assert(out@ == prev.push((kc, vc)));
        assert(pair_views(out@) =~= pair_views(prev).push((k@, v@)));
        assert(pair_views(out@) =~= text_pairs(*params).take(i + 1));
        i = i + 1;
    }
    assert(text_pairs(*params).take(params.pairs().len() as int) =~= text_pairs(*params));
    out
}

/// The query pairs of `url` with those named in `params` dropped, followed by
/// the parameters in sorted order.
pub fn merged_query_pairs(url: &str, params: &StrMap<String>) -> (r: Vec<(String, String)>)
    requires
        url_parse_error(url@) is None,
    ensures
        pair_views(r@) == merged_query(url@, *params),
{
    let existing = query_pairs_of(url);
    let ghost pred = |p: (Seq<char>, Seq<char>)| !params.texts().contains_key(p.0);
    let mut kept: Vec<(String, String)> = Vec::new();
    let mut i: usize = 0;
    while i < existing.len()
        invariant
            i <= existing@.len(),
            pred == (|p: (Seq<char>, Seq<char>)| !params.texts().contains_key(p.0)),
            pair_views(kept@) == pair_views(existing@).take(i as int).filter(pred),
        decreases existing.len() - i,
    {
        let ghost before = pair_views(existing@).take(i as int);
        let (k, v) = &existing[i];
        let ghost x = (k@, v@);
        assert(pair_views(existing@).take(i + 1) =~= before.push(x));
        proof { before.lemma_filter_push(x, pred); }
        if !params.contains_key(k.as_str()) {
            kept.push((k.clone(), v.clone()));
            assert(pair_views(kept@) =~= before.filter(pred).push(x));
        } else {
            assert(params.texts().contains_key(k@));
        }
        i = i + 1;
    }
    assert(pair_views(existing@).take(existing@.len() as int) =~= pair_views(existing@));
    let additions = sort_pairs(params_as_pairs(params));
    let ghost kv = pair_views(kept@);
    let ghost av = pair_views(additions@);
    let mut merged = kept;
    let mut additions = additions;
    merged.append(&mut additions);
    assert(pair_views(merged@) =~= kv + av);
    merged
}

/// `url` with `params` merged into its query and its fragment removed.
///
/// With no parameters the URL is only normalised (parsed, fragment dropped,
/// serialised). An unparsable URL is an HTTP error.
pub fn build_url_with_params(url: &str, params: &StrMap<String>) -> (r: SilkwormResult<String>)
    ensures
        match r {
            Ok(s) => url_parse_error(url@) is None && s@ == if params.pairs().len() == 0 {
                url_defragmented(url@)
            } else {
                url_with_query(url@, merged_query(url@, *params))
            },
            Err(e) => is_invalid_url_error(e, url@),
        },
{
    match parse_error_of(url) {
        Some(detail) => {
            let tail = concat(": ", detail.as_str());
            let m = concat3("Invalid URL ", url, tail.as_str());
            assert(m@ =~= "Invalid URL "@ + url@ + ": "@ + detail@);
            Err(SilkwormError::Http(m))
        },
        None => {
            if params.is_empty() {
                Ok(defragment(url))
            } else {
                let merged = merged_query_pairs(url, params);
                Ok(with_query_pairs(url, &merged))
            }
        },
    }
}

/// `url` with `params` merged in, every query pair sorted, and its fragment
/// removed: two requests for the same resource give the same text.
pub fn canonical_url_with_params(url: &str, params: &StrMap<String>) -> (r: SilkwormResult<String>)
    ensures
        match r {
            Ok(s) => url_parse_error(url@) is None
                && s@ == url_with_query(url@, canonical_query(url@, *params)),
            Err(e) => is_invalid_url_error(e, url@),
        },
{
    match parse_error_of(url) {
        Some(detail) => {
            let tail = concat(": ", detail.as_str());
            let m = concat3("Invalid URL ", url, tail.as_str());
            assert(m@ =~= "Invalid URL "@ + url@ + ": "@ + detail@);
            Err(SilkwormError::Http(m))
        },
        None => {
            let merged = sort_pairs(merged_query_pairs(url, params));
            Ok(with_query_pairs(url, &merged))
        },
    }
}

/// `href` resolved against `base`; when `base` does not parse or the
/// reference cannot be joined, `href` itself.
pub fn join_or_keep(base: &str, href: &str) -> (r: String)
    ensures
        r@ == match url_joined(base@, href@) {
            Some(j) => j,
            None => href@,
        },
{
    match join_of(base, href) {
        Some(joined) => joined,
        None => href.to_owned(),
    }
}

} // verus!
