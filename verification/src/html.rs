//! HTML pages and the elements selected from them with CSS selectors.

use vstd::prelude::*;
use crate::errors::{SilkwormError, SilkwormResult};
use crate::order::pair_views;
use crate::request::{clone_of_callback, same_request, Request, SpiderOutput};
use crate::response::{
    as_outputs, decoded_body, decode_body, fresh_get, joined_url, non_empty, Response,
};
use crate::strmap::{insert_all, StrMap};
use crate::text::{concat, owned, texts_of};
use crate::urls::opt_text;

verus! {

/// What a matched element is taken as: its HTML, its attributes (local name
/// and value, in order), its text, and the value of one requested attribute.
pub type MatchView = (Seq<char>, Seq<(Seq<char>, Seq<char>)>, Seq<char>, Option<Seq<char>>);

/// The message of the error `scraper` reports for `selector`, if it does not parse.
pub uninterp spec fn css_selector_error(selector: Seq<char>) -> Option<Seq<char>>;

/// The elements of the document `source` that `selector` matches, in
/// document order, with the value of attribute `attr` of each.
pub uninterp spec fn document_matches(source: Seq<char>, selector: Seq<char>, attr: Seq<char>) -> Seq<MatchView>;

/// The elements of the fragment `source` that `selector` matches, in
/// document order, with the value of attribute `attr` of each.
pub uninterp spec fn fragment_matches(source: Seq<char>, selector: Seq<char>, attr: Seq<char>) -> Seq<MatchView>;

/// The selector that matches every element.
pub const ALL_ELEMENTS: &'static str = "*";

/// The requested attribute of the first match that has it.
pub open spec fn first_attr_of(ms: Seq<MatchView>) -> Option<Seq<char>>
    decreases ms.len(),
{
    if ms.len() == 0 {
        None
    } else if ms[0].3 is Some {
        ms[0].3
    } else {
        first_attr_of(ms.drop_first())
    }
}

/// The text of the first element of the fragment `html`, if it has one.
pub open spec fn fragment_first_text(html: Seq<char>) -> Option<Seq<char>> {
    let ms = fragment_matches(html, ALL_ELEMENTS@, ""@);
    if css_selector_error(ALL_ELEMENTS@) is Some || ms.len() == 0 {
        None
    } else {
        Some(ms[0].2)
    }
}

/// An element's text is the first of the texts that selecting `*` in its
/// markup gives: that of the outermost, first element, holding the text of
/// every element inside it (what `select_texts("*")` lists first).
pub proof fn lemma_element_text_is_first_selected(html: Seq<char>)
    requires
        css_selector_error(ALL_ELEMENTS@) is None,
    ensures
        fragment_first_text(html) == first_of(texts_of_matches(fragment_matches(html, ALL_ELEMENTS@, Seq::empty()))),
{
    reveal_strlit("");
    assert(""@ =~= Seq::<char>::empty());
}

/// Looking through one more match: the first attribute found before it, else its own.
proof fn lemma_first_attr_of_push(ms: Seq<MatchView>)
    requires
        ms.len() > 0,
    ensures
        first_attr_of(ms) == match first_attr_of(ms.drop_last()) {
            Some(v) => Some(v),
            None => ms.last().3,
        },
    decreases ms.len(),
{
    if ms.len() == 1 {
        assert(ms.drop_last().len() == 0);
        assert(first_attr_of(ms.drop_last()) is None);
        assert(ms.last() == ms[0]);
        if ms[0].3 is None {
            assert(ms.drop_first().len() == 0);
            assert(first_attr_of(ms.drop_first()) is None);
        }
    } else if ms[0].3 is None {
        lemma_first_attr_of_push(ms.drop_first());
        assert(ms.drop_first().drop_last() =~= ms.drop_last().drop_first());
        assert(ms.drop_last()[0] == ms[0]);
        assert(ms.drop_first().last() == ms.last());
        assert(first_attr_of(ms) == first_attr_of(ms.drop_first()));
        assert(first_attr_of(ms.drop_last()) == first_attr_of(ms.drop_last().drop_first()));
    } else {
        assert(ms.drop_last()[0] == ms[0]);
        assert(first_attr_of(ms.drop_last()) == ms[0].3);
    }
}

/// The first attribute found is the first of the attribute values listed.
proof fn lemma_first_attr_of_matches(ms: Seq<MatchView>)
    ensures
        first_attr_of(ms) == first_of(attrs_of_matches(ms)),
    decreases ms.len(),
{
    if ms.len() > 0 {
        lemma_first_attr_of_matches(ms.drop_last());
        lemma_first_attr_of_push(ms);
        let rest = attrs_of_matches(ms.drop_last());
        if rest.len() > 0 {
            match ms.last().3 {
                Some(v) => assert(rest.push(v)[0] == rest[0]),
                None => {},
            }
        }
    }
}

/// An element's attribute `name`, when the element has none of its own, is
/// the first value that `select_attrs("*", name)` lists on its markup: that
/// of the first element, in document order, that has it.
pub proof fn lemma_element_attr_is_first_selected(html: Seq<char>, name: Seq<char>)
    requires
        css_selector_error(ALL_ELEMENTS@) is None,
    ensures
        fragment_first_attr(html, name) == first_of(attrs_of_matches(fragment_matches(html, ALL_ELEMENTS@, name))),
{
    lemma_first_attr_of_matches(fragment_matches(html, ALL_ELEMENTS@, name));
}

/// The value of attribute `name` on the first element of the fragment
/// `html` that has one.
pub open spec fn fragment_first_attr(html: Seq<char>, name: Seq<char>) -> Option<Seq<char>> {
    if css_selector_error(ALL_ELEMENTS@) is Some {
        None
    } else {
        first_attr_of(fragment_matches(html, ALL_ELEMENTS@, name))
    }
}

/// One matched element, as `scraper` gives it.
struct ScrapedElement {
    html: String,
    attrs: Vec<(String, String)>,
    text: String,
    attr: Option<String>,
}

/// The plain values of a matched element.
spec fn scraped_view(e: ScrapedElement) -> MatchView {
    (e.html@, pair_views(e.attrs@), e.text@, opt_text(e.attr))
}

/// The plain values of matched elements.
spec fn scraped_views(v: Seq<ScrapedElement>) -> Seq<MatchView> {
    v.map_values(|e: ScrapedElement| scraped_view(e))
}

/// A compiled CSS selector (`scraper::Selector`), carried through unchanged.
#[verifier::external_type_specification]
#[verifier::external_body]
pub struct ExCssSelector(scraper::Selector);

/// Calls `scraper::Selector::parse`; the contract claims it succeeds exactly
/// when the named `css_selector_error` is `None`, and that the error's text
/// (`Display`) is that name otherwise.
#[verifier::external_body]
fn parse_css(selector: &str) -> (r: Result<scraper::Selector, String>)
    ensures
        match r {
            Ok(_) => css_selector_error(selector@) is None,
            Err(m) => css_selector_error(selector@) == Some(m@),
        },
{
    scraper::Selector::parse(selector).map_err(|e| format!("{e}"))
}

/// A CSS selector compiled once, with the text it was compiled from.
pub struct CssSelector {
    text: String,
    compiled: scraper::Selector,
}

impl CssSelector {
    /// The text the selector was compiled from.
    pub closed spec fn spec_text(self) -> Seq<char> {
        self.text@
    }

    /// It was compiled from its text, which therefore parses.
    #[verifier::type_invariant]
    closed spec fn parses(self) -> bool {
        css_selector_error(self.text@) is None
    }

    /// Compiles `selector`; one that does not parse is the selector error
    /// `Invalid CSS selector: <message>`.
    pub fn new(selector: &str) -> (r: SilkwormResult<CssSelector>)
        ensures
            match r {
                Ok(s) => s.spec_text() == selector@ && css_selector_error(selector@) is None,
                Err(e) => is_selector_error(e, selector@),
            },
    {
        match parse_css(selector) {
            Ok(compiled) => Ok(CssSelector { text: owned(selector), compiled }),
            Err(detail) => Err(SilkwormError::Selector(concat("Invalid CSS selector: ", detail.as_str()))),
        }
    }

    /// The text the selector was compiled from.
    pub fn text(&self) -> (r: &str)
        ensures
            r@ == self.spec_text(),
    {
        self.text.as_str()
    }
}

/// Calls `scraper::Html::parse_document` on `source` and `Html::select` with
/// the compiled `selector`; for each element, `ElementRef::html`, the local
/// names and values of `Element::attrs`, the collected `ElementRef::text` and
/// `Element::attr(attr)`. The contract claims these are the named
/// `document_matches` of the selector's text.
#[verifier::external_body]
fn scrape_document(source: &str, selector: &CssSelector, attr: &str) -> (r: Vec<ScrapedElement>)
    ensures
        scraped_views(r@) == document_matches(source@, selector.spec_text(), attr@),
{
    let doc = scraper::Html::parse_document(source);
    let mut out = Vec::new();
    for el in doc.select(&selector.compiled) {
        let attrs = el.value().attrs().map(|(n, v)| (n.to_owned(), v.to_owned())).collect();
        let text = el.text().collect::<String>();
        out.push(ScrapedElement { html: el.html(), attrs, text, attr: el.attr(attr).map(str::to_owned) });
    }
    out
}

/// As `scrape_document`, with `scraper::Html::parse_fragment`; the contract
/// claims the results are the named `fragment_matches`.
#[verifier::external_body]
fn scrape_fragment(source: &str, selector: &CssSelector, attr: &str) -> (r: Vec<ScrapedElement>)
    ensures
        scraped_views(r@) == fragment_matches(source@, selector.spec_text(), attr@),
{
    let doc = scraper::Html::parse_fragment(source);
    let mut out = Vec::new();
    for el in doc.select(&selector.compiled) {
        let attrs = el.value().attrs().map(|(n, v)| (n.to_owned(), v.to_owned())).collect();
        let text = el.text().collect::<String>();
        out.push(ScrapedElement { html: el.html(), attrs, text, attr: el.attr(attr).map(str::to_owned) });
    }
    out
}

/// The text of the first element of the fragment `html`.
fn first_element_text(html: &str) -> (r: Option<String>)
    ensures
        opt_text(r) == fragment_first_text(html@),
{
    let all = match CssSelector::new(ALL_ELEMENTS) {
        Ok(a) => a,
        Err(_) => {
            return None;
        },
    };
    let ms = scrape_fragment(html, &all, "");
    if ms.len() == 0 {
        None
    } else {
        assert(scraped_views(ms@)[0] == scraped_view(ms@[0]));
        Some(ms[0].text.clone())
    }
}

/// The value of attribute `name` on the first element of the fragment
/// `html` that has one.
fn first_element_attr(html: &str, name: &str) -> (r: Option<String>)
    ensures
        opt_text(r) == fragment_first_attr(html@, name@),
{
    let all = match CssSelector::new(ALL_ELEMENTS) {
        Ok(a) => a,
        Err(_) => {
            return None;
        },
    };
    let ms = scrape_fragment(html, &all, name);
    let ghost vs = scraped_views(ms@);
    assert(vs.skip(0) =~= vs);
    let mut i: usize = 0;
    while i < ms.len()
        invariant
            vs == scraped_views(ms@),
            css_selector_error(ALL_ELEMENTS@) is None,
            vs == fragment_matches(html@, ALL_ELEMENTS@, name@),
            i <= ms@.len(),
            first_attr_of(vs) == first_attr_of(vs.skip(i as int)),
        decreases ms.len() - i,
    {
        assert(vs.skip(i as int)[0] == vs[i as int]);
        assert(vs[i as int] == scraped_view(ms@[i as int]));
        match &ms[i].attr {
            Some(v) => {
                let c = v.clone();
                assert(vs.skip(i as int).len() > 0);
                assert(vs.skip(i as int)[0].3 == Some(v@));
                assert(first_attr_of(vs.skip(i as int)) == Some(v@));
                return Some(c);
            },
            None => {},
        }
        assert(vs.skip(i as int).drop_first() =~= vs.skip(i + 1));
        i = i + 1;
    }
    assert(vs.skip(ms@.len() as int).len() == 0);
    None
}

/// An element selected from a page: its HTML and its attributes.
pub struct HtmlElement {
    html: String,
    attrs: StrMap<String>,
}

/// The element that a match stands for: its HTML, and its attributes as a
/// map (a repeated name keeps its last value).
pub open spec fn element_of(m: MatchView) -> (Seq<char>, Map<Seq<char>, Seq<char>>) {
    (m.0, insert_all(Map::<Seq<char>, Seq<char>>::empty(), m.1))
}

/// The elements that matches stand for.
pub open spec fn elements_of(ms: Seq<MatchView>) -> Seq<(Seq<char>, Map<Seq<char>, Seq<char>>)> {
    ms.map_values(|m: MatchView| element_of(m))
}

/// The texts of matches.
pub open spec fn texts_of_matches(ms: Seq<MatchView>) -> Seq<Seq<char>> {
    ms.map_values(|m: MatchView| m.2)
}

/// The values of the requested attribute, over the matches that have it.
pub open spec fn attrs_of_matches(ms: Seq<MatchView>) -> Seq<Seq<char>>
    decreases ms.len(),
{
    if ms.len() == 0 {
        Seq::empty()
    } else {
        let rest = attrs_of_matches(ms.drop_last());
        match ms.last().3 {
            Some(v) => rest.push(v),
            None => rest,
        }
    }
}

/// The error for a selector that does not parse.
pub open spec fn is_selector_error(e: SilkwormError, selector: Seq<char>) -> bool {
    &&& css_selector_error(selector) is Some
    &&& e matches SilkwormError::Selector(m) && m@ == "Invalid CSS selector: "@ + css_selector_error(selector)->0
}

/// The views of elements.
pub open spec fn element_views(v: Seq<HtmlElement>) -> Seq<(Seq<char>, Map<Seq<char>, Seq<char>>)> {
    v.map_values(|e: HtmlElement| e.view())
}

impl HtmlElement {
    /// Its HTML and its attributes.
    pub closed spec fn view(self) -> (Seq<char>, Map<Seq<char>, Seq<char>>) {
        (self.html@, self.attrs.texts())
    }

    /// An element made of markup alone, with no attributes of its own.
    pub fn from_markup(html: String) -> (e: HtmlElement)
        ensures
            e.view() == (html@, Map::<Seq<char>, Seq<char>>::empty()),
    {
        let attrs: StrMap<String> = StrMap::new();
        assert(attrs.texts() =~= Map::<Seq<char>, Seq<char>>::empty());
        HtmlElement { html, attrs }
    }

    /// Its HTML.
    pub fn html(&self) -> (r: &str)
        ensures
            r@ == self.view().0,
    {
        self.html.as_str()
    }

    /// Its text: that of the first element of its HTML, or the HTML itself
    /// when there is none.
    pub fn text(&self) -> (r: String)
        ensures
            r@ == match fragment_first_text(self.view().0) {
                Some(t) => t,
                None => self.view().0,
            },
    {
        match first_element_text(self.html.as_str()) {
            Some(t) => t,
            None => self.html.clone(),
        }
    }

    /// The value of attribute `name`: its own, else the first found on an
    /// element of its HTML.
    pub fn attr(&self, name: &str) -> (r: Option<String>)
        ensures
            opt_text(r) == if self.view().1.contains_key(name@) {
                Some(self.view().1[name@])
            } else {
                fragment_first_attr(self.view().0, name@)
            },
    {
        match self.attrs.get(name) {
            Some(v) => Some(v.clone()),
            None => first_element_attr(self.html.as_str(), name),
        }
    }

    /// The elements of its HTML that `selector` matches.
    pub fn select(&self, selector: &str) -> (r: SilkwormResult<Vec<HtmlElement>>)
        ensures
            match r {
                Ok(v) => css_selector_error(selector@) is None && element_views(v@) == elements_of(
                    fragment_matches(self.view().0, selector@, Seq::empty()),
                ),
                Err(e) => is_selector_error(e, selector@),
            },
    {
        select_in(self.html.as_str(), selector, false)
    }

    /// The first element of its HTML that `selector` matches.
    pub fn select_first(&self, selector: &str) -> (r: SilkwormResult<Option<HtmlElement>>)
        ensures
            match r {
                Ok(o) => css_selector_error(selector@) is None && first_view(o) == first_of(
                    elements_of(fragment_matches(self.view().0, selector@, Seq::empty())),
                ),
                Err(e) => is_selector_error(e, selector@),
            },
    {
        first_in(select_in(self.html.as_str(), selector, false))
    }

    /// `select`, with no element for a selector that does not parse.
    pub fn select_or_empty(&self, selector: &str) -> (r: Vec<HtmlElement>)
        ensures
            css_selector_error(selector@) is Some ==> r@.len() == 0,
            css_selector_error(selector@) is None ==> element_views(r@) == elements_of(
                fragment_matches(self.view().0, selector@, Seq::empty()),
            ),
    {
        match self.select(selector) {
            Ok(v) => v,
            Err(_) => Vec::new(),
        }
    }

    /// The elements of its HTML that the compiled `selector` matches.
    pub fn select_with(&self, selector: &CssSelector) -> (r: Vec<HtmlElement>)
        ensures
            element_views(r@) == elements_of(fragment_matches(self.view().0, selector.spec_text(), Seq::empty())),
    {
        let scraped = scrape_fragment(self.html.as_str(), selector, "");
        proof { reveal_strlit(""); }
        assert(""@ =~= Seq::<char>::empty());
        elements_from(scraped)
    }

    /// The first element of its HTML that the compiled `selector` matches.
    pub fn select_first_with(&self, selector: &CssSelector) -> (r: Option<HtmlElement>)
        ensures
            first_view(r) == first_of(elements_of(fragment_matches(self.view().0, selector.spec_text(), Seq::empty()))),
    {
        match first_in(Ok(self.select_with(selector))) {
            Ok(f) => f,
            Err(_) => None,
        }
    }

    /// `select_first`, with none for a selector that does not parse.
    pub fn select_first_or_none(&self, selector: &str) -> (r: Option<HtmlElement>)
        ensures
            css_selector_error(selector@) is Some ==> r is None,
            css_selector_error(selector@) is None ==> first_view(r) == first_of(
                elements_of(fragment_matches(self.view().0, selector@, Seq::empty())),
            ),
    {
        match self.select_first(selector) {
            Ok(o) => o,
            Err(_) => None,
        }
    }

    /// The text of the first element `selector` matches; empty when none does
    /// or the selector does not parse.
    pub fn text_from(&self, selector: &str) -> (r: String)
        ensures
            r@ == match first_of(checked_matches(fragment_matches(self.view().0, selector@, Seq::empty()), selector@)) {
                Some(e) => element_text(e.0),
                None => Seq::empty(),
            },
    {
        match self.select_first_or_none(selector) {
            Some(e) => e.text(),
            None => String::new(),
        }
    }

    /// The value of attribute `name` of the first element `selector` matches.
    pub fn attr_from(&self, selector: &str, name: &str) -> (r: Option<String>)
        ensures
            opt_text(r) == match first_of(checked_matches(fragment_matches(self.view().0, selector@, Seq::empty()), selector@)) {
                Some(e) => element_attr(e, name@),
                None => None,
            },
    {
        match self.select_first_or_none(selector) {
            Some(e) => e.attr(name),
            None => None,
        }
    }

    /// The texts of the elements `selector` matches; none when it does not parse.
    pub fn select_texts(&self, selector: &str) -> (r: Vec<String>)
        ensures
            css_selector_error(selector@) is Some ==> r@.len() == 0,
            css_selector_error(selector@) is None ==> texts_of(r@) == texts_of_matches(
                fragment_matches(self.view().0, selector@, Seq::empty()),
            ),
    {
        texts_in(self.html.as_str(), selector, false)
    }

    /// The values of attribute `name` on the elements `selector` matches that
    /// have it; none when the selector does not parse.
    pub fn select_attrs(&self, selector: &str, name: &str) -> (r: Vec<String>)
        ensures
            css_selector_error(selector@) is Some ==> r@.len() == 0,
            css_selector_error(selector@) is None ==> texts_of(r@) == attrs_of_matches(
                fragment_matches(self.view().0, selector@, name@),
            ),
    {
        attrs_in(self.html.as_str(), selector, name, false)
    }
}

/// The matches, or none for a selector that does not parse.
pub open spec fn checked_matches(ms: Seq<MatchView>, selector: Seq<char>) -> Seq<(Seq<char>, Map<Seq<char>, Seq<char>>)> {
    if css_selector_error(selector) is Some {
        Seq::empty()
    } else {
        elements_of(ms)
    }
}

/// The first of a sequence, if any.
pub open spec fn first_of<T>(s: Seq<T>) -> Option<T> {
    if s.len() == 0 {
        None
    } else {
        Some(s[0])
    }
}

/// The view of an optional element.
pub open spec fn first_view(o: Option<HtmlElement>) -> Option<(Seq<char>, Map<Seq<char>, Seq<char>>)> {
    match o {
        Some(e) => Some(e.view()),
        None => None,
    }
}

/// The text of an element with HTML `html` (see `HtmlElement::text`).
pub open spec fn element_text(html: Seq<char>) -> Seq<char> {
    match fragment_first_text(html) {
        Some(t) => t,
        None => html,
    }
}

/// The value of attribute `name` of an element (see `HtmlElement::attr`).
pub open spec fn element_attr(e: (Seq<char>, Map<Seq<char>, Seq<char>>), name: Seq<char>) -> Option<Seq<char>> {
    if e.1.contains_key(name) {
        Some(e.1[name])
    } else {
        fragment_first_attr(e.0, name)
    }
}

/// The element a scraped match stands for.
fn element_from(e: ScrapedElement) -> (r: HtmlElement)
    ensures
        r.view() == element_of(scraped_view(e)),
{
    let mut attrs: StrMap<String> = StrMap::new();
    let ghost pairs = pair_views(e.attrs@);
    assert(attrs.texts() =~= Map::<Seq<char>, Seq<char>>::empty());
    let mut i: usize = 0;
    while i < e.attrs.len()
        invariant
            i <= e.attrs@.len(),
            pairs == pair_views(e.attrs@),
            attrs.texts() == insert_all(Map::<Seq<char>, Seq<char>>::empty(), pairs.take(i as int)),
        decreases e.attrs.len() - i,
    {
        let (k, v) = &e.attrs[i];
        attrs.insert_str(k.as_str(), v.as_str());
        assert(pairs.take(i + 1).drop_last() =~= pairs.take(i as int));
        i = i + 1;
    }
    assert(pairs.take(e.attrs@.len() as int) =~= pairs);
    HtmlElement { html: e.html, attrs }
}

/// The elements scraped matches stand for, in order.
fn elements_from(v: Vec<ScrapedElement>) -> (r: Vec<HtmlElement>)
    ensures
        element_views(r@) == elements_of(scraped_views(v@)),
{
    let ghost all = scraped_views(v@);
    let mut rest = v;
    let mut reversed: Vec<HtmlElement> = Vec::new();
    while rest.len() > 0
        invariant
            rest@.len() + reversed@.len() == all.len(),
            scraped_views(rest@) == all.take(rest@.len() as int),
            forall|k: int| 0 <= k < reversed@.len() ==> #[trigger] reversed@[k].view() == element_of(all[all.len() - 1 - k]),
        decreases rest@.len(),
    {
        let ghost before = rest@;
        let e = rest.pop().unwrap();
        assert(scraped_views(rest@) =~= all.take(rest@.len() as int)) by {
            assert(rest@ =~= before.drop_last());
        }
        assert(all[rest@.len() as int] == scraped_view(e)) by {
            assert(scraped_views(before)[rest@.len() as int] == scraped_view(e));
        }
        reversed.push(element_from(e));
    }
    let mut out: Vec<HtmlElement> = Vec::new();
    while reversed.len() > 0
        invariant
            out@.len() + reversed@.len() == all.len(),
            forall|k: int| 0 <= k < reversed@.len() ==> #[trigger] reversed@[k].view() == element_of(all[all.len() - 1 - k]),
            forall|k: int| 0 <= k < out@.len() ==> #[trigger] out@[k].view() == element_of(all[k]),
        decreases reversed@.len(),
    {
        let e = reversed.pop().unwrap();
        out.push(e);
    }
    assert(element_views(out@) =~= elements_of(all));
    out
}

/// The matches of `selector` in `source` (a document, or a fragment), as elements.
fn select_in(source: &str, selector: &str, document: bool) -> (r: SilkwormResult<Vec<HtmlElement>>)
    ensures
        match r {
            Ok(v) => css_selector_error(selector@) is None && element_views(v@) == elements_of(
                if document {
                    document_matches(source@, selector@, Seq::empty())
                } else {
                    fragment_matches(source@, selector@, Seq::empty())
                },
            ),
            Err(e) => is_selector_error(e, selector@),
        },
{
    match CssSelector::new(selector) {
        Err(e) => Err(e),
        Ok(sel) => {
            let scraped = if document {
                scrape_document(source, &sel, "")
            } else {
                scrape_fragment(source, &sel, "")
            };
            proof { reveal_strlit(""); }
            assert(""@ =~= Seq::<char>::empty());
            Ok(elements_from(scraped))
        },
    }
}

/// The first of a selection.
fn first_in(r: SilkwormResult<Vec<HtmlElement>>) -> (o: SilkwormResult<Option<HtmlElement>>)
    ensures
        match r {
            Ok(v) => o matches Ok(f) && first_view(f) == first_of(element_views(v@)),
            Err(e) => o == Err::<Option<HtmlElement>, SilkwormError>(e),
        },
{
    match r {
        Ok(mut v) => {
            if v.len() == 0 {
                Ok(None)
            } else {
                let ghost views = element_views(v@);
                let e = v.swap_remove(0);
                Ok(Some(e))
            }
        },
        Err(e) => Err(e),
    }
}

/// The texts of the matches; none for a selector that does not parse.
fn texts_in(source: &str, selector: &str, document: bool) -> (r: Vec<String>)
    ensures
        css_selector_error(selector@) is Some ==> r@.len() == 0,
        css_selector_error(selector@) is None ==> texts_of(r@) == texts_of_matches(
            if document {
                document_matches(source@, selector@, Seq::empty())
            } else {
                fragment_matches(source@, selector@, Seq::empty())
            },
        ),
{
    let sel = match CssSelector::new(selector) {
        Ok(s) => s,
        Err(_) => {
            return Vec::new();
        },
    };
    let scraped = if document {
        scrape_document(source, &sel, "")
    } else {
        scrape_fragment(source, &sel, "")
    };
    proof { reveal_strlit(""); }
    assert(""@ =~= Seq::<char>::empty());
    let ghost all = scraped_views(scraped@);
    let mut out: Vec<String> = Vec::new();
    let mut i: usize = 0;
    while i < scraped.len()
        invariant
            i <= scraped@.len(),
            all == scraped_views(scraped@),
            texts_of(out@) == texts_of_matches(all).take(i as int),
        decreases scraped.len() - i,
    {
        let ghost before = out@;
        out.push(scraped[i].text.clone());
        assert(texts_of(out@) =~= texts_of(before).push(scraped@[i as int].text@));
        assert(texts_of_matches(all).take(i + 1) =~= texts_of_matches(all).take(i as int).push(all[i as int].2));
        i = i + 1;
    }
    assert(texts_of_matches(all).take(scraped@.len() as int) =~= texts_of_matches(all));
    out
}

/// The values of attribute `name` over the matches that have it; none for a
/// selector that does not parse.
fn attrs_in(source: &str, selector: &str, name: &str, document: bool) -> (r: Vec<String>)
    ensures
        css_selector_error(selector@) is Some ==> r@.len() == 0,
        css_selector_error(selector@) is None ==> texts_of(r@) == attrs_of_matches(
            if document {
                document_matches(source@, selector@, name@)
            } else {
                fragment_matches(source@, selector@, name@)
            },
        ),
{
    let sel = match CssSelector::new(selector) {
        Ok(s) => s,
        Err(_) => {
            return Vec::new();
        },
    };
    let scraped = if document {
        scrape_document(source, &sel, name)
    } else {
        scrape_fragment(source, &sel, name)
    };
    let ghost all = scraped_views(scraped@);
    let mut out: Vec<String> = Vec::new();
    let mut i: usize = 0;
    while i < scraped.len()
        invariant
            i <= scraped@.len(),
            all == scraped_views(scraped@),
            texts_of(out@) == attrs_of_matches(all.take(i as int)),
        decreases scraped.len() - i,
    {
        assert(all.take(i + 1).drop_last() =~= all.take(i as int));
        assert(all[i as int] == scraped_view(scraped@[i as int]));
        match &scraped[i].attr {
            Some(v) => {
                let ghost before = out@;
                out.push(v.clone());
                assert(texts_of(out@) =~= texts_of(before).push(v@));
            },
            None => {},
        }
        i = i + 1;
    }
    assert(all.take(scraped@.len() as int) =~= all);
    out
}

/// The text that the selectors of a page search: the first
/// `doc_max_size_bytes` bytes of its body, decoded; nothing when the limit is 0.
pub open spec fn html_source_of(body: Seq<u8>, headers: StrMap<String>, limit: nat) -> Seq<char> {
    if limit == 0 {
        Seq::empty()
    } else {
        decoded_body(body.take(if body.len() < limit { body.len() as int } else { limit as int }), headers).0
    }
}

/// A response read as an HTML page.
pub struct HtmlResponse<C> {
    response: Response<C>,
    doc_max_size_bytes: usize,
    source: String,
}

impl<C> HtmlResponse<C> {
    /// The response.
    pub closed spec fn spec_response(self) -> Response<C> {
        self.response
    }

    /// The limit on the bytes of the body that are read as the page.
    pub closed spec fn spec_doc_max(self) -> nat {
        self.doc_max_size_bytes as nat
    }

    /// The text of the page.
    pub closed spec fn spec_source(self) -> Seq<char> {
        self.source@
    }

    #[verifier::type_invariant]
    closed spec fn source_matches(self) -> bool {
        self.source@ == html_source_of(self.response.body@, self.response.headers, self.doc_max_size_bytes as nat)
    }

    /// The page of `response`, reading at most `doc_max_size_bytes` of its body.
    pub fn from_response(response: Response<C>, doc_max_size_bytes: usize) -> (h: Self)
        ensures
            h.spec_response() == response,
            h.spec_doc_max() == doc_max_size_bytes,
            h.spec_source() == html_source_of(response.body@, response.headers, doc_max_size_bytes as nat),
    {
        let source = if doc_max_size_bytes == 0 {
            String::new()
        } else {
            let head = prefix_of(&response.body, doc_max_size_bytes);
            decode_body(&head, &response.headers).0
        };
        HtmlResponse { response, doc_max_size_bytes, source }
    }

    /// The response.
    pub fn response(&self) -> (r: &Response<C>)
        ensures
            *r == self.spec_response(),
    {
        &self.response
    }

    /// The response, giving up the page.
    pub fn into_response(self) -> (r: Response<C>)
        ensures
            r == self.spec_response(),
    {
        self.response
    }

    /// The limit on the bytes of the body that are read as the page.
    pub fn doc_max_size_bytes(&self) -> (n: usize)
        ensures
            n == self.spec_doc_max(),
    {
        self.doc_max_size_bytes
    }

    /// The text of the page.
    pub fn html_source(&self) -> (r: &str)
        ensures
            r@ == self.spec_source(),
            r@ == html_source_of(self.spec_response().body@, self.spec_response().headers, self.spec_doc_max()),
    {
        proof { use_type_invariant(self); }
        self.source.as_str()
    }

    /// The elements of the page that `selector` matches.
    pub fn select(&self, selector: &str) -> (r: SilkwormResult<Vec<HtmlElement>>)
        ensures
            match r {
                Ok(v) => css_selector_error(selector@) is None && element_views(v@) == elements_of(
                    document_matches(self.spec_source(), selector@, Seq::empty()),
                ),
                Err(e) => is_selector_error(e, selector@),
            },
    {
        select_in(self.source.as_str(), selector, true)
    }

    /// The first element of the page that `selector` matches.
    pub fn select_first(&self, selector: &str) -> (r: SilkwormResult<Option<HtmlElement>>)
        ensures
            match r {
                Ok(o) => css_selector_error(selector@) is None && first_view(o) == first_of(
                    elements_of(document_matches(self.spec_source(), selector@, Seq::empty())),
                ),
                Err(e) => is_selector_error(e, selector@),
            },
    {
        first_in(select_in(self.source.as_str(), selector, true))
    }

    /// Same as `select`.
    pub fn css(&self, selector: &str) -> (r: SilkwormResult<Vec<HtmlElement>>)
        ensures
            match r {
                Ok(v) => css_selector_error(selector@) is None && element_views(v@) == elements_of(
                    document_matches(self.spec_source(), selector@, Seq::empty()),
                ),
                Err(e) => is_selector_error(e, selector@),
            },
    {
        self.select(selector)
    }

    /// Same as `select_first`.
    pub fn css_first(&self, selector: &str) -> (r: SilkwormResult<Option<HtmlElement>>)
        ensures
            match r {
                Ok(o) => css_selector_error(selector@) is None && first_view(o) == first_of(
                    elements_of(document_matches(self.spec_source(), selector@, Seq::empty())),
                ),
                Err(e) => is_selector_error(e, selector@),
            },
    {
        self.select_first(selector)
    }

    /// `select`, with no element for a selector that does not parse.
    pub fn select_or_empty(&self, selector: &str) -> (r: Vec<HtmlElement>)
        ensures
            element_views(r@) == checked_matches(document_matches(self.spec_source(), selector@, Seq::empty()), selector@),
    {
        match self.select(selector) {
            Ok(v) => v,
            Err(_) => {
                let v: Vec<HtmlElement> = Vec::new();
                assert(element_views(v@) =~= Seq::<(Seq<char>, Map<Seq<char>, Seq<char>>)>::empty());
                v
            },
        }
    }

    /// The elements of the page that the compiled `selector` matches.
    pub fn select_with(&self, selector: &CssSelector) -> (r: Vec<HtmlElement>)
        ensures
            element_views(r@) == elements_of(document_matches(self.spec_source(), selector.spec_text(), Seq::empty())),
    {
        let scraped = scrape_document(self.source.as_str(), selector, "");
        proof { reveal_strlit(""); }
        assert(""@ =~= Seq::<char>::empty());
        elements_from(scraped)
    }

    /// The first element of the page that the compiled `selector` matches.
    pub fn select_first_with(&self, selector: &CssSelector) -> (r: Option<HtmlElement>)
        ensures
            first_view(r) == first_of(elements_of(document_matches(self.spec_source(), selector.spec_text(), Seq::empty()))),
    {
        match first_in(Ok(self.select_with(selector))) {
            Ok(f) => f,
            Err(_) => None,
        }
    }

    /// `select_first`, with none for a selector that does not parse.
    pub fn select_first_or_none(&self, selector: &str) -> (r: Option<HtmlElement>)
        ensures
            first_view(r) == first_of(checked_matches(document_matches(self.spec_source(), selector@, Seq::empty()), selector@)),
    {
        match self.select_first(selector) {
            Ok(o) => o,
            Err(_) => None,
        }
    }

    /// Same as `select_or_empty`.
    pub fn css_or_empty(&self, selector: &str) -> (r: Vec<HtmlElement>)
        ensures
            element_views(r@) == checked_matches(document_matches(self.spec_source(), selector@, Seq::empty()), selector@),
    {
        self.select_or_empty(selector)
    }

    /// Same as `select_first_or_none`.
    pub fn css_first_or_none(&self, selector: &str) -> (r: Option<HtmlElement>)
        ensures
            first_view(r) == first_of(checked_matches(document_matches(self.spec_source(), selector@, Seq::empty()), selector@)),
    {
        self.select_first_or_none(selector)
    }

    /// The texts of the elements `selector` matches; none when it does not parse.
    pub fn select_texts(&self, selector: &str) -> (r: Vec<String>)
        ensures
            css_selector_error(selector@) is Some ==> r@.len() == 0,
            css_selector_error(selector@) is None ==> texts_of(r@) == texts_of_matches(
                document_matches(self.spec_source(), selector@, Seq::empty()),
            ),
    {
        texts_in(self.source.as_str(), selector, true)
    }

    /// The values of attribute `name` on the elements `selector` matches that
    /// have it; none when the selector does not parse.
    pub fn select_attrs(&self, selector: &str, name: &str) -> (r: Vec<String>)
        ensures
            css_selector_error(selector@) is Some ==> r@.len() == 0,
            css_selector_error(selector@) is None ==> texts_of(r@) == attrs_of_matches(
                document_matches(self.spec_source(), selector@, name@),
            ),
    {
        attrs_in(self.source.as_str(), selector, name, true)
    }

    /// The text of the first element `selector` matches; empty when none does
    /// or the selector does not parse.
    pub fn text_from(&self, selector: &str) -> (r: String)
        ensures
            r@ == match first_of(checked_matches(document_matches(self.spec_source(), selector@, Seq::empty()), selector@)) {
                Some(e) => element_text(e.0),
                None => Seq::empty(),
            },
    {
        match self.select_first_or_none(selector) {
            Some(e) => e.text(),
            None => String::new(),
        }
    }

    /// The value of attribute `name` of the first element `selector` matches.
    pub fn attr_from(&self, selector: &str, name: &str) -> (r: Option<String>)
        ensures
            opt_text(r) == match first_of(checked_matches(document_matches(self.spec_source(), selector@, Seq::empty()), selector@)) {
                Some(e) => element_attr(e, name@),
                None => None,
            },
    {
        match self.select_first_or_none(selector) {
            Some(e) => e.attr(name),
            None => None,
        }
    }
}

impl<C: Clone> HtmlResponse<C> {
    /// A request for each non-empty value of attribute `name` on the elements
    /// `selector` matches, resolved against the page URL.
    pub fn follow_css(&self, selector: &str, name: &str) -> (r: Vec<Request<C>>)
        ensures
            ({
                let hrefs = if css_selector_error(selector@) is Some {
                    Seq::empty()
                } else {
                    non_empty(attrs_of_matches(document_matches(self.spec_source(), selector@, name@)))
                };
                &&& r@.len() == hrefs.len()
                &&& forall|k: int| 0 <= k < r@.len() ==> {
                    &&& fresh_get(#[trigger] r@[k], joined_url(self.spec_response().url@, hrefs[k]))
                    &&& clone_of_callback(r@[k].callback, self.spec_response().request.callback)
                }
            }),
    {
        let values = self.select_attrs(selector, name);
        proof {
            if css_selector_error(selector@) is Some {
                assert(texts_of(values@) =~= Seq::<Seq<char>>::empty());
                assert(non_empty(texts_of(values@)) =~= Seq::<Seq<char>>::empty());
            }
        }
        self.response.follow_texts(&values)
    }

    /// `follow_css`, each request wrapped as a spider output.
    pub fn follow_css_outputs(&self, selector: &str, name: &str) -> (r: Vec<SpiderOutput<C>>)
        ensures
            ({
                let hrefs = if css_selector_error(selector@) is Some {
                    Seq::empty()
                } else {
                    non_empty(attrs_of_matches(document_matches(self.spec_source(), selector@, name@)))
                };
                &&& r@.len() == hrefs.len()
                &&& forall|k: int| 0 <= k < r@.len() ==> (#[trigger] r@[k] matches SpiderOutput::Request(q) && fresh_get(
                    *q,
                    joined_url(self.spec_response().url@, hrefs[k]),
                ) && clone_of_callback(q.callback, self.spec_response().request.callback))
            }),
    {
        as_outputs(self.follow_css(selector, name))
    }
}

/// The first `n` bytes of `v` (all of them when shorter).
fn prefix_of(v: &Vec<u8>, n: usize) -> (r: Vec<u8>)
    ensures
        r@ == v@.take(if v@.len() < n { v@.len() as int } else { n as int }),
{
    let end = if v.len() < n { v.len() } else { n };
    let mut out: Vec<u8> = Vec::new();
    let mut i: usize = 0;
    while i < end
        invariant
            end <= v@.len(),
            i <= end,
            out@ == v@.take(i as int),
        decreases end - i,
    {
        out.push(v[i]);
        assert(v@.take(i + 1) =~= v@.take(i as int).push(v@[i as int]));
        i = i + 1;
    }
    out
}

impl<C> Response<C> {
    /// This response read as an HTML page of at most `doc_max_size_bytes` bytes.
    pub fn into_html(self, doc_max_size_bytes: usize) -> (h: HtmlResponse<C>)
        ensures
            h.spec_response() == self,
            h.spec_doc_max() == doc_max_size_bytes,
            h.spec_source() == html_source_of(self.body@, self.headers, doc_max_size_bytes as nat),
    {
        HtmlResponse::from_response(self, doc_max_size_bytes)
    }
}

impl<C: Clone> Clone for HtmlResponse<C> {
    /// A page of a copy of the response, read again with the same limit.
    fn clone(&self) -> (r: Self)
        ensures
            r.spec_doc_max() == self.spec_doc_max(),
            r.spec_response().url@ == self.spec_response().url@,
            r.spec_response().status == self.spec_response().status,
            r.spec_response().body@ == self.spec_response().body@,
            r.spec_response().headers.texts() == self.spec_response().headers.texts(),
            r.spec_response().headers.key_seq() == self.spec_response().headers.key_seq(),
            same_request(self.spec_response().request, r.spec_response().request),
            clone_of_callback(r.spec_response().request.callback, self.spec_response().request.callback),
            r.spec_source() == html_source_of(
                r.spec_response().body@,
                r.spec_response().headers,
                r.spec_doc_max(),
            ),
    {
        HtmlResponse::from_response(self.response.clone(), self.doc_max_size_bytes)
    }
}

/// How one character of text is written in markup: `&`, `<` and `>` as
/// entities, every other character as is.
pub open spec fn text_escaped_char(c: char) -> Seq<char> {
    if c == '&' {
        seq!['&', 'a', 'm', 'p', ';']
    } else if c == '<' {
        seq!['&', 'l', 't', ';']
    } else if c == '>' {
        seq!['&', 'g', 't', ';']
    } else {
        seq![c]
    }
}

/// How one character of an attribute value is written in markup: as in text,
/// and `"` as an entity too.
pub open spec fn attr_escaped_char(c: char) -> Seq<char> {
    if c == '"' {
        seq!['&', 'q', 'u', 'o', 't', ';']
    } else {
        text_escaped_char(c)
    }
}

/// `s` written as markup text.
pub open spec fn text_escaped(s: Seq<char>) -> Seq<char>
    decreases s.len(),
{
    if s.len() == 0 {
        Seq::empty()
    } else {
        text_escaped(s.drop_last()) + text_escaped_char(s.last())
    }
}

/// `s` written as a markup attribute value.
pub open spec fn attr_escaped(s: Seq<char>) -> Seq<char>
    decreases s.len(),
{
    if s.len() == 0 {
        Seq::empty()
    } else {
        attr_escaped(s.drop_last()) + attr_escaped_char(s.last())
    }
}

/// The characters that markup text stands for: the entities `&amp;`,
/// `&lt;`, `&gt;` and `&quot;` for one character each, any other character
/// for itself.
pub open spec fn markup_unescaped(t: Seq<char>) -> Seq<char>
    decreases t.len(),
{
    if t.len() == 0 {
        Seq::empty()
    } else if t.len() >= 5 && t.take(5) == seq!['&', 'a', 'm', 'p', ';'] {
        seq!['&'] + markup_unescaped(t.skip(5))
    } else if t.len() >= 4 && t.take(4) == seq!['&', 'l', 't', ';'] {
        seq!['<'] + markup_unescaped(t.skip(4))
    } else if t.len() >= 4 && t.take(4) == seq!['&', 'g', 't', ';'] {
        seq!['>'] + markup_unescaped(t.skip(4))
    } else if t.len() >= 6 && t.take(6) == seq!['&', 'q', 'u', 'o', 't', ';'] {
        seq!['"'] + markup_unescaped(t.skip(6))
    } else {
        seq![t[0]] + markup_unescaped(t.skip(1))
    }
}

/// Escaping two texts one after the other is escaping their concatenation.
proof fn lemma_markup_escaped_concat(a: Seq<char>, b: Seq<char>)
    ensures
        text_escaped(a + b) == text_escaped(a) + text_escaped(b),
        attr_escaped(a + b) == attr_escaped(a) + attr_escaped(b),
    decreases b.len(),
{
    if b.len() == 0 {
        assert(a + b =~= a);
    } else {
        lemma_markup_escaped_concat(a, b.drop_last());
        assert((a + b).drop_last() =~= a + b.drop_last());
        assert((a + b).last() == b.last());
    }
}

/// Reading one escaped character gives it back.
proof fn lemma_markup_unescape_char(c: char, t: Seq<char>, quote: bool)
    ensures
        markup_unescaped((if quote { attr_escaped_char(c) } else { text_escaped_char(c) }) + t)
            == seq![c] + markup_unescaped(t),
{
    let e = if quote { attr_escaped_char(c) } else { text_escaped_char(c) };
    let u = e + t;
    assert(u.skip(e.len() as int) =~= t);
    assert(u.take(e.len() as int) =~= e);
    if e.len() == 1 {
        assert(u[0] == c);
        assert(c != '&');
        assert(u.len() >= 5 ==> u.take(5)[0] == c);
        assert(u.len() >= 4 ==> u.take(4)[0] == c);
        assert(u.len() >= 6 ==> u.take(6)[0] == c);
    } else if c == '<' || c == '>' {
        assert(u.len() >= 5 ==> u.take(5)[1] != 'a');
    } else if c == '"' {
        assert(u.take(5)[1] != 'a');
        assert(u.take(4)[1] != 'l' && u.take(4)[1] != 'g');
    }
}

/// Escaped markup text and attribute values read back, entity by entity,
/// as the original text.
pub proof fn lemma_markup_escaping_reads_back(s: Seq<char>)
    ensures
        markup_unescaped(text_escaped(s)) == s,
        markup_unescaped(attr_escaped(s)) == s,
    decreases s.len(),
{
    if s.len() > 0 {
        let r = s.drop_first();
        let one = seq![s[0]];
        assert(s =~= one + r);
        lemma_markup_escaped_concat(one, r);
        assert(one.drop_last() =~= Seq::<char>::empty());
        assert(one.last() == s[0]);
        assert(text_escaped(one.drop_last()) == Seq::<char>::empty());
        assert(attr_escaped(one.drop_last()) == Seq::<char>::empty());
        assert(text_escaped(one) =~= text_escaped_char(s[0]));
        assert(attr_escaped(one) =~= attr_escaped_char(s[0]));
        lemma_markup_unescape_char(s[0], text_escaped(r), false);
        lemma_markup_unescape_char(s[0], attr_escaped(r), true);
        lemma_markup_escaping_reads_back(r);
    }
}

/// Escaped text holds no `<` or `>`, and an escaped attribute value no `"`
/// either: neither can open or close a tag or end the attribute.
pub proof fn lemma_markup_escaping_has_no_markup(s: Seq<char>)
    ensures
        forall|i: int| 0 <= i < text_escaped(s).len() ==> #[trigger] text_escaped(s)[i] != '<' && text_escaped(s)[i] != '>',
        forall|i: int| 0 <= i < attr_escaped(s).len()
            ==> #[trigger] attr_escaped(s)[i] != '<' && attr_escaped(s)[i] != '>' && attr_escaped(s)[i] != '"',
    decreases s.len(),
{
    if s.len() > 0 {
        lemma_markup_escaping_has_no_markup(s.drop_last());
        let p = text_escaped(s.drop_last());
        let q = text_escaped_char(s.last());
        let pa = attr_escaped(s.drop_last());
        let qa = attr_escaped_char(s.last());
        assert forall|i: int| 0 <= i < text_escaped(s).len() implies #[trigger] text_escaped(s)[i] != '<' && text_escaped(s)[i] != '>' by {
            if i < p.len() {
                assert(text_escaped(s)[i] == p[i]);
            } else {
                assert(text_escaped(s)[i] == q[i - p.len()]);
            }
        }
        assert forall|i: int| 0 <= i < attr_escaped(s).len()
            implies #[trigger] attr_escaped(s)[i] != '<' && attr_escaped(s)[i] != '>' && attr_escaped(s)[i] != '"' by {
            if i < pa.len() {
                assert(attr_escaped(s)[i] == pa[i]);
            } else {
                assert(attr_escaped(s)[i] == qa[i - pa.len()]);
            }
        }
    }
}

/// Appends the entity for `c` (one of `&`, `<`, `>`, `"`) or `c` itself.
fn push_escaped(out: &mut String, c: char, quote: bool)
    ensures
        quote ==> final(out)@ == old(out)@ + attr_escaped_char(c),
        !quote ==> final(out)@ == old(out)@ + text_escaped_char(c),
{
    let ghost start = out@;
    if c == '&' {
        out.append("&amp;");
        proof { reveal_strlit("&amp;"); }
    } else if c == '<' {
        out.append("&lt;");
        proof { reveal_strlit("&lt;"); }
    } else if c == '>' {
        out.append("&gt;");
        proof { reveal_strlit("&gt;"); }
    } else if c == '"' && quote {
        out.append("&quot;");
        proof { reveal_strlit("&quot;"); }
    } else {
        crate::text::push_char(out, c);
    }
    assert(quote ==> out@ =~= start + attr_escaped_char(c));
    assert(!quote ==> out@ =~= start + text_escaped_char(c));
}

/// `input` written as markup text.
pub fn escape_text(input: &str) -> (r: String)
    ensures
        r@ == text_escaped(input@),
{
    let chars = crate::text::chars_of(input);
    let mut out = String::new();
    let mut i: usize = 0;
    while i < chars.len()
        invariant
            chars@ == input@,
            i <= chars@.len(),
            out@ == text_escaped(input@.take(i as int)),
        decreases chars.len() - i,
    {
        push_escaped(&mut out, chars[i], false);
        assert(input@.take(i + 1).drop_last() =~= input@.take(i as int));
        i = i + 1;
    }
    assert(input@.take(chars@.len() as int) =~= input@);
    out
}

/// `input` written as a markup attribute value.
pub fn escape_attr(input: &str) -> (r: String)
    ensures
        r@ == attr_escaped(input@),
{
    let chars = crate::text::chars_of(input);
    let mut out = String::new();
    let mut i: usize = 0;
    while i < chars.len()
        invariant
            chars@ == input@,
            i <= chars@.len(),
            out@ == attr_escaped(input@.take(i as int)),
        decreases chars.len() - i,
    {
        push_escaped(&mut out, chars[i], true);
        assert(input@.take(i + 1).drop_last() =~= input@.take(i as int));
        i = i + 1;
    }
    assert(input@.take(chars@.len() as int) =~= input@);
    out
}

} // verus!
