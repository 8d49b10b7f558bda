//! XPath queries on pages: each selected node is written back out as markup.
//!
//! `sxd_html` parses the page and `sxd_xpath` evaluates the expression; the
//! selected nodes come back as a plain tree, and how that tree is written as
//! markup is this library's rule.

use vstd::prelude::*;
use crate::errors::{SilkwormError, SilkwormResult};
use crate::html::{attr_escaped, element_views, escape_attr, escape_text, first_of, first_view, text_escaped, HtmlElement, HtmlResponse};
use crate::text::{concat, owned, push_char};
use sxd_xpath::nodeset::Node as N;

verus! {

broadcast use vstd::string::group_string_axioms;

/// A node of a parsed document (`sxd_xpath::nodeset::Node`), carried through unchanged.
#[verifier::external_type_specification]
#[verifier::external_body]
pub struct ExXmlNode<'d>(sxd_xpath::nodeset::Node<'d>);

/// A compiled XPath expression (`sxd_xpath::XPath`), carried through unchanged.
#[verifier::external_type_specification]
#[verifier::external_body]
pub struct ExXPath(sxd_xpath::XPath);

/// A selected node and what lies below it, as plain values.
pub enum XNode {
    /// The document root, with its children.
    Root(Vec<XNode>),
    /// An element: its name (prefix, if any, and local part), its attributes
    /// (prefix, local part, value) and its children.
    Element { prefix: Option<String>, local: String, attrs: Vec<(Option<String>, String, String)>, children: Vec<XNode> },
    /// An attribute, by its value.
    Attribute(String),
    /// A text node.
    Text(String),
    /// A comment.
    Comment(String),
    /// A processing instruction: its target and value.
    Instruction(String, Option<String>),
    /// A namespace node, by its URI.
    Namespace(String),
}

/// What evaluating an XPath expression on a page gives.
pub enum XPathOutcome {
    /// The expression does not parse: the parser's message.
    Invalid(String),
    /// The expression is empty.
    Empty,
    /// The evaluation failed: the evaluator's message.
    Failed(String),
    /// The selected nodes, in document order.
    Nodes(Vec<XNode>),
    /// A boolean result.
    Boolean(bool),
    /// A number result, as `f64`'s `Display` writes it.
    Number(String),
    /// A string result.
    Text(String),
}

/// What `sxd_xpath::Factory::build(selector)` and, when it gives an
/// expression, its `evaluate` on the root of `sxd_html::parse_html(source)`
/// give, the selected nodes converted to plain trees.
pub uninterp spec fn xpath_outcome(source: Seq<char>, selector: Seq<char>) -> XPathOutcome;

/// An element of a parsed document (`sxd_document::dom::Element`), carried through unchanged.
#[verifier::external_type_specification]
#[verifier::external_body]
pub struct ExXmlElement<'d>(sxd_document::dom::Element<'d>);

/// An attribute of a parsed document (`sxd_document::dom::Attribute`), carried through unchanged.
#[verifier::external_type_specification]
#[verifier::external_body]
pub struct ExXmlAttribute<'d>(sxd_document::dom::Attribute<'d>);

/// The value of an evaluation (`sxd_xpath::Value`), carried through unchanged.
#[verifier::external_type_specification]
#[verifier::external_body]
pub struct ExXPathValue<'d>(sxd_xpath::Value<'d>);

/// An evaluation error (`sxd_xpath::ExecutionError`), carried through unchanged.
#[verifier::external_type_specification]
#[verifier::external_body]
pub struct ExXPathError(sxd_xpath::ExecutionError);

/// Converts one selected node and everything below it to a plain tree, one
/// variant per kind of node, moving names, values and children across.
#[verifier::external_body]
fn tree_of(node: N<'_>) -> XNode {
    match node {
        N::Root(r) => XNode::Root(N::Root(r).children().into_iter().map(tree_of).collect()),
        N::Element(e) => element_tree(e),
        N::Attribute(a) => XNode::Attribute(a.value().to_owned()),
        N::Text(t) => XNode::Text(t.text().to_owned()),
        N::Comment(c) => XNode::Comment(c.text().to_owned()),
        N::ProcessingInstruction(p) => XNode::Instruction(p.target().to_owned(), p.value().map(str::to_owned)),
        N::Namespace(n) => XNode::Namespace(n.uri().to_owned()),
    }
}

/// Converts an element: its name, its attributes and its children.
#[verifier::external_body]
fn element_tree(e: sxd_document::dom::Element<'_>) -> XNode {
    XNode::Element {
        prefix: e.preferred_prefix().map(str::to_owned),
        local: e.name().local_part().to_owned(),
        attrs: e.attributes().into_iter().map(attribute_parts).collect(),
        children: N::Element(e).children().into_iter().map(tree_of).collect(),
    }
}

/// Converts an attribute: its prefix, local name and value.
#[verifier::external_body]
fn attribute_parts(a: sxd_document::dom::Attribute<'_>) -> (Option<String>, String, String) {
    (a.preferred_prefix().map(str::to_owned), a.name().local_part().to_owned(), a.value().to_owned())
}

/// Converts the result of an evaluation: the error's text, or the value.
#[verifier::external_body]
fn outcome_of(value: Result<sxd_xpath::Value<'_>, sxd_xpath::ExecutionError>) -> XPathOutcome {
    match value {
        Err(e) => XPathOutcome::Failed(e.to_string()),
        Ok(sxd_xpath::Value::Nodeset(ns)) => XPathOutcome::Nodes(ns.document_order().into_iter().map(tree_of).collect()),
        Ok(sxd_xpath::Value::Boolean(b)) => XPathOutcome::Boolean(b),
        Ok(sxd_xpath::Value::Number(n)) => XPathOutcome::Number(n.to_string()),
        Ok(sxd_xpath::Value::String(s)) => XPathOutcome::Text(s),
    }
}

/// Calls `sxd_xpath::Factory::build` on `selector` and, when it gives an
/// expression, `sxd_html::parse_html` on `source` and `XPath::evaluate` on its
/// root; the contract claims the converted result is the named `xpath_outcome`.
#[verifier::external_body]
fn evaluate_xpath(source: &str, selector: &str) -> (r: XPathOutcome)
    ensures
        r == xpath_outcome(source@, selector@),
{
    let xpath = match sxd_xpath::Factory::new().build(selector) {
        Err(e) => return XPathOutcome::Invalid(e.to_string()),
        Ok(None) => return XPathOutcome::Empty,
        Ok(Some(x)) => x,
    };
    let package = sxd_html::parse_html(source);
    outcome_of(xpath.evaluate(&sxd_xpath::Context::new(), package.as_document().root()))
}

/// A compiled XPath expression with the text it was compiled from.
pub struct CompiledXPath {
    text: String,
    compiled: sxd_xpath::XPath,
}

/// Calls `sxd_xpath::Factory::build` on `selector`; the contract claims it
/// gives an expression exactly when the named outcome, on any page, is
/// neither a parse error nor an empty expression, and otherwise the outcome
/// that says which.
#[verifier::external_body]
fn build_xpath(selector: &str) -> (r: Result<sxd_xpath::XPath, XPathOutcome>)
    ensures
        match r {
            Ok(_) => forall|s: Seq<char>| !(#[trigger] xpath_outcome(s, selector@) is Invalid) && !(xpath_outcome(s, selector@) is Empty),
            Err(o) => forall|s: Seq<char>| #[trigger] xpath_outcome(s, selector@) == o && (o is Invalid || o is Empty),
        },
{
    match sxd_xpath::Factory::new().build(selector) {
        Err(e) => Err(XPathOutcome::Invalid(e.to_string())),
        Ok(None) => Err(XPathOutcome::Empty),
        Ok(Some(x)) => Ok(x),
    }
}

/// Calls `sxd_html::parse_html` on `source` and `XPath::evaluate` with the
/// expression compiled from `xpath`'s text; the contract claims the converted
/// result is the named `xpath_outcome` of that text.
#[verifier::external_body]
fn evaluate_compiled(source: &str, xpath: &CompiledXPath) -> (r: XPathOutcome)
    ensures
        r == xpath_outcome(source@, xpath.spec_text()),
{
    let package = sxd_html::parse_html(source);
    outcome_of(xpath.compiled.evaluate(&sxd_xpath::Context::new(), package.as_document().root()))
}

impl CompiledXPath {
    /// The text the expression was compiled from.
    pub closed spec fn spec_text(self) -> Seq<char> {
        self.text@
    }

    /// Compiles `selector`; one that does not parse, or is empty, is a
    /// selector error as `HtmlResponse::xpath` reports it.
    pub fn new(selector: &str) -> (r: SilkwormResult<CompiledXPath>)
        ensures
            match r {
                Ok(x) => x.spec_text() == selector@ && forall|s: Seq<char>|
                    !(#[trigger] xpath_outcome(s, selector@) is Invalid) && !(xpath_outcome(s, selector@) is Empty),
                Err(e) => e matches SilkwormError::Selector(m) && forall|s: Seq<char>|
                    #[trigger] xpath_result(xpath_outcome(s, selector@)) == Err::<Seq<(Seq<char>, Map<Seq<char>, Seq<char>>)>, Seq<char>>(m@),
            },
    {
        match build_xpath(selector) {
            Ok(compiled) => Ok(CompiledXPath { text: owned(selector), compiled }),
            Err(o) => {
                assert(xpath_outcome(Seq::empty(), selector@) == o);
                let e = outcome_error(&o);
                proof {
                    assert forall|s: Seq<char>| #[trigger] xpath_result(xpath_outcome(s, selector@)) == xpath_result(o) by {
                        assert(xpath_outcome(s, selector@) == o);
                    }
                }
                Err(e)
            },
        }
    }

    /// The text the expression was compiled from.
    pub fn text(&self) -> (r: &str)
        ensures
            r@ == self.spec_text(),
    {
        self.text.as_str()
    }
}

/// An element or attribute name: the prefix and a colon, if any, then the local part.
pub open spec fn qualified(prefix: Option<String>, local: String) -> Seq<char> {
    match prefix {
        Some(p) => p@ + seq![':'] + local@,
        None => local@,
    }
}

/// Attributes as markup: each as ` name="value"`, the value escaped.
pub open spec fn attrs_markup(attrs: Seq<(Option<String>, String, String)>) -> Seq<char>
    decreases attrs.len(),
{
    if attrs.len() == 0 {
        Seq::empty()
    } else {
        let a = attrs.last();
        attrs_markup(attrs.drop_last()) + seq![' '] + qualified(a.0, a.1) + seq!['=', '"'] + attr_escaped(a.2@) + seq!['"']
    }
}

/// The markup of attributes is that of each attribute, one after another:
/// writing two lists of attributes is writing the first, then the second.
pub proof fn lemma_attrs_markup_concat(a: Seq<(Option<String>, String, String)>, b: Seq<(Option<String>, String, String)>)
    ensures
        attrs_markup(a + b) == attrs_markup(a) + attrs_markup(b),
    decreases b.len(),
{
    if b.len() == 0 {
        assert(a + b =~= a);
    } else {
        lemma_attrs_markup_concat(a, b.drop_last());
        assert((a + b).drop_last() =~= a + b.drop_last());
        assert((a + b).last() == b.last());
    }
}

/// One attribute is written as a space, its name, `="`, its value escaped
/// for an attribute, and `"`; with the law above, a start tag holds one such
/// piece for each of the element's attributes, in order.
pub proof fn lemma_attrs_markup_one(x: (Option<String>, String, String))
    ensures
        attrs_markup(seq![x]) == seq![' '] + qualified(x.0, x.1) + seq!['=', '"'] + attr_escaped(x.2@) + seq!['"'],
{
    let one = seq![x];
    assert(one.drop_last() =~= Seq::<(Option<String>, String, String)>::empty());
    assert(one.last() == x);
    assert(attrs_markup(one.drop_last()) == Seq::<char>::empty());
    assert(attrs_markup(one) == attrs_markup(one.drop_last()) + seq![' '] + qualified(x.0, x.1) + seq!['=', '"'] + attr_escaped(x.2@) + seq!['"']);
    assert(Seq::<char>::empty() + seq![' '] =~= seq![' ']);
}

/// A node written as markup: an element as its start tag, its children and
/// its end tag; text and attribute values escaped; a comment as `<!--...-->`;
/// a processing instruction as `<?target value?>` (`<?target?>` without a
/// value); a namespace as its URI; the root as its children.
pub open spec fn node_markup(n: XNode) -> Seq<char>
    decreases n, 0nat,
{
    match n {
        XNode::Root(cs) => children_markup(cs@),
        XNode::Element { prefix, local, attrs, children } => seq!['<'] + qualified(prefix, local) + attrs_markup(attrs@)
            + seq!['>'] + children_markup(children@) + seq!['<', '/'] + qualified(prefix, local) + seq!['>'],
        XNode::Attribute(v) => attr_escaped(v@),
        XNode::Text(t) => text_escaped(t@),
        XNode::Comment(t) => seq!['<', '!', '-', '-'] + t@ + seq!['-', '-', '>'],
        XNode::Instruction(t, v) => match v {
            Some(v) => if v@.len() > 0 {
                seq!['<', '?'] + t@ + seq![' '] + v@ + seq!['?', '>']
            } else {
                seq!['<', '?'] + t@ + seq!['?', '>']
            },
            None => seq!['<', '?'] + t@ + seq!['?', '>'],
        },
        XNode::Namespace(u) => u@,
    }
}

/// Nodes written as markup, one after another.
pub open spec fn children_markup(cs: Seq<XNode>) -> Seq<char>
    decreases cs, 0nat,
{
    if cs.len() == 0 {
        Seq::empty()
    } else {
        children_markup(cs.drop_last()) + node_markup(cs.last())
    }
}

/// The markup of nodes is that of each node, one after another.
pub proof fn lemma_children_markup_concat(a: Seq<XNode>, b: Seq<XNode>)
    ensures
        children_markup(a + b) == children_markup(a) + children_markup(b),
    decreases b.len(),
{
    if b.len() == 0 {
        assert(a + b =~= a);
    } else {
        lemma_children_markup_concat(a, b.drop_last());
        assert((a + b).drop_last() =~= a + b.drop_last());
        assert((a + b).last() == b.last());
    }
}

/// What a selected node is taken as: the root and elements as markup; any
/// other node as its string value (unescaped).
pub open spec fn selected_markup(n: XNode) -> Seq<char> {
    match n {
        XNode::Root(_) => node_markup(n),
        XNode::Element { .. } => node_markup(n),
        XNode::Attribute(v) => v@,
        XNode::Text(t) => t@,
        XNode::Comment(t) => t@,
        XNode::Instruction(_, v) => match v {
            Some(v) => v@,
            None => Seq::empty(),
        },
        XNode::Namespace(u) => u@,
    }
}

/// The elements (markup, no attributes of their own) or the text of the
/// selector error that an outcome stands for: nodes each as
/// `selected_markup`; a boolean as `true` or `false`; a number or a string as
/// its text; a parse or evaluation failure as
/// `Invalid XPath selector: <message>`; an empty expression as
/// `Invalid XPath selector: empty expression`.
pub open spec fn xpath_result(o: XPathOutcome) -> Result<Seq<(Seq<char>, Map<Seq<char>, Seq<char>>)>, Seq<char>> {
    match o {
        XPathOutcome::Invalid(m) => Err("Invalid XPath selector: "@ + m@),
        XPathOutcome::Failed(m) => Err("Invalid XPath selector: "@ + m@),
        XPathOutcome::Empty => Err("Invalid XPath selector: "@ + "empty expression"@),
        XPathOutcome::Nodes(ns) => Ok(ns@.map_values(|n: XNode| (selected_markup(n), Map::<Seq<char>, Seq<char>>::empty()))),
        XPathOutcome::Boolean(b) => Ok(seq![(if b { "true"@ } else { "false"@ }, Map::<Seq<char>, Seq<char>>::empty())]),
        XPathOutcome::Number(t) => Ok(seq![(t@, Map::<Seq<char>, Seq<char>>::empty())]),
        XPathOutcome::Text(t) => Ok(seq![(t@, Map::<Seq<char>, Seq<char>>::empty())]),
    }
}

/// `r` is what `xpath_result` says of `o`: the elements, or a selector error
/// with that text.
pub open spec fn xpath_answers(r: SilkwormResult<Vec<HtmlElement>>, o: XPathOutcome) -> bool {
    match r {
        Ok(v) => xpath_result(o) == Ok::<Seq<(Seq<char>, Map<Seq<char>, Seq<char>>)>, Seq<char>>(element_views(v@)),
        Err(e) => e matches SilkwormError::Selector(m) && xpath_result(o) == Err::<Seq<(Seq<char>, Map<Seq<char>, Seq<char>>)>, Seq<char>>(m@),
    }
}

/// The selector error for a parse error, an empty expression or a failed
/// evaluation.
fn outcome_error(o: &XPathOutcome) -> (e: SilkwormError)
    requires
        o is Invalid || o is Empty || o is Failed,
    ensures
        e matches SilkwormError::Selector(m) && xpath_result(*o) == Err::<Seq<(Seq<char>, Map<Seq<char>, Seq<char>>)>, Seq<char>>(m@),
{
    match o {
        XPathOutcome::Invalid(m) => SilkwormError::Selector(concat("Invalid XPath selector: ", m.as_str())),
        XPathOutcome::Failed(m) => SilkwormError::Selector(concat("Invalid XPath selector: ", m.as_str())),
        _ => SilkwormError::Selector(concat("Invalid XPath selector: ", "empty expression")),
    }
}

/// Appends `prefix:local`, or `local` alone.
fn write_qualified(prefix: &Option<String>, local: &String, out: &mut String)
    ensures
        final(out)@ == old(out)@ + qualified(*prefix, *local),
{
    match prefix {
        Some(p) => {
            out.append(p.as_str());
            push_char(out, ':');
        },
        None => {},
    }
    out.append(local.as_str());
}

/// Appends the attributes as markup.
fn write_attrs(attrs: &Vec<(Option<String>, String, String)>, out: &mut String)
    ensures
        final(out)@ == old(out)@ + attrs_markup(attrs@),
{
    let ghost start = out@;
    let mut i: usize = 0;
    while i < attrs.len()
        invariant
            i <= attrs@.len(),
            out@ == start + attrs_markup(attrs@.take(i as int)),
        decreases attrs.len() - i,
    {
        let a = &attrs[i];
        push_char(out, ' ');
        write_qualified(&a.0, &a.1, out);
        push_char(out, '=');
        push_char(out, '"');
        out.append(escape_attr(a.2.as_str()).as_str());
        push_char(out, '"');
        assert(attrs@.take(i + 1).drop_last() =~= attrs@.take(i as int));
        assert(attrs@.take(i + 1).last() == attrs@[i as int]);
        i = i + 1;
    }
    assert(attrs@.take(attrs@.len() as int) =~= attrs@);
}

/// Appends nodes as markup, one after another.
fn write_children(cs: &Vec<XNode>, out: &mut String)
    ensures
        final(out)@ == old(out)@ + children_markup(cs@),
    decreases cs, 1nat,
{
    let ghost start = out@;
    let mut i: usize = 0;
    while i < cs.len()
        invariant
            i <= cs@.len(),
            out@ == start + children_markup(cs@.take(i as int)),
        decreases cs.len() - i,
    {
        proof {
            assert(decreases_to!(cs => cs@));
            assert(decreases_to!(cs@ => cs@[i as int]));
        }
        write_node(&cs[i], out);
        assert(cs@.take(i + 1).drop_last() =~= cs@.take(i as int));
        assert(cs@.take(i + 1).last() == cs@[i as int]);
        i = i + 1;
    }
    assert(cs@.take(cs@.len() as int) =~= cs@);
}

/// Appends a node as markup.
fn write_node(n: &XNode, out: &mut String)
    ensures
        final(out)@ == old(out)@ + node_markup(*n),
    decreases n, 0nat,
{
    match n {
        XNode::Root(cs) => {
            proof { assert(decreases_to!(*n => n->Root_0)); }
            write_children(cs, out);
        },
        XNode::Element { prefix, local, attrs, children } => {
            proof { assert(decreases_to!(*n => n->children)); }
            let ghost start = out@;
            push_char(out, '<');
            write_qualified(prefix, local, out);
            write_attrs(attrs, out);
            push_char(out, '>');
            write_children(children, out);
            push_char(out, '<');
            push_char(out, '/');
            write_qualified(prefix, local, out);
            push_char(out, '>');
            assert(out@ =~= start + node_markup(*n));
        },
        XNode::Attribute(v) => {
            out.append(escape_attr(v.as_str()).as_str());
        },
        XNode::Text(t) => {
            out.append(escape_text(t.as_str()).as_str());
        },
        XNode::Comment(t) => {
            let ghost start = out@;
            push_char(out, '<');
            push_char(out, '!');
            push_char(out, '-');
            push_char(out, '-');
            out.append(t.as_str());
            push_char(out, '-');
            push_char(out, '-');
            push_char(out, '>');
            assert(out@ =~= start + node_markup(*n));
        },
        XNode::Instruction(t, v) => {
            let ghost start = out@;
            push_char(out, '<');
            push_char(out, '?');
            out.append(t.as_str());
            match v {
                Some(v) => {
                    if v.as_str().unicode_len() > 0 {
                        push_char(out, ' ');
                        out.append(v.as_str());
                    }
                },
                None => {},
            }
            push_char(out, '?');
            push_char(out, '>');
            assert(out@ =~= start + node_markup(*n));
        },
        XNode::Namespace(u) => {
            out.append(u.as_str());
        },
    }
}

/// What a selected node is taken as (see `selected_markup`).
fn selected_text(n: &XNode) -> (r: String)
    ensures
        r@ == selected_markup(*n),
{
    match n {
        XNode::Attribute(v) => v.clone(),
        XNode::Text(t) => t.clone(),
        XNode::Comment(t) => t.clone(),
        XNode::Instruction(_, v) => match v {
            Some(v) => v.clone(),
            None => String::new(),
        },
        XNode::Namespace(u) => u.clone(),
        _ => {
            let mut out = String::new();
            write_node(n, &mut out);
            out
        },
    }
}

/// The elements or the selector error that `o` stands for.
fn outcome_elements(o: XPathOutcome) -> (r: SilkwormResult<Vec<HtmlElement>>)
    ensures
        xpath_answers(r, o),
{
    match o {
        XPathOutcome::Nodes(ns) => {
            let mut out: Vec<HtmlElement> = Vec::new();
            let mut i: usize = 0;
            while i < ns.len()
                invariant
                    i <= ns@.len(),
                    element_views(out@) == ns@.take(i as int).map_values(
                        |n: XNode| (selected_markup(n), Map::<Seq<char>, Seq<char>>::empty()),
                    ),
                decreases ns.len() - i,
            {
                let e = HtmlElement::from_markup(selected_text(&ns[i]));
                let ghost before = out@;
                out.push(e);
                assert(out@ == before.push(e));
                assert(element_views(out@) =~= element_views(before).push(e.view()));
                assert(ns@.take(i + 1) =~= ns@.take(i as int).push(ns@[i as int]));
                assert(ns@.take(i + 1).map_values(|n: XNode| (selected_markup(n), Map::<Seq<char>, Seq<char>>::empty()))
                    =~= ns@.take(i as int).map_values(|n: XNode| (selected_markup(n), Map::<Seq<char>, Seq<char>>::empty())).push(
                    (selected_markup(ns@[i as int]), Map::<Seq<char>, Seq<char>>::empty()),
                ));
                i = i + 1;
            }
            assert(ns@.take(ns@.len() as int) =~= ns@);
            Ok(out)
        },
        XPathOutcome::Boolean(b) => {
            let t = if b { owned("true") } else { owned("false") };
            let v = vec![HtmlElement::from_markup(t)];
            assert(element_views(v@) =~= seq![v@[0].view()]);
            Ok(v)
        },
        XPathOutcome::Number(t) => {
            let v = vec![HtmlElement::from_markup(t)];
            assert(element_views(v@) =~= seq![v@[0].view()]);
            Ok(v)
        },
        XPathOutcome::Text(t) => {
            let v = vec![HtmlElement::from_markup(t)];
            assert(element_views(v@) =~= seq![v@[0].view()]);
            Ok(v)
        },
        _ => Err(outcome_error(&o)),
    }
}

/// The first of the elements, or the error.
fn first_element(r: SilkwormResult<Vec<HtmlElement>>) -> (f: SilkwormResult<Option<HtmlElement>>)
    ensures
        match f {
            Ok(o) => r is Ok && first_view(o) == first_of(element_views(r->Ok_0@)),
            Err(e) => r == Err::<Vec<HtmlElement>, SilkwormError>(e),
        },
{
    match r {
        Ok(v) => {
            let mut v = v;
            if v.len() == 0 {
                Ok(None)
            } else {
                let ghost before = v@;
                let e = v.remove(0);
                assert(e == before[0]);
                Ok(Some(e))
            }
        },
        Err(e) => Err(e),
    }
}

impl<C> HtmlResponse<C> {
    /// The nodes that the XPath expression `selector` selects on the page,
    /// each written as markup (see `xpath_result`); an expression that does
    /// not parse, is empty, or fails is a selector error.
    pub fn xpath(&self, selector: &str) -> (r: SilkwormResult<Vec<HtmlElement>>)
        ensures
            xpath_answers(r, xpath_outcome(self.spec_source(), selector@)),
    {
        outcome_elements(evaluate_xpath(self.html_source(), selector))
    }

    /// The first node that `selector` selects, if any.
    pub fn xpath_first(&self, selector: &str) -> (r: SilkwormResult<Option<HtmlElement>>)
        ensures
            match r {
                Ok(o) => xpath_result(xpath_outcome(self.spec_source(), selector@)) matches Ok(es) && first_view(o) == first_of(es),
                Err(e) => e matches SilkwormError::Selector(m) && xpath_result(xpath_outcome(self.spec_source(), selector@))
                    == Err::<Seq<(Seq<char>, Map<Seq<char>, Seq<char>>)>, Seq<char>>(m@),
            },
    {
        first_element(self.xpath(selector))
    }

    /// The nodes that the compiled expression `xpath` selects on the page.
    pub fn xpath_with(&self, xpath: &CompiledXPath) -> (r: SilkwormResult<Vec<HtmlElement>>)
        ensures
            xpath_answers(r, xpath_outcome(self.spec_source(), xpath.spec_text())),
    {
        outcome_elements(evaluate_compiled(self.html_source(), xpath))
    }

    /// The first node that the compiled expression `xpath` selects, if any.
    pub fn xpath_first_with(&self, xpath: &CompiledXPath) -> (r: SilkwormResult<Option<HtmlElement>>)
        ensures
            match r {
                Ok(o) => xpath_result(xpath_outcome(self.spec_source(), xpath.spec_text())) matches Ok(es) && first_view(o) == first_of(es),
                Err(e) => e matches SilkwormError::Selector(m) && xpath_result(xpath_outcome(self.spec_source(), xpath.spec_text()))
                    == Err::<Seq<(Seq<char>, Map<Seq<char>, Seq<char>>)>, Seq<char>>(m@),
            },
    {
        first_element(self.xpath_with(xpath))
    }

    /// The nodes that `selector` selects; none when the expression is invalid.
    pub fn xpath_or_empty(&self, selector: &str) -> (r: Vec<HtmlElement>)
        ensures
            match xpath_result(xpath_outcome(self.spec_source(), selector@)) {
                Ok(es) => element_views(r@) == es,
                Err(_) => r@.len() == 0,
            },
    {
        match self.xpath(selector) {
            Ok(v) => v,
            Err(_) => Vec::new(),
        }
    }

    /// The first node that `selector` selects; none when there is none or the
    /// expression is invalid.
    pub fn xpath_first_or_none(&self, selector: &str) -> (r: Option<HtmlElement>)
        ensures
            match xpath_result(xpath_outcome(self.spec_source(), selector@)) {
                Ok(es) => first_view(r) == first_of(es),
                Err(_) => r is None,
            },
    {
        match self.xpath_first(selector) {
            Ok(o) => o,
            Err(_) => None,
        }
    }
}

} // verus!
