//! The HTML document model that the XPath engine walks.
//!
//! HTML is parsed by `scraper`; the only thing taken from it is the stream
//! of open and close events of a depth-first walk of the document's root
//! element ([`html_document_tokens`]).  The tree is rebuilt from that stream
//! by verified code ([`parse_node`]).
use vstd::prelude::*;

use ego_tree::iter::Edge;

verus! {

/// An attribute: namespace URL (empty for ordinary HTML attributes), local
/// name and value.
#[derive(Debug, Clone)]
pub struct DomAttr {
    pub ns: String,
    pub name: String,
    pub value: String,
}

/// One event of the depth-first walk: a node opens (element, text or any
/// other node) or the most recently opened node closes.
#[derive(Debug, Clone)]
pub enum HtmlToken {
    Element { name: String, attrs: Vec<DomAttr>, inner_html: String },
    Text(String),
    Other,
    Close,
}

/// An element and its children; `pos` is the index of its open event in
/// the event stream, so elements in document order have increasing `pos`.
#[derive(Debug)]
pub struct DomElement {
    pub name: String,
    pub attrs: Vec<DomAttr>,
    pub inner_html: String,
    pub children: Vec<DomNode>,
    pub pos: usize,
}

#[derive(Debug)]
pub enum DomNode {
    Element(DomElement),
    Text(String),
    Other,
}

// ---------------------------------------------------------------------------
// Views
// ---------------------------------------------------------------------------

pub struct AttrView {
    pub ns: Seq<char>,
    pub name: Seq<char>,
    pub value: Seq<char>,
}

pub enum TokenView {
    Element { name: Seq<char>, attrs: Seq<AttrView>, inner_html: Seq<char> },
    Text(Seq<char>),
    Other,
    Close,
}

pub struct ElementView {
    pub name: Seq<char>,
    pub attrs: Seq<AttrView>,
    pub inner_html: Seq<char>,
    pub children: Seq<NodeView>,
    pub pos: int,
}

pub enum NodeView {
    Element(ElementView),
    Text(Seq<char>),
    Other,
}

impl View for DomAttr {
    type V = AttrView;

    open spec fn view(&self) -> AttrView {
        AttrView { ns: self.ns@, name: self.name@, value: self.value@ }
    }
}

pub open spec fn attrs_view(a: Seq<DomAttr>) -> Seq<AttrView> {
    a.map_values(|x: DomAttr| x@)
}

impl View for HtmlToken {
    type V = TokenView;

    open spec fn view(&self) -> TokenView {
        match self {
            HtmlToken::Element { name, attrs, inner_html } => TokenView::Element {
                name: name@,
                attrs: attrs_view(attrs@),
                inner_html: inner_html@,
            },
            HtmlToken::Text(t) => TokenView::Text(t@),
            HtmlToken::Other => TokenView::Other,
            HtmlToken::Close => TokenView::Close,
        }
    }
}

pub open spec fn tokens_view(t: Seq<HtmlToken>) -> Seq<TokenView> {
    t.map_values(|x: HtmlToken| x@)
}

pub open spec fn elem_view(e: DomElement) -> ElementView
    decreases e,
{
    ElementView {
        name: e.name@,
        attrs: attrs_view(e.attrs@),
        inner_html: e.inner_html@,
        children: kids_view(e.children@),
        pos: e.pos as int,
    }
}

pub open spec fn kids_view(s: Seq<DomNode>) -> Seq<NodeView>
    decreases s,
{
    if s.len() == 0 {
        Seq::empty()
    } else {
        kids_view(s.drop_last()).push(node_view(s.last()))
    }
}

pub open spec fn node_view(n: DomNode) -> NodeView
    decreases n,
{
    match n {
        DomNode::Element(e) => NodeView::Element(elem_view(e)),
        DomNode::Text(t) => NodeView::Text(t@),
        DomNode::Other => NodeView::Other,
    }
}


/// The view of a list of nodes, entry by entry.
pub proof fn lemma_kids_view(s: Seq<DomNode>)
    ensures
        kids_view(s).len() == s.len(),
        forall|i: int| 0 <= i < s.len() ==> #[trigger] kids_view(s)[i] == node_view(s[i]),
    decreases s.len(),
{
    if s.len() > 0 {
        lemma_kids_view(s.drop_last());
        assert forall|i: int| 0 <= i < s.len() implies #[trigger] kids_view(s)[i] == node_view(s[i]) by {
            if i < s.len() - 1 {
                assert(s.drop_last()[i] == s[i]);
            }
        }
    }
}

// ---------------------------------------------------------------------------
// Parsing with scraper
// ---------------------------------------------------------------------------

/// What `scraper` makes of an HTML text: the events of `Html::parse_document`
/// followed by a depth-first walk (`traverse`) of the root element.
pub uninterp spec fn html_document_tokens(html: Seq<char>) -> Seq<TokenView>;

/// Parses `html` as a document with `scraper::Html::parse_document` and
/// lists the open and close events of `traverse()` from its root element:
/// for an element its local name, its attributes (namespace, local name,
/// value, in the order `scraper` stores them) and its `inner_html()`; for a
/// text node its text.  The result is named [`html_document_tokens`].
#[verifier::external_body]
pub(crate) fn html_tokens(html: &str) -> (r: Vec<HtmlToken>)
    ensures
        tokens_view(r@) == html_document_tokens(html@),
{
    let doc = scraper::Html::parse_document(html);
    doc.root_element().traverse().map(|edge| match edge {
        Edge::Open(n) => match scraper::ElementRef::wrap(n) {
            Some(e) => HtmlToken::Element {
                name: e.value().name().to_string(),
                attrs: e.value().attrs.iter().map(|(q, v)| DomAttr { ns: q.ns.to_string(), name: q.local.to_string(), value: v.to_string() }).collect(),
                inner_html: e.inner_html(),
            },
            None => match n.value() { scraper::Node::Text(t) => HtmlToken::Text(t.to_string()), _ => HtmlToken::Other },
        },
        Edge::Close(_) => HtmlToken::Close,
    }).collect()
}

// ---------------------------------------------------------------------------
// Rebuilding the tree
// ---------------------------------------------------------------------------

/// Index just after the close event of a leaf opened at `pos`.
pub open spec fn leaf_end(toks: Seq<TokenView>, pos: int) -> int {
    if pos + 1 < toks.len() && toks[pos + 1] is Close {
        pos + 2
    } else {
        pos + 1
    }
}

/// The node whose open event is at `pos`, and the index after its close event.
pub open spec fn parse_node(toks: Seq<TokenView>, pos: int) -> (NodeView, int)
    decreases toks.len() - pos, 0int,
{
    if pos < 0 || pos >= toks.len() {
        (NodeView::Other, toks.len() as int)
    } else {
        match toks[pos] {
            TokenView::Element { name, attrs, inner_html } => {
                let (kids, q) = parse_kids(toks, pos + 1);
                let end = if 0 <= q < toks.len() && toks[q] is Close {
                    q + 1
                } else {
                    q
                };
                (NodeView::Element(ElementView { name, attrs, inner_html, children: kids, pos }), end)
            },
            TokenView::Text(t) => (NodeView::Text(t), leaf_end(toks, pos)),
            TokenView::Other => (NodeView::Other, leaf_end(toks, pos)),
            TokenView::Close => (NodeView::Other, pos + 1),
        }
    }
}

/// The nodes opened from `pos` on up to the close event of their parent (or
/// the end), and the index of that close event.
pub open spec fn parse_kids(toks: Seq<TokenView>, pos: int) -> (Seq<NodeView>, int)
    decreases toks.len() - pos, 1int,
{
    if pos < 0 || pos >= toks.len() || toks[pos] is Close {
        (Seq::empty(), pos)
    } else {
        let (n, p2) = parse_node(toks, pos);
        if p2 <= pos || p2 > toks.len() {
            (seq![n], p2)
        } else {
            let (rest, q) = parse_kids(toks, p2);
            (seq![n] + rest, q)
        }
    }
}

/// The document tree: the root element of the event stream (an empty
/// element when the stream does not start with one).
pub open spec fn document_of(toks: Seq<TokenView>) -> ElementView {
    match parse_node(toks, 0).0 {
        NodeView::Element(e) => e,
        _ => ElementView {
            name: Seq::empty(),
            attrs: Seq::empty(),
            inner_html: Seq::empty(),
            children: Seq::empty(),
            pos: 0,
        },
    }
}

fn copy_attrs(a: &Vec<DomAttr>) -> (r: Vec<DomAttr>)
    ensures
        attrs_view(r@) == attrs_view(a@),
{
    let mut r: Vec<DomAttr> = Vec::new();
    let mut i: usize = 0;
    while i < a.len()
        invariant
            i <= a.len(),
            attrs_view(r@) == attrs_view(a@).take(i as int),
        decreases a.len() - i,
    {
        let x = DomAttr { ns: a[i].ns.clone(), name: a[i].name.clone(), value: a[i].value.clone() };
        let ghost before = r@;
        r.push(x);
        assert(attrs_view(r@) =~= attrs_view(before).push(x@));
        assert(attrs_view(a@).take(i + 1) =~= attrs_view(a@).take(i as int).push(a@[i as int]@));
        i += 1;
    }
    assert(attrs_view(a@).take(a.len() as int) =~= attrs_view(a@));
    r
}

fn leaf_end_exec(toks: &Vec<HtmlToken>, pos: usize) -> (r: usize)
    requires
        pos < toks.len(),
    ensures
        r as int == leaf_end(tokens_view(toks@), pos as int),
{
    if pos + 1 < toks.len() {
        match &toks[pos + 1] {
            HtmlToken::Close => pos + 2,
            _ => pos + 1,
        }
    } else {
        pos + 1
    }
}

fn build_node(toks: &Vec<HtmlToken>, pos: usize) -> (r: (DomNode, usize))
    requires
        pos < toks.len(),
    ensures
        (node_view(r.0), r.1 as int) == parse_node(tokens_view(toks@), pos as int),
        pos < r.1 <= toks.len(),
    decreases toks.len() - pos, 0int,
{
    let ghost tv = tokens_view(toks@);
    match &toks[pos] {
        HtmlToken::Element { name, attrs, inner_html } => {
            let (kids, q) = build_kids(toks, pos + 1);
            let end = if q < toks.len() {
                match &toks[q] {
                    HtmlToken::Close => q + 1,
                    _ => q,
                }
            } else {
                q
            };
            let e = DomElement {
                name: name.clone(),
                attrs: copy_attrs(attrs),
                inner_html: inner_html.clone(),
                children: kids,
                pos,
            };
            (DomNode::Element(e), end)
        },
        HtmlToken::Text(t) => (DomNode::Text(t.clone()), leaf_end_exec(toks, pos)),
        HtmlToken::Other => (DomNode::Other, leaf_end_exec(toks, pos)),
        HtmlToken::Close => (DomNode::Other, pos + 1),
    }
}

fn build_kids(toks: &Vec<HtmlToken>, pos: usize) -> (r: (Vec<DomNode>, usize))
    requires
        pos <= toks.len(),
    ensures
        (kids_view(r.0@), r.1 as int) == parse_kids(tokens_view(toks@), pos as int),
        pos <= r.1 <= toks.len(),
    decreases toks.len() - pos, 1int,
{
    let ghost tv = tokens_view(toks@);
    let mut acc: Vec<DomNode> = Vec::new();
    let mut p = pos;
    loop
        invariant
            pos <= p <= toks.len(),
            tv == tokens_view(toks@),
            parse_kids(tv, pos as int) == (kids_view(acc@) + parse_kids(tv, p as int).0, parse_kids(
                tv,
                p as int,
            ).1),
        decreases toks.len() - p,
    {
        if p >= toks.len() {
            return (acc, p);
        }
        match &toks[p] {
            HtmlToken::Close => {
                return (acc, p);
            },
            _ => {},
        }
        let (n, p2) = build_node(toks, p);
        let ghost before = acc@;
        acc.push(n);
        assert(kids_view(acc@) =~= kids_view(before).push(node_view(n))) by {
            assert(acc@.drop_last() =~= before);
        }
        if p2 <= p || p2 > toks.len() {
            return (acc, p2);
        }
        p = p2;
    }
}

/// Builds the document tree of an event stream.
pub fn build_document(toks: &Vec<HtmlToken>) -> (r: DomElement)
    ensures
        elem_view(r) == document_of(tokens_view(toks@)),
{
    if toks.len() > 0 {
        let (n, _end) = build_node(toks, 0);
        match n {
            DomNode::Element(e) => {
                return e;
            },
            _ => {},
        }
    }
    let r = DomElement {
        name: String::new(),
        attrs: Vec::new(),
        inner_html: String::new(),
        children: Vec::new(),
        pos: 0,
    };
    assert(attrs_view(r.attrs@) =~= Seq::<AttrView>::empty());
    assert(kids_view(r.children@) =~= Seq::<NodeView>::empty());
    r
}
} // verus!
