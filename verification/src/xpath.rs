//! A small XPath 1.0 subset evaluated over HTML documents.
//!
//! An expression is split at its first `|` (union); each side is parsed into
//! location steps ([`parse_xpath_steps`]) and walked over the document tree:
//! an absolute path (one that starts with `/`) from the document node
//! ([`eval_doc`]), whose only child is the root element, and a relative path
//! from the root element ([`eval`]).  The selected elements come out each
//! once, in document order ([`in_order`]).  Inside the parser positions
//! count characters; the public step parsers report byte offsets.
use vstd::prelude::*;

use crate::dom::{
    build_document, document_of, html_document_tokens, html_tokens, tokens_view, AttrView,
    DomAttr, DomElement, DomNode, ElementView, HtmlToken, NodeView, attrs_view, elem_view,
    kids_view, node_view, TokenView, lemma_kids_view,
};
use crate::text::{
    opt_chars,
    append_chars, chars_eq, contains_exec, ends_with_str, eq_str, find_char, join_exec,
    parse_usize_exec, trim_char_exec, trim_start_char_exec, append_str,
    char_is_alphanumeric, contains, ends_with, find, is_alphanumeric, join, lemma_trim_len,
    decimal, is_ws, lemma_decimal, lemma_trim_unchanged, occurs_at, parse_unsigned,
    parse_usize, starts_with, trim, trim_char, trim_start, trim_start_char, slice_chars,
    starts_with_str, to_chars, trim_exec, from_chars, char_views, trim_start_exec, lemma_trim_start_len,
    utf8_len, utf8_offset,
};

verus! {

#[derive(Debug, Clone, Copy, PartialEq, Eq, Structural)]
pub enum Axis {
    Child,
    Descendant,
    Parent,
    Self_,
    DescendantOrSelf,
    FollowingSibling,
    PrecedingSibling,
    Attribute,
}

#[derive(Debug, Clone)]
pub enum NodeTest {
    NameTest(String),
    Wildcard,
    TextNode,
    CommentNode,
}

/// One location step: axis, node test and the predicate texts (without
/// their brackets).
#[derive(Debug, Clone)]
pub struct XPathStep {
    pub axis: Axis,
    pub node_test: NodeTest,
    pub predicates: Vec<String>,
}

pub enum TestView {
    NameTest(Seq<char>),
    Wildcard,
    TextNode,
    CommentNode,
}

pub struct StepView {
    pub axis: Axis,
    pub node_test: TestView,
    pub predicates: Seq<Seq<char>>,
}

impl View for NodeTest {
    type V = TestView;

    open spec fn view(&self) -> TestView {
        match self {
            NodeTest::NameTest(n) => TestView::NameTest(n@),
            NodeTest::Wildcard => TestView::Wildcard,
            NodeTest::TextNode => TestView::TextNode,
            NodeTest::CommentNode => TestView::CommentNode,
        }
    }
}

pub open spec fn strings_view(s: Seq<String>) -> Seq<Seq<char>> {
    s.map_values(|x: String| x@)
}

impl View for XPathStep {
    type V = StepView;

    open spec fn view(&self) -> StepView {
        StepView {
            axis: self.axis,
            node_test: self.node_test@,
            predicates: strings_view(self.predicates@),
        }
    }
}

pub open spec fn steps_view(s: Seq<XPathStep>) -> Seq<StepView> {
    s.map_values(|x: XPathStep| x@)
}

// ---------------------------------------------------------------------------
// Parsing location paths
// ---------------------------------------------------------------------------

/// Characters of an element name.
pub open spec fn is_name_char(c: char) -> bool {
    char_is_alphanumeric(c) || c == '_' || c == '-'
}

/// Length of the longest prefix of name characters.
pub open spec fn name_len(s: Seq<char>) -> nat
    decreases s.len(),
{
    if s.len() > 0 && is_name_char(s[0]) {
        1 + name_len(s.drop_first())
    } else {
        0
    }
}

/// The node test at the start of `s` (after leading whitespace) and how many
/// characters of the trimmed text it takes.
pub open spec fn node_test_of(s: Seq<char>) -> (TestView, nat) {
    let t = trim_start(s);
    if starts_with(t, "comment()"@) {
        (TestView::CommentNode, 9)
    } else if starts_with(t, "text()"@) {
        (TestView::TextNode, 6)
    } else if starts_with(t, "*"@) {
        (TestView::Wildcard, 1)
    } else if name_len(t) == 0 {
        (TestView::Wildcard, 0)
    } else {
        (TestView::NameTest(t.take(name_len(t) as int)), name_len(t))
    }
}

/// Scans a predicate from index `i` at bracket depth `depth`: the characters
/// that belong to it and the index after its closing bracket (if found).
pub open spec fn scan_predicate(s: Seq<char>, i: int, depth: int) -> (Seq<char>, Option<int>)
    decreases s.len() - i,
{
    if i < 0 || i >= s.len() {
        (Seq::empty(), None)
    } else {
        let ch = s[i];
        let d = if ch == '[' {
            depth + 1
        } else if ch == ']' {
            depth - 1
        } else {
            depth
        };
        if ch == ']' && d == 0 {
            (Seq::empty(), Some(i + 1))
        } else {
            let rest = scan_predicate(s, i + 1, d);
            (seq![ch] + rest.0, rest.1)
        }
    }
}

/// A bracketed predicate at the start of `s`: its trimmed text and the
/// number of characters taken (through the matching `]`, or just the `[`
/// when there is none).
pub open spec fn predicate_of(s: Seq<char>) -> (Seq<char>, nat) {
    if s.len() > 0 && s[0] == '[' {
        let r = scan_predicate(s, 1, 1);
        (trim(r.0), match r.1 {
            Some(e) => e as nat,
            None => 1,
        })
    } else {
        let r = scan_predicate(s, 0, 0);
        (trim(r.0), match r.1 {
            Some(e) => e as nat,
            None => 0,
        })
    }
}

/// The predicates that follow position `pos` of `s`, and where they end.
pub open spec fn predicates_from(s: Seq<char>, pos: int) -> (Seq<Seq<char>>, int)
    decreases s.len() - pos,
{
    if 0 <= pos < s.len() && s[pos] == '[' {
        let (p, pc) = predicate_of(s.skip(pos));
        if pc == 0 || pos + pc > s.len() {
            (seq![p], pos)
        } else {
            let (rest, end) = predicates_from(s, pos + pc);
            (seq![p] + rest, end)
        }
    } else {
        (Seq::empty(), pos)
    }
}

/// The axis, node test and number of characters of the step head.
pub open spec fn step_head(s: Seq<char>) -> (Axis, TestView, nat) {
    if starts_with(s, "@"@) {
        let rest = s.drop_first();
        if starts_with(rest, "*"@) {
            (Axis::Attribute, TestView::Wildcard, 2)
        } else if name_len(rest) == 0 {
            (Axis::Attribute, TestView::Wildcard, 1)
        } else {
            (Axis::Attribute, TestView::NameTest(rest.take(name_len(rest) as int)), 1 + name_len(rest))
        }
    } else if starts_with(s, ".."@) {
        (Axis::Parent, TestView::Wildcard, 2)
    } else if starts_with(s, "."@) {
        (Axis::Self_, TestView::Wildcard, 1)
    } else {
        let (t, n) = node_test_of(s);
        (Axis::Child, t, n)
    }
}

/// One step at the start of `s` and the number of characters it takes.
pub open spec fn single_step(s: Seq<char>) -> (StepView, int) {
    let (axis, test, n) = step_head(s);
    let (preds, end) = predicates_from(s, n as int);
    (StepView { axis, node_test: test, predicates: preds }, end)
}

pub open spec fn descendant_or_self_step() -> StepView {
    StepView { axis: Axis::DescendantOrSelf, node_test: TestView::Wildcard, predicates: Seq::empty() }
}

/// The steps of the rest `rem` of a path: `//` stands for a
/// descendant-or-self step, a single `/` separates steps, and a character
/// that starts no step is skipped.
pub open spec fn steps_from(rem: Seq<char>) -> Seq<StepView>
    decreases rem.len(),
{
    if rem.len() == 0 {
        Seq::empty()
    } else if rem.len() >= 2 && rem[0] == '/' && rem[1] == '/' {
        seq![descendant_or_self_step()] + steps_from(rem.skip(2))
    } else if rem[0] == '/' {
        steps_from(rem.skip(1))
    } else {
        let (st, c) = single_step(rem);
        if c <= 0 || c > rem.len() {
            steps_from(rem.skip(1))
        } else {
            seq![st] + steps_from(rem.skip(c))
        }
    }
}

/// The steps of a location path.
pub open spec fn path_steps(xpath: Seq<char>) -> Seq<StepView> {
    steps_from(trim(xpath))
}


fn name_len_exec(v: &Vec<char>, from: usize) -> (r: usize)
    requires
        from <= v.len(),
    ensures
        r == name_len(v@.skip(from as int)),
        from + r <= v.len(),
{
    let mut i = from;
    let ghost s = v@.skip(from as int);
    while i < v.len() && (is_alphanumeric(v[i]) || v[i] == '_' || v[i] == '-')
        invariant
            from <= i <= v.len(),
            s == v@.skip(from as int),
            forall|j: int| from <= j < i ==> is_name_char(#[trigger] v@[j]),
            name_len(s) == (i - from) + name_len(v@.skip(i as int)),
        decreases v.len() - i,
    {
        assert(v@.skip(i as int).drop_first() =~= v@.skip(i + 1));
        i += 1;
    }
    i - from
}

fn node_test_chars(v: &Vec<char>) -> (r: (NodeTest, usize))
    ensures
        (r.0@, r.1 as nat) == node_test_of(v@),
        r.1 <= trim_start(v@).len(),
{
    let t = trim_start_exec(v);
    proof {
        reveal_strlit("comment()");
        reveal_strlit("text()");
        reveal_strlit("*");
    }
    if starts_with_str(&t, "comment()") {
        (NodeTest::CommentNode, 9)
    } else if starts_with_str(&t, "text()") {
        (NodeTest::TextNode, 6)
    } else if starts_with_str(&t, "*") {
        (NodeTest::Wildcard, 1)
    } else {
        let n = name_len_exec(&t, 0);
        assert(t@.skip(0) =~= t@);
        if n == 0 {
            (NodeTest::Wildcard, 0)
        } else {
            let name = slice_chars(&t, 0, n);
            assert(name@ =~= t@.take(n as int));
            (NodeTest::NameTest(from_chars(&name)), n)
        }
    }
}

/// The node test at the start of `s` (see [`node_test_of`]) and how many
/// characters of `s`, after its leading whitespace, it takes.
pub fn parse_node_test(s: &str) -> (r: (NodeTest, usize))
    ensures
        (r.0@, r.1 as nat) == node_test_of(s@),
{
    node_test_chars(&to_chars(s))
}

fn scan_predicate_exec(v: &Vec<char>, start: usize, start_depth: usize) -> (r: (Vec<char>, Option<usize>))
    requires
        start <= v.len(),
    ensures
        (r.0@, match r.1 {
            Some(e) => Some(e as int),
            None => None,
        }) == scan_predicate(v@, start as int, start_depth as int),
        r.1 matches Some(e) ==> start < e <= v.len(),
{
    let mut acc: Vec<char> = Vec::new();
    let mut i = start;
    let mut opens: usize = 0;
    let mut closes: usize = 0;
    let ghost total = scan_predicate(v@, start as int, start_depth as int);
    while i < v.len()
        invariant
            start <= i <= v.len(),
            opens + closes <= i - start,
            total == scan_predicate(v@, start as int, start_depth as int),
            total.0 == acc@ + scan_predicate(v@, i as int, start_depth + opens - closes).0,
            total.1 == scan_predicate(v@, i as int, start_depth + opens - closes).1,
        decreases v.len() - i,
    {
        let ch = v[i];
        let ghost d = start_depth + opens - closes;
        if ch == '[' {
            opens += 1;
        } else if ch == ']' {
            closes += 1;
        }
        if ch == ']' && closes >= opens && closes - opens == start_depth {
            return (acc, Some(i + 1));
        }
        let ghost before = acc@;
        acc.push(ch);
        assert(acc@ + scan_predicate(v@, i + 1, start_depth + opens - closes).0 =~= before + (seq![ch]
            + scan_predicate(v@, i + 1, start_depth + opens - closes).0));
        i += 1;
    }
    (acc, None)
}

fn predicate_chars(v: &Vec<char>) -> (r: (Vec<char>, usize))
    ensures
        (r.0@, r.1 as nat) == predicate_of(v@),
        r.1 <= v.len(),
        v@.len() > 0 && v@[0] == '[' ==> 0 < r.1 <= v.len(),
{
    if v.len() > 0 && v[0] == '[' {
        let (p, end) = scan_predicate_exec(v, 1, 1);
        (trim_exec(&p), match end {
            Some(e) => e,
            None => 1,
        })
    } else {
        let (p, end) = scan_predicate_exec(v, 0, 0);
        (trim_exec(&p), match end {
            Some(e) => e,
            None => 0,
        })
    }
}

/// A bracketed predicate at the start of `s` (see [`predicate_of`]) and the
/// byte offset in `s` just after it.
pub fn parse_predicate(s: &str) -> (r: (String, usize))
    requires
        utf8_len(s@) <= usize::MAX,
    ensures
        r.0@ == predicate_of(s@).0,
        r.1 == utf8_len(s@.take(predicate_of(s@).1 as int)),
{
    let v = to_chars(s);
    let (p, n) = predicate_chars(&v);
    (from_chars(&p), utf8_offset(&v, n))
}

fn predicates_exec(v: &Vec<char>, pos0: usize) -> (r: (Vec<String>, usize))
    requires
        pos0 <= v.len(),
    ensures
        (strings_view(r.0@), r.1 as int) == predicates_from(v@, pos0 as int),
        pos0 <= r.1 <= v.len(),
{
    let mut preds: Vec<String> = Vec::new();
    let mut pos = pos0;
    let ghost total = predicates_from(v@, pos0 as int);
    loop
        invariant
            pos0 <= pos <= v.len(),
            total == predicates_from(v@, pos0 as int),
            total.0 == strings_view(preds@) + predicates_from(v@, pos as int).0,
            total.1 == predicates_from(v@, pos as int).1,
        decreases v.len() - pos,
    {
        if !(pos < v.len() && v[pos] == '[') {
            assert(strings_view(preds@) + Seq::<Seq<char>>::empty() =~= strings_view(preds@));
            return (preds, pos);
        }
        let rest = slice_chars(v, pos, v.len());
        assert(rest@ =~= v@.skip(pos as int));
        let (p, pc) = predicate_chars(&rest);
        let ghost before = strings_view(preds@);
        let ps = from_chars(&p);
        preds.push(ps);
        assert(strings_view(preds@) =~= before.push(p@));
        if pc == 0 || pc > v.len() - pos {
            assert(strings_view(preds@) =~= before + seq![p@]);
            return (preds, pos);
        }
        assert(strings_view(preds@) + predicates_from(v@, pos + pc).0 =~= before + (seq![p@]
            + predicates_from(v@, pos + pc).0));
        pos = pos + pc;
    }
}

fn single_step_chars(v: &Vec<char>) -> (r: (XPathStep, usize))
    ensures
        (r.0@, r.1 as int) == single_step(v@),
        r.1 <= v.len(),
{
    proof {
        reveal_strlit("@");
        reveal_strlit("..");
        reveal_strlit(".");
        reveal_strlit("*");
        lemma_trim_start_len(v@);
    }
    let (axis, test, n): (Axis, NodeTest, usize) = if starts_with_str(v, "@") {
        let rest = slice_chars(v, 1, v.len());
        assert(rest@ =~= v@.drop_first());
        if starts_with_str(&rest, "*") {
            (Axis::Attribute, NodeTest::Wildcard, 2)
        } else {
            let k = name_len_exec(&rest, 0);
            assert(rest@.skip(0) =~= rest@);
            if k == 0 {
                (Axis::Attribute, NodeTest::Wildcard, 1)
            } else {
                let name = slice_chars(&rest, 0, k);
                assert(name@ =~= rest@.take(k as int));
                (Axis::Attribute, NodeTest::NameTest(from_chars(&name)), 1 + k)
            }
        }
    } else if starts_with_str(v, "..") {
        (Axis::Parent, NodeTest::Wildcard, 2)
    } else if starts_with_str(v, ".") {
        (Axis::Self_, NodeTest::Wildcard, 1)
    } else {
        let (t, k) = node_test_chars(v);
        (Axis::Child, t, k)
    };
    assert((axis, test@, n as nat) == step_head(v@));
    let (preds, end) = predicates_exec(v, n);
    (XPathStep { axis, node_test: test, predicates: preds }, end)
}

/// One location step at the start of `s` (see [`single_step`]) and the
/// byte offset in `s` just after it.
pub fn parse_single_step(s: &str) -> (r: (XPathStep, usize))
    requires
        utf8_len(s@) <= usize::MAX,
    ensures
        r.0@ == single_step(s@).0,
        r.1 == utf8_len(s@.take(single_step(s@).1)),
{
    let v = to_chars(s);
    let (st, n) = single_step_chars(&v);
    (st, utf8_offset(&v, n))
}

/// The location steps of `xpath` (see [`path_steps`]).
pub fn parse_xpath_steps(xpath: &str) -> (r: Vec<XPathStep>)
    ensures
        steps_view(r@) == path_steps(xpath@),
{
    let x = trim_exec(&to_chars(xpath));
    let mut steps: Vec<XPathStep> = Vec::new();
    let mut pos: usize = 0;
    let ghost total = steps_from(x@);
    assert(x@.skip(0) =~= x@);
    while pos < x.len()
        invariant
            pos <= x.len(),
            total == steps_from(x@),
            total == steps_view(steps@) + steps_from(x@.skip(pos as int)),
        decreases x.len() - pos,
    {
        let ghost rem = x@.skip(pos as int);
        assert(rem[0] == x@[pos as int]);
        if pos + 1 < x.len() && x[pos] == '/' && x[pos + 1] == '/' {
            assert(rem[1] == x@[pos + 1]);
            assert(rem.skip(2) =~= x@.skip(pos + 2));
            let ghost before = steps_view(steps@);
            let st = XPathStep { axis: Axis::DescendantOrSelf, node_test: NodeTest::Wildcard, predicates: Vec::new() };
            steps.push(st);
            assert(st@.predicates =~= Seq::<Seq<char>>::empty());
            assert(steps_view(steps@) =~= before.push(descendant_or_self_step()));
            assert(steps_view(steps@) + steps_from(x@.skip(pos + 2)) =~= before + (seq![descendant_or_self_step()] + steps_from(x@.skip(pos + 2))));
            pos = pos + 2;
        } else if x[pos] == '/' {
            assert(rem.skip(1) =~= x@.skip(pos + 1));
            pos = pos + 1;
        } else {
            let r = slice_chars(&x, pos, x.len());
            assert(r@ =~= rem);
            let (st, c) = single_step_chars(&r);
            if c == 0 {
                assert(rem.skip(1) =~= x@.skip(pos + 1));
                pos = pos + 1;
            } else {
                assert(rem.skip(c as int) =~= x@.skip(pos + c));
                let ghost before = steps_view(steps@);
                let ghost sv = st@;
                steps.push(st);
                assert(steps_view(steps@) =~= before.push(sv));
                assert(steps_view(steps@) + steps_from(x@.skip(pos + c)) =~= before + (seq![sv] + steps_from(x@.skip(pos + c))));
                pos = pos + c;
            }
        }
    }
    assert(x@.skip(x.len() as int) =~= Seq::<char>::empty());
    assert(steps_view(steps@) + Seq::<StepView>::empty() =~= steps_view(steps@));
    steps
}

// ---------------------------------------------------------------------------
// Results
// ---------------------------------------------------------------------------

/// Attribute names and values of a selected element, in document order; a
/// name given twice keeps its place and takes the later value.
#[derive(Debug, Clone)]
pub struct AttributeMap {
    entries: Vec<(String, String)>,
}

pub type Entries = Seq<(Seq<char>, Seq<char>)>;

/// Index of the entry for `k`.
pub open spec fn key_index(es: Entries, k: Seq<char>) -> Option<int>
    decreases es.len(),
{
    if es.len() == 0 {
        None
    } else if es.last().0 == k {
        Some(es.len() - 1)
    } else {
        key_index(es.drop_last(), k)
    }
}

/// The value stored for `k`.
pub open spec fn entries_get(es: Entries, k: Seq<char>) -> Option<Seq<char>> {
    match key_index(es, k) {
        Some(i) => Some(es[i].1),
        None => None,
    }
}

/// Stores `v` for `k`: in place when `k` is present, at the end otherwise.
pub open spec fn entries_insert(es: Entries, k: Seq<char>, v: Seq<char>) -> Entries {
    match key_index(es, k) {
        Some(i) => es.update(i, (k, v)),
        None => es.push((k, v)),
    }
}

/// No key occurs twice.
pub open spec fn keys_unique(es: Entries) -> bool {
    forall|i: int, j: int| 0 <= i < j < es.len() ==> es[i].0 != es[j].0
}

pub open spec fn entries_view(es: Seq<(String, String)>) -> Entries {
    es.map_values(|e: (String, String)| (e.0@, e.1@))
}

impl View for AttributeMap {
    type V = Entries;

    closed spec fn view(&self) -> Entries {
        entries_view(self.entries@)
    }
}

/// One selected element.
#[derive(Debug, Clone)]
pub struct XPathNode {
    pub text: String,
    pub attributes: AttributeMap,
    pub html: String,
    pub outer_html: String,
    pub name: String,
}

pub struct NodeItem {
    pub text: Seq<char>,
    pub attributes: Entries,
    pub html: Seq<char>,
    pub outer_html: Seq<char>,
    pub name: Seq<char>,
}

impl View for XPathNode {
    type V = NodeItem;

    open spec fn view(&self) -> NodeItem {
        NodeItem {
            text: self.text@,
            attributes: self.attributes@,
            html: self.html@,
            outer_html: self.outer_html@,
            name: self.name@,
        }
    }
}

pub open spec fn items_view(s: Seq<XPathNode>) -> Seq<NodeItem> {
    s.map_values(|x: XPathNode| x@)
}

/// The value of an expression: selected elements, or a string (the value of
/// an attribute step), or a boolean.
#[derive(Debug, Clone)]
pub enum XPathValue {
    Nodes(Vec<XPathNode>),
    String(String),
    Bool(bool),
}

pub enum ValueView {
    Nodes(Seq<NodeItem>),
    String(Seq<char>),
    Bool(bool),
}

impl View for XPathValue {
    type V = ValueView;

    open spec fn view(&self) -> ValueView {
        match self {
            XPathValue::Nodes(n) => ValueView::Nodes(items_view(n@)),
            XPathValue::String(s) => ValueView::String(s@),
            XPathValue::Bool(b) => ValueView::Bool(*b),
        }
    }
}

// ---------------------------------------------------------------------------
// The selected element as a result
// ---------------------------------------------------------------------------

/// The text nodes below `kids`, in document order.
pub open spec fn texts(kids: Seq<NodeView>) -> Seq<Seq<char>>
    decreases kids,
{
    if kids.len() == 0 {
        Seq::empty()
    } else {
        texts(kids.drop_last()) + match kids.last() {
            NodeView::Text(t) => seq![t],
            NodeView::Element(c) => texts(c.children),
            NodeView::Other => Seq::empty(),
        }
    }
}

/// The attributes as a map from local name to value.
pub open spec fn attr_entries(attrs: Seq<AttrView>) -> Entries
    decreases attrs.len(),
{
    if attrs.len() == 0 {
        Seq::empty()
    } else {
        entries_insert(attr_entries(attrs.drop_last()), attrs.last().name, attrs.last().value)
    }
}

/// ` name="value"` for each attribute, space separated.
pub open spec fn attrs_text(attrs: Seq<AttrView>) -> Seq<char> {
    if attrs.len() == 0 {
        Seq::empty()
    } else {
        seq![' '] + join(
            attrs.map_values(|a: AttrView| a.name + "=\""@ + a.value + "\""@),
            seq![' '],
        )
    }
}

/// `<name attrs>inner</name>`.
pub open spec fn outer_html_of(e: ElementView) -> Seq<char> {
    seq!['<'] + e.name + attrs_text(e.attrs) + seq!['>'] + e.inner_html + seq!['<', '/'] + e.name
        + seq!['>']
}

/// The result entry of a selected element: its text is the text nodes below
/// it joined by spaces and trimmed.
pub open spec fn node_item(e: ElementView) -> NodeItem {
    NodeItem {
        text: trim(join(texts(e.children), seq![' '])),
        attributes: attr_entries(e.attrs),
        html: e.inner_html,
        outer_html: outer_html_of(e),
        name: e.name,
    }
}

// ---------------------------------------------------------------------------
// Predicates
// ---------------------------------------------------------------------------

/// Position of an element among the element siblings of the same name
/// (1-based) and their number.
pub struct PosCtx {
    pub pos: int,
    pub count: int,
}

/// The value of the attribute `name` without namespace.
pub open spec fn attr_value(attrs: Seq<AttrView>, name: Seq<char>) -> Option<Seq<char>>
    decreases attrs.len(),
{
    if attrs.len() == 0 {
        None
    } else if attrs[0].ns.len() == 0 && attrs[0].name == name {
        Some(attrs[0].value)
    } else {
        attr_value(attrs.drop_first(), name)
    }
}

/// A literal with surrounding quotes removed.
pub open spec fn unquote(s: Seq<char>) -> Seq<char> {
    trim_char(trim_char(trim(s), '\''), '"')
}

/// `contains(@attr, 'value')`, when `p` has that form.
pub open spec fn contains_pred(attrs: Seq<AttrView>, p: Seq<char>) -> Option<bool> {
    if p.len() >= 10 && starts_with(p, "contains("@) && ends_with(p, ")"@) {
        let inner = p.subrange(9, p.len() - 1);
        match find(inner, ',') {
            Some(c) => {
                let arg = trim(inner.take(c));
                let needle = unquote(inner.skip(c + 1));
                if arg.len() > 0 && arg[0] == '@' {
                    Some(
                        match attr_value(attrs, trim(arg.drop_first())) {
                            Some(v) => contains(v, needle),
                            None => false,
                        },
                    )
                } else {
                    None
                }
            },
            None => None,
        }
    } else {
        None
    }
}

/// Whether an element satisfies a predicate: a number (position among the
/// same-named siblings), `@a='v'`, `@a`, `contains(@a,'v')`, `not(..)`,
/// `position()=n`, `last()`; any other text holds.
pub open spec fn pred_holds(attrs: Seq<AttrView>, ctx: PosCtx, pred: Seq<char>) -> bool
    decreases pred.len(),
{
    let p = trim(pred);
    if p.len() == 0 {
        true
    } else if parse_usize(p) is Some {
        ctx.pos == parse_usize(p)->0
    } else if p[0] == '@' {
        let rest = p.drop_first();
        match find(rest, '=') {
            Some(i) => attr_value(attrs, trim(rest.take(i))) == Some(unquote(rest.skip(i + 1))),
            None => attr_value(attrs, trim_start_char(p, '@')) is Some,
        }
    } else if contains_pred(attrs, p) is Some {
        contains_pred(attrs, p)->0
    } else if p.len() >= 5 && starts_with(p, "not("@) && ends_with(p, ")"@) {
        proof {
            lemma_trim_len(pred);
        }
        !pred_holds(attrs, ctx, p.subrange(4, p.len() - 1))
    } else if contains(p, "position()"@) && find(p, '=') is Some {
        ctx.pos == match parse_usize(trim(p.skip(find(p, '=')->0 + 1))) {
            Some(n) => n as int,
            None => 0,
        }
    } else if p == "last()"@ {
        ctx.pos == ctx.count
    } else {
        true
    }
}

/// All predicates hold.
pub open spec fn preds_hold(attrs: Seq<AttrView>, ctx: PosCtx, preds: Seq<Seq<char>>) -> bool {
    forall|i: int| 0 <= i < preds.len() ==> pred_holds(attrs, ctx, #[trigger] preds[i])
}

pub open spec fn test_matches(e: ElementView, t: TestView) -> bool {
    match t {
        TestView::NameTest(n) => e.name == n,
        TestView::Wildcard => true,
        TestView::TextNode => false,
        TestView::CommentNode => false,
    }
}

/// Number of element nodes named `name` in `kids`.
pub open spec fn name_count(kids: Seq<NodeView>, name: Seq<char>) -> int
    decreases kids.len(),
{
    if kids.len() == 0 {
        0
    } else {
        name_count(kids.drop_last(), name) + match kids.last() {
            NodeView::Element(c) => if c.name == name {
                1int
            } else {
                0int
            },
            _ => 0int,
        }
    }
}

/// The sibling context of child `i` of a node with children `kids`.
pub open spec fn child_ctx(kids: Seq<NodeView>, i: int, name: Seq<char>) -> PosCtx {
    PosCtx { pos: name_count(kids.take(i + 1), name), count: name_count(kids, name) }
}

// ---------------------------------------------------------------------------
// Walking the tree
// ---------------------------------------------------------------------------

/// An ancestor of the element being visited, with its sibling context.
pub struct Up {
    pub elem: ElementView,
    pub ctx: PosCtx,
}

/// The positions (see [`DomElement::pos`]) of the elements selected by the
/// steps from `idx` on, starting at `e`, whose sibling context is `ctx` and
/// whose ancestors are `ups` (the root element first; none for the root
/// element, whose parent is the document node).
pub open spec fn eval(e: ElementView, ctx: PosCtx, ups: Seq<Up>, steps: Seq<StepView>, idx: int) -> Seq<int>
    decreases steps.len() - idx, e, e.children.len() + 1,
{
    if idx < 0 || idx >= steps.len() {
        seq![e.pos]
    } else {
        let st = steps[idx];
        let here = if test_matches(e, st.node_test) && preds_hold(e.attrs, ctx, st.predicates) {
            eval(e, ctx, ups, steps, idx + 1)
        } else {
            Seq::empty()
        };
        match st.axis {
            Axis::Child => eval_kids(e, ctx, ups, steps, idx, e.children.len() as int),
            Axis::Descendant => eval_kids(e, ctx, ups, steps, idx, e.children.len() as int),
            Axis::DescendantOrSelf => here + eval_kids(e, ctx, ups, steps, idx, e.children.len() as int),
            Axis::Self_ => here,
            Axis::Parent => if ups.len() > 0 {
                if test_matches(ups.last().elem, st.node_test) && preds_hold(
                    ups.last().elem.attrs,
                    ups.last().ctx,
                    st.predicates,
                ) {
                    eval(ups.last().elem, ups.last().ctx, ups.drop_last(), steps, idx + 1)
                } else {
                    Seq::empty()
                }
            } else if doc_matches(st) {
                eval_doc(e, steps, idx + 1)
            } else {
                Seq::empty()
            },
            _ => Seq::empty(),
        }
    }
}

/// What the first `n` children of `e` contribute to step `idx`.
pub open spec fn eval_kids(e: ElementView, ctx: PosCtx, ups: Seq<Up>, steps: Seq<StepView>, idx: int, n: int) -> Seq<int>
    decreases steps.len() - idx, e, n,
{
    if n <= 0 || n > e.children.len() || idx < 0 || idx >= steps.len() {
        Seq::empty()
    } else {
        let st = steps[idx];
        let kups = ups.push(Up { elem: e, ctx });
        eval_kids(e, ctx, ups, steps, idx, n - 1) + match e.children[n - 1] {
            NodeView::Element(c) => {
                let cctx = child_ctx(e.children, n - 1, c.name);
                if st.axis == Axis::DescendantOrSelf {
                    eval(c, cctx, kups, steps, idx)
                } else {
                    (if test_matches(c, st.node_test) && preds_hold(c.attrs, cctx, st.predicates) {
                        eval(c, cctx, kups, steps, idx + 1)
                    } else {
                        Seq::empty()
                    }) + (if st.axis == Axis::Descendant {
                        eval(c, cctx, kups, steps, idx)
                    } else {
                        Seq::empty()
                    })
                }
            },
            _ => Seq::empty(),
        }
    }
}

/// The root element is the only element child of the document node.
pub open spec fn root_ctx() -> PosCtx {
    PosCtx { pos: 1, count: 1 }
}

/// Whether the document node passes a step's node test and predicates: it
/// is no element, so only the wildcard of `.` and `//` lets it through.
pub open spec fn doc_matches(st: StepView) -> bool {
    st.node_test is Wildcard && preds_hold(Seq::empty(), root_ctx(), st.predicates)
}

/// The positions of the elements selected by the steps from `idx` on,
/// starting at the document node, whose only child is the root element.
/// The document node is no element: where it is selected itself (by `.`,
/// `/` or a trailing `//`), the root element, which holds all of its
/// content, stands for it.
pub open spec fn eval_doc(root: ElementView, steps: Seq<StepView>, idx: int) -> Seq<int>
    decreases steps.len() - idx, root, root.children.len() + 2,
{
    if idx < 0 || idx >= steps.len() {
        seq![root.pos]
    } else {
        let st = steps[idx];
        let root_step = if test_matches(root, st.node_test) && preds_hold(root.attrs, root_ctx(), st.predicates) {
            eval(root, root_ctx(), Seq::empty(), steps, idx + 1)
        } else {
            Seq::empty()
        };
        let here = if doc_matches(st) {
            eval_doc(root, steps, idx + 1)
        } else {
            Seq::empty()
        };
        match st.axis {
            Axis::Child => root_step,
            Axis::Descendant => root_step + eval(root, root_ctx(), Seq::empty(), steps, idx),
            Axis::DescendantOrSelf => here + eval(root, root_ctx(), Seq::empty(), steps, idx),
            Axis::Self_ => here,
            _ => Seq::empty(),
        }
    }
}

/// The elements of the tree of `e` whose position is among `ps`, each once,
/// in document order.
pub open spec fn in_order(e: ElementView, ps: Seq<int>) -> Seq<NodeItem>
    decreases e, e.children.len() + 1,
{
    (if ps.contains(e.pos) {
        seq![node_item(e)]
    } else {
        Seq::empty()
    }) + in_order_kids(e, ps, e.children.len() as int)
}

/// What the trees of the first `n` children of `e` contribute to [`in_order`].
pub open spec fn in_order_kids(e: ElementView, ps: Seq<int>, n: int) -> Seq<NodeItem>
    decreases e, n,
{
    if n <= 0 || n > e.children.len() {
        Seq::empty()
    } else {
        in_order_kids(e, ps, n - 1) + match e.children[n - 1] {
            NodeView::Element(c) => in_order(c, ps),
            _ => Seq::empty(),
        }
    }
}

/// The value of attribute `test` on the first of `items` that has one
/// (empty when none has).
pub open spec fn first_attribute(items: Seq<NodeItem>, test: TestView) -> Seq<char>
    decreases items.len(),
{
    if items.len() == 0 {
        Seq::empty()
    } else {
        let es = items[0].attributes;
        match test {
            TestView::NameTest(n) => match entries_get(es, n) {
                Some(v) => v,
                None => first_attribute(items.drop_first(), test),
            },
            TestView::Wildcard => if es.len() > 0 {
                es[0].1
            } else {
                first_attribute(items.drop_first(), test)
            },
            _ => Seq::empty(),
        }
    }
}

/// What a path selects: the positions of elements, or a text (the value of
/// an attribute step).
pub enum Selection {
    Elements(Seq<int>),
    Text(Seq<char>),
}

/// A path that starts with `/` is absolute: it is evaluated from the
/// document node; any other path is evaluated from the root element.
pub open spec fn is_absolute(xpath: Seq<char>) -> bool {
    starts_with(trim(xpath), "/"@)
}

/// The positions of the elements that `steps` reach, from the document node
/// when `absolute` holds and from the root element otherwise.
pub open spec fn reach(root: ElementView, steps: Seq<StepView>, absolute: bool) -> Seq<int> {
    if absolute {
        eval_doc(root, steps, 0)
    } else {
        eval(root, root_ctx(), Seq::empty(), steps, 0)
    }
}

/// What a path without `|` selects: the elements its steps reach, or, when
/// the last step is an attribute step, that attribute of the first reached
/// element (in document order) that has it.
pub open spec fn path_select(root: ElementView, steps: Seq<StepView>, absolute: bool) -> Selection {
    if steps.len() > 0 && steps.last().axis == Axis::Attribute {
        Selection::Text(
            first_attribute(in_order(root, reach(root, steps.drop_last(), absolute)), steps.last().node_test),
        )
    } else {
        Selection::Elements(reach(root, steps, absolute))
    }
}

/// The union of two selections: the elements of either; a left side that
/// selects no elements gives the right side.
pub open spec fn union_select(left: Selection, right: Selection) -> Selection {
    match left {
        Selection::Elements(a) => match right {
            Selection::Elements(b) => Selection::Elements(a + b),
            _ => Selection::Elements(a),
        },
        _ => right,
    }
}

/// What `xpath` selects: split at the first `|`, both sides trimmed.
pub open spec fn select(root: ElementView, xpath: Seq<char>) -> Selection
    decreases xpath.len(),
{
    if xpath.len() == 0 {
        Selection::Elements(Seq::empty())
    } else {
        match find(xpath, '|') {
            Some(i) => {
                proof {
                    crate::text::lemma_find_some(xpath, '|');
                    lemma_trim_len(xpath.take(i));
                    lemma_trim_len(xpath.skip(i + 1));
                }
                union_select(select(root, trim(xpath.take(i))), select(root, trim(xpath.skip(i + 1))))
            },
            None => path_select(root, path_steps(xpath), is_absolute(xpath)),
        }
    }
}

/// The value of a selection: the selected elements, each once and in
/// document order, or the text.
pub open spec fn value_of(root: ElementView, sel: Selection) -> ValueView {
    match sel {
        Selection::Elements(ps) => ValueView::Nodes(in_order(root, ps)),
        Selection::Text(t) => ValueView::String(t),
    }
}

/// The union of two values: node lists are concatenated; a left side that
/// is not a node list gives the right side.
pub open spec fn merge(left: ValueView, right: ValueView) -> ValueView {
    match left {
        ValueView::Nodes(l) => match right {
            ValueView::Nodes(r) => ValueView::Nodes(l + r),
            _ => ValueView::Nodes(l),
        },
        _ => right,
    }
}

/// The value of `xpath` on the document given by `toks` (nothing for the
/// empty expression).
pub open spec fn eval_xpath(toks: Seq<TokenView>, xpath: Seq<char>) -> ValueView {
    if xpath.len() == 0 {
        ValueView::Nodes(Seq::empty())
    } else {
        value_of(document_of(toks), select(document_of(toks), xpath))
    }
}

// ---------------------------------------------------------------------------
// Attribute maps
// ---------------------------------------------------------------------------

/// What `key_index` gives: the last entry with the key, or nothing when
/// no entry has it.
pub proof fn lemma_key_index(es: Entries, k: Seq<char>)
    ensures
        match key_index(es, k) {
            Some(i) => 0 <= i < es.len() && es[i].0 == k && forall|j: int| i < j < es.len() ==> es[j].0 != k,
            None => forall|j: int| 0 <= j < es.len() ==> es[j].0 != k,
        },
    decreases es.len(),
{
    if es.len() > 0 && es.last().0 != k {
        lemma_key_index(es.drop_last(), k);
        assert forall|j: int| 0 <= j < es.len() - 1 implies es.drop_last()[j] == es[j] by {}
    }
}

proof fn lemma_key_index_at(es: Entries, k: Seq<char>, i: int)
    requires
        0 <= i < es.len(),
        es[i].0 == k,
        forall|j: int| i < j < es.len() ==> es[j].0 != k,
    ensures
        key_index(es, k) == Some(i),
    decreases es.len(),
{
    if i < es.len() - 1 {
        lemma_key_index_at(es.drop_last(), k, i);
    }
}

proof fn lemma_key_index_none(es: Entries, k: Seq<char>)
    requires
        forall|j: int| 0 <= j < es.len() ==> es[j].0 != k,
    ensures
        key_index(es, k) is None,
    decreases es.len(),
{
    if es.len() > 0 {
        lemma_key_index_none(es.drop_last(), k);
    }
}

/// Reading a key back after storing it gives the stored value.
pub proof fn law_get_after_insert(es: Entries, k: Seq<char>, v: Seq<char>)
    ensures
        entries_get(entries_insert(es, k, v), k) == Some(v),
{
    lemma_key_index(es, k);
    let es2 = entries_insert(es, k, v);
    match key_index(es, k) {
        Some(i) => {
            assert forall|j: int| i < j < es2.len() implies es2[j].0 != k by {
                assert(es2[j] == es[j]);
            }
            lemma_key_index_at(es2, k, i);
        },
        None => {
            lemma_key_index_at(es2, k, es.len() as int);
        },
    }
}

/// Storing a key leaves every other key's value as it was.
pub proof fn law_insert_keeps_others(es: Entries, k: Seq<char>, v: Seq<char>, other: Seq<char>)
    requires
        other != k,
    ensures
        entries_get(entries_insert(es, k, v), other) == entries_get(es, other),
{
    lemma_key_index(es, k);
    lemma_key_index(es, other);
    let es2 = entries_insert(es, k, v);
    match key_index(es, other) {
        Some(i) => {
            assert forall|j: int| i < j < es2.len() implies es2[j].0 != other by {
                if j < es.len() && j != key_index(es, k)->0 {
                    assert(es2[j] == es[j]);
                }
            }
            lemma_key_index_at(es2, other, i);
        },
        None => {
            assert forall|j: int| 0 <= j < es2.len() implies es2[j].0 != other by {
                if j < es.len() && (key_index(es, k) is None || j != key_index(es, k)->0) {
                    assert(es2[j] == es[j]);
                }
            }
            lemma_key_index_none(es2, other);
        },
    }
}

/// Storing keeps keys unique.
pub proof fn law_insert_keeps_keys_unique(es: Entries, k: Seq<char>, v: Seq<char>)
    requires
        keys_unique(es),
    ensures
        keys_unique(entries_insert(es, k, v)),
{
    lemma_key_index(es, k);
    let es2 = entries_insert(es, k, v);
    assert forall|i: int, j: int| 0 <= i < j < es2.len() implies es2[i].0 != es2[j].0 by {
        if j == es.len() {
            assert(es2[i] == es[i]);
        } else {
            if i != key_index(es, k)->0 || key_index(es, k) is None {
                assert(es2[i].0 == es[i].0);
            }
            if key_index(es, k) is None || j != key_index(es, k)->0 {
                assert(es2[j].0 == es[j].0);
            }
        }
    }
}

impl AttributeMap {
    pub fn new() -> (r: Self)
        ensures
            r@ == Seq::<(Seq<char>, Seq<char>)>::empty(),
    {
        let r = AttributeMap { entries: Vec::new() };
        assert(r@ =~= Seq::<(Seq<char>, Seq<char>)>::empty());
        r
    }

    fn index_of(&self, key: &Vec<char>) -> (r: Option<usize>)
        ensures
            r matches Some(i) ==> key_index(self@, key@) == Some(i as int) && i < self.entries@.len(),
            r is None ==> key_index(self@, key@) is None,
    {
        let mut i = self.entries.len();
        while i > 0
            invariant
                i <= self.entries.len(),
                forall|j: int| i <= j < self.entries@.len() ==> self@[j].0 != key@,
            decreases i,
        {
            let k = to_chars(self.entries[i - 1].0.as_str());
            if chars_eq(&k, key) {
                proof {
                    lemma_key_index_at(self@, key@, i - 1);
                }
                return Some(i - 1);
            }
            i -= 1;
        }
        proof {
            lemma_key_index_none(self@, key@);
        }
        None
    }

    /// Stores `value` for `key` (see [`entries_insert`]).
    pub fn insert(&mut self, key: String, value: String)
        ensures
            final(self)@ == entries_insert(old(self)@, key@, value@),
    {
        let kc = to_chars(key.as_str());
        let ghost old_v = self@;
        match self.index_of(&kc) {
            Some(i) => {
                let ghost kv = (key@, value@);
                self.entries.set(i, (key, value));
                assert(self@ =~= old_v.update(i as int, kv));
            },
            None => {
                let ghost kv = (key@, value@);
                self.entries.push((key, value));
                assert(self@ =~= old_v.push(kv));
            },
        }
    }

    /// The value stored for `key`.
    pub fn get(&self, key: &str) -> (r: Option<&String>)
        ensures
            match entries_get(self@, key@) {
                Some(v) => r matches Some(s) && s@ == v,
                None => r is None,
            },
    {
        match self.index_of(&to_chars(key)) {
            Some(i) => Some(&self.entries[i].1),
            None => None,
        }
    }

    /// Number of attributes.
    pub fn len(&self) -> (r: usize)
        ensures
            r == self@.len(),
    {
        self.entries.len()
    }

    /// The name and value at position `i`.
    pub fn entry(&self, i: usize) -> (r: (&String, &String))
        requires
            i < self@.len(),
        ensures
            (r.0@, r.1@) == self@[i as int],
    {
        (&self.entries[i].0, &self.entries[i].1)
    }
}

// ---------------------------------------------------------------------------
// Building results
// ---------------------------------------------------------------------------

fn collect_texts(kids: &Vec<DomNode>, out: &mut Vec<Vec<char>>)
    ensures
        char_views(final(out)@) == char_views(old(out)@) + texts(kids_view(kids@)),
    decreases kids@,
{
    proof {
        lemma_kids_view(kids@);
    }
    let ghost kv = kids_view(kids@);
    let ghost start = char_views(out@);
    let mut i: usize = 0;
    assert(kv.take(0) =~= Seq::<NodeView>::empty());
    while i < kids.len()
        invariant
            i <= kids.len(),
            kv == kids_view(kids@),
            kv.len() == kids@.len(),
            forall|j: int| 0 <= j < kids@.len() ==> #[trigger] kv[j] == node_view(kids@[j]),
            char_views(out@) == start + texts(kv.take(i as int)),
        decreases kids.len() - i,
    {
        assert(kv.take(i + 1).drop_last() =~= kv.take(i as int));
        assert(kv.take(i + 1).last() == node_view(kids@[i as int]));
        match &kids[i] {
            DomNode::Text(t) => {
                let ghost before = char_views(out@);
                out.push(to_chars(t.as_str()));
                assert(char_views(out@) =~= before.push(t@));
                assert(start + texts(kv.take(i + 1)) =~= start + texts(kv.take(i as int)) + seq![t@]);
            },
            DomNode::Element(c) => {
                let ghost before = char_views(out@);
                collect_texts(&c.children, out);
                assert(start + texts(kv.take(i + 1)) =~= start + texts(kv.take(i as int)) + texts(
                    kids_view(c.children@),
                ));
            },
            DomNode::Other => {
                assert(start + texts(kv.take(i + 1)) =~= start + texts(kv.take(i as int)));
            },
        }
        i += 1;
    }
    assert(kv.take(kids.len() as int) =~= kv);
}

fn attrs_text_exec(attrs: &Vec<DomAttr>) -> (r: Vec<char>)
    ensures
        r@ == attrs_text(attrs_view(attrs@)),
{
    let ghost av = attrs_view(attrs@);
    if attrs.len() == 0 {
        return Vec::new();
    }
    let mut parts: Vec<Vec<char>> = Vec::new();
    let mut i: usize = 0;
    let ghost f = |a: AttrView| a.name + "=\""@ + a.value + "\""@;
    while i < attrs.len()
        invariant
            i <= attrs.len(),
            av == attrs_view(attrs@),
            f == (|a: AttrView| a.name + "=\""@ + a.value + "\""@),
            char_views(parts@) == av.take(i as int).map_values(f),
        decreases attrs.len() - i,
    {
        let mut part = to_chars(attrs[i].name.as_str());
        append_str(&mut part, "=\"");
        append_str(&mut part, attrs[i].value.as_str());
        append_str(&mut part, "\"");
        let ghost before = char_views(parts@);
        parts.push(part);
        assert(char_views(parts@) =~= before.push(f(av[i as int])));
        assert(av.take(i + 1).map_values(f) =~= av.take(i as int).map_values(f).push(f(av[i as int])));
        i += 1;
    }
    assert(av.take(attrs.len() as int) =~= av);
    let mut r: Vec<char> = Vec::new();
    r.push(' ');
    let mut sep: Vec<char> = Vec::new();
    sep.push(' ');
    let j = join_exec(&parts, &sep);
    append_chars(&mut r, &j);
    assert(sep@ =~= seq![' ']);
    assert(r@ =~= seq![' '] + j@);
    r
}

fn attr_entries_exec(attrs: &Vec<DomAttr>) -> (r: AttributeMap)
    ensures
        r@ == attr_entries(attrs_view(attrs@)),
{
    let ghost av = attrs_view(attrs@);
    let mut m = AttributeMap::new();
    let mut i: usize = 0;
    assert(av.take(0) =~= Seq::<AttrView>::empty());
    while i < attrs.len()
        invariant
            i <= attrs.len(),
            av == attrs_view(attrs@),
            m@ == attr_entries(av.take(i as int)),
        decreases attrs.len() - i,
    {
        assert(av.take(i + 1).drop_last() =~= av.take(i as int));
        assert(av.take(i + 1).last() == attrs@[i as int]@);
        m.insert(attrs[i].name.clone(), attrs[i].value.clone());
        i += 1;
    }
    assert(av.take(attrs.len() as int) =~= av);
    m
}

/// The result entry of a selected element (see [`node_item`]).
pub fn node_to_xpath(e: &DomElement) -> (r: XPathNode)
    ensures
        r@ == node_item(elem_view(*e)),
{
    let mut ts: Vec<Vec<char>> = Vec::new();
    collect_texts(&e.children, &mut ts);
    assert(char_views(ts@) =~= texts(kids_view(e.children@)));
    let mut sp: Vec<char> = Vec::new();
    sp.push(' ');
    assert(sp@ =~= seq![' ']);
    let text = trim_exec(&join_exec(&ts, &sp));
    let mut outer: Vec<char> = Vec::new();
    outer.push('<');
    let name = to_chars(e.name.as_str());
    append_chars(&mut outer, &name);
    append_chars(&mut outer, &attrs_text_exec(&e.attrs));
    outer.push('>');
    append_chars(&mut outer, &to_chars(e.inner_html.as_str()));
    outer.push('<');
    outer.push('/');
    append_chars(&mut outer, &name);
    outer.push('>');
    let ghost ev = elem_view(*e);
    assert(outer@ =~= outer_html_of(ev));
    XPathNode {
        text: from_chars(&text),
        attributes: attr_entries_exec(&e.attrs),
        html: e.inner_html.clone(),
        outer_html: from_chars(&outer),
        name: e.name.clone(),
    }
}

// ---------------------------------------------------------------------------
// Evaluating predicates
// ---------------------------------------------------------------------------

fn attr_value_exec(attrs: &Vec<DomAttr>, name: &Vec<char>) -> (r: Option<Vec<char>>)
    ensures
        opt_chars(r) == attr_value(attrs_view(attrs@), name@),
{
    let ghost av = attrs_view(attrs@);
    let mut i: usize = 0;
    assert(av.skip(0) =~= av);
    while i < attrs.len()
        invariant
            i <= attrs.len(),
            av == attrs_view(attrs@),
            attr_value(av, name@) == attr_value(av.skip(i as int), name@),
        decreases attrs.len() - i,
    {
        let a = &attrs[i];
        assert(av.skip(i as int)[0] == a@);
        assert(av.skip(i as int).drop_first() =~= av.skip(i + 1));
        if a.ns.as_str().is_empty() && eq_str(name, a.name.as_str()) {
            return Some(to_chars(a.value.as_str()));
        }
        i += 1;
    }
    None
}

fn unquote_exec(v: &Vec<char>) -> (r: Vec<char>)
    ensures
        r@ == unquote(v@),
{
    trim_char_exec(&trim_char_exec(&trim_exec(v), '\''), '"')
}

fn contains_pred_exec(attrs: &Vec<DomAttr>, p: &Vec<char>) -> (r: Option<bool>)
    ensures
        r == contains_pred(attrs_view(attrs@), p@),
{
    if p.len() >= 10 && starts_with_str(p, "contains(") && ends_with_str(p, ")") {
        let inner = slice_chars(p, 9, p.len() - 1);
        match find_char(&inner, ',') {
            Some(c) => {
                let arg = trim_exec(&slice_chars(&inner, 0, c));
                assert(inner@.subrange(0, c as int) =~= inner@.take(c as int));
                let needle = unquote_exec(&slice_chars(&inner, c + 1, inner.len()));
                assert(inner@.subrange(c + 1, inner@.len() as int) =~= inner@.skip(c + 1));
                if arg.len() > 0 && arg[0] == '@' {
                    let an = trim_exec(&slice_chars(&arg, 1, arg.len()));
                    assert(arg@.subrange(1, arg@.len() as int) =~= arg@.drop_first());
                    Some(
                        match attr_value_exec(attrs, &an) {
                            Some(v) => contains_exec(&v, &needle),
                            None => false,
                        },
                    )
                } else {
                    None
                }
            },
            None => None,
        }
    } else {
        None
    }
}

fn pred_holds_exec(attrs: &Vec<DomAttr>, pos: usize, count: usize, pred: &Vec<char>) -> (r: bool)
    ensures
        r == pred_holds(attrs_view(attrs@), PosCtx { pos: pos as int, count: count as int }, pred@),
    decreases pred.len(),
{
    let ghost av = attrs_view(attrs@);
    let ghost ctx = PosCtx { pos: pos as int, count: count as int };
    let p = trim_exec(pred);
    proof {
        lemma_trim_len(pred@);
    }
    if p.len() == 0 {
        return true;
    }
    match parse_usize_exec(&p) {
        Some(n) => {
            return pos == n;
        },
        None => {},
    }
    if p[0] == '@' {
        let rest = slice_chars(&p, 1, p.len());
        assert(rest@ =~= p@.drop_first());
        match find_char(&rest, '=') {
            Some(i) => {
                let an = trim_exec(&slice_chars(&rest, 0, i));
                assert(rest@.subrange(0, i as int) =~= rest@.take(i as int));
                let want = unquote_exec(&slice_chars(&rest, i + 1, rest.len()));
                assert(rest@.subrange(i + 1, rest@.len() as int) =~= rest@.skip(i + 1));
                let got = attr_value_exec(attrs, &an);
                return match got {
                    Some(g) => chars_eq(&g, &want),
                    None => false,
                };
            },
            None => {
                let an = trim_start_char_exec(&p, '@');
                return attr_value_exec(attrs, &an).is_some();
            },
        }
    }
    match contains_pred_exec(attrs, &p) {
        Some(b) => {
            return b;
        },
        None => {},
    }
    if p.len() >= 5 && starts_with_str(&p, "not(") && ends_with_str(&p, ")") {
        let inner = slice_chars(&p, 4, p.len() - 1);
        return !pred_holds_exec(attrs, pos, count, &inner);
    }
    let pc = to_chars("position()");
    if contains_exec(&p, &pc) {
        match find_char(&p, '=') {
            Some(i) => {
                let numtext = trim_exec(&slice_chars(&p, i + 1, p.len()));
                assert(p@.subrange(i + 1, p@.len() as int) =~= p@.skip(i + 1));
                let n: usize = match parse_usize_exec(&numtext) {
                    Some(n) => n,
                    None => 0,
                };
                return pos == n;
            },
            None => {},
        }
    }
    if eq_str(&p, "last()") {
        return pos == count;
    }
    true
}

fn preds_hold_exec(attrs: &Vec<DomAttr>, pos: usize, count: usize, preds: &Vec<String>) -> (r: bool)
    ensures
        r == preds_hold(attrs_view(attrs@), PosCtx { pos: pos as int, count: count as int }, strings_view(preds@)),
{
    let ghost pv = strings_view(preds@);
    let mut i: usize = 0;
    while i < preds.len()
        invariant
            i <= preds.len(),
            pv == strings_view(preds@),
            forall|j: int| 0 <= j < i ==> pred_holds(attrs_view(attrs@), PosCtx { pos: pos as int, count: count as int }, #[trigger] pv[j]),
        decreases preds.len() - i,
    {
        if !pred_holds_exec(attrs, pos, count, &to_chars(preds[i].as_str())) {
            assert(pv[i as int] == preds@[i as int]@);
            return false;
        }
        i += 1;
    }
    true
}

fn test_matches_exec(e: &DomElement, t: &NodeTest) -> (r: bool)
    ensures
        r == test_matches(elem_view(*e), t@),
{
    match t {
        NodeTest::NameTest(n) => {
            let a = to_chars(e.name.as_str());
            let b = to_chars(n.as_str());
            chars_eq(&a, &b)
        },
        NodeTest::Wildcard => true,
        NodeTest::TextNode => false,
        NodeTest::CommentNode => false,
    }
}

fn name_count_exec(kids: &Vec<DomNode>, upto: usize, name: &String) -> (r: usize)
    requires
        upto <= kids.len(),
    ensures
        r as int == name_count(kids_view(kids@).take(upto as int), name@),
        r <= upto,
{
    proof {
        lemma_kids_view(kids@);
    }
    let ghost kv = kids_view(kids@);
    let nm = to_chars(name.as_str());
    let mut n: usize = 0;
    let mut i: usize = 0;
    assert(kv.take(0) =~= Seq::<NodeView>::empty());
    while i < upto
        invariant
            i <= upto <= kids.len(),
            kv == kids_view(kids@),
            kv.len() == kids@.len(),
            forall|j: int| 0 <= j < kids@.len() ==> #[trigger] kv[j] == node_view(kids@[j]),
            nm@ == name@,
            n <= i,
            n as int == name_count(kv.take(i as int), name@),
        decreases upto - i,
    {
        assert(kv.take(i + 1).drop_last() =~= kv.take(i as int));
        assert(kv.take(i + 1).last() == node_view(kids@[i as int]));
        match &kids[i] {
            DomNode::Element(c) => {
                if chars_eq(&to_chars(c.name.as_str()), &nm) {
                    n += 1;
                }
            },
            _ => {},
        }
        i += 1;
    }
    n
}

// ---------------------------------------------------------------------------
// Evaluating paths
// ---------------------------------------------------------------------------

/// Positions as integers.
pub open spec fn pos_view(s: Seq<usize>) -> Seq<int> {
    s.map_values(|p: usize| p as int)
}

/// The ancestors, as [`Up`]s.
pub open spec fn ups_view<'a>(v: Seq<(&'a DomElement, usize, usize)>) -> Seq<Up> {
    v.map_values(|x: (&'a DomElement, usize, usize)| Up { elem: elem_view(*x.0), ctx: PosCtx { pos: x.1 as int, count: x.2 as int } })
}

fn ups_take<'a>(ups: &Vec<(&'a DomElement, usize, usize)>, n: usize) -> (r: Vec<(&'a DomElement, usize, usize)>)
    requires
        n <= ups.len(),
    ensures
        ups_view(r@) == ups_view(ups@).take(n as int),
{
    let mut r: Vec<(&'a DomElement, usize, usize)> = Vec::new();
    let mut i: usize = 0;
    while i < n
        invariant
            i <= n <= ups.len(),
            ups_view(r@) == ups_view(ups@).take(i as int),
        decreases n - i,
    {
        let x = ups[i];
        let ghost before = ups_view(r@);
        r.push(x);
        assert(ups_view(r@) =~= before.push(ups_view(ups@)[i as int]));
        assert(ups_view(ups@).take(i + 1) =~= ups_view(ups@).take(i as int).push(ups_view(ups@)[i as int]));
        i += 1;
    }
    r
}

fn eval_exec<'a>(
    e: &'a DomElement,
    pos: usize,
    count: usize,
    ups: &Vec<(&'a DomElement, usize, usize)>,
    steps: &Vec<XPathStep>,
    idx: usize,
) -> (r: Vec<usize>)
    requires
        idx <= steps.len(),
    ensures
        pos_view(r@) == eval(
            elem_view(*e),
            PosCtx { pos: pos as int, count: count as int },
            ups_view(ups@),
            steps_view(steps@),
            idx as int,
        ),
    decreases steps.len() - idx, *e, 0int,
{
    let ghost ev = elem_view(*e);
    let ghost sv = steps_view(steps@);
    let ghost uv = ups_view(ups@);
    let ghost ctx = PosCtx { pos: pos as int, count: count as int };
    if idx >= steps.len() {
        let mut out: Vec<usize> = Vec::new();
        out.push(e.pos);
        assert(pos_view(out@) =~= seq![ev.pos]);
        return out;
    }
    let st = &steps[idx];
    assert(sv[idx as int] == st@);
    let mut out: Vec<usize> = Vec::new();
    let ghost here = if test_matches(ev, st@.node_test) && preds_hold(ev.attrs, ctx, st@.predicates) {
        eval(ev, ctx, uv, sv, idx + 1)
    } else {
        Seq::empty()
    };
    if st.axis == Axis::DescendantOrSelf || st.axis == Axis::Self_ {
        if test_matches_exec(e, &st.node_test) && preds_hold_exec(&e.attrs, pos, count, &st.predicates) {
            out = eval_exec(e, pos, count, ups, steps, idx + 1);
        }
        assert(pos_view(out@) =~= here);
    }
    if st.axis == Axis::Self_ {
        return out;
    }
    if st.axis == Axis::Parent {
        let empty: Vec<usize> = Vec::new();
        assert(pos_view(empty@) =~= Seq::<int>::empty());
        let n = ups.len();
        if n > 0 {
            let (p, pp, pc) = ups[n - 1];
            let rest = ups_take(ups, n - 1);
            assert(uv.last() == Up { elem: elem_view(*p), ctx: PosCtx { pos: pp as int, count: pc as int } });
            assert(uv.drop_last() =~= uv.take(n - 1));
            if test_matches_exec(p, &st.node_test) && preds_hold_exec(&p.attrs, pp, pc, &st.predicates) {
                return eval_exec(p, pp, pc, &rest, steps, idx + 1);
            }
            return empty;
        } else if doc_matches_exec(st) {
            return eval_doc_exec(e, steps, idx + 1);
        } else {
            return empty;
        }
    }
    if !(st.axis == Axis::Child || st.axis == Axis::Descendant || st.axis == Axis::DescendantOrSelf) {
        let empty: Vec<usize> = Vec::new();
        assert(pos_view(empty@) =~= Seq::<int>::empty());
        return empty;
    }
    let ghost start = pos_view(out@);
    proof {
        lemma_kids_view(e.children@);
    }
    let mut kups = ups_take(ups, ups.len());
    assert(uv.take(ups.len() as int) =~= uv);
    kups.push((e, pos, count));
    let ghost ku = ups_view(kups@);
    assert(ku =~= uv.push(Up { elem: ev, ctx }));
    let len = e.children.len();
    let mut i: usize = 0;
    assert(start + eval_kids(ev, ctx, uv, sv, idx as int, 0) =~= start);
    while i < len
        invariant
            i <= len == e.children@.len(),
            idx < steps.len(),
            ev == elem_view(*e),
            sv == steps_view(steps@),
            uv == ups_view(ups@),
            ctx == (PosCtx { pos: pos as int, count: count as int }),
            ku == ups_view(kups@),
            ku == uv.push(Up { elem: ev, ctx }),
            st == &steps[idx as int],
            sv[idx as int] == st@,
            ev.children == kids_view(e.children@),
            ev.children.len() == e.children@.len(),
            forall|j: int| 0 <= j < e.children@.len() ==> #[trigger] ev.children[j] == node_view(e.children@[j]),
            pos_view(out@) == start + eval_kids(ev, ctx, uv, sv, idx as int, i as int),
        decreases len - i,
    {
        let ghost before = pos_view(out@);
        match &e.children[i] {
            DomNode::Element(c) => {
                assert(ev.children[i as int] == NodeView::Element(elem_view(*c)));
                let cpos = name_count_exec(&e.children, i + 1, &c.name);
                let ccount = name_count_exec(&e.children, len, &c.name);
                assert(kids_view(e.children@).take(len as int) =~= kids_view(e.children@));
                let ghost cctx = child_ctx(ev.children, i as int, elem_view(*c).name);
                assert(cctx == PosCtx { pos: cpos as int, count: ccount as int });
                let ghost cv = elem_view(*c);
                if st.axis == Axis::DescendantOrSelf {
                    let mut sub = eval_exec(c, cpos, ccount, &kups, steps, idx);
                    let ghost sb = pos_view(sub@);
                    out.append(&mut sub);
                    assert(pos_view(out@) =~= before + sb);
                    assert(sb == eval(cv, cctx, ku, sv, idx as int));
                } else {
                    let ghost part1 = if test_matches(cv, st@.node_test) && preds_hold(cv.attrs, cctx, st@.predicates) {
                        eval(cv, cctx, ku, sv, idx + 1)
                    } else {
                        Seq::<int>::empty()
                    };
                    let ghost part2 = if st@.axis == Axis::Descendant {
                        eval(cv, cctx, ku, sv, idx as int)
                    } else {
                        Seq::<int>::empty()
                    };
                    if test_matches_exec(c, &st.node_test) && preds_hold_exec(&c.attrs, cpos, ccount, &st.predicates) {
                        let mut sub = eval_exec(c, cpos, ccount, &kups, steps, idx + 1);
                        let ghost b0 = pos_view(out@);
                        let ghost sb = pos_view(sub@);
                        out.append(&mut sub);
                        assert(pos_view(out@) =~= b0 + sb);
                    }
                    assert(pos_view(out@) =~= before + part1);
                    let ghost mid = pos_view(out@);
                    if st.axis == Axis::Descendant {
                        let mut sub = eval_exec(c, cpos, ccount, &kups, steps, idx);
                        let ghost sb = pos_view(sub@);
                        out.append(&mut sub);
                        assert(pos_view(out@) =~= mid + sb);
                    }
                    assert(pos_view(out@) =~= before + (part1 + part2));
                }
            },
            _ => {},
        }
        assert(pos_view(out@) =~= start + eval_kids(ev, ctx, uv, sv, idx as int, i + 1));
        i += 1;
    }
    out
}

fn doc_matches_exec(st: &XPathStep) -> (r: bool)
    ensures
        r == doc_matches(st@),
{
    let none: Vec<DomAttr> = Vec::new();
    assert(attrs_view(none@) =~= Seq::<AttrView>::empty());
    match st.node_test {
        NodeTest::Wildcard => preds_hold_exec(&none, 1, 1, &st.predicates),
        _ => false,
    }
}

fn eval_doc_exec(root: &DomElement, steps: &Vec<XPathStep>, idx: usize) -> (r: Vec<usize>)
    requires
        idx <= steps.len(),
    ensures
        pos_view(r@) == eval_doc(elem_view(*root), steps_view(steps@), idx as int),
    decreases steps.len() - idx, *root, 1int,
{
    let none: Vec<(&DomElement, usize, usize)> = Vec::new();
    assert(ups_view(none@) =~= Seq::<Up>::empty());
    let ghost rv = elem_view(*root);
    let ghost sv = steps_view(steps@);
    if idx >= steps.len() {
        let mut out: Vec<usize> = Vec::new();
        out.push(root.pos);
        assert(pos_view(out@) =~= seq![rv.pos]);
        return out;
    }
    let st = &steps[idx];
    assert(sv[idx as int] == st@);
    let empty: Vec<usize> = Vec::new();
    assert(pos_view(empty@) =~= Seq::<int>::empty());
    if st.axis == Axis::Child || st.axis == Axis::Descendant {
        let mut out = if test_matches_exec(root, &st.node_test) && preds_hold_exec(&root.attrs, 1, 1, &st.predicates) {
            eval_exec(root, 1, 1, &none, steps, idx + 1)
        } else {
            empty
        };
        if st.axis == Axis::Descendant {
            let ghost a = pos_view(out@);
            let mut sub = eval_exec(root, 1, 1, &none, steps, idx);
            let ghost b = pos_view(sub@);
            out.append(&mut sub);
            assert(pos_view(out@) =~= a + b);
        }
        out
    } else if st.axis == Axis::DescendantOrSelf || st.axis == Axis::Self_ {
        let mut out = if doc_matches_exec(st) {
            eval_doc_exec(root, steps, idx + 1)
        } else {
            empty
        };
        if st.axis == Axis::DescendantOrSelf {
            let ghost a = pos_view(out@);
            let mut sub = eval_exec(root, 1, 1, &none, steps, idx);
            let ghost b = pos_view(sub@);
            out.append(&mut sub);
            assert(pos_view(out@) =~= a + b);
        }
        out
    } else {
        empty
    }
}

fn contains_pos(ps: &Vec<usize>, p: usize) -> (r: bool)
    ensures
        r == pos_view(ps@).contains(p as int),
{
    let ghost pv = pos_view(ps@);
    let mut i: usize = 0;
    while i < ps.len()
        invariant
            i <= ps.len(),
            pv == pos_view(ps@),
            pv.len() == ps.len(),
            forall|j: int| 0 <= j < i ==> pv[j] != p as int,
        decreases ps.len() - i,
    {
        if ps[i] == p {
            assert(pv[i as int] == p as int);
            return true;
        }
        i += 1;
    }
    false
}

fn in_order_exec(e: &DomElement, ps: &Vec<usize>) -> (r: Vec<XPathNode>)
    ensures
        items_view(r@) == in_order(elem_view(*e), pos_view(ps@)),
    decreases *e,
{
    let ghost ev = elem_view(*e);
    let ghost pv = pos_view(ps@);
    let mut out: Vec<XPathNode> = Vec::new();
    if contains_pos(ps, e.pos) {
        out.push(node_to_xpath(e));
    }
    let ghost start = items_view(out@);
    assert(start =~= (if pv.contains(ev.pos) {
        seq![node_item(ev)]
    } else {
        Seq::<NodeItem>::empty()
    }));
    proof {
        lemma_kids_view(e.children@);
    }
    let len = e.children.len();
    let mut i: usize = 0;
    assert(start + in_order_kids(ev, pv, 0) =~= start);
    while i < len
        invariant
            i <= len == e.children@.len(),
            ev == elem_view(*e),
            pv == pos_view(ps@),
            ev.children == kids_view(e.children@),
            ev.children.len() == e.children@.len(),
            forall|j: int| 0 <= j < e.children@.len() ==> #[trigger] ev.children[j] == node_view(e.children@[j]),
            items_view(out@) == start + in_order_kids(ev, pv, i as int),
        decreases len - i,
    {
        let ghost before = items_view(out@);
        match &e.children[i] {
            DomNode::Element(c) => {
                assert(ev.children[i as int] == NodeView::Element(elem_view(*c)));
                let mut sub = in_order_exec(c, ps);
                let ghost sb = items_view(sub@);
                out.append(&mut sub);
                assert(items_view(out@) =~= before + sb);
            },
            _ => {},
        }
        assert(items_view(out@) =~= start + in_order_kids(ev, pv, i + 1));
        i += 1;
    }
    out
}

fn first_attribute_exec(items: &Vec<XPathNode>, test: &NodeTest) -> (r: String)
    ensures
        r@ == first_attribute(items_view(items@), test@),
{
    let ghost iv = items_view(items@);
    let mut i: usize = 0;
    assert(iv.skip(0) =~= iv);
    while i < items.len()
        invariant
            i <= items.len(),
            iv == items_view(items@),
            first_attribute(iv, test@) == first_attribute(iv.skip(i as int), test@),
        decreases items.len() - i,
    {
        assert(iv.skip(i as int)[0] == items@[i as int]@);
        assert(iv.skip(i as int).drop_first() =~= iv.skip(i + 1));
        let es = &items[i].attributes;
        match test {
            NodeTest::NameTest(n) => {
                match es.get(n.as_str()) {
                    Some(v) => {
                        return v.clone();
                    },
                    None => {},
                }
            },
            NodeTest::Wildcard => {
                if es.len() > 0 {
                    let (_k, v) = es.entry(0);
                    return v.clone();
                }
            },
            _ => {
                return String::new();
            },
        }
        i += 1;
    }
    String::new()
}

/// What a path selects, as [`Selection`] does.
enum Selected {
    Elements(Vec<usize>),
    Text(String),
}

spec fn selected_view(s: Selected) -> Selection {
    match s {
        Selected::Elements(v) => Selection::Elements(pos_view(v@)),
        Selected::Text(t) => Selection::Text(t@),
    }
}

fn reach_exec(doc: &DomElement, steps: &Vec<XPathStep>, absolute: bool) -> (r: Vec<usize>)
    ensures
        pos_view(r@) == reach(elem_view(*doc), steps_view(steps@), absolute),
{
    if absolute {
        eval_doc_exec(doc, steps, 0)
    } else {
        let none: Vec<(&DomElement, usize, usize)> = Vec::new();
        assert(ups_view(none@) =~= Seq::<Up>::empty());
        eval_exec(doc, 1, 1, &none, steps, 0)
    }
}

fn path_select_exec(doc: &DomElement, steps: &Vec<XPathStep>, absolute: bool) -> (r: Selected)
    ensures
        selected_view(r) == path_select(elem_view(*doc), steps_view(steps@), absolute),
{
    let n = steps.len();
    if n > 0 && steps[n - 1].axis == Axis::Attribute {
        let mut prefix: Vec<XPathStep> = Vec::new();
        let mut i: usize = 0;
        while i < n - 1
            invariant
                i <= n - 1,
                n == steps.len(),
                steps_view(prefix@) == steps_view(steps@).take(i as int),
            decreases n - 1 - i,
        {
            let st = XPathStep {
                axis: steps[i].axis,
                node_test: match &steps[i].node_test {
                    NodeTest::NameTest(s) => NodeTest::NameTest(s.clone()),
                    NodeTest::Wildcard => NodeTest::Wildcard,
                    NodeTest::TextNode => NodeTest::TextNode,
                    NodeTest::CommentNode => NodeTest::CommentNode,
                },
                predicates: copy_strings(&steps[i].predicates),
            };
            let ghost before = steps_view(prefix@);
            prefix.push(st);
            assert(steps_view(prefix@) =~= before.push(steps@[i as int]@));
            assert(steps_view(steps@).take(i + 1) =~= steps_view(steps@).take(i as int).push(steps@[i as int]@));
            i += 1;
        }
        assert(steps_view(steps@).take(n - 1) =~= steps_view(steps@).drop_last());
        let nodes = in_order_exec(doc, &reach_exec(doc, &prefix, absolute));
        Selected::Text(first_attribute_exec(&nodes, &steps[n - 1].node_test))
    } else {
        Selected::Elements(reach_exec(doc, steps, absolute))
    }
}

fn copy_strings(v: &Vec<String>) -> (r: Vec<String>)
    ensures
        strings_view(r@) == strings_view(v@),
{
    let mut r: Vec<String> = Vec::new();
    let mut i: usize = 0;
    while i < v.len()
        invariant
            i <= v.len(),
            strings_view(r@) == strings_view(v@).take(i as int),
        decreases v.len() - i,
    {
        let ghost before = strings_view(r@);
        r.push(v[i].clone());
        assert(strings_view(r@) =~= before.push(v@[i as int]@));
        assert(strings_view(v@).take(i + 1) =~= strings_view(v@).take(i as int).push(v@[i as int]@));
        i += 1;
    }
    assert(strings_view(v@).take(v.len() as int) =~= strings_view(v@));
    r
}

/// The union of two values (see [`merge`]).
pub fn merge_values(left: XPathValue, right: XPathValue) -> (r: Result<XPathValue, String>)
    ensures
        r matches Ok(v) && v@ == merge(left@, right@),
{
    match left {
        XPathValue::Nodes(mut l) => match right {
            XPathValue::Nodes(mut rr) => {
                let ghost a = items_view(l@);
                let ghost b = items_view(rr@);
                l.append(&mut rr);
                assert(items_view(l@) =~= a + b);
                Ok(XPathValue::Nodes(l))
            },
            _ => Ok(XPathValue::Nodes(l)),
        },
        _ => Ok(right),
    }
}

fn union_exec(left: Selected, right: Selected) -> (r: Selected)
    ensures
        selected_view(r) == union_select(selected_view(left), selected_view(right)),
{
    match left {
        Selected::Elements(mut a) => match right {
            Selected::Elements(mut b) => {
                let ghost x = pos_view(a@);
                let ghost y = pos_view(b@);
                a.append(&mut b);
                assert(pos_view(a@) =~= x + y);
                Selected::Elements(a)
            },
            _ => Selected::Elements(a),
        },
        _ => right,
    }
}

fn select_exec(doc: &DomElement, x: &Vec<char>) -> (r: Selected)
    ensures
        selected_view(r) == select(elem_view(*doc), x@),
    decreases x.len(),
{
    if x.len() == 0 {
        let v: Vec<usize> = Vec::new();
        assert(pos_view(v@) =~= Seq::<int>::empty());
        return Selected::Elements(v);
    }
    match find_char(x, '|') {
        Some(i) => {
            let l = trim_exec(&slice_chars(x, 0, i));
            let rr = trim_exec(&slice_chars(x, i + 1, x.len()));
            assert(x@.subrange(0, i as int) =~= x@.take(i as int));
            assert(x@.subrange(i + 1, x@.len() as int) =~= x@.skip(i + 1));
            proof {
                lemma_trim_len(x@.take(i as int));
                lemma_trim_len(x@.skip(i + 1));
            }
            let lv = select_exec(doc, &l);
            let rv = select_exec(doc, &rr);
            union_exec(lv, rv)
        },
        None => {
            let steps = parse_xpath_steps(from_chars(x).as_str());
            let t = trim_exec(x);
            proof {
                reveal_strlit("/");
            }
            let absolute = starts_with_str(&t, "/");
            path_select_exec(doc, &steps, absolute)
        },
    }
}

fn value_exec(doc: &DomElement, sel: Selected) -> (r: XPathValue)
    ensures
        r@ == value_of(elem_view(*doc), selected_view(sel)),
{
    match sel {
        Selected::Elements(ps) => XPathValue::Nodes(in_order_exec(doc, &ps)),
        Selected::Text(t) => XPathValue::String(t),
    }
}

/// The value of `xpath` on a document given by its parse events (see
/// [`eval_xpath`]).
pub fn evaluate_tokens(tokens: &Vec<HtmlToken>, xpath: &str) -> (r: XPathValue)
    ensures
        r@ == eval_xpath(tokens_view(tokens@), xpath@),
{
    let x = to_chars(xpath);
    if x.len() == 0 {
        let v: Vec<XPathNode> = Vec::new();
        assert(items_view(v@) =~= Seq::<NodeItem>::empty());
        return XPathValue::Nodes(v);
    }
    let doc = build_document(tokens);
    value_exec(&doc, select_exec(&doc, &x))
}

/// Evaluates `xpath` on the HTML document `html`; never fails.
pub fn evaluate(html: &str, xpath: &str) -> (r: Result<XPathValue, String>)
    ensures
        r matches Ok(v) && v@ == eval_xpath(html_document_tokens(html@), xpath@),
{
    if xpath.is_empty() {
        let v: Vec<XPathNode> = Vec::new();
        assert(items_view(v@) =~= Seq::<NodeItem>::empty());
        return Ok(XPathValue::Nodes(v));
    }
    let tokens = html_tokens(html);
    Ok(evaluate_tokens(&tokens, xpath))
}

// ---------------------------------------------------------------------------
// Laws
// ---------------------------------------------------------------------------

/// An empty expression selects nothing.
pub proof fn law_empty_expression(toks: Seq<TokenView>)
    ensures
        eval_xpath(toks, Seq::empty()) == ValueView::Nodes(Seq::<NodeItem>::empty()),
{
}

/// A union of two element selections selects the elements of either side,
/// listed in document order.
pub proof fn law_union_in_document_order(toks: Seq<TokenView>, x: Seq<char>, i: int, l: Seq<int>, r: Seq<int>)
    requires
        find(x, '|') == Some(i),
        select(document_of(toks), trim(x.take(i))) == Selection::Elements(l),
        select(document_of(toks), trim(x.skip(i + 1))) == Selection::Elements(r),
    ensures
        eval_xpath(toks, x) == ValueView::Nodes(in_order(document_of(toks), l + r)),
        forall|p: int| (l + r).contains(p) <==> (l.contains(p) || r.contains(p)),
{
    crate::text::lemma_find_some(x, '|');
    assert forall|p: int| (l + r).contains(p) <==> (l.contains(p) || r.contains(p)) by {
        if l.contains(p) {
            let j = choose|j: int| 0 <= j < l.len() && l[j] == p;
            assert((l + r)[j] == p);
        }
        if r.contains(p) {
            let j = choose|j: int| 0 <= j < r.len() && r[j] == p;
            assert((l + r)[l.len() + j] == p);
        }
        if (l + r).contains(p) {
            let j = choose|j: int| 0 <= j < (l + r).len() && (l + r)[j] == p;
            if j < l.len() {
                assert(l[j] == p);
            } else {
                assert(r[j - l.len()] == p);
            }
        }
    }
}

/// `not(q)` holds exactly when `q` does not.
pub proof fn law_not_negates(attrs: Seq<AttrView>, ctx: PosCtx, q: Seq<char>)
    ensures
        pred_holds(attrs, ctx, "not("@ + q + ")"@) == !pred_holds(attrs, ctx, q),
{
    reveal_strlit("not(");
    reveal_strlit(")");
    reveal_strlit("contains(");
    let p = "not("@ + q + ")"@;
    assert(p[0] == 'n');
    assert(p.last() == ')');
    lemma_trim_unchanged(p);
    assert(!crate::text::is_digit(p[0]));
    assert(parse_usize(p) is None);
    assert(!starts_with(p, "contains("@)) by {
        if p.len() >= 9 {
            assert(p.take(9)[0] == p[0]);
            assert("contains("@[0] == 'c');
        }
    }
    assert(starts_with(p, "not("@)) by {
        assert(p.take(4) =~= "not("@);
    }
    assert(ends_with(p, ")"@)) by {
        assert(p.skip(p.len() - 1) =~= ")"@);
    }
    assert(p.subrange(4, p.len() - 1) =~= q);
}

/// A number `[n]` selects the element at position `n` among its
/// same-named siblings.
pub proof fn law_numeric_predicate(attrs: Seq<AttrView>, ctx: PosCtx, n: nat)
    requires
        n <= usize::MAX,
    ensures
        pred_holds(attrs, ctx, decimal(n)) == (ctx.pos == n),
{
    lemma_decimal(n);
    let d = decimal(n);
    assert(crate::text::is_digit(d[0]) && crate::text::is_digit(d.last()));
    lemma_trim_unchanged(d);
    crate::text::law_parse_decimal(n, usize::MAX as nat);
}

/// `last()` selects the last of the same-named siblings.
pub proof fn law_last_predicate(attrs: Seq<AttrView>, ctx: PosCtx)
    ensures
        pred_holds(attrs, ctx, "last()"@) == (ctx.pos == ctx.count),
{
    reveal_strlit("last()");
    reveal_strlit("position()");
    reveal_strlit("contains(");
    reveal_strlit("not(");
    let p = "last()"@;
    lemma_trim_unchanged(p);
    assert(!crate::text::is_digit(p[0]));
    assert(!starts_with(p, "contains("@));
    assert(!starts_with(p, "not("@)) by {
        assert(p.take(4)[0] != "not("@[0]);
    }
    assert(!contains(p, "position()"@)) by {
        assert forall|k: int| !occurs_at(p, "position()"@, k) by {}
    }
}

/// `contains(@a,'n')` holds of an element exactly when it has attribute `a`
/// and `n` occurs anywhere in its value (for an attribute name without
/// commas or whitespace and a needle without quotes).
pub proof fn law_contains_predicate(attrs: Seq<AttrView>, ctx: PosCtx, a: Seq<char>, n: Seq<char>)
    requires
        forall|i: int| 0 <= i < a.len() ==> a[i] != ',' && !is_ws(#[trigger] a[i]),
        forall|i: int| 0 <= i < n.len() ==> #[trigger] n[i] != '\'' && n[i] != '"',
    ensures
        pred_holds(attrs, ctx, "contains(@"@ + a + ",'"@ + n + "')"@) <==> (attr_value(attrs, a) matches Some(
            v,
        ) && exists|i: int| occurs_at(v, n, i)),
{
    reveal_strlit("contains(@");
    reveal_strlit(",'");
    reveal_strlit("')");
    reveal_strlit("contains(");
    reveal_strlit(")");
    let p = "contains(@"@ + a + ",'"@ + n + "')"@;
    assert(p[0] == 'c');
    assert(p.last() == ')');
    lemma_trim_unchanged(p);
    assert(trim(p) == p);
    assert(!crate::text::is_digit(p[0]));
    assert(parse_usize(p) is None);
    assert(starts_with(p, "contains("@)) by {
        assert(p.take(9) =~= "contains("@);
    }
    assert(ends_with(p, ")"@)) by {
        assert(p.skip(p.len() - 1) =~= ")"@);
    }
    let inner = p.subrange(9, p.len() - 1);
    let q = seq!['\''] + n + seq!['\''];
    assert(inner =~= seq!['@'] + a + seq![','] + q);
    let c: int = a.len() as int + 1;
    assert(inner[c] == ',');
    assert forall|j: int| 0 <= j < c implies inner[j] != ',' by {
        if j > 0 {
            assert(inner[j] == a[j - 1]);
        }
    }
    crate::text::lemma_find_at(inner, ',', c);
    assert(inner.take(c) =~= seq!['@'] + a);
    assert(inner.skip(c + 1) =~= q);
    let arg0 = seq!['@'] + a;
    if a.len() > 0 {
        assert(arg0.last() == a.last());
        lemma_trim_unchanged(arg0);
    } else {
        assert(arg0 =~= seq!['@']);
        lemma_trim_unchanged(arg0);
    }
    assert(trim(arg0) == arg0);
    assert(arg0.drop_first() =~= a);
    if a.len() > 0 {
        lemma_trim_unchanged(a);
    } else {
        assert(trim(a) =~= a);
    }
    lemma_trim_unchanged(q);
    lemma_unquote(n);
    assert(unquote(q) == n);
    assert(contains_pred(attrs, p) == Some(
        match attr_value(attrs, a) {
            Some(v) => contains(v, n),
            None => false,
        },
    ));
}

/// A quoted needle without quotes inside unquotes to itself.
proof fn lemma_unquote(n: Seq<char>)
    requires
        forall|i: int| 0 <= i < n.len() ==> #[trigger] n[i] != '\'' && n[i] != '"',
    ensures
        unquote(seq!['\''] + n + seq!['\'']) == n,
{
    let q = seq!['\''] + n + seq!['\''];
    lemma_trim_unchanged(q);
    assert(q.drop_first() =~= n + seq!['\'']);
    assert(q[0] == '\'');
    assert(trim_start_char(q, '\'') == trim_start_char(q.drop_first(), '\''));
    if n.len() > 0 {
        assert((n + seq!['\''])[0] == n[0]);
        assert(trim_start_char(n + seq!['\''], '\'') == n + seq!['\'']);
    } else {
        assert((n + seq!['\'']).drop_first() =~= Seq::<char>::empty());
        assert(trim_start_char(Seq::<char>::empty(), '\'') == Seq::<char>::empty());
    }
    assert(trim_start_char(q, '\'') =~= (if n.len() > 0 { n + seq!['\''] } else { Seq::<char>::empty() }));
    if n.len() > 0 {
        assert((n + seq!['\'']).drop_last() =~= n);
        assert(crate::text::trim_end_char(n, '\'') == n);
        assert(trim_char(q, '\'') == n);
        assert(trim_start_char(n, '"') == n);
        assert(crate::text::trim_end_char(n, '"') == n);
    } else {
        assert(trim_char(q, '\'') =~= n);
    }
}

/// `@a='v'` holds of an element exactly when its attribute `a` has the value
/// `v`, and `@a` exactly when it has attribute `a` (for an attribute name
/// without `=`, `@`, commas or whitespace and a value without quotes).
pub proof fn law_attribute_predicates(attrs: Seq<AttrView>, ctx: PosCtx, a: Seq<char>, v: Seq<char>)
    requires
        a.len() > 0,
        forall|i: int| 0 <= i < a.len() ==> a[i] != '=' && a[i] != '@' && !is_ws(#[trigger] a[i]),
        forall|i: int| 0 <= i < v.len() ==> #[trigger] v[i] != '\'' && v[i] != '"',
    ensures
        pred_holds(attrs, ctx, seq!['@'] + a + "='"@ + v + seq!['\'']) <==> attr_value(attrs, a) == Some(v),
        pred_holds(attrs, ctx, seq!['@'] + a) <==> attr_value(attrs, a) is Some,
{
    reveal_strlit("='");
    let p = seq!['@'] + a + "='"@ + v + seq!['\''];
    assert(p[0] == '@');
    lemma_trim_unchanged(p);
    assert(!crate::text::is_digit(p[0]));
    assert(parse_usize(p) is None);
    let rest = p.drop_first();
    let q = seq!['\''] + v + seq!['\''];
    assert(rest =~= a + seq!['='] + q);
    assert forall|j: int| 0 <= j < a.len() implies rest[j] != '=' by {
        assert(rest[j] == a[j]);
    }
    crate::text::lemma_find_at(rest, '=', a.len() as int);
    assert(rest.take(a.len() as int) =~= a);
    assert(rest.skip(a.len() as int + 1) =~= q);
    lemma_trim_unchanged(a);
    lemma_unquote(v);
    let p2 = seq!['@'] + a;
    lemma_trim_unchanged(p2);
    assert(!crate::text::is_digit(p2[0]));
    assert(parse_usize(p2) is None);
    assert(p2.drop_first() =~= a);
    crate::text::lemma_find_none(a, '=');
    assert(trim_start_char(a, '@') == a);
    assert(trim_start_char(p2, '@') == a);
}
} // verus!
