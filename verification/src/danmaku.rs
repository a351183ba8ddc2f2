//! Bilibili danmaku (bullet comments) from XML.
//!
//! Each `<d p="...">text</d>` element carries its properties as a comma
//! separated list: time (seconds), mode, font size, colour, send timestamp,
//! pool, user hash, comment id.  The time stays the text written there;
//! turning it into milliseconds is floating point work for the caller.
use vstd::prelude::*;

use crate::text::{
    append_str, char_views, eq_str, from_chars, parse_i32, parse_i32_exec, parse_i64, parse_i64_exec,
    split, split_exec, to_chars,
};

verus! {

#[derive(Debug, Clone)]
pub struct DanmakuItem {
    /// Time into the video in seconds, as written.
    pub time: String,
    pub danmaku_type: i32,
    pub font_size: i32,
    pub color: i64,
    pub timestamp: i64,
    pub uid: i64,
    pub danmaku_id: i64,
    pub text: String,
}

#[derive(Debug, Clone)]
pub struct DanmakuCollection {
    pub items: Vec<DanmakuItem>,
}

pub struct DanmakuParser;

pub struct ItemView {
    pub time: Seq<char>,
    pub danmaku_type: i32,
    pub font_size: i32,
    pub color: i64,
    pub timestamp: i64,
    pub uid: i64,
    pub danmaku_id: i64,
    pub text: Seq<char>,
}

impl View for DanmakuItem {
    type V = ItemView;

    open spec fn view(&self) -> ItemView {
        ItemView {
            time: self.time@,
            danmaku_type: self.danmaku_type,
            font_size: self.font_size,
            color: self.color,
            timestamp: self.timestamp,
            uid: self.uid,
            danmaku_id: self.danmaku_id,
            text: self.text@,
        }
    }
}

pub open spec fn danmaku_view(s: Seq<DanmakuItem>) -> Seq<ItemView> {
    s.map_values(|x: DanmakuItem| x@)
}

/// A node of an XML document: its local name (empty when it is not an
/// element), the value of the attribute asked for, and its text.
#[derive(Debug, Clone)]
pub struct XmlNode {
    pub name: String,
    pub attr: Option<String>,
    pub text: Option<String>,
}

pub struct XmlNodeView {
    pub name: Seq<char>,
    pub attr: Option<Seq<char>>,
    pub text: Option<Seq<char>>,
}

pub open spec fn opt_view(o: Option<String>) -> Option<Seq<char>> {
    match o {
        Some(s) => Some(s@),
        None => None,
    }
}

impl View for XmlNode {
    type V = XmlNodeView;

    open spec fn view(&self) -> XmlNodeView {
        XmlNodeView { name: self.name@, attr: opt_view(self.attr), text: opt_view(self.text) }
    }
}

pub open spec fn xml_nodes_view(s: Seq<XmlNode>) -> Seq<XmlNodeView> {
    s.map_values(|x: XmlNode| x@)
}

/// What `roxmltree` makes of an XML text: its nodes in document order with
/// the value of attribute `attr`, or the parse error's message.
pub uninterp spec fn xml_descendants(xml: Seq<char>, attr: Seq<char>) -> Result<Seq<XmlNodeView>, Seq<char>>;

/// Parses `xml` with `roxmltree::Document::parse` and lists
/// `descendants()` of the document: `tag_name().name()`, `attribute(attr)`
/// and `text()` of each; on failure the error's `Display` text.  The result
/// is named [`xml_descendants`].
#[verifier::external_body]
pub(crate) fn xml_nodes(xml: &str, attr: &str) -> (r: Result<Vec<XmlNode>, String>)
    ensures
        match r {
            Ok(v) => xml_descendants(xml@, attr@) == Ok::<Seq<XmlNodeView>, Seq<char>>(xml_nodes_view(v@)),
            Err(e) => xml_descendants(xml@, attr@) == Err::<Seq<XmlNodeView>, Seq<char>>(e@),
        },
{
    match roxmltree::Document::parse(xml) {
        Ok(doc) => Ok(doc.descendants().map(|n| XmlNode {
            name: n.tag_name().name().to_string(),
            attr: n.attribute(attr).map(|s| s.to_string()),
            text: n.text().map(|s| s.to_string()),
        }).collect()),
        Err(e) => Err(e.to_string()),
    }
}

pub open spec fn or_i32(v: Option<i32>, d: i32) -> i32 {
    match v {
        Some(x) => x,
        None => d,
    }
}

pub open spec fn or_i64(v: Option<i64>, d: i64) -> i64 {
    match v {
        Some(x) => x,
        None => d,
    }
}

/// The comment described by a `p` attribute and element text, when the
/// attribute has at least eight fields; fields that do not parse take
/// their defaults (mode 1, size 25, colour white, zeros).
pub open spec fn item_of(p: Seq<char>, text: Option<Seq<char>>) -> Option<ItemView> {
    let parts = split(p, ',');
    if parts.len() >= 8 {
        Some(
            ItemView {
                time: parts[0],
                danmaku_type: or_i32(parse_i32(parts[1]), 1),
                font_size: or_i32(parse_i32(parts[2]), 25),
                color: or_i64(parse_i64(parts[3]), 16777215),
                timestamp: or_i64(parse_i64(parts[4]), 0),
                uid: or_i64(parse_i64(parts[6]), 0),
                danmaku_id: or_i64(parse_i64(parts[7]), 0),
                text: match text {
                    Some(t) => t,
                    None => Seq::empty(),
                },
            },
        )
    } else {
        None
    }
}

/// The comments of the `d` elements among `nodes`, in document order.
pub open spec fn items_of(nodes: Seq<XmlNodeView>) -> Seq<ItemView>
    decreases nodes.len(),
{
    if nodes.len() == 0 {
        Seq::empty()
    } else {
        let rest = items_of(nodes.drop_last());
        let n = nodes.last();
        if n.name == "d"@ && n.attr is Some && item_of(n.attr->0, n.text) is Some {
            rest.push(item_of(n.attr->0, n.text)->0)
        } else {
            rest
        }
    }
}

/// The message for XML that does not parse.
pub open spec fn xml_error(e: Seq<char>) -> Seq<char> {
    "弹幕 XML 解析失败: "@ + e
}

fn or_i32_exec(v: Option<i32>, d: i32) -> (r: i32)
    ensures
        r == or_i32(v, d),
{
    match v {
        Some(x) => x,
        None => d,
    }
}

fn or_i64_exec(v: Option<i64>, d: i64) -> (r: i64)
    ensures
        r == or_i64(v, d),
{
    match v {
        Some(x) => x,
        None => d,
    }
}

fn item_exec(p: &String, text: &Option<String>) -> (r: Option<DanmakuItem>)
    ensures
        match item_of(p@, opt_view(*text)) {
            Some(i) => r matches Some(x) && x@ == i,
            None => r is None,
        },
{
    let parts = split_exec(&to_chars(p.as_str()), ',');
    if parts.len() < 8 {
        return None;
    }
    let ghost pv = char_views(parts@);
    assert(forall|i: int| 0 <= i < parts.len() ==> pv[i] == #[trigger] parts@[i]@);
    let t = match text {
        Some(t) => t.clone(),
        None => String::new(),
    };
    Some(
        DanmakuItem {
            time: from_chars(&parts[0]),
            danmaku_type: or_i32_exec(parse_i32_exec(&parts[1]), 1),
            font_size: or_i32_exec(parse_i32_exec(&parts[2]), 25),
            color: or_i64_exec(parse_i64_exec(&parts[3]), 16777215),
            timestamp: or_i64_exec(parse_i64_exec(&parts[4]), 0),
            uid: or_i64_exec(parse_i64_exec(&parts[6]), 0),
            danmaku_id: or_i64_exec(parse_i64_exec(&parts[7]), 0),
            text: t,
        },
    )
}

/// The comments of the `d` elements among `nodes` (see [`items_of`]).
pub fn items_of_nodes(nodes: &Vec<XmlNode>) -> (r: Vec<DanmakuItem>)
    ensures
        danmaku_view(r@) == items_of(xml_nodes_view(nodes@)),
{
    let ghost nv = xml_nodes_view(nodes@);
    let mut items: Vec<DanmakuItem> = Vec::new();
    let mut i: usize = 0;
    assert(nv.take(0) =~= Seq::<XmlNodeView>::empty());
    assert(danmaku_view(items@) =~= Seq::<ItemView>::empty());
    while i < nodes.len()
        invariant
            i <= nodes.len(),
            nv == xml_nodes_view(nodes@),
            danmaku_view(items@) == items_of(nv.take(i as int)),
        decreases nodes.len() - i,
    {
        assert(nv.take(i + 1).drop_last() =~= nv.take(i as int));
        assert(nv.take(i + 1).last() == nodes@[i as int]@);
        let n = &nodes[i];
        if eq_str(&to_chars(n.name.as_str()), "d") {
            match &n.attr {
                Some(p) => match item_exec(p, &n.text) {
                    Some(it) => {
                        let ghost before = danmaku_view(items@);
                        items.push(it);
                        assert(danmaku_view(items@) =~= before.push(it@));
                    },
                    None => {},
                },
                None => {},
            }
        }
        i += 1;
    }
    assert(nv.take(nodes.len() as int) =~= nv);
    items
}

impl DanmakuParser {
    /// Reads the comments of a Bilibili danmaku XML document.
    pub fn parse_bilibili_xml(xml: &str) -> (r: Result<DanmakuCollection, String>)
        ensures
            match xml_descendants(xml@, "p"@) {
                Ok(nodes) => r matches Ok(c) && danmaku_view(c.items@) == items_of(nodes),
                Err(e) => r matches Err(m) && m@ == xml_error(e),
            },
    {
        match xml_nodes(xml, "p") {
            Ok(nodes) => Ok(DanmakuCollection { items: items_of_nodes(&nodes) }),
            Err(e) => {
                let mut m = to_chars("弹幕 XML 解析失败: ");
                append_str(&mut m, e.as_str());
                Err(from_chars(&m))
            },
        }
    }
}


/// Each comment comes from a distinct node: there are never more comments
/// than nodes.
pub proof fn law_items_bounded_by_nodes(nodes: Seq<XmlNodeView>)
    ensures
        items_of(nodes).len() <= nodes.len(),
    decreases nodes.len(),
{
    if nodes.len() > 0 {
        law_items_bounded_by_nodes(nodes.drop_last());
    }
}

/// The fields of a `p` attribute land where the Bilibili format puts them:
/// time (field 0), mode (1), font size (2), colour (3), send time (4), user
/// (6) and comment id (7), each number parsed and defaulted when it does not
/// parse; field 5 (the pool) is read by nothing.  A comment is made exactly
/// when there are at least eight fields.
pub proof fn law_item_fields(p: Seq<char>, text: Option<Seq<char>>)
    ensures
        item_of(p, text) is Some <==> split(p, ',').len() >= 8,
        item_of(p, text) matches Some(it) ==> {
            let f = split(p, ',');
            &&& it.time == f[0]
            &&& (parse_i32(f[1]) matches Some(v) ==> it.danmaku_type == v)
            &&& (parse_i32(f[1]) is None ==> it.danmaku_type == 1)
            &&& (parse_i32(f[2]) matches Some(v) ==> it.font_size == v)
            &&& (parse_i32(f[2]) is None ==> it.font_size == 25)
            &&& (parse_i64(f[3]) matches Some(v) ==> it.color == v)
            &&& (parse_i64(f[3]) is None ==> it.color == 16777215)
            &&& (parse_i64(f[4]) matches Some(v) ==> it.timestamp == v)
            &&& (parse_i64(f[4]) is None ==> it.timestamp == 0)
            &&& (parse_i64(f[6]) matches Some(v) ==> it.uid == v)
            &&& (parse_i64(f[6]) is None ==> it.uid == 0)
            &&& (parse_i64(f[7]) matches Some(v) ==> it.danmaku_id == v)
            &&& (parse_i64(f[7]) is None ==> it.danmaku_id == 0)
            &&& (text matches Some(t) ==> it.text == t)
            &&& (text is None ==> it.text == Seq::<char>::empty())
        },
{
}

/// Two `p` attributes that differ only in the pool field (field 5) give the
/// same comment.
pub proof fn law_pool_field_ignored(p: Seq<char>, q: Seq<char>, text: Option<Seq<char>>)
    requires
        split(p, ',').len() == split(q, ',').len(),
        forall|i: int| 0 <= i < split(p, ',').len() && i != 5 ==> split(p, ',')[i] == split(q, ',')[i],
    ensures
        item_of(p, text) == item_of(q, text),
{
    let f = split(p, ',');
    let g = split(q, ',');
    if f.len() >= 8 {
        assert(f[0] == g[0] && f[1] == g[1] && f[2] == g[2] && f[3] == g[3]);
        assert(f[4] == g[4] && f[6] == g[6] && f[7] == g[7]);
    }
}

/// A node that makes a comment: a `d` element whose `p` attribute has at
/// least eight fields.
pub open spec fn is_comment_node(n: XmlNodeView) -> bool {
    n.name == "d"@ && n.attr is Some && split(n.attr->0, ',').len() >= 8
}

/// The comments are the `d` elements with a full `p` attribute, in
/// document order, one comment each, read from that element's own `p`
/// attribute and text.
pub proof fn law_comments_are_d_elements(nodes: Seq<XmlNodeView>)
    ensures
        items_of(nodes) == nodes.filter(|n: XmlNodeView| is_comment_node(n)).map_values(
            |n: XmlNodeView| item_of(n.attr->0, n.text)->0,
        ),
    decreases nodes.len(),
{
    let pred = |n: XmlNodeView| is_comment_node(n);
    let f = |n: XmlNodeView| item_of(n.attr->0, n.text)->0;
    if nodes.len() > 0 {
        law_comments_are_d_elements(nodes.drop_last());
        nodes.drop_last().lemma_filter_push(nodes.last(), pred);
        assert(nodes.drop_last().push(nodes.last()) =~= nodes);
        let n = nodes.last();
        if n.attr is Some {
            law_item_fields(n.attr->0, n.text);
        }
        let f0 = nodes.drop_last().filter(pred);
        if pred(n) {
            assert(nodes.filter(pred).map_values(f) =~= f0.map_values(f).push(f(n)));
        } else {
            assert(nodes.filter(pred).map_values(f) =~= f0.map_values(f));
        }
    } else {
        reveal(Seq::filter);
        assert(nodes.filter(pred).map_values(f) =~= Seq::<ItemView>::empty());
    }
}
} // verus!
