//! XPath results as JSON text.
use vstd::prelude::*;

use crate::dom::{html_document_tokens, TokenView};
use crate::json::{
    array_chars, bool_chars, field, json_array, json_bool, json_object, json_string_literal,
    object_chars, pairs_view, quote_chars, sort_by_key, sort_by_key_exec, lemma_sort_keeps_entries,
    lemma_sort_has_all_entries, law_sorted_keys_ascending,
};
use crate::text::{char_views, decimal, decimal_exec, from_chars, lex_lt, to_chars};
use crate::xpath::{
    entries_view, eval_xpath, evaluate, items_view, keys_unique, Entries, NodeItem, ValueView,
    XPathNode, XPathValue,
};

verus! {

/// The attributes as a JSON object, keys ascending.
pub open spec fn attributes_json(es: Entries) -> Seq<char> {
    json_object(
        sort_by_key(es).map_values(
            |e: (Seq<char>, Seq<char>)| (e.0, json_string_literal(e.1)),
        ),
    )
}

/// A selected element as a JSON object, keys ascending.
pub open spec fn node_json(n: NodeItem) -> Seq<char> {
    json_object(
        seq![
            ("attributes"@, attributes_json(n.attributes)),
            ("html"@, json_string_literal(n.html)),
            ("name"@, json_string_literal(n.name)),
            ("outer_html"@, json_string_literal(n.outer_html)),
            ("text"@, json_string_literal(n.text)),
        ],
    )
}

pub open spec fn nodes_json(ns: Seq<NodeItem>) -> Seq<char> {
    json_array(ns.map_values(|n: NodeItem| node_json(n)))
}

/// The answer of [`evaluate_to_json`] for a value.
pub open spec fn value_json(v: ValueView) -> Seq<char> {
    match v {
        ValueView::Nodes(ns) => json_object(
            seq![
                ("count"@, decimal(ns.len())),
                ("nodes"@, nodes_json(ns)),
                ("success"@, "true"@),
                ("type"@, json_string_literal("nodes"@)),
            ],
        ),
        ValueView::String(s) => json_object(
            seq![
                ("success"@, "true"@),
                ("type"@, json_string_literal("string"@)),
                ("value"@, json_string_literal(s)),
            ],
        ),
        ValueView::Bool(b) => json_object(
            seq![
                ("success"@, "true"@),
                ("type"@, json_string_literal("bool"@)),
                ("value"@, json_bool(b)),
            ],
        ),
    }
}

/// The entry of [`evaluate_batch_to_json`] for a value.
pub open spec fn batch_value_json(v: ValueView) -> Seq<char> {
    match v {
        ValueView::Nodes(ns) => json_object(
            seq![("items"@, nodes_json(ns)), ("type"@, json_string_literal("nodes"@))],
        ),
        ValueView::String(s) => json_object(
            seq![("type"@, json_string_literal("string"@)), ("value"@, json_string_literal(s))],
        ),
        ValueView::Bool(b) => json_object(
            seq![("type"@, json_string_literal("bool"@)), ("value"@, json_bool(b))],
        ),
    }
}

/// The answer of [`evaluate_batch_to_json`]: one member per expression,
/// keys ascending.
pub open spec fn batch_json(toks: Seq<TokenView>, xpaths: Entries) -> Seq<char> {
    json_object(
        sort_by_key(xpaths).map_values(
            |e: (Seq<char>, Seq<char>)| (e.0, batch_value_json(eval_xpath(toks, e.1))),
        ),
    )
}

fn attributes_exec(n: &XPathNode) -> (r: Vec<char>)
    ensures
        r@ == attributes_json(n.attributes@),
{
    let es = &n.attributes;
    let mut raw: Vec<(Vec<char>, Vec<char>)> = Vec::new();
    let mut i: usize = 0;
    while i < es.len()
        invariant
            i <= es@.len(),
            pairs_view(raw@) == es@.take(i as int),
        decreases es@.len() - i,
    {
        let (k, v) = es.entry(i);
        let ghost before = pairs_view(raw@);
        raw.push((to_chars(k.as_str()), to_chars(v.as_str())));
        assert(pairs_view(raw@) =~= before.push(es@[i as int]));
        assert(es@.take(i + 1) =~= es@.take(i as int).push(es@[i as int]));
        i += 1;
    }
    assert(es@.take(es@.len() as int) =~= es@);
    let sorted = sort_by_key_exec(raw);
    let ghost sv = pairs_view(sorted@);
    let ghost f = |e: (Seq<char>, Seq<char>)| (e.0, json_string_literal(e.1));
    let mut fields: Vec<(Vec<char>, Vec<char>)> = Vec::new();
    let mut j: usize = 0;
    while j < sorted.len()
        invariant
            j <= sorted.len(),
            sv == pairs_view(sorted@),
            f == (|e: (Seq<char>, Seq<char>)| (e.0, json_string_literal(e.1))),
            pairs_view(fields@) == sv.take(j as int).map_values(f),
        decreases sorted.len() - j,
    {
        let k = to_chars(from_chars(&sorted[j].0).as_str());
        let v = quote_chars(&sorted[j].1);
        let ghost before = pairs_view(fields@);
        fields.push((k, v));
        assert(pairs_view(fields@) =~= before.push(f(sv[j as int])));
        assert(sv.take(j + 1).map_values(f) =~= sv.take(j as int).map_values(f).push(f(sv[j as int])));
        j += 1;
    }
    assert(sv.take(sorted.len() as int) =~= sv);
    object_chars(&fields)
}

fn node_exec(n: &XPathNode) -> (r: Vec<char>)
    ensures
        r@ == node_json(n@),
{
    let mut fields: Vec<(Vec<char>, Vec<char>)> = Vec::new();
    fields.push(field("attributes", attributes_exec(n)));
    fields.push(field("html", quote_chars(&to_chars(n.html.as_str()))));
    fields.push(field("name", quote_chars(&to_chars(n.name.as_str()))));
    fields.push(field("outer_html", quote_chars(&to_chars(n.outer_html.as_str()))));
    fields.push(field("text", quote_chars(&to_chars(n.text.as_str()))));
    assert(pairs_view(fields@) =~= seq![
        ("attributes"@, attributes_json(n@.attributes)),
        ("html"@, json_string_literal(n@.html)),
        ("name"@, json_string_literal(n@.name)),
        ("outer_html"@, json_string_literal(n@.outer_html)),
        ("text"@, json_string_literal(n@.text)),
    ]);
    object_chars(&fields)
}

fn nodes_exec(ns: &Vec<XPathNode>) -> (r: Vec<char>)
    ensures
        r@ == nodes_json(items_view(ns@)),
{
    let ghost iv = items_view(ns@);
    let ghost f = |n: NodeItem| node_json(n);
    let mut items: Vec<Vec<char>> = Vec::new();
    let mut i: usize = 0;
    while i < ns.len()
        invariant
            i <= ns.len(),
            iv == items_view(ns@),
            f == (|n: NodeItem| node_json(n)),
            char_views(items@) == iv.take(i as int).map_values(f),
        decreases ns.len() - i,
    {
        let j = node_exec(&ns[i]);
        let ghost before = char_views(items@);
        items.push(j);
        assert(char_views(items@) =~= before.push(f(iv[i as int])));
        assert(iv.take(i + 1).map_values(f) =~= iv.take(i as int).map_values(f).push(f(iv[i as int])));
        i += 1;
    }
    assert(iv.take(ns.len() as int) =~= iv);
    array_chars(&items)
}

fn value_exec(v: &XPathValue) -> (r: Vec<char>)
    ensures
        r@ == value_json(v@),
{
    let mut fields: Vec<(Vec<char>, Vec<char>)> = Vec::new();
    match v {
        XPathValue::Nodes(ns) => {
            fields.push(field("count", decimal_exec(ns.len())));
            fields.push(field("nodes", nodes_exec(ns)));
            fields.push(field("success", to_chars("true")));
            fields.push(field("type", quote_chars(&to_chars("nodes"))));
            assert(pairs_view(fields@) =~= seq![
                ("count"@, decimal(items_view(ns@).len())),
                ("nodes"@, nodes_json(items_view(ns@))),
                ("success"@, "true"@),
                ("type"@, json_string_literal("nodes"@)),
            ]);
        },
        XPathValue::String(s) => {
            fields.push(field("success", to_chars("true")));
            fields.push(field("type", quote_chars(&to_chars("string"))));
            fields.push(field("value", quote_chars(&to_chars(s.as_str()))));
            assert(pairs_view(fields@) =~= seq![
                ("success"@, "true"@),
                ("type"@, json_string_literal("string"@)),
                ("value"@, json_string_literal(s@)),
            ]);
        },
        XPathValue::Bool(b) => {
            fields.push(field("success", to_chars("true")));
            fields.push(field("type", quote_chars(&to_chars("bool"))));
            fields.push(field("value", bool_chars(*b)));
            assert(pairs_view(fields@) =~= seq![
                ("success"@, "true"@),
                ("type"@, json_string_literal("bool"@)),
                ("value"@, json_bool(*b)),
            ]);
        },
    }
    object_chars(&fields)
}

fn batch_value_exec(v: &XPathValue) -> (r: Vec<char>)
    ensures
        r@ == batch_value_json(v@),
{
    let mut fields: Vec<(Vec<char>, Vec<char>)> = Vec::new();
    match v {
        XPathValue::Nodes(ns) => {
            fields.push(field("items", nodes_exec(ns)));
            fields.push(field("type", quote_chars(&to_chars("nodes"))));
            assert(pairs_view(fields@) =~= seq![
                ("items"@, nodes_json(items_view(ns@))),
                ("type"@, json_string_literal("nodes"@)),
            ]);
        },
        XPathValue::String(s) => {
            fields.push(field("type", quote_chars(&to_chars("string"))));
            fields.push(field("value", quote_chars(&to_chars(s.as_str()))));
            assert(pairs_view(fields@) =~= seq![
                ("type"@, json_string_literal("string"@)),
                ("value"@, json_string_literal(s@)),
            ]);
        },
        XPathValue::Bool(b) => {
            fields.push(field("type", quote_chars(&to_chars("bool"))));
            fields.push(field("value", bool_chars(*b)));
            assert(pairs_view(fields@) =~= seq![
                ("type"@, json_string_literal("bool"@)),
                ("value"@, json_bool(*b)),
            ]);
        },
    }
    object_chars(&fields)
}

/// Evaluates `xpath` on `html` and answers in JSON (see [`value_json`]).
pub fn evaluate_to_json(html: &str, xpath: &str) -> (r: String)
    ensures
        r@ == value_json(eval_xpath(html_document_tokens(html@), xpath@)),
{
    match evaluate(html, xpath) {
        Ok(v) => from_chars(&value_exec(&v)),
        Err(_) => String::new(),
    }
}

/// Evaluates each named expression on `html` and answers in one JSON
/// object keyed by the names, in ascending order (see [`batch_json`]).
pub fn evaluate_batch_to_json(html: &str, xpaths: Vec<(String, String)>) -> (r: String)
    requires
        keys_unique(entries_view(xpaths@)),
    ensures
        r@ == batch_json(html_document_tokens(html@), entries_view(xpaths@)),
{
    let mut raw: Vec<(Vec<char>, Vec<char>)> = Vec::new();
    let mut i: usize = 0;
    while i < xpaths.len()
        invariant
            i <= xpaths.len(),
            pairs_view(raw@) == entries_view(xpaths@).take(i as int),
        decreases xpaths.len() - i,
    {
        let ghost before = pairs_view(raw@);
        raw.push((to_chars(xpaths[i].0.as_str()), to_chars(xpaths[i].1.as_str())));
        assert(pairs_view(raw@) =~= before.push(entries_view(xpaths@)[i as int]));
        assert(entries_view(xpaths@).take(i + 1) =~= entries_view(xpaths@).take(i as int).push(
            entries_view(xpaths@)[i as int],
        ));
        i += 1;
    }
    assert(entries_view(xpaths@).take(xpaths.len() as int) =~= entries_view(xpaths@));
    let sorted = sort_by_key_exec(raw);
    let ghost sv = pairs_view(sorted@);
    let ghost toks = html_document_tokens(html@);
    let ghost f = |e: (Seq<char>, Seq<char>)| (e.0, batch_value_json(eval_xpath(toks, e.1)));
    let mut fields: Vec<(Vec<char>, Vec<char>)> = Vec::new();
    let mut j: usize = 0;
    while j < sorted.len()
        invariant
            j <= sorted.len(),
            sv == pairs_view(sorted@),
            toks == html_document_tokens(html@),
            f == (|e: (Seq<char>, Seq<char>)| (e.0, batch_value_json(eval_xpath(toks, e.1)))),
            pairs_view(fields@) == sv.take(j as int).map_values(f),
        decreases sorted.len() - j,
    {
        let xp = from_chars(&sorted[j].1);
        let v = match evaluate(html, xp.as_str()) {
            Ok(v) => batch_value_exec(&v),
            Err(_) => Vec::new(),
        };
        let k = to_chars(from_chars(&sorted[j].0).as_str());
        let ghost before = pairs_view(fields@);
        fields.push((k, v));
        assert(pairs_view(fields@) =~= before.push(f(sv[j as int])));
        assert(sv.take(j + 1).map_values(f) =~= sv.take(j as int).map_values(f).push(f(sv[j as int])));
        j += 1;
    }
    assert(sv.take(sorted.len() as int) =~= sv);
    from_chars(&object_chars(&fields))
}


/// The batch answer has one member per named expression and no other:
/// its members, in ascending key order, are the names, each with the
/// answer for its expression.
pub proof fn law_batch_members(toks: Seq<TokenView>, xpaths: Entries)
    ensures
        ({
            let f = |e: (Seq<char>, Seq<char>)| (e.0, batch_value_json(eval_xpath(toks, e.1)));
            let fields = sort_by_key(xpaths).map_values(f);
            &&& batch_json(toks, xpaths) == json_object(fields)
            &&& fields.len() == xpaths.len()
            &&& forall|j: int| 0 <= j < xpaths.len() ==> fields.contains(f(#[trigger] xpaths[j]))
            &&& forall|i: int| 0 <= i < fields.len() ==> exists|j: int|
                0 <= j < xpaths.len() && #[trigger] fields[i] == f(xpaths[j])
            &&& forall|i: int, j: int| 0 <= i < j < fields.len() ==> !lex_lt(
                (#[trigger] fields[j]).0,
                (#[trigger] fields[i]).0,
            )
        }),
{
    let f = |e: (Seq<char>, Seq<char>)| (e.0, batch_value_json(eval_xpath(toks, e.1)));
    let sorted = sort_by_key(xpaths);
    let fields = sorted.map_values(f);
    lemma_sort_keeps_entries(xpaths);
    lemma_sort_has_all_entries(xpaths);
    law_sorted_keys_ascending(xpaths);
    assert forall|j: int| 0 <= j < xpaths.len() implies fields.contains(f(#[trigger] xpaths[j])) by {
        assert(xpaths.contains(xpaths[j]));
        assert(sorted.contains(xpaths[j]));
        let k = choose|k: int| 0 <= k < sorted.len() && sorted[k] == xpaths[j];
        assert(fields[k] == f(xpaths[j]));
    }
    assert forall|i: int| 0 <= i < fields.len() implies exists|j: int|
        0 <= j < xpaths.len() && #[trigger] fields[i] == f(xpaths[j]) by {
        assert(xpaths.contains(sorted[i]));
        let j = choose|j: int| 0 <= j < xpaths.len() && xpaths[j] == sorted[i];
        assert(fields[i] == f(xpaths[j]));
    }
    assert forall|i: int, j: int| 0 <= i < j < fields.len() implies !lex_lt(
        (#[trigger] fields[j]).0,
        (#[trigger] fields[i]).0,
    ) by {
        assert(fields[j].0 == sorted[j].0);
        assert(fields[i].0 == sorted[i].0);
    }
}
} // verus!
