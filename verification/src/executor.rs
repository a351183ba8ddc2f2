//! Rule-driven extraction: search results and episode lists of a site, as
//! JSON text.
use vstd::prelude::*;

use crate::dom::html_document_tokens;
use crate::json::{
    array_chars, field, json_array, json_object, json_string_literal, object_chars, pairs_view,
    quote_chars,
};
use crate::rule::{
    fields_list_view, parse_json_array_fields, rule_parse_error, string_member,
    string_member_exec, string_member_or_empty, string_member_or_empty_exec, FieldsView,
    JsonFields,
};
use crate::text::{append_chars, append_str, char_views, chars_eq, from_chars, to_chars};
use crate::xpath::{entries_get, evaluate, items_view, eval_xpath, NodeItem, ValueView, XPathNode, XPathValue};
use crate::rule::json_array_fields;

verus! {

/// The first rule whose `name` member is the string `name`.
pub open spec fn find_rule(rules: Seq<FieldsView>, name: Seq<char>) -> Option<FieldsView>
    decreases rules.len(),
{
    if rules.len() == 0 {
        None
    } else if string_member(rules[0], "name"@) == Some(name) {
        Some(rules[0])
    } else {
        find_rule(rules.drop_first(), name)
    }
}

/// The message for a rule name that no rule has.
pub open spec fn rule_missing(name: Seq<char>) -> Seq<char> {
    "规则 '"@ + name + "' 未找到"@
}

/// The rule named `rule_name` in the rule list `rules_json`, or the error
/// message.
pub open spec fn lookup_rule(rules_json: Seq<char>, rule_name: Seq<char>) -> Result<FieldsView, Seq<char>> {
    match json_array_fields(rules_json) {
        Err(e) => Err(rule_parse_error(e)),
        Ok(rules) => match find_rule(rules, rule_name) {
            Some(r) => Ok(r),
            None => Err(rule_missing(rule_name)),
        },
    }
}

/// The value of `xpath` on the HTML text `html`.
pub open spec fn xpath_on(html: Seq<char>, xpath: Seq<char>) -> ValueView {
    eval_xpath(html_document_tokens(html), xpath)
}

/// A name from an expression's value: a string, or the text of the first node.
pub open spec fn name_from(v: ValueView) -> Seq<char> {
    match v {
        ValueView::String(s) => s,
        ValueView::Nodes(n) => if n.len() > 0 {
            n[0].text
        } else {
            Seq::empty()
        },
        ValueView::Bool(_) => Seq::empty(),
    }
}

/// A link from an expression's value: a string, or the `href` of the first node.
pub open spec fn link_from(v: ValueView) -> Seq<char> {
    match v {
        ValueView::String(s) => s,
        ValueView::Nodes(n) => if n.len() > 0 {
            match entries_get(n[0].attributes, "href"@) {
                Some(h) => h,
                None => Seq::empty(),
            }
        } else {
            Seq::empty()
        },
        ValueView::Bool(_) => Seq::empty(),
    }
}

/// One search result: the expressions `search_name` and `search_result` are
/// evaluated on the result element's own HTML.
pub open spec fn search_item_json(n: NodeItem, search_name: Seq<char>, search_result: Seq<char>) -> Seq<char> {
    let name = if search_name.len() > 0 {
        name_from(xpath_on(n.outer_html, search_name))
    } else {
        Seq::empty()
    };
    let src = if search_result.len() > 0 {
        link_from(xpath_on(n.outer_html, search_result))
    } else {
        Seq::empty()
    };
    json_object(
        seq![
            ("html"@, json_string_literal(n.html)),
            ("name"@, json_string_literal(name)),
            ("src"@, json_string_literal(src)),
        ],
    )
}

/// The search results of `html` under `rule`.
pub open spec fn search_json(html: Seq<char>, rule: FieldsView) -> Seq<char> {
    let list = string_member_or_empty(rule, "searchList"@);
    let sn = string_member_or_empty(rule, "searchName"@);
    let sr = string_member_or_empty(rule, "searchResult"@);
    let items = match xpath_on(html, list) {
        ValueView::Nodes(ns) => ns.map_values(|n: NodeItem| search_item_json(n, sn, sr)),
        _ => Seq::empty(),
    };
    json_object(seq![("items"@, json_array(items))])
}

/// The episode links of one play route: the `href` and text of each
/// selected element that has a non-empty `href`.
pub open spec fn episodes(eps: Seq<NodeItem>) -> (Seq<Seq<char>>, Seq<Seq<char>>)
    decreases eps.len(),
{
    if eps.len() == 0 {
        (Seq::empty(), Seq::empty())
    } else {
        let (d, n) = episodes(eps.drop_last());
        let url = match entries_get(eps.last().attributes, "href"@) {
            Some(h) => h,
            None => Seq::empty(),
        };
        if url.len() > 0 {
            (d.push(url), n.push(eps.last().text))
        } else {
            (d, n)
        }
    }
}

pub open spec fn quoted_all(s: Seq<Seq<char>>) -> Seq<Seq<char>> {
    s.map_values(|x: Seq<char>| json_string_literal(x))
}

/// The JSON object of one play route, if it has episodes.
pub open spec fn road_json(road: NodeItem, chapter_result: Seq<char>) -> Option<Seq<char>> {
    if chapter_result.len() == 0 {
        None
    } else {
        match xpath_on(road.outer_html, chapter_result) {
            ValueView::Nodes(eps) => {
                let (data, names) = episodes(eps);
                if data.len() > 0 {
                    Some(
                        json_object(
                            seq![
                                ("data"@, json_array(quoted_all(data))),
                                ("name"@, json_string_literal("播放线路"@)),
                                ("names"@, json_array(quoted_all(names))),
                            ],
                        ),
                    )
                } else {
                    None
                }
            },
            _ => None,
        }
    }
}

/// The play routes among `roads` that have episodes.
pub open spec fn roads_json(roads: Seq<NodeItem>, chapter_result: Seq<char>) -> Seq<Seq<char>>
    decreases roads.len(),
{
    if roads.len() == 0 {
        Seq::empty()
    } else {
        let rest = roads_json(roads.drop_last(), chapter_result);
        match road_json(roads.last(), chapter_result) {
            Some(j) => rest.push(j),
            None => rest,
        }
    }
}

/// The play routes of `html` under `rule`.
pub open spec fn sources_json(html: Seq<char>, rule: FieldsView) -> Seq<char> {
    let roads_x = string_member_or_empty(rule, "chapterRoads"@);
    let cr = string_member_or_empty(rule, "chapterResult"@);
    let roads = if roads_x.len() == 0 {
        Seq::empty()
    } else {
        match xpath_on(html, roads_x) {
            ValueView::Nodes(rs) => roads_json(rs, cr),
            _ => Seq::empty(),
        }
    };
    json_object(seq![("roads"@, json_array(roads))])
}

fn find_rule_exec(rules: &Vec<JsonFields>, name: &str) -> (r: Option<usize>)
    ensures
        match find_rule(fields_list_view(rules@), name@) {
            Some(f) => r matches Some(i) && i < rules.len() && rules@[i as int]@ == f,
            None => r is None,
        },
{
    let ghost rv = fields_list_view(rules@);
    let nm = to_chars(name);
    let mut i: usize = 0;
    assert(rv.skip(0) =~= rv);
    while i < rules.len()
        invariant
            i <= rules.len(),
            rv == fields_list_view(rules@),
            nm@ == name@,
            find_rule(rv, name@) == find_rule(rv.skip(i as int), name@),
        decreases rules.len() - i,
    {
        assert(rv.skip(i as int)[0] == rules@[i as int]@);
        assert(rv.skip(i as int).drop_first() =~= rv.skip(i + 1));
        match string_member_exec(&rules[i], "name") {
            Some(n) => {
                if chars_eq(&n, &nm) {
                    return Some(i);
                }
            },
            None => {},
        }
        i += 1;
    }
    None
}

fn lookup_rule_exec(rules_json: &str, rule_name: &str) -> (r: Result<JsonFields, String>)
    ensures
        match lookup_rule(rules_json@, rule_name@) {
            Ok(f) => r matches Ok(g) && g@ == f,
            Err(e) => r matches Err(m) && m@ == e,
        },
{
    match parse_json_array_fields(rules_json) {
        Err(e) => {
            let mut m = to_chars("规则 JSON 解析失败: ");
            append_str(&mut m, e.as_str());
            Err(from_chars(&m))
        },
        Ok(rules) => match find_rule_exec(&rules, rule_name) {
            Some(i) => {
                let f = &rules[i];
                let mut fields = Vec::new();
                let mut j: usize = 0;
                while j < f.fields.len()
                    invariant
                        j <= f.fields.len(),
                        crate::rule::fields_view(fields@) == crate::rule::fields_view(f.fields@).take(j as int),
                    decreases f.fields.len() - j,
                {
                    let x = crate::rule::JsonField {
                        key: f.fields[j].key.clone(),
                        text: match &f.fields[j].text {
                            Some(t) => Some(t.clone()),
                            None => None,
                        },
                    };
                    let ghost before = crate::rule::fields_view(fields@);
                    fields.push(x);
                    assert(crate::rule::fields_view(fields@) =~= before.push(f.fields@[j as int]@));
                    assert(crate::rule::fields_view(f.fields@).take(j + 1) =~= crate::rule::fields_view(f.fields@).take(j as int).push(f.fields@[j as int]@));
                    j += 1;
                }
                assert(crate::rule::fields_view(f.fields@).take(f.fields.len() as int) =~= crate::rule::fields_view(f.fields@));
                Ok(JsonFields { is_object: f.is_object, fields })
            },
            None => {
                let mut m = to_chars("规则 '");
                append_str(&mut m, rule_name);
                append_str(&mut m, "' 未找到");
                Err(from_chars(&m))
            },
        },
    }
}

fn value_of(html: &Vec<char>, xpath: &Vec<char>) -> (r: XPathValue)
    ensures
        r@ == xpath_on(html@, xpath@),
{
    let h = from_chars(html);
    let x = from_chars(xpath);
    match evaluate(h.as_str(), x.as_str()) {
        Ok(v) => v,
        Err(_) => XPathValue::Bool(false),
    }
}

fn name_from_exec(v: &XPathValue) -> (r: Vec<char>)
    ensures
        r@ == name_from(v@),
{
    match v {
        XPathValue::String(s) => to_chars(s.as_str()),
        XPathValue::Nodes(n) => if n.len() > 0 {
            to_chars(n[0].text.as_str())
        } else {
            Vec::new()
        },
        XPathValue::Bool(_) => Vec::new(),
    }
}

fn link_exec(n: &XPathNode) -> (r: Vec<char>)
    ensures
        r@ == match entries_get(n@.attributes, "href"@) {
            Some(h) => h,
            None => Seq::empty(),
        },
{
    match n.attributes.get("href") {
        Some(h) => to_chars(h.as_str()),
        None => Vec::new(),
    }
}

fn link_from_exec(v: &XPathValue) -> (r: Vec<char>)
    ensures
        r@ == link_from(v@),
{
    match v {
        XPathValue::String(s) => to_chars(s.as_str()),
        XPathValue::Nodes(n) => if n.len() > 0 {
            link_exec(&n[0])
        } else {
            Vec::new()
        },
        XPathValue::Bool(_) => Vec::new(),
    }
}

fn search_item_exec(n: &XPathNode, sn: &Vec<char>, sr: &Vec<char>) -> (r: Vec<char>)
    ensures
        r@ == search_item_json(n@, sn@, sr@),
{
    let outer = to_chars(n.outer_html.as_str());
    let name = if sn.len() > 0 {
        name_from_exec(&value_of(&outer, sn))
    } else {
        Vec::new()
    };
    let src = if sr.len() > 0 {
        link_from_exec(&value_of(&outer, sr))
    } else {
        Vec::new()
    };
    let mut fields: Vec<(Vec<char>, Vec<char>)> = Vec::new();
    fields.push(field("html", quote_chars(&to_chars(n.html.as_str()))));
    fields.push(field("name", quote_chars(&name)));
    fields.push(field("src", quote_chars(&src)));
    let ghost nm = if sn@.len() > 0 {
        name_from(xpath_on(n@.outer_html, sn@))
    } else {
        Seq::empty()
    };
    let ghost sc = if sr@.len() > 0 {
        link_from(xpath_on(n@.outer_html, sr@))
    } else {
        Seq::empty()
    };
    assert(name@ == nm);
    assert(src@ == sc);
    assert(pairs_view(fields@) =~= seq![
        ("html"@, json_string_literal(n@.html)),
        ("name"@, json_string_literal(nm)),
        ("src"@, json_string_literal(sc)),
    ]);
    object_chars(&fields)
}

/// The search results of `html` under `rule` (see [`search_json`]).
pub fn search_results(html: &str, rule: &JsonFields) -> (r: String)
    ensures
        r@ == search_json(html@, rule@),
{
    let list = string_member_or_empty_exec(rule, "searchList");
    let sn = string_member_or_empty_exec(rule, "searchName");
    let sr = string_member_or_empty_exec(rule, "searchResult");
    let v = value_of(&to_chars(html), &list);
    let ghost f = |n: NodeItem| search_item_json(n, sn@, sr@);
    let mut items: Vec<Vec<char>> = Vec::new();
    match &v {
        XPathValue::Nodes(ns) => {
            let ghost iv = items_view(ns@);
            let mut i: usize = 0;
            while i < ns.len()
                invariant
                    i <= ns.len(),
                    iv == items_view(ns@),
                    f == (|n: NodeItem| search_item_json(n, sn@, sr@)),
                    char_views(items@) == iv.take(i as int).map_values(f),
                decreases ns.len() - i,
            {
                let j = search_item_exec(&ns[i], &sn, &sr);
                let ghost before = char_views(items@);
                items.push(j);
                assert(char_views(items@) =~= before.push(f(iv[i as int])));
                assert(iv.take(i + 1).map_values(f) =~= iv.take(i as int).map_values(f).push(f(iv[i as int])));
                i += 1;
            }
            assert(iv.take(ns.len() as int) =~= iv);
        },
        _ => {
            assert(char_views(items@) =~= Seq::<Seq<char>>::empty());
        },
    }
    let mut fields: Vec<(Vec<char>, Vec<char>)> = Vec::new();
    fields.push(field("items", array_chars(&items)));
    assert(pairs_view(fields@) =~= seq![("items"@, json_array(char_views(items@)))]);
    from_chars(&object_chars(&fields))
}

/// Extracts the search results of `html` with the rule named `rule_name`
/// from the rule list `rules_json`.
pub fn extract_bangumi(html: &str, rule_name: &str, rules_json: &str) -> (r: Result<String, String>)
    ensures
        match lookup_rule(rules_json@, rule_name@) {
            Ok(rule) => r matches Ok(s) && s@ == search_json(html@, rule),
            Err(e) => r matches Err(m) && m@ == e,
        },
{
    let rule = lookup_rule_exec(rules_json, rule_name)?;
    Ok(search_results(html, &rule))
}

fn episodes_exec(eps: &Vec<XPathNode>) -> (r: (Vec<Vec<char>>, Vec<Vec<char>>))
    ensures
        (char_views(r.0@), char_views(r.1@)) == episodes(items_view(eps@)),
{
    let ghost iv = items_view(eps@);
    let mut data: Vec<Vec<char>> = Vec::new();
    let mut names: Vec<Vec<char>> = Vec::new();
    let mut i: usize = 0;
    assert(iv.take(0) =~= Seq::<NodeItem>::empty());
    assert(char_views(data@) =~= Seq::<Seq<char>>::empty());
    assert(char_views(names@) =~= Seq::<Seq<char>>::empty());
    while i < eps.len()
        invariant
            i <= eps.len(),
            iv == items_view(eps@),
            (char_views(data@), char_views(names@)) == episodes(iv.take(i as int)),
        decreases eps.len() - i,
    {
        assert(iv.take(i + 1).drop_last() =~= iv.take(i as int));
        assert(iv.take(i + 1).last() == eps@[i as int]@);
        let url = link_exec(&eps[i]);
        if url.len() > 0 {
            let ghost d0 = char_views(data@);
            let ghost n0 = char_views(names@);
            let t = to_chars(eps[i].text.as_str());
            data.push(url);
            names.push(t);
            assert(char_views(data@) =~= d0.push(url@));
            assert(char_views(names@) =~= n0.push(t@));
        }
        i += 1;
    }
    assert(iv.take(eps.len() as int) =~= iv);
    (data, names)
}

fn quote_all(s: &Vec<Vec<char>>) -> (r: Vec<Vec<char>>)
    ensures
        char_views(r@) == quoted_all(char_views(s@)),
{
    let ghost sv = char_views(s@);
    let mut r: Vec<Vec<char>> = Vec::new();
    let mut i: usize = 0;
    while i < s.len()
        invariant
            i <= s.len(),
            sv == char_views(s@),
            char_views(r@) == quoted_all(sv.take(i as int)),
        decreases s.len() - i,
    {
        let q = quote_chars(&s[i]);
        let ghost before = char_views(r@);
        r.push(q);
        assert(char_views(r@) =~= before.push(json_string_literal(sv[i as int])));
        assert(quoted_all(sv.take(i + 1)) =~= quoted_all(sv.take(i as int)).push(json_string_literal(sv[i as int])));
        i += 1;
    }
    assert(sv.take(s.len() as int) =~= sv);
    r
}

fn road_exec(road: &XPathNode, cr: &Vec<char>) -> (r: Option<Vec<char>>)
    ensures
        match road_json(road@, cr@) {
            Some(j) => r matches Some(x) && x@ == j,
            None => r is None,
        },
{
    if cr.len() == 0 {
        return None;
    }
    let v = value_of(&to_chars(road.outer_html.as_str()), cr);
    match &v {
        XPathValue::Nodes(eps) => {
            let (data, names) = episodes_exec(eps);
            if data.len() > 0 {
                let mut fields: Vec<(Vec<char>, Vec<char>)> = Vec::new();
                fields.push(field("data", array_chars(&quote_all(&data))));
                fields.push(field("name", quote_chars(&to_chars("播放线路"))));
                fields.push(field("names", array_chars(&quote_all(&names))));
                assert(pairs_view(fields@) =~= seq![
                    ("data"@, json_array(quoted_all(char_views(data@)))),
                    ("name"@, json_string_literal("播放线路"@)),
                    ("names"@, json_array(quoted_all(char_views(names@)))),
                ]);
                Some(object_chars(&fields))
            } else {
                None
            }
        },
        _ => None,
    }
}

/// The play routes of `html` under `rule` (see [`sources_json`]).
pub fn source_results(html: &str, rule: &JsonFields) -> (r: String)
    ensures
        r@ == sources_json(html@, rule@),
{
    let roads_x = string_member_or_empty_exec(rule, "chapterRoads");
    let cr = string_member_or_empty_exec(rule, "chapterResult");
    let mut roads: Vec<Vec<char>> = Vec::new();
    if roads_x.len() > 0 {
        let v = value_of(&to_chars(html), &roads_x);
        match &v {
            XPathValue::Nodes(rs) => {
                let ghost rv = items_view(rs@);
                let mut i: usize = 0;
                assert(rv.take(0) =~= Seq::<NodeItem>::empty());
                assert(char_views(roads@) =~= Seq::<Seq<char>>::empty());
                while i < rs.len()
                    invariant
                        i <= rs.len(),
                        rv == items_view(rs@),
                        char_views(roads@) == roads_json(rv.take(i as int), cr@),
                    decreases rs.len() - i,
                {
                    assert(rv.take(i + 1).drop_last() =~= rv.take(i as int));
                    assert(rv.take(i + 1).last() == rs@[i as int]@);
                    match road_exec(&rs[i], &cr) {
                        Some(j) => {
                            let ghost before = char_views(roads@);
                            roads.push(j);
                            assert(char_views(roads@) =~= before.push(j@));
                        },
                        None => {},
                    }
                    i += 1;
                }
                assert(rv.take(rs.len() as int) =~= rv);
            },
            _ => {
                assert(char_views(roads@) =~= Seq::<Seq<char>>::empty());
            },
        }
    } else {
        assert(char_views(roads@) =~= Seq::<Seq<char>>::empty());
    }
    let mut fields: Vec<(Vec<char>, Vec<char>)> = Vec::new();
    fields.push(field("roads", array_chars(&roads)));
    assert(pairs_view(fields@) =~= seq![("roads"@, json_array(char_views(roads@)))]);
    from_chars(&object_chars(&fields))
}

/// Extracts the play routes of `html` with the rule named `rule_name` from
/// the rule list `rules_json`.
pub fn extract_video_sources(html: &str, rule_name: &str, rules_json: &str) -> (r: Result<String, String>)
    ensures
        match lookup_rule(rules_json@, rule_name@) {
            Ok(rule) => r matches Ok(s) && s@ == sources_json(html@, rule),
            Err(e) => r matches Err(m) && m@ == e,
        },
{
    let rule = lookup_rule_exec(rules_json, rule_name)?;
    Ok(source_results(html, &rule))
}


/// The link of a selected element: its `href`, or the empty text.
pub open spec fn href_of(n: NodeItem) -> Seq<char> {
    match entries_get(n.attributes, "href"@) {
        Some(h) => h,
        None => Seq::empty(),
    }
}

/// The episodes of a play route are its selected elements that have a
/// non-empty `href`, in order: the links are those `href`s and the names
/// are those elements' texts (their text nodes joined and trimmed).
pub proof fn law_episodes_are_linked_elements(eps: Seq<NodeItem>)
    ensures
        episodes(eps).0 == eps.filter(|n: NodeItem| href_of(n).len() > 0).map_values(|n: NodeItem| href_of(n)),
        episodes(eps).1 == eps.filter(|n: NodeItem| href_of(n).len() > 0).map_values(|n: NodeItem| n.text),
    decreases eps.len(),
{
    let pred = |n: NodeItem| href_of(n).len() > 0;
    if eps.len() > 0 {
        law_episodes_are_linked_elements(eps.drop_last());
        let f0 = eps.drop_last().filter(pred);
        eps.drop_last().lemma_filter_push(eps.last(), pred);
        assert(eps.drop_last().push(eps.last()) =~= eps);
        assert(eps.filter(pred) == (if pred(eps.last()) {
            f0.push(eps.last())
        } else {
            f0
        }));
        if pred(eps.last()) {
            assert(eps.filter(pred).map_values(|n: NodeItem| href_of(n)) =~= f0.map_values(
                |n: NodeItem| href_of(n),
            ).push(href_of(eps.last())));
            assert(eps.filter(pred).map_values(|n: NodeItem| n.text) =~= f0.map_values(|n: NodeItem| n.text).push(
                eps.last().text,
            ));
        }
    } else {
        reveal(Seq::filter);
        assert(eps.filter(pred).map_values(|n: NodeItem| href_of(n)) =~= Seq::<Seq<char>>::empty());
        assert(eps.filter(pred).map_values(|n: NodeItem| n.text) =~= Seq::<Seq<char>>::empty());
    }
}

/// The search results of a page depend on the page only through the
/// elements its `searchList` expression selects: two pages that select the
/// same elements give the same results.
pub proof fn law_search_depends_on_selected_elements(h1: Seq<char>, h2: Seq<char>, rule: FieldsView)
    requires
        xpath_on(h1, string_member_or_empty(rule, "searchList"@)) == xpath_on(
            h2,
            string_member_or_empty(rule, "searchList"@),
        ),
    ensures
        search_json(h1, rule) == search_json(h2, rule),
{
}

/// One search result per selected element, in order; each one's name and
/// link come from the `searchName` and `searchResult` expressions evaluated
/// on that element's own HTML (the text of the first element, or the
/// string, they give; and its `href`), never on the rest of the page.
pub proof fn law_search_items_per_element(html: Seq<char>, rule: FieldsView, ns: Seq<NodeItem>)
    requires
        xpath_on(html, string_member_or_empty(rule, "searchList"@)) == ValueView::Nodes(ns),
    ensures
        ({
            let sn = string_member_or_empty(rule, "searchName"@);
            let sr = string_member_or_empty(rule, "searchResult"@);
            let item = |n: NodeItem|
                json_object(
                    seq![
                        ("html"@, json_string_literal(n.html)),
                        ("name"@, json_string_literal(
                            if sn.len() > 0 {
                                name_from(xpath_on(n.outer_html, sn))
                            } else {
                                Seq::empty()
                            },
                        )),
                        ("src"@, json_string_literal(
                            if sr.len() > 0 {
                                link_from(xpath_on(n.outer_html, sr))
                            } else {
                                Seq::empty()
                            },
                        )),
                    ],
                );
            search_json(html, rule) == json_object(seq![("items"@, json_array(ns.map_values(item)))])
        }),
{
    let sn = string_member_or_empty(rule, "searchName"@);
    let sr = string_member_or_empty(rule, "searchResult"@);
    let item = |n: NodeItem|
        json_object(
            seq![
                ("html"@, json_string_literal(n.html)),
                ("name"@, json_string_literal(
                    if sn.len() > 0 {
                        name_from(xpath_on(n.outer_html, sn))
                    } else {
                        Seq::empty()
                    },
                )),
                ("src"@, json_string_literal(
                    if sr.len() > 0 {
                        link_from(xpath_on(n.outer_html, sr))
                    } else {
                        Seq::empty()
                    },
                )),
            ],
        );
    assert(ns.map_values(item) =~= ns.map_values(|n: NodeItem| search_item_json(n, sn, sr)));
}
} // verus!
