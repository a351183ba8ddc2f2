//! Site rules: JSON objects naming a site and the XPath expressions that
//! extract its search results and episode lists.
//!
//! `serde_json` parses the rule text; what the rule engine reads of a JSON
//! value is kept as [`JsonFields`]: whether it is an object, and for each
//! member its key and, when the member is a string, its text.
use vstd::prelude::*;

use crate::text::{append_chars, append_str, chars_eq, eq_str, from_chars, to_chars};

verus! {

/// A member of a JSON object: its key, and its text when it is a string.
#[derive(Debug, Clone)]
pub struct JsonField {
    pub key: String,
    pub text: Option<String>,
}

/// What the rule engine reads of a JSON value.
#[derive(Debug, Clone)]
pub struct JsonFields {
    pub is_object: bool,
    pub fields: Vec<JsonField>,
}

pub struct FieldsView {
    pub is_object: bool,
    pub fields: Seq<(Seq<char>, Option<Seq<char>>)>,
}

pub open spec fn opt_string_view(o: Option<String>) -> Option<Seq<char>> {
    match o {
        Some(s) => Some(s@),
        None => None,
    }
}

impl View for JsonField {
    type V = (Seq<char>, Option<Seq<char>>);

    open spec fn view(&self) -> (Seq<char>, Option<Seq<char>>) {
        (self.key@, opt_string_view(self.text))
    }
}

pub open spec fn fields_view(f: Seq<JsonField>) -> Seq<(Seq<char>, Option<Seq<char>>)> {
    f.map_values(|x: JsonField| x@)
}

impl View for JsonFields {
    type V = FieldsView;

    open spec fn view(&self) -> FieldsView {
        FieldsView { is_object: self.is_object, fields: fields_view(self.fields@) }
    }
}

pub open spec fn fields_list_view(v: Seq<JsonFields>) -> Seq<FieldsView> {
    v.map_values(|x: JsonFields| x@)
}

/// What `serde_json::from_str::<serde_json::Value>` makes of a text: the
/// value as [`FieldsView`], or the error's message.
pub uninterp spec fn json_value_fields(text: Seq<char>) -> Result<FieldsView, Seq<char>>;

/// What `serde_json::from_str::<Vec<serde_json::Value>>` makes of a text:
/// each element as [`FieldsView`], or the error's message.
pub uninterp spec fn json_array_fields(text: Seq<char>) -> Result<Seq<FieldsView>, Seq<char>>;

/// Parses a JSON value with `serde_json::from_str::<serde_json::Value>` and
/// keeps, for an object, each member's key and string text (members in the
/// order `serde_json`'s map iterates them); on failure, the error's
/// `Display` text.  The result is named [`json_value_fields`].
#[verifier::external_body]
pub(crate) fn parse_json_fields(json: &str) -> (r: Result<JsonFields, String>)
    ensures
        match r {
            Ok(f) => json_value_fields(json@) == Ok::<FieldsView, Seq<char>>(f@),
            Err(e) => json_value_fields(json@) == Err::<FieldsView, Seq<char>>(e@),
        },
{
    match serde_json::from_str::<serde_json::Value>(json) {
        Ok(v) => Ok(JsonFields {
            is_object: v.is_object(),
            fields: v.as_object().map(|o| o.iter().map(|(k, x)| JsonField { key: k.clone(), text: x.as_str().map(|s| s.to_string()) }).collect()).unwrap_or_default(),
        }),
        Err(e) => Err(e.to_string()),
    }
}

/// Parses a JSON array with `serde_json::from_str::<Vec<serde_json::Value>>`
/// and keeps each element as [`parse_json_fields`] does; on failure, the
/// error's `Display` text.  The result is named [`json_array_fields`].
#[verifier::external_body]
pub(crate) fn parse_json_array_fields(json: &str) -> (r: Result<Vec<JsonFields>, String>)
    ensures
        match r {
            Ok(v) => json_array_fields(json@) == Ok::<Seq<FieldsView>, Seq<char>>(fields_list_view(v@)),
            Err(e) => json_array_fields(json@) == Err::<Seq<FieldsView>, Seq<char>>(e@),
        },
{
    match serde_json::from_str::<Vec<serde_json::Value>>(json) {
        Ok(vs) => Ok(vs.iter().map(|v| JsonFields {
            is_object: v.is_object(),
            fields: v.as_object().map(|o| o.iter().map(|(k, x)| JsonField { key: k.clone(), text: x.as_str().map(|s| s.to_string()) }).collect()).unwrap_or_default(),
        }).collect()),
        Err(e) => Err(e.to_string()),
    }
}

/// The member named `key` (the first one).
pub open spec fn member(fields: Seq<(Seq<char>, Option<Seq<char>>)>, key: Seq<char>) -> Option<Option<Seq<char>>>
    decreases fields.len(),
{
    if fields.len() == 0 {
        None
    } else if fields[0].0 == key {
        Some(fields[0].1)
    } else {
        member(fields.drop_first(), key)
    }
}

/// The text of member `key` when it is a string (`value.get(key).and_then(as_str)`).
pub open spec fn string_member(v: FieldsView, key: Seq<char>) -> Option<Seq<char>> {
    match member(v.fields, key) {
        Some(Some(t)) => Some(t),
        _ => None,
    }
}

/// The text of member `key`, or the empty text.
pub open spec fn string_member_or_empty(v: FieldsView, key: Seq<char>) -> Seq<char> {
    match string_member(v, key) {
        Some(t) => t,
        None => Seq::empty(),
    }
}

fn member_exec(v: &JsonFields, key: &str) -> (r: Option<Option<Vec<char>>>)
    ensures
        match member(v@.fields, key@) {
            Some(Some(t)) => r matches Some(Some(x)) && x@ == t,
            Some(None) => r matches Some(None),
            None => r is None,
        },
{
    let ghost fv = v@.fields;
    let mut i: usize = 0;
    assert(fv.skip(0) =~= fv);
    while i < v.fields.len()
        invariant
            i <= v.fields.len(),
            fv == v@.fields,
            member(fv, key@) == member(fv.skip(i as int), key@),
        decreases v.fields.len() - i,
    {
        assert(fv.skip(i as int)[0] == v.fields@[i as int]@);
        assert(fv.skip(i as int).drop_first() =~= fv.skip(i + 1));
        let f = &v.fields[i];
        if eq_str(&to_chars(f.key.as_str()), key) {
            return match &f.text {
                Some(t) => Some(Some(to_chars(t.as_str()))),
                None => Some(None),
            };
        }
        i += 1;
    }
    None
}

/// The text of member `key` when it is a string.
pub fn string_member_exec(v: &JsonFields, key: &str) -> (r: Option<Vec<char>>)
    ensures
        match string_member(v@, key@) {
            Some(t) => r matches Some(x) && x@ == t,
            None => r is None,
        },
{
    match member_exec(v, key) {
        Some(Some(t)) => Some(t),
        _ => None,
    }
}

/// The text of member `key`, or the empty text.
pub fn string_member_or_empty_exec(v: &JsonFields, key: &str) -> (r: Vec<char>)
    ensures
        r@ == string_member_or_empty(v@, key@),
{
    match string_member_exec(v, key) {
        Some(t) => t,
        None => Vec::new(),
    }
}

/// The message of a rule text that does not parse.
pub open spec fn rule_parse_error(e: Seq<char>) -> Seq<char> {
    "规则 JSON 解析失败: "@ + e
}

/// Parses a rule text.
pub fn parse_rule(json: &str) -> (r: Result<JsonFields, String>)
    ensures
        match json_value_fields(json@) {
            Ok(f) => r matches Ok(g) && g@ == f,
            Err(e) => r matches Err(m) && m@ == rule_parse_error(e),
        },
{
    match parse_json_fields(json) {
        Ok(f) => Ok(f),
        Err(e) => {
            let mut m = to_chars("规则 JSON 解析失败: ");
            append_str(&mut m, e.as_str());
            Err(from_chars(&m))
        },
    }
}

/// Whether a rule names itself and says how to search.
pub open spec fn rule_problem(rule: FieldsView) -> Option<Seq<char>> {
    if !rule.is_object {
        None
    } else if member(rule.fields, "name"@) is None {
        Some("规则缺少 'name' 字段"@)
    } else if member(rule.fields, "searchList"@) is None && member(rule.fields, "searchUrl"@) is None {
        Some("规则缺少搜索相关字段"@)
    } else {
        None
    }
}

/// Checks that an object rule has a `name` member and a `searchList` or
/// `searchUrl` member; a value that is not an object passes.
pub fn validate_rule(rule: &JsonFields) -> (r: Result<(), String>)
    ensures
        match rule_problem(rule@) {
            Some(m) => r matches Err(e) && e@ == m,
            None => r is Ok,
        },
{
    if rule.is_object {
        if member_exec(rule, "name").is_none() {
            return Err(from_chars(&to_chars("规则缺少 'name' 字段")));
        }
        if member_exec(rule, "searchList").is_none() && member_exec(rule, "searchUrl").is_none() {
            return Err(from_chars(&to_chars("规则缺少搜索相关字段")));
        }
    }
    Ok(())
}

/// How a rule searches: `"xpath"` when `searchList` is a non-empty string,
/// else `"api"` when `searchUrl` is one, else `"unknown"`.
pub open spec fn selector_kind(rule: FieldsView) -> Seq<char> {
    if string_member(rule, "searchList"@) matches Some(t) && t.len() > 0 {
        "xpath"@
    } else if string_member(rule, "searchUrl"@) matches Some(t) && t.len() > 0 {
        "api"@
    } else {
        "unknown"@
    }
}

/// How a rule searches (see [`selector_kind`]).
pub fn selector_type(rule: &JsonFields) -> (r: &'static str)
    ensures
        r@ == selector_kind(rule@),
{
    match string_member_exec(rule, "searchList") {
        Some(t) => if t.len() > 0 {
            return "xpath";
        },
        None => {},
    }
    match string_member_exec(rule, "searchUrl") {
        Some(t) => if t.len() > 0 {
            return "api";
        },
        None => {},
    }
    "unknown"
}

} // verus!
