//! JSON text output.
//!
//! The engine answers its callers in JSON.  String literals are escaped by
//! `serde_json` ([`json_quote`]); objects and arrays are framed here, with
//! object keys in ascending order as `serde_json`'s default map keeps them.
use vstd::prelude::*;

use crate::text::{
    append_chars, char_views, from_chars, join, join_exec, lemma_lex_irreflexive, lemma_lex_transitive,
    lex_lt, lex_lt_exec, to_chars,
};

verus! {

/// The lower-case hexadecimal digit of `n` (below 16).
pub open spec fn hex_digit(n: int) -> char {
    seq!['0', '1', '2', '3', '4', '5', '6', '7', '8', '9', 'a', 'b', 'c', 'd', 'e', 'f'][n]
}

/// How `serde_json` writes one character inside a string literal: `"` and
/// `\` behind a backslash, the short escapes `\b \t \n \f \r`, any other
/// control character below U+0020 as `\u00XX` with lower-case hex digits,
/// everything else as it is.
pub open spec fn json_escape_char(c: char) -> Seq<char> {
    if c == '"' {
        seq!['\\', '"']
    } else if c == '\\' {
        seq!['\\', '\\']
    } else if c == '\u{8}' {
        seq!['\\', 'b']
    } else if c == '\t' {
        seq!['\\', 't']
    } else if c == '\n' {
        seq!['\\', 'n']
    } else if c == '\u{c}' {
        seq!['\\', 'f']
    } else if c == '\r' {
        seq!['\\', 'r']
    } else if (c as int) < 0x20 {
        seq!['\\', 'u', '0', '0', hex_digit((c as int) / 16), hex_digit((c as int) % 16)]
    } else {
        seq![c]
    }
}

/// The characters of a text, each escaped as in [`json_escape_char`].
pub open spec fn json_escape(s: Seq<char>) -> Seq<char>
    decreases s.len(),
{
    if s.len() == 0 {
        Seq::empty()
    } else {
        json_escape(s.drop_last()) + json_escape_char(s.last())
    }
}

/// What `serde_json::to_string` gives for a string: the escaped text
/// between double quotes.
pub open spec fn json_string_literal(s: Seq<char>) -> Seq<char> {
    seq!['"'] + json_escape(s) + seq!['"']
}

/// `serde_json::to_string` on a `&str`: the string literal of
/// [`json_string_literal`], as `format_escaped_str` in `serde_json`'s
/// `ser.rs` writes it with its `ESCAPE` table.  Serialising a string into
/// memory does not fail, so the empty fallback is never taken.
#[verifier::external_body]
pub(crate) fn json_quote(s: &str) -> (r: String)
    ensures
        r@ == json_string_literal(s@),
{
    serde_json::to_string(s).unwrap_or_default()
}

/// An object whose members (key, serialised value) are given in order.
pub open spec fn json_object(fields: Seq<(Seq<char>, Seq<char>)>) -> Seq<char> {
    seq!['{'] + join(
        fields.map_values(|f: (Seq<char>, Seq<char>)| json_string_literal(f.0) + seq![':'] + f.1),
        seq![','],
    ) + seq!['}']
}

/// An array of serialised values.
pub open spec fn json_array(items: Seq<Seq<char>>) -> Seq<char> {
    seq!['['] + join(items, seq![',']) + seq![']']
}

pub open spec fn json_bool(b: bool) -> Seq<char> {
    if b {
        "true"@
    } else {
        "false"@
    }
}

/// Index of the entry with the least key (the first one among equals).
pub open spec fn min_key_index(es: Seq<(Seq<char>, Seq<char>)>) -> int
    decreases es.len(),
{
    if es.len() <= 1 {
        0
    } else {
        let m = min_key_index(es.drop_last());
        if lex_lt(es.last().0, es[m].0) {
            es.len() - 1
        } else {
            m
        }
    }
}

/// The entries in ascending key order (selection order).
pub open spec fn sort_by_key(es: Seq<(Seq<char>, Seq<char>)>) -> Seq<(Seq<char>, Seq<char>)>
    decreases es.len(),
{
    if es.len() == 0 {
        Seq::empty()
    } else {
        proof {
            lemma_min_key_index(es);
        }
        let m = min_key_index(es);
        seq![es[m]] + sort_by_key(es.remove(m))
    }
}

/// The index of the least key lies within the entries.
pub proof fn lemma_min_key_index(es: Seq<(Seq<char>, Seq<char>)>)
    requires
        es.len() > 0,
    ensures
        0 <= min_key_index(es) < es.len(),
    decreases es.len(),
{
    if es.len() > 1 {
        lemma_min_key_index(es.drop_last());
    }
}

pub open spec fn pairs_view(v: Seq<(Vec<char>, Vec<char>)>) -> Seq<(Seq<char>, Seq<char>)> {
    v.map_values(|p: (Vec<char>, Vec<char>)| (p.0@, p.1@))
}

/// A JSON string literal for the characters `v`.
pub fn quote_chars(v: &Vec<char>) -> (r: Vec<char>)
    ensures
        r@ == json_string_literal(v@),
{
    let s = from_chars(v);
    let q = json_quote(s.as_str());
    to_chars(q.as_str())
}

/// `"true"` or `"false"`.
pub fn bool_chars(b: bool) -> (r: Vec<char>)
    ensures
        r@ == json_bool(b),
{
    if b {
        to_chars("true")
    } else {
        to_chars("false")
    }
}

/// Frames an object from its members in the given order.
pub fn object_chars(fields: &Vec<(Vec<char>, Vec<char>)>) -> (r: Vec<char>)
    ensures
        r@ == json_object(pairs_view(fields@)),
{
    let ghost fv = pairs_view(fields@);
    let ghost f = |p: (Seq<char>, Seq<char>)| json_string_literal(p.0) + seq![':'] + p.1;
    let mut parts: Vec<Vec<char>> = Vec::new();
    let mut i: usize = 0;
    while i < fields.len()
        invariant
            i <= fields.len(),
            fv == pairs_view(fields@),
            f == (|p: (Seq<char>, Seq<char>)| json_string_literal(p.0) + seq![':'] + p.1),
            char_views(parts@) == fv.take(i as int).map_values(f),
        decreases fields.len() - i,
    {
        let mut part = quote_chars(&fields[i].0);
        part.push(':');
        append_chars(&mut part, &fields[i].1);
        assert(fv[i as int] == (fields@[i as int].0@, fields@[i as int].1@));
        assert(part@ =~= f(fv[i as int]));
        let ghost before = char_views(parts@);
        parts.push(part);
        assert(char_views(parts@) =~= before.push(f(fv[i as int])));
        assert(fv.take(i + 1).map_values(f) =~= fv.take(i as int).map_values(f).push(f(fv[i as int])));
        i += 1;
    }
    assert(fv.take(fields.len() as int) =~= fv);
    let mut sep: Vec<char> = Vec::new();
    sep.push(',');
    assert(sep@ =~= seq![',']);
    let mut r: Vec<char> = Vec::new();
    r.push('{');
    append_chars(&mut r, &join_exec(&parts, &sep));
    r.push('}');
    assert(r@ =~= seq!['{'] + join(fv.map_values(f), seq![',']) + seq!['}']);
    r
}

/// Frames an array from its serialised items.
pub fn array_chars(items: &Vec<Vec<char>>) -> (r: Vec<char>)
    ensures
        r@ == json_array(char_views(items@)),
{
    let mut sep: Vec<char> = Vec::new();
    sep.push(',');
    assert(sep@ =~= seq![',']);
    let mut r: Vec<char> = Vec::new();
    r.push('[');
    append_chars(&mut r, &join_exec(items, &sep));
    r.push(']');
    assert(r@ =~= seq!['['] + join(char_views(items@), seq![',']) + seq![']']);
    r
}

/// A member with a literal key.
pub fn field(key: &str, value: Vec<char>) -> (r: (Vec<char>, Vec<char>))
    ensures
        r.0@ == key@,
        r.1@ == value@,
{
    (to_chars(key), value)
}

/// The entries in ascending key order (see [`sort_by_key`]).
pub fn sort_by_key_exec(es: Vec<(Vec<char>, Vec<char>)>) -> (r: Vec<(Vec<char>, Vec<char>)>)
    ensures
        pairs_view(r@) == sort_by_key(pairs_view(es@)),
{
    let mut rest = es;
    let mut out: Vec<(Vec<char>, Vec<char>)> = Vec::new();
    let ghost total = sort_by_key(pairs_view(rest@));
    while rest.len() > 0
        invariant
            total == pairs_view(out@) + sort_by_key(pairs_view(rest@)),
        decreases rest.len(),
    {
        let ghost rv = pairs_view(rest@);
        let mut m: usize = 0;
        let mut i: usize = 1;
        while i < rest.len()
            invariant
                1 <= i <= rest.len(),
                rv == pairs_view(rest@),
                m < i,
                m as int == min_key_index(rv.take(i as int)),
            decreases rest.len() - i,
        {
            assert(rv.take(i + 1).drop_last() =~= rv.take(i as int));
            assert(rv.take(i as int)[m as int] == rv[m as int]);
            if lex_lt_exec(&rest[i].0, &rest[m].0) {
                m = i;
            }
            i += 1;
        }
        assert(rv.take(rest.len() as int) =~= rv);
        let e = rest.remove(m);
        let ghost before = pairs_view(out@);
        out.push(e);
        assert(pairs_view(rest@) =~= rv.remove(m as int));
        assert(pairs_view(out@) =~= before.push(rv[m as int]));
        assert(pairs_view(out@) + sort_by_key(pairs_view(rest@)) =~= before + sort_by_key(rv));
    }
    assert(pairs_view(out@) + Seq::<(Seq<char>, Seq<char>)>::empty() =~= pairs_view(out@));
    out
}


/// No key is less than the least key.
pub proof fn lemma_min_key_is_least(es: Seq<(Seq<char>, Seq<char>)>)
    requires
        es.len() > 0,
    ensures
        forall|k: int| 0 <= k < es.len() ==> !lex_lt((#[trigger] es[k]).0, es[min_key_index(es)].0),
    decreases es.len(),
{
    lemma_min_key_index(es);
    if es.len() > 1 {
        let w = es.drop_last();
        lemma_min_key_is_least(w);
        lemma_min_key_index(w);
        let m = min_key_index(w);
        assert forall|k: int| 0 <= k < es.len() implies !lex_lt((#[trigger] es[k]).0, es[min_key_index(es)].0) by {
            if k < es.len() - 1 {
                assert(es[k] == w[k]);
                assert(!lex_lt(w[k].0, w[m].0));
                if lex_lt(es.last().0, es[m].0) && lex_lt(es[k].0, es.last().0) {
                    lemma_lex_transitive(es[k].0, es.last().0, es[m].0);
                }
            } else {
                lemma_lex_irreflexive(es.last().0);
            }
        }
    } else {
        lemma_lex_irreflexive(es[0].0);
    }
}

/// Sorting keeps the entries: it has as many, each taken from the input.
pub proof fn lemma_sort_keeps_entries(es: Seq<(Seq<char>, Seq<char>)>)
    ensures
        sort_by_key(es).len() == es.len(),
        forall|j: int| 0 <= j < es.len() ==> es.contains(#[trigger] sort_by_key(es)[j]),
    decreases es.len(),
{
    if es.len() > 0 {
        lemma_min_key_index(es);
        let m = min_key_index(es);
        let rest = es.remove(m);
        lemma_sort_keeps_entries(rest);
        let out = sort_by_key(es);
        assert forall|j: int| 0 <= j < es.len() implies es.contains(#[trigger] out[j]) by {
            if j == 0 {
                assert(es[m] == out[0]);
            } else {
                let e = sort_by_key(rest)[j - 1];
                assert(out[j] == e);
                assert(rest.contains(e));
                let k = choose|k: int| 0 <= k < rest.len() && rest[k] == e;
                if k < m {
                    assert(es[k] == e);
                } else {
                    assert(es[k + 1] == e);
                }
            }
        }
    }
}

/// Sorting loses no entry: each input entry is in the output.
pub proof fn lemma_sort_has_all_entries(es: Seq<(Seq<char>, Seq<char>)>)
    ensures
        forall|e: (Seq<char>, Seq<char>)| es.contains(e) ==> #[trigger] sort_by_key(es).contains(e),
    decreases es.len(),
{
    if es.len() > 0 {
        lemma_min_key_index(es);
        let m = min_key_index(es);
        let rest = es.remove(m);
        lemma_sort_has_all_entries(rest);
        let out = sort_by_key(es);
        assert forall|e: (Seq<char>, Seq<char>)| es.contains(e) implies #[trigger] out.contains(e) by {
            let k = choose|k: int| 0 <= k < es.len() && es[k] == e;
            if k == m {
                assert(out[0] == e);
            } else {
                let k2 = if k < m { k } else { k - 1 };
                assert(rest[k2] == e);
                assert(rest.contains(e));
                assert(sort_by_key(rest).contains(e));
                let j = choose|j: int| 0 <= j < sort_by_key(rest).len() && sort_by_key(rest)[j] == e;
                assert(out[j + 1] == e);
            }
        }
    }
}

/// Sorted entries come in ascending key order: no key is less than one
/// before it.
pub proof fn law_sorted_keys_ascending(es: Seq<(Seq<char>, Seq<char>)>)
    ensures
        sort_by_key(es).len() == es.len(),
        forall|i: int, j: int|
            0 <= i < j < es.len() ==> !lex_lt((#[trigger] sort_by_key(es)[j]).0, (#[trigger] sort_by_key(es)[i]).0),
    decreases es.len(),
{
    lemma_sort_keeps_entries(es);
    if es.len() > 0 {
        lemma_min_key_index(es);
        lemma_min_key_is_least(es);
        let m = min_key_index(es);
        let rest = es.remove(m);
        law_sorted_keys_ascending(rest);
        lemma_sort_keeps_entries(rest);
        let out = sort_by_key(es);
        assert forall|i: int, j: int| 0 <= i < j < es.len() implies !lex_lt((#[trigger] out[j]).0, (#[trigger] out[i]).0) by {
            if i == 0 {
                let e = out[j];
                assert(es.contains(e));
                let k = choose|k: int| 0 <= k < es.len() && es[k] == e;
                assert(!lex_lt(es[k].0, es[m].0));
            } else {
                assert(out[i] == sort_by_key(rest)[i - 1]);
                assert(out[j] == sort_by_key(rest)[j - 1]);
            }
        }
    }
}
} // verus!
