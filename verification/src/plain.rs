//! What may go into the source as it is: names and literals that cannot
//! be read as anything but a name or a literal, and comments that cannot
//! end before their end.

use vstd::prelude::*;
use crate::map::TextMap;
use crate::schema::{
    fields_model, lemma_sub_type_model, opt_text, opt_texts, Element, ElementModel,
    ElementSchema, FieldModel, FieldsModel,
};
use crate::text::{chars_of, string_from_chars, texts, Text};
use crate::types::table_model;

verus! {

/// Whether a character ends a line.
pub open spec fn line_end(c: char) -> bool {
    c == '\n' || c == '\r' || c == '\u{2028}' || c == '\u{2029}'
}

/// Whether a character may stand in a name: it ends no line, opens or
/// closes no bracket of a statement, ends no statement, and begins no
/// string and no comment.
pub open spec fn name_char(c: char) -> bool {
    !line_end(c) && c != '(' && c != ')' && c != '{' && c != '}' && c != ';' && c != '"' && c
        != '`' && c != '\\' && c != '/' && c != '*'
}

/// Whether a character may stand in a string constant: it ends no line and
/// neither ends the string nor escapes what follows.
pub open spec fn literal_char(c: char) -> bool {
    !line_end(c) && c != '"' && c != '\\'
}

/// Whether a text is a plain name.
pub open spec fn plain_name(t: Text) -> bool {
    forall|i: int| 0 <= i < t.len() ==> name_char(#[trigger] t[i])
}

/// Whether a text is a plain literal.
pub open spec fn plain_literal(t: Text) -> bool {
    forall|i: int| 0 <= i < t.len() ==> literal_char(#[trigger] t[i])
}

/// Whether every text is a plain name.
pub open spec fn plain_names(ts: Seq<Text>) -> bool {
    forall|i: int| 0 <= i < ts.len() ==> plain_name(#[trigger] ts[i])
}

/// Whether every text is a plain literal.
pub open spec fn plain_literals(ts: Seq<Text>) -> bool {
    forall|i: int| 0 <= i < ts.len() ==> plain_literal(#[trigger] ts[i])
}

/// Whether a field goes into the source as it is: its key, what it
/// inherits from and its scalar type are plain names, its literals are
/// plain literals, and so for its nested fields.
pub open spec fn safe_field(key: Text, f: FieldModel) -> bool
    decreases f,
{
    &&& plain_name(key)
    &&& f.extends matches Some(e) ==> plain_names(e)
    &&& f.plain_type matches Some(p) ==> plain_name(p)
    &&& f.values matches Some(v) ==> plain_literals(v)
    &&& match f.sub_type {
        Some(m) => safe_fields(m),
        None => true,
    }
}

/// Whether every field of a map goes into the source as it is.
pub open spec fn safe_fields(m: FieldsModel) -> bool
    decreases m,
{
    forall|i: int| 0 <= i < m.len() ==> safe_field((#[trigger] m[i]).0, m[i].1)
}

/// Whether a type goes into the source as it is.
pub open spec fn safe_element(name: Text, e: ElementModel) -> bool {
    &&& plain_name(name)
    &&& e.rpc_method matches Some(m) ==> plain_literal(m)
    &&& e.extends matches Some(x) ==> plain_names(x)
    &&& e.plain matches Some(p) ==> plain_name(p)
    &&& e.values matches Some(v) ==> plain_literals(v)
    &&& e.schema matches Some(s) ==> safe_fields(s)
}

/// Whether a table of types goes into the source as it is.
pub open spec fn safe_table(t: Seq<(Text, ElementModel)>) -> bool {
    forall|i: int| 0 <= i < t.len() ==> safe_element((#[trigger] t[i]).0, t[i].1)
}

/// A description as it stands in a comment: with a space between every `*`
/// and a `/` that follows it, so that the comment does not end in it.
pub open spec fn escape_comment(d: Text) -> Text
    decreases d.len(),
{
    if d.len() == 0 {
        d
    } else {
        let front = escape_comment(d.drop_last());
        if d.last() == '/' && front.len() > 0 && front.last() == '*' {
            front.push(' ').push('/')
        } else {
            front.push(d.last())
        }
    }
}

/// An escaped description ends no comment: nowhere in it a `/` follows a
/// `*`.
pub proof fn lemma_escaped_ends_no_comment(d: Text)
    ensures
        forall|i: int|
            0 <= i < escape_comment(d).len() - 1 ==> !(#[trigger] escape_comment(d)[i] == '*'
                && escape_comment(d)[i + 1] == '/'),
        d.len() > 0 ==> escape_comment(d).len() > 0 && escape_comment(d).last() == d.last(),
    decreases d.len(),
{
    if d.len() > 0 {
        lemma_escaped_ends_no_comment(d.drop_last());
        let front = escape_comment(d.drop_last());
        let all = escape_comment(d);
        assert forall|i: int| 0 <= i < all.len() - 1 implies !(#[trigger] all[i] == '*' && all[i
            + 1] == '/') by {
            if i < front.len() - 1 {
                assert(all[i] == front[i] && all[i + 1] == front[i + 1]);
            }
        }
    }
}

/// Escapes a description for a comment.
pub fn escaped(d: &str) -> (r: String)
    ensures
        r@ == escape_comment(d@),
{
    let chars = chars_of(d);
    let mut out: Vec<char> = Vec::new();
    let mut i: usize = 0;
    assert(d@.take(0) =~= Seq::<char>::empty());
    while i < chars.len()
        invariant
            i <= chars.len(),
            chars@ == d@,
            out@ == escape_comment(d@.take(i as int)),
        decreases chars.len() - i,
    {
        let ghost upto = d@.take(i + 1);
        assert(upto.drop_last() =~= d@.take(i as int));
        assert(upto.last() == chars@[i as int]);
        let c = chars[i];
        if c == '/' && out.len() > 0 && out[out.len() - 1] == '*' {
            out.push(' ');
            out.push('/');
        } else {
            out.push(c);
        }
        i = i + 1;
    }
    assert(d@.take(i as int) =~= d@);
    string_from_chars(&out)
}

/// Whether a string is a plain name.
pub fn is_plain_name(s: &str) -> (r: bool)
    ensures
        r == plain_name(s@),
{
    let chars = chars_of(s);
    let mut i: usize = 0;
    while i < chars.len()
        invariant
            i <= chars.len(),
            chars@ == s@,
            forall|k: int| 0 <= k < i ==> name_char(#[trigger] s@[k]),
        decreases chars.len() - i,
    {
        let c = chars[i];
        let ok = c != '\n' && c != '\r' && c != '\u{2028}' && c != '\u{2029}' && c != '(' && c
            != ')' && c != '{' && c != '}' && c != ';' && c != '"' && c != '`' && c != '\\' && c
            != '/' && c != '*';
        if !ok {
            assert(!name_char(s@[i as int]));
            return false;
        }
        i = i + 1;
    }
    true
}

/// Whether a string is a plain literal.
pub fn is_plain_literal(s: &str) -> (r: bool)
    ensures
        r == plain_literal(s@),
{
    let chars = chars_of(s);
    let mut i: usize = 0;
    while i < chars.len()
        invariant
            i <= chars.len(),
            chars@ == s@,
            forall|k: int| 0 <= k < i ==> literal_char(#[trigger] s@[k]),
        decreases chars.len() - i,
    {
        let c = chars[i];
        let ok = c != '\n' && c != '\r' && c != '\u{2028}' && c != '\u{2029}' && c != '"' && c
            != '\\';
        if !ok {
            assert(!literal_char(s@[i as int]));
            return false;
        }
        i = i + 1;
    }
    true
}

/// Whether every string of an optional list is a plain name.
pub fn are_plain_names(list: &Option<Vec<String>>) -> (r: bool)
    ensures
        r == (opt_texts(*list) matches Some(ts) ==> plain_names(ts)),
{
    match list {
        None => true,
        Some(v) => {
            let mut i: usize = 0;
            while i < v.len()
                invariant
                    i <= v.len(),
                    *list == Some(*v),
                    forall|k: int| 0 <= k < i ==> plain_name(#[trigger] texts(v@)[k]),
                decreases v.len() - i,
            {
                if !is_plain_name(v[i].as_str()) {
                    assert(!plain_name(texts(v@)[i as int]));
                    return false;
                }
                i = i + 1;
            }
            true
        },
    }
}

/// Whether every string of an optional list is a plain literal.
pub fn are_plain_literals(list: &Option<Vec<String>>) -> (r: bool)
    ensures
        r == (opt_texts(*list) matches Some(ts) ==> plain_literals(ts)),
{
    match list {
        None => true,
        Some(v) => {
            let mut i: usize = 0;
            while i < v.len()
                invariant
                    i <= v.len(),
                    *list == Some(*v),
                    forall|k: int| 0 <= k < i ==> plain_literal(#[trigger] texts(v@)[k]),
                decreases v.len() - i,
            {
                if !is_plain_literal(v[i].as_str()) {
                    assert(!plain_literal(texts(v@)[i as int]));
                    return false;
                }
                i = i + 1;
            }
            true
        },
    }
}

/// Whether an optional string is a plain name.
pub fn is_plain_opt_name(o: &Option<String>) -> (r: bool)
    ensures
        r == (opt_text(*o) matches Some(t) ==> plain_name(t)),
{
    match o {
        Some(s) => is_plain_name(s.as_str()),
        None => true,
    }
}

/// Whether a field goes into the source as it is.
pub fn is_safe_field(key: &str, value: &ElementSchema) -> (r: bool)
    ensures
        r == safe_field(key@, value@),
    decreases value, 0nat,
{
    proof {
        lemma_sub_type_model(*value);
    }
    let nested = match &value.sub_type {
        Some(m) => are_safe_fields(m),
        None => true,
    };
    nested && is_plain_name(key) && are_plain_names(&value.extends) && is_plain_opt_name(
        &value.plain_type,
    ) && are_plain_literals(&value.values)
}

/// Whether every field of a map goes into the source as it is.
pub fn are_safe_fields(map: &TextMap<ElementSchema>) -> (r: bool)
    ensures
        r == safe_fields(fields_model(*map)),
    decreases map, 1nat,
{
    let mut i: usize = 0;
    while i < map.entries.len()
        invariant
            i <= map.entries@.len(),
            forall|k: int|
                0 <= k < i ==> safe_field(
                    (#[trigger] fields_model(*map)[k]).0,
                    fields_model(*map)[k].1,
                ),
        decreases map.entries@.len() - i,
    {
        if !is_safe_field(map.entries[i].0.as_str(), &map.entries[i].1) {
            assert(!safe_field(fields_model(*map)[i as int].0, fields_model(*map)[i as int].1));
            return false;
        }
        i = i + 1;
    }
    true
}

/// Whether a type goes into the source as it is.
pub fn is_safe_element(name: &str, value: &Element) -> (r: bool)
    ensures
        r == safe_element(name@, value@),
{
    let method = match &value.rpc_method {
        Some(m) => is_plain_literal(m.as_str()),
        None => true,
    };
    let fields = match &value.schema {
        Some(s) => are_safe_fields(s),
        None => true,
    };
    method && fields && is_plain_name(name) && are_plain_names(&value.extends)
        && is_plain_opt_name(&value.plain) && are_plain_literals(&value.values)
}

/// Whether a table of types goes into the source as it is.
pub fn is_safe_table(types: &TextMap<Element>) -> (r: bool)
    ensures
        r == safe_table(table_model(*types)),
{
    let mut i: usize = 0;
    while i < types.entries.len()
        invariant
            i <= types.entries@.len(),
            forall|k: int|
                0 <= k < i ==> safe_element(
                    (#[trigger] table_model(*types)[k]).0,
                    table_model(*types)[k].1,
                ),
        decreases types.entries@.len() - i,
    {
        if !is_safe_element(types.entries[i].0.as_str(), &types.entries[i].1) {
            assert(!safe_element(table_model(*types)[i as int].0, table_model(*types)[i as int].1));
            return false;
        }
        i = i + 1;
    }
    true
}

} // verus!
