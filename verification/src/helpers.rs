//! Small rules that the resolvers and the emitter share: how keys are
//! written, what a primitive is called, how a definition is named.

use vstd::prelude::*;
use vstd::string::StringExecFns;
use crate::text::{
    contains_char, kebab_to_pascal, kebab_to_pascal_spec, split, split_spec, text_eq, texts, Text,
};
use crate::value::Value;

verus! {

/// A key as it is written in the output: in single quotes where it holds a
/// `-` or a `?` or is the word `type`, bare otherwise.
pub open spec fn wrap_key_spec(s: Text) -> Text {
    if s.contains('-') || s == "type"@ || s.contains('?') {
        "'"@ + s + "'"@
    } else {
        s
    }
}

/// Writes a key as the output needs it.
pub fn wrap_key(source: &str) -> (r: String)
    ensures
        r@ == wrap_key_spec(source@),
{
    if contains_char(source, '-') || text_eq(source, "type") || contains_char(source, '?') {
        let mut out = String::from_str("'");
        out.append(source);
        out.append("'");
        out
    } else {
        String::from_str(source)
    }
}

/// The output name of a primitive of the schema language; what is no known
/// primitive is `any`.
pub open spec fn convert_primitive_spec(v: Text) -> Text {
    if v == "zen/string"@ {
        "string"@
    } else if v == "zen/boolean"@ {
        "boolean"@
    } else if v == "zen/date"@ {
        "string"@
    } else if v == "zen/datetime"@ {
        "string"@
    } else if v == "zen/number"@ {
        "number"@
    } else if v == "zen/integer"@ {
        "number"@
    } else {
        "any"@
    }
}

/// Names the output primitive for a primitive of the schema language.
pub fn convert_primitive(val: &str) -> (r: String)
    ensures
        r@ == convert_primitive_spec(val@),
{
    if text_eq(val, "zen/string") {
        String::from_str("string")
    } else if text_eq(val, "zen/boolean") {
        String::from_str("boolean")
    } else if text_eq(val, "zen/date") {
        String::from_str("string")
    } else if text_eq(val, "zen/datetime") {
        String::from_str("string")
    } else if text_eq(val, "zen/number") {
        String::from_str("number")
    } else if text_eq(val, "zen/integer") {
        String::from_str("number")
    } else {
        String::from_str("any")
    }
}

/// `names` without every occurrence of `name`, in order.
pub open spec fn without(names: Seq<Text>, name: Text) -> Seq<Text>
    decreases names.len(),
{
    if names.len() == 0 {
        names
    } else {
        let front = without(names.drop_last(), name);
        if names.last() == name {
            front
        } else {
            front.push(names.last())
        }
    }
}

/// The inheritance list of the type `name` with the type's own name taken
/// out; no list at all where nothing is left.
pub open spec fn normalize_confirms_spec(confirms: Seq<Text>, name: Text) -> Option<Seq<Text>> {
    let kept = without(confirms, name);
    if kept.len() == 0 {
        None
    } else {
        Some(kept)
    }
}

/// What [`without`] keeps: exactly the entries that differ from `name`.
pub proof fn lemma_without(names: Seq<Text>, name: Text)
    ensures
        forall|t: Text| #[trigger]
            without(names, name).contains(t) <==> (names.contains(t) && t != name),
        without(names, name).len() <= names.len(),
        without(names, name).len() == 0 <==> (forall|i: int|
            0 <= i < names.len() ==> names[i] == name),
    decreases names.len(),
{
    if names.len() > 0 {
        let front = names.drop_last();
        let kept = without(front, name);
        let full = without(names, name);
        lemma_without(front, name);
        assert forall|t: Text| full.contains(t) <==> (names.contains(t) && t != name) by {
            assert(kept.contains(t) <==> (front.contains(t) && t != name));
            if full.contains(t) {
                let p = choose|p: int| 0 <= p < full.len() && full[p] == t;
                if p < kept.len() {
                    assert(kept[p] == t);
                    assert(kept.contains(t));
                    let k = choose|k: int| 0 <= k < front.len() && front[k] == t;
                    assert(names[k] == t);
                } else {
                    assert(names[names.len() - 1] == t);
                }
            }
            if names.contains(t) && t != name {
                let k = choose|k: int| 0 <= k < names.len() && names[k] == t;
                if k < front.len() {
                    assert(front[k] == t);
                    assert(front.contains(t));
                    let p = choose|p: int| 0 <= p < kept.len() && kept[p] == t;
                    assert(full[p] == t);
                } else {
                    assert(full[kept.len() as int] == t);
                }
            }
        }
        if forall|i: int| 0 <= i < names.len() ==> names[i] == name {
            assert forall|i: int| 0 <= i < front.len() implies front[i] == name by {
                assert(front[i] == names[i]);
            }
        }
        if full.len() == 0 {
            assert forall|i: int| 0 <= i < names.len() implies names[i] == name by {
                if i < front.len() {
                    assert(front[i] == names[i]);
                }
            }
        }
    }
}

/// A type that inherits from nothing, or from nothing but itself, has no
/// inheritance: the list is gone exactly where every entry is the type's own
/// name, and a kept list never names the type.
pub proof fn lemma_self_reference_elided(confirms: Seq<Text>, name: Text)
    ensures
        normalize_confirms_spec(seq![name], name) is None,
        normalize_confirms_spec(Seq::empty(), name) is None,
        normalize_confirms_spec(confirms, name) is None <==> (forall|i: int|
            0 <= i < confirms.len() ==> confirms[i] == name),
        normalize_confirms_spec(confirms, name) matches Some(kept) ==> !kept.contains(name)
            && kept.len() > 0,
{
    lemma_without(confirms, name);
    lemma_without(seq![name], name);
    assert(seq![name].drop_last() =~= Seq::<Text>::empty());
}

/// Takes a type's own name out of its inheritance list.
pub fn normalize_confirms(confirms: &[String], resource_name: &str) -> (r: Option<Vec<String>>)
    ensures
        match r {
            Some(kept) => normalize_confirms_spec(texts(confirms@), resource_name@) == Some(
                texts(kept@),
            ),
            None => normalize_confirms_spec(texts(confirms@), resource_name@) is None,
        },
{
    let mut kept: Vec<String> = Vec::new();
    let mut i: usize = 0;
    assert(texts(confirms@).take(0) =~= Seq::<Text>::empty());
    while i < confirms.len()
        invariant
            i <= confirms@.len(),
            texts(kept@) == without(texts(confirms@).take(i as int), resource_name@),
        decreases confirms@.len() - i,
    {
        let ghost upto = texts(confirms@).take(i + 1);
        assert(upto.drop_last() =~= texts(confirms@).take(i as int));
        assert(upto.last() == confirms@[i as int]@);
        if !text_eq(confirms[i].as_str(), resource_name) {
            let ghost before = kept@;
            kept.push(confirms[i].clone());
            assert(texts(kept@) =~= texts(before).push(confirms@[i as int]@));
        }
        i = i + 1;
    }
    assert(texts(confirms@).take(i as int) =~= texts(confirms@));
    if kept.len() == 0 {
        None
    } else {
        Some(kept)
    }
}

/// A key with the mark of an optional field behind it, unless the field is
/// required or the key is the catch-all.
pub open spec fn key_required_spec(key: Text, require: bool) -> Text {
    if key == "[key: string]"@ || require {
        key
    } else {
        key + "?"@
    }
}

/// Marks the key of a field that may be absent.
pub fn key_required(key: String, require: bool) -> (r: String)
    ensures
        r@ == key_required_spec(key@, require),
{
    if text_eq(key.as_str(), "[key: string]") {
        return key;
    }
    if require {
        key
    } else {
        let mut out = key;
        out.append("?");
        out
    }
}

/// The description that a definition carries, if it carries one as text.
pub open spec fn description_of(v: Value) -> Option<Text> {
    v.text_member("zen/desc"@)
}

/// Reads the description of a definition.
pub fn get_description(v: &Value) -> (r: Option<String>)
    ensures
        crate::schema::opt_text(r) == description_of(*v),
{
    match v.get_str("zen/desc") {
        Some(s) => Some(String::from_str(s)),
        None => None,
    }
}

/// Whether a definition admits any content: its validation is open, or its
/// values are of any type.
pub open spec fn is_persistent_any_spec(definition: Value) -> bool {
    definition.text_member("validation-type"@) == Some("open"@) || match definition.member(
        "values"@,
    ) {
        Some(v) => v.text_member("type"@) == Some("zen/any"@),
        None => false,
    }
}

/// Tells whether a definition admits any content.
pub fn is_persistent_any(definition: &Value) -> (r: bool)
    ensures
        r == is_persistent_any_spec(*definition),
{
    let open = match definition.get_str("validation-type") {
        Some(s) => text_eq(s, "open"),
        None => false,
    };
    if open {
        return true;
    }
    match definition.get("values") {
        Some(v) => match v.get_str("type") {
            Some(s) => text_eq(s, "zen/any"),
            None => false,
        },
        None => false,
    }
}

/// Whether a definition declares a type other than the map.
pub open spec fn is_type_and_not_map_spec(definition: Value) -> bool {
    match definition.member("type"@) {
        Some(t) => t.text() != Some("zen/map"@),
        None => false,
    }
}

/// Tells whether a definition declares a type other than the map.
pub fn is_type_and_not_map(definition: &Value) -> (r: bool)
    ensures
        r == is_type_and_not_map_spec(*definition),
{
    match definition.get("type") {
        Some(t) => match t.as_str() {
            Some(s) => !text_eq(s, "zen/map"),
            None => true,
        },
        None => false,
    }
}

/// The output name that a symbol path `namespace/name` gives: the name in
/// Pascal case, or, where the name is `schema`, the last part of the
/// namespace in Pascal case. A path without `/` gives none.
pub open spec fn path_name_spec(path: Text) -> Option<Text> {
    let v = split_spec(path, '/');
    if v.len() < 2 {
        None
    } else if v[1] != "schema"@ {
        Some(kebab_to_pascal_spec(v[1]))
    } else if v[0].len() > 0 {
        Some(kebab_to_pascal_spec(split_spec(v[0], '.').last()))
    } else {
        Some("unknown-name"@)
    }
}

/// The output name for the symbol path that `def` holds as a string.
pub fn zen_path_to_name(def: &Value) -> (r: Option<String>)
    ensures
        match r {
            Some(name) => def.text() matches Some(path) && path_name_spec(path) == Some(name@),
            None => def.text() matches Some(path) ==> path_name_spec(path) is None,
        },
{
    let path = match def.as_str() {
        Some(p) => p,
        None => return None,
    };
    let v = split(path, '/');
    if v.len() < 2 {
        return None;
    }
    if !text_eq(v[1].as_str(), "schema") {
        return Some(kebab_to_pascal(v[1].as_str()));
    }
    if v[0].as_str().unicode_len() > 0 {
        let parts = split(v[0].as_str(), '.');
        let last = parts.len() - 1;
        Some(kebab_to_pascal(parts[last].as_str()))
    } else {
        Some(String::from_str("unknown-name"))
    }
}

/// The output name of a definition: its declared type, else its resource
/// type, else the name its path gives. None where the part that decides is
/// no string, or the path has no `/`.
pub open spec fn name_of(definition: Value) -> Option<Text> {
    match definition.member("zen.fhir/type"@) {
        Some(t) => t.text(),
        None => match definition.member("resourceType"@) {
            Some(t) => t.text(),
            None => match definition.text_member("zen/name"@) {
                Some(path) => path_name_spec(path),
                None => None,
            },
        },
    }
}

/// Names a definition.
pub fn get_name(element: &Value) -> (r: Option<String>)
    ensures
        crate::schema::opt_text(r) == name_of(*element),
{
    match element.get("zen.fhir/type") {
        Some(t) => match t.as_str() {
            Some(s) => Some(String::from_str(s)),
            None => None,
        },
        None => match element.get("resourceType") {
            Some(t) => match t.as_str() {
                Some(s) => Some(String::from_str(s)),
                None => None,
            },
            None => match element.get("zen/name") {
                Some(n) => zen_path_to_name(n),
                None => None,
            },
        },
    }
}

} // verus!
