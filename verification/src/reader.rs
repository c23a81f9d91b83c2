//! Resolution: from the raw definition of a symbol to its type.
//!
//! Nothing here talks to the registry. A resolution works on what the
//! [`Cache`] holds; where it comes upon a symbol or a value-set that the
//! cache does not hold, it stops and names it. Whoever drives the
//! resolution fetches what was named, puts it into the cache and resolves
//! again.

use vstd::prelude::*;
use vstd::string::StringExecFns;
use crate::cache::{Cache, Naming};
use crate::helpers::{
    description_of, get_description, get_name, name_of, wrap_key, wrap_key_spec,
};
use crate::map::{first_index, lemma_first_index, TextMap};
use crate::schema::{
    field_wf, fields_model, fields_wf, lemma_model_keys, lemma_sub_type_model, model_keys,
    opt_text, ElementSchema, FieldModel, FieldsModel,
};
use crate::text::{text_eq, texts, Text};
use crate::value::{text_items, Value};

verus! {

/// The part of a definition that is not of the shape that resolution needs.
#[derive(Clone, Copy, Debug, PartialEq, Eq, Structural)]
pub enum Flaw {
    /// The tag list is no list.
    Tags,
    /// The inheritance list is no list.
    Confirms,
    /// There is no readable name.
    Name,
    /// A value-set reference names no symbol.
    ValueSet,
    /// A reference declaration is no object, or its targets are no list.
    Reference,
    /// An enumeration is no list of objects with a text value each.
    Enum,
    /// The keys of a map are no object.
    Keys,
}

/// Why a resolution stopped before it had a result.
#[derive(Debug, PartialEq, Eq)]
pub enum Halt {
    /// The definition of this symbol is not in the cache.
    NeedSymbol(String),
    /// The codes of this value-set are not in the cache.
    NeedValueSet(String),
    /// A definition is not of the shape that resolution needs.
    Malformed(Flaw),
}

/// What a [`Halt`] stands for.
pub enum HaltModel {
    NeedSymbol(Text),
    NeedValueSet(Text),
    Malformed(Flaw),
}

impl View for Halt {
    type V = HaltModel;

    open spec fn view(&self) -> HaltModel {
        match self {
            Halt::NeedSymbol(s) => HaltModel::NeedSymbol(s@),
            Halt::NeedValueSet(s) => HaltModel::NeedValueSet(s@),
            Halt::Malformed(f) => HaltModel::Malformed(*f),
        }
    }
}

/// A shape that the dispatch over fields does not know.
#[derive(Clone, Copy, Debug, PartialEq, Eq, Structural)]
pub enum Anomaly {
    /// A field declares a type that is none of the known keywords.
    UnknownType,
    /// The elements of an array declare a type that an array cannot hold.
    UnknownElementType,
    /// The elements of an array are bound to a value-set, and the first
    /// thing they inherit from is neither a code, a coding nor a codeable
    /// concept.
    ValueSetBinding,
}

/// A report of a shape that was resolved to the opaque field.
#[derive(Debug, PartialEq, Eq)]
pub struct Diagnostic {
    /// The type that was being resolved.
    pub resource: String,
    /// The key of the field.
    pub key: String,
    pub anomaly: Anomaly,
}

/// What a [`Diagnostic`] stands for.
pub struct DiagnosticModel {
    pub resource: Text,
    pub key: Text,
    pub anomaly: Anomaly,
}

impl View for Diagnostic {
    type V = DiagnosticModel;

    open spec fn view(&self) -> DiagnosticModel {
        DiagnosticModel { resource: self.resource@, key: self.key@, anomaly: self.anomaly }
    }
}

/// What a list of diagnostics stands for.
pub open spec fn diagnostics(v: Seq<Diagnostic>) -> Seq<DiagnosticModel> {
    Seq::new(v.len(), |i: int| v[i]@)
}

/// The keyword under which a field declares its type.
#[derive(Clone, Copy, Debug, PartialEq, Eq, Structural)]
pub enum Keyword {
    Vector,
    /// A map.
    Record,
    /// A string or a keyword.
    Text,
    Number,
    DateTime,
    Boolean,
    Integer,
    Date,
    Any,
    Symbol,
    /// A set.
    Collection,
    /// Anything else, and a type that is no string.
    Unknown,
}

/// The keyword that a declared type is.
pub open spec fn keyword_spec(t: Option<Text>) -> Keyword {
    match t {
        None => Keyword::Unknown,
        Some(s) => if s == "zen/vector"@ {
            Keyword::Vector
        } else if s == "zen/map"@ {
            Keyword::Record
        } else if s == "zen/string"@ || s == "zen/keyword"@ {
            Keyword::Text
        } else if s == "zen/number"@ {
            Keyword::Number
        } else if s == "zen/datetime"@ {
            Keyword::DateTime
        } else if s == "zen/boolean"@ {
            Keyword::Boolean
        } else if s == "zen/integer"@ {
            Keyword::Integer
        } else if s == "zen/date"@ {
            Keyword::Date
        } else if s == "zen/any"@ {
            Keyword::Any
        } else if s == "zen/symbol"@ {
            Keyword::Symbol
        } else if s == "zen/set"@ {
            Keyword::Collection
        } else {
            Keyword::Unknown
        },
    }
}

/// Tells which keyword a declared type is.
pub fn keyword_of(declared: &Value) -> (r: Keyword)
    ensures
        r == keyword_spec(declared.text()),
{
    match declared.as_str() {
        None => Keyword::Unknown,
        Some(s) => if text_eq(s, "zen/vector") {
            Keyword::Vector
        } else if text_eq(s, "zen/map") {
            Keyword::Record
        } else if text_eq(s, "zen/string") || text_eq(s, "zen/keyword") {
            Keyword::Text
        } else if text_eq(s, "zen/number") {
            Keyword::Number
        } else if text_eq(s, "zen/datetime") {
            Keyword::DateTime
        } else if text_eq(s, "zen/boolean") {
            Keyword::Boolean
        } else if text_eq(s, "zen/integer") {
            Keyword::Integer
        } else if text_eq(s, "zen/date") {
            Keyword::Date
        } else if text_eq(s, "zen/any") {
            Keyword::Any
        } else if text_eq(s, "zen/symbol") {
            Keyword::Symbol
        } else if text_eq(s, "zen/set") {
            Keyword::Collection
        } else {
            Keyword::Unknown
        },
    }
}

/// A field, part by part.
pub open spec fn field(
    extends: Option<Seq<Text>>,
    is_array: bool,
    is_reference: bool,
    require: bool,
    description: Option<Text>,
    sub_type: Option<FieldsModel>,
    plain_type: Option<Text>,
    values: Option<Seq<Text>>,
) -> FieldModel {
    FieldModel {
        extends,
        is_array,
        is_reference,
        require,
        description,
        sub_type,
        plain_type,
        values,
    }
}

/// The catch-all entry: the key `__` with a field that declares nothing but
/// a description.
pub open spec fn catch_all(description: Option<Text>) -> FieldsModel {
    seq![("__"@, field(None, false, false, false, description, None, None, None))]
}

/// The opaque field: a nested object whose single entry is the catch-all.
pub open spec fn opaque(description: Option<Text>, require: bool, is_array: bool) -> FieldModel {
    field(None, is_array, false, require, description, Some(catch_all(description)), None, None)
}

/// The result of resolving something, or why it stopped.
pub type Resolved<T> = Result<T, HaltModel>;

/// A resolved field with the anomalies found on the way.
pub type FieldResult = Result<(FieldModel, Seq<DiagnosticModel>), HaltModel>;

/// A resolved map of fields with the anomalies found on the way.
pub type FieldsResult = Result<(FieldsModel, Seq<DiagnosticModel>), HaltModel>;

/// A field that was resolved without anomaly.
pub open spec fn clean(f: FieldModel) -> FieldResult {
    Ok((f, Seq::empty()))
}

/// A field that was resolved to the opaque field, with the report of it.
pub open spec fn reported(f: FieldModel, resource: Text, key: Text, anomaly: Anomaly)
    -> FieldResult {
    Ok((f, seq![DiagnosticModel { resource, key, anomaly }]))
}

/// The output name that the cache gives for a symbol that something
/// inherits from. A polymorphic capability is no type and gives no name.
/// Where the cache has neither a name nor a definition, the symbol is
/// needed.
pub open spec fn naming_spec(cache: Cache, symbol: Text) -> Resolved<Option<Text>> {
    match cache.naming(symbol) {
        Naming::Named(n) => Ok(Some(n)),
        Naming::Unnamed => Ok(None),
        Naming::Unreadable => Err(HaltModel::Malformed(Flaw::Name)),
        Naming::Unknown => Err(HaltModel::NeedSymbol(symbol)),
    }
}

/// The output names of `symbols`, in order and each once. The first symbol
/// that cannot be named stops the resolution.
pub open spec fn names_spec(cache: Cache, symbols: Seq<Text>) -> Resolved<Seq<Text>>
    decreases symbols.len(),
{
    if symbols.len() == 0 {
        Ok(Seq::empty())
    } else {
        match names_spec(cache, symbols.drop_last()) {
            Err(h) => Err(h),
            Ok(front) => match naming_spec(cache, symbols.last()) {
                Err(h) => Err(h),
                Ok(None) => Ok(front),
                Ok(Some(n)) => Ok(
                    if front.contains(n) {
                        front
                    } else {
                        front.push(n)
                    },
                ),
            },
        }
    }
}

/// The name of the generic resource marker as a type inherits it: with the
/// type's own name as its parameter.
pub open spec fn resource_of(resource: Text) -> Text {
    "Resource<'"@ + resource + "'>"@
}

/// `names` with the generic resource marker given its parameter.
pub open spec fn with_resource(names: Seq<Text>, resource: Text) -> Seq<Text> {
    Seq::new(
        names.len(),
        |i: int|
            if names[i] == "Resource"@ {
                resource_of(resource)
            } else {
                names[i]
            },
    )
}

/// The symbols that a definition lists as what it inherits from.
pub open spec fn declared_confirms(v: Value) -> Resolved<Seq<Text>> {
    match v.member("confirms"@) {
        None => Ok(Seq::empty()),
        Some(c) => match c.items() {
            Some(items) => Ok(text_items(items)),
            None => Err(HaltModel::Malformed(Flaw::Confirms)),
        },
    }
}

/// The output names of what a definition inherits from.
pub open spec fn confirm_names(cache: Cache, v: Value) -> Resolved<Seq<Text>> {
    match declared_confirms(v) {
        Ok(symbols) => names_spec(cache, symbols),
        Err(h) => Err(h),
    }
}

/// The output names of what the type `resource` inherits from, the generic
/// resource marker with the type's name as its parameter.
pub open spec fn resource_confirms(cache: Cache, resource: Text, v: Value) -> Resolved<Seq<Text>> {
    match confirm_names(cache, v) {
        Ok(names) => Ok(with_resource(names, resource)),
        Err(h) => Err(h),
    }
}

/// The symbols that a reference declaration names as its targets; none
/// where it names no targets.
pub open spec fn declared_targets(v: Value) -> Resolved<Seq<Text>> {
    match v.member("zen.fhir/reference"@) {
        None => Ok(Seq::empty()),
        Some(r) => if !(r is Object) {
            Err(HaltModel::Malformed(Flaw::Reference))
        } else {
            match r.member("refers"@) {
                None => Ok(Seq::empty()),
                Some(list) => match list.items() {
                    Some(items) => Ok(text_items(items)),
                    None => Err(HaltModel::Malformed(Flaw::Reference)),
                },
            }
        },
    }
}

/// The output names of the targets of a reference.
pub open spec fn reference_targets(cache: Cache, resource: Text, v: Value) -> Resolved<Seq<Text>> {
    match declared_targets(v) {
        Err(h) => Err(h),
        Ok(symbols) => match names_spec(cache, symbols) {
            Ok(names) => Ok(with_resource(names, resource)),
            Err(h) => Err(h),
        },
    }
}

/// The symbol of the value-set that a definition is bound to.
pub open spec fn value_set_symbol(v: Value) -> Option<Text> {
    match v.member("zen.fhir/value-set"@) {
        Some(vs) => vs.text_member("symbol"@),
        None => None,
    }
}

/// The codes of the value-set that a definition is bound to.
pub open spec fn codes_spec(cache: Cache, v: Value) -> Resolved<Seq<Text>> {
    match value_set_symbol(v) {
        None => Err(HaltModel::Malformed(Flaw::ValueSet)),
        Some(s) => match cache.value_sets.lookup(s) {
            Some(codes) => Ok(texts(codes@)),
            None => Err(HaltModel::NeedValueSet(s)),
        },
    }
}

/// The text under `value` of each item; none where an item has no such
/// text.
pub open spec fn enum_values(items: Seq<Value>) -> Option<Seq<Text>>
    decreases items.len(),
{
    if items.len() == 0 {
        Some(Seq::empty())
    } else {
        match enum_values(items.drop_last()) {
            None => None,
            Some(front) => match items.last().text_member("value"@) {
                Some(t) => Some(front.push(t)),
                None => None,
            },
        }
    }
}

/// The literals that a string field enumerates: none where it enumerates
/// nothing.
pub open spec fn literals_spec(v: Value) -> Resolved<Option<Seq<Text>>> {
    match v.member("enum"@) {
        None => Ok(None),
        Some(e) => match e.items() {
            None => Err(HaltModel::Malformed(Flaw::Enum)),
            Some(items) => match enum_values(items) {
                None => Err(HaltModel::Malformed(Flaw::Enum)),
                Some(vals) => Ok(
                    if vals.len() == 0 {
                        None
                    } else {
                        Some(vals)
                    },
                ),
            },
        },
    }
}

/// Whether the validation of a definition is open.
pub open spec fn is_open(v: Value) -> bool {
    v.text_member("validation-type"@) == Some("open"@)
}

/// The keys that a map requires: the texts of its `require` list.
pub open spec fn required_spec(require_keys: Option<Value>) -> Seq<Text> {
    match require_keys {
        Some(r) => match r.items() {
            Some(items) => text_items(items),
            None => Seq::empty(),
        },
        None => Seq::empty(),
    }
}

/// A field bound to a value-set: its literals are the codes of the set.
/// Where the set has no codes the literals are the names that the field
/// inherits from, and where it inherits from nothing the field is `any`.
pub open spec fn value_set_field(cache: Cache, value: Value, require: bool) -> FieldResult {
    let desc = description_of(value);
    match codes_spec(cache, value) {
        Err(h) => Err(h),
        Ok(codes) => if codes.len() > 0 {
            clean(field(None, false, false, require, desc, None, None, Some(codes)))
        } else {
            match confirm_names(cache, value) {
                Err(h) => Err(h),
                Ok(names) => if names.len() > 0 {
                    clean(field(None, false, false, require, desc, None, None, Some(names)))
                } else {
                    clean(field(None, false, false, require, desc, None, Some("any"@), None))
                },
            }
        },
    }
}

/// A reference field: its literals are the names of the declared targets;
/// without targets it is the generic reference.
pub open spec fn reference_field(
    cache: Cache,
    resource: Text,
    value: Value,
    description: Option<Text>,
    require: bool,
    is_array: bool,
) -> FieldResult {
    match reference_targets(cache, resource, value) {
        Err(h) => Err(h),
        Ok(targets) => if targets.len() > 0 {
            clean(field(None, is_array, true, require, description, None, None, Some(targets)))
        } else {
            clean(
                field(None, is_array, true, require, description, None, Some("Reference"@), None),
            )
        },
    }
}

/// A string field: a field of literals where it enumerates some, a plain
/// `string` otherwise.
pub open spec fn text_field(
    value: Value,
    extends: Option<Seq<Text>>,
    description: Option<Text>,
    require: bool,
    is_array: bool,
) -> FieldResult {
    match literals_spec(value) {
        Err(h) => Err(h),
        Ok(Some(vals)) => clean(
            field(extends, is_array, false, require, description, None, None, Some(vals)),
        ),
        Ok(None) => clean(
            field(extends, is_array, false, require, description, None, Some("string"@), None),
        ),
    }
}

/// The field of a scalar keyword.
pub open spec fn scalar_field(
    keyword: Keyword,
    names: Seq<Text>,
    description: Option<Text>,
    require: bool,
) -> FieldModel {
    match keyword {
        Keyword::Number => field(
            Some(names),
            false,
            false,
            require,
            description,
            None,
            Some("number"@),
            None,
        ),
        Keyword::DateTime => field(
            Some(names),
            false,
            false,
            require,
            description,
            None,
            Some("dateTime"@),
            None,
        ),
        Keyword::Boolean => field(
            None,
            false,
            false,
            require,
            description,
            None,
            Some("boolean"@),
            None,
        ),
        Keyword::Integer => field(
            Some(names),
            false,
            false,
            require,
            description,
            None,
            Some("integer"@),
            None,
        ),
        Keyword::Date => field(
            Some(names),
            false,
            false,
            require,
            description,
            None,
            Some("date"@),
            None,
        ),
        Keyword::Any => field(
            Some(names),
            false,
            false,
            require,
            description,
            None,
            Some("any"@),
            None,
        ),
        Keyword::Symbol => field(
            Some(names),
            false,
            false,
            require,
            description,
            None,
            Some("string"@),
            None,
        ),
        Keyword::Collection => field(
            Some(names),
            true,
            false,
            require,
            description,
            None,
            Some("string"@),
            None,
        ),
        _ => opaque(description, require, false),
    }
}

/// The elements of an array that are bound to a value-set. What they
/// inherit from first decides: a code gives the codes as literals, a coding
/// or a codeable concept gives that type with the codes as literals; with
/// nothing declared to inherit from the array is untyped. Anything else is
/// an anomaly.
pub open spec fn bound_elements(
    cache: Cache,
    resource: Text,
    key: Text,
    every: Value,
    names: Seq<Text>,
    description: Option<Text>,
) -> FieldResult {
    match codes_spec(cache, every) {
        Err(h) => Err(h),
        Ok(codes) => if every.member("confirms"@) is None {
            clean(field(None, true, false, false, description, None, None, None))
        } else if names.len() > 0 && names[0] == "code"@ {
            if codes.len() == 0 {
                clean(field(None, true, false, false, description, None, Some("code"@), None))
            } else {
                clean(field(None, true, false, false, description, None, None, Some(codes)))
            }
        } else if names.len() > 0 && (names[0] == "CodeableConcept"@ || names[0] == "Coding"@) {
            clean(
                field(
                    None,
                    true,
                    false,
                    false,
                    description,
                    None,
                    Some(names[0]),
                    if codes.len() == 0 {
                        None
                    } else {
                        Some(codes)
                    },
                ),
            )
        } else {
            reported(opaque(description, false, true), resource, key, Anomaly::ValueSetBinding)
        },
    }
}

/// `m` with `value` under `key`: in place of what was there, or at the end.
pub open spec fn model_insert(m: FieldsModel, key: Text, value: FieldModel) -> FieldsModel {
    match first_index(model_keys(m), key) {
        Some(i) => m.update(i, (key, value)),
        None => m.push((key, value)),
    }
}

/// The array field that `value` declares.
pub open spec fn vector_spec(cache: Cache, resource: Text, key: Text, value: Value) -> FieldResult
    decreases value, 0int,
{
    let desc = description_of(value);
    match value.member("every"@) {
        None => clean(field(None, true, false, false, desc, None, None, None)),
        Some(every) => match confirm_names(cache, every) {
            Err(h) => Err(h),
            Ok(names) => if every.member("zen.fhir/value-set"@) is Some {
                bound_elements(cache, resource, key, every, names, desc)
            } else if every.member("zen.fhir/reference"@) is Some {
                reference_field(cache, resource, every, desc, false, true)
            } else {
                match every.member("type"@) {
                    None => clean(field(Some(names), true, false, false, desc, None, None, None)),
                    Some(t) => match keyword_spec(t.text()) {
                        Keyword::Record => match every.member("keys"@) {
                            Some(keys) => if is_open(every) {
                                clean(
                                    field(
                                        Some(names),
                                        true,
                                        false,
                                        false,
                                        desc,
                                        Some(catch_all(desc)),
                                        None,
                                        None,
                                    ),
                                )
                            } else {
                                match read_map_spec(
                                    cache,
                                    resource,
                                    keys,
                                    every.member("require"@),
                                ) {
                                    Err(h) => Err(h),
                                    Ok((sub, found)) => Ok(
                                        (
                                            field(
                                                Some(names),
                                                true,
                                                false,
                                                false,
                                                desc,
                                                Some(sub),
                                                None,
                                                None,
                                            ),
                                            found,
                                        ),
                                    ),
                                }
                            },
                            None => clean(
                                field(
                                    Some(names),
                                    true,
                                    false,
                                    false,
                                    desc,
                                    Some(catch_all(desc)),
                                    None,
                                    None,
                                ),
                            ),
                        },
                        Keyword::Text => text_field(every, Some(names), desc, false, true),
                        Keyword::Vector => vector_spec(cache, resource, key, every),
                        Keyword::Integer => clean(
                            field(
                                Some(names),
                                true,
                                false,
                                false,
                                desc,
                                None,
                                Some("integer"@),
                                None,
                            ),
                        ),
                        _ => reported(
                            opaque(desc, false, true),
                            resource,
                            key,
                            Anomaly::UnknownElementType,
                        ),
                    },
                }
            },
        },
    }
}

/// The field that `value` declares under `key`. The first of these decides:
/// a value-set binding; a reference declaration; inheritance without a
/// type; the declared type; and, with none of them, the opaque field.
pub open spec fn field_spec(
    cache: Cache,
    resource: Text,
    key: Text,
    value: Value,
    required: Seq<Text>,
) -> FieldResult
    decreases value, 1int,
{
    let req = required.contains(key);
    let desc = description_of(value);
    if value.member("zen.fhir/value-set"@) is Some {
        value_set_field(cache, value, req)
    } else if value.member("zen.fhir/reference"@) is Some {
        reference_field(cache, resource, value, desc, req, false)
    } else {
        match value.member("type"@) {
            None => if value.member("confirms"@) is Some {
                match confirm_names(cache, value) {
                    Err(h) => Err(h),
                    Ok(names) => clean(
                        field(Some(names), false, false, req, desc, None, None, None),
                    ),
                }
            } else {
                clean(opaque(desc, req, false))
            },
            Some(t) => match confirm_names(cache, value) {
                Err(h) => Err(h),
                Ok(names) => match keyword_spec(t.text()) {
                    Keyword::Vector => match vector_spec(cache, resource, key, value) {
                        Err(h) => Err(h),
                        Ok((f, found)) => Ok(
                            (
                                field(
                                    f.extends,
                                    f.is_array,
                                    f.is_reference,
                                    req,
                                    f.description,
                                    f.sub_type,
                                    f.plain_type,
                                    f.values,
                                ),
                                found,
                            ),
                        ),
                    },
                    Keyword::Record => if is_open(value) {
                        clean(
                            field(
                                Some(names),
                                false,
                                false,
                                req,
                                desc,
                                Some(catch_all(desc)),
                                None,
                                None,
                            ),
                        )
                    } else {
                        match value.member("keys"@) {
                            Some(keys) => match read_map_spec(
                                cache,
                                resource,
                                keys,
                                value.member("require"@),
                            ) {
                                Err(h) => Err(h),
                                Ok((sub, found)) => Ok(
                                    (
                                        field(
                                            Some(names),
                                            false,
                                            false,
                                            false,
                                            desc,
                                            Some(sub),
                                            None,
                                            None,
                                        ),
                                        found,
                                    ),
                                ),
                            },
                            None => clean(
                                field(
                                    Some(names),
                                    false,
                                    false,
                                    false,
                                    desc,
                                    Some(catch_all(desc)),
                                    None,
                                    None,
                                ),
                            ),
                        }
                    },
                    Keyword::Text => text_field(value, None, desc, req, false),
                    Keyword::Unknown => reported(
                        opaque(desc, req, false),
                        resource,
                        key,
                        Anomaly::UnknownType,
                    ),
                    scalar => clean(scalar_field(scalar, names, desc, req)),
                },
            },
        }
    }
}

/// The fields that the first `n` entries of the object `keys` declare, each
/// under its key as the output writes it.
pub open spec fn map_spec(
    cache: Cache,
    resource: Text,
    keys: Value,
    n: nat,
    required: Seq<Text>,
) -> FieldsResult
    decreases keys, n,
{
    match keys {
        Value::Object(m) => if n == 0 || n > m.entries@.len() {
            Ok((Seq::empty(), Seq::empty()))
        } else {
            match map_spec(cache, resource, keys, (n - 1) as nat, required) {
                Err(h) => Err(h),
                Ok((front, found)) => match field_spec(
                    cache,
                    resource,
                    m.entries@[n - 1].0@,
                    m.entries@[n - 1].1,
                    required,
                ) {
                    Err(h) => Err(h),
                    Ok((f, more)) => Ok(
                        (
                            model_insert(front, wrap_key_spec(m.entries@[n - 1].0@), f),
                            found + more,
                        ),
                    ),
                },
            }
        },
        _ => Err(HaltModel::Malformed(Flaw::Keys)),
    }
}

/// The fields that the object `keys` declares, of which `require_keys`
/// lists the required ones.
pub open spec fn read_map_spec(
    cache: Cache,
    resource: Text,
    keys: Value,
    require_keys: Option<Value>,
) -> FieldsResult
    decreases keys,
        match keys {
            Value::Object(m) => m.entries@.len() + 1,
            _ => 0,
        },
{
    match keys {
        Value::Object(m) => map_spec(
            cache,
            resource,
            keys,
            m.entries@.len(),
            required_spec(require_keys),
        ),
        _ => Err(HaltModel::Malformed(Flaw::Keys)),
    }
}

/// What a resolution of names came to.
pub open spec fn names_outcome(r: Result<Vec<String>, Halt>) -> Resolved<Seq<Text>> {
    match r {
        Ok(v) => Ok(texts(v@)),
        Err(h) => Err(h@),
    }
}

/// What a resolution of a field came to.
pub open spec fn field_outcome(r: Result<(ElementSchema, Vec<Diagnostic>), Halt>) -> FieldResult {
    match r {
        Ok((f, found)) => Ok((f@, diagnostics(found@))),
        Err(h) => Err(h@),
    }
}

/// What a resolution of a map of fields came to.
pub open spec fn fields_outcome(
    r: Result<(TextMap<ElementSchema>, Vec<Diagnostic>), Halt>,
) -> FieldsResult {
    match r {
        Ok((m, found)) => Ok((fields_model(m), diagnostics(found@))),
        Err(h) => Err(h@),
    }
}

/// The strings among `items`.
pub fn strings_of(items: &Vec<Value>) -> (r: Vec<String>)
    ensures
        texts(r@) == text_items(items@),
{
    let mut out: Vec<String> = Vec::new();
    let mut i: usize = 0;
    assert(items@.take(0) =~= Seq::<Value>::empty());
    while i < items.len()
        invariant
            i <= items.len(),
            texts(out@) == text_items(items@.take(i as int)),
        decreases items.len() - i,
    {
        let ghost upto = items@.take(i + 1);
        assert(upto.drop_last() =~= items@.take(i as int));
        assert(upto.last() == items@[i as int]);
        match items[i].as_str() {
            Some(s) => {
                let ghost before = out@;
                out.push(String::from_str(s));
                assert(texts(out@) =~= texts(before).push(s@));
            },
            None => {},
        }
        i = i + 1;
    }
    assert(items@.take(i as int) =~= items@);
    out
}

/// Whether `list` holds `key`.
pub fn contains_text(list: &Vec<String>, key: &str) -> (r: bool)
    ensures
        r == texts(list@).contains(key@),
{
    let mut i: usize = 0;
    while i < list.len()
        invariant
            i <= list.len(),
            forall|j: int| 0 <= j < i ==> texts(list@)[j] != key@,
        decreases list.len() - i,
    {
        if text_eq(list[i].as_str(), key) {
            assert(texts(list@)[i as int] == key@);
            return true;
        }
        i = i + 1;
    }
    false
}

/// The raw definition of `symbol` as the cache holds it.
pub fn get_symbol<'a>(cache: &'a Cache, symbol: &str) -> (r: Result<&'a Value, Halt>)
    ensures
        match r {
            Ok(v) => cache.schema.lookup(symbol@) == Some(*v),
            Err(h) => cache.schema.lookup(symbol@) is None && h@ == HaltModel::NeedSymbol(
                symbol@,
            ),
        },
{
    match cache.definition(symbol) {
        Some(v) => Ok(v),
        None => Err(Halt::NeedSymbol(String::from_str(symbol))),
    }
}

/// The codes of the value-set `symbol` as the cache holds them.
pub fn get_value_set(cache: &Cache, symbol: &str) -> (r: Result<Vec<String>, Halt>)
    ensures
        match r {
            Ok(v) => cache.value_sets.lookup(symbol@) matches Some(codes) && texts(v@) == texts(
                codes@,
            ),
            Err(h) => cache.value_sets.lookup(symbol@) is None && h@ == HaltModel::NeedValueSet(
                symbol@,
            ),
        },
{
    match cache.value_set(symbol) {
        Some(v) => Ok(crate::schema::copy_texts(v)),
        None => Err(Halt::NeedValueSet(String::from_str(symbol))),
    }
}

/// The output name of a symbol that something inherits from.
pub fn known_name(cache: &Cache, symbol: &str) -> (r: Result<Option<String>, Halt>)
    ensures
        match r {
            Ok(name) => naming_spec(*cache, symbol@) == Ok::<Option<Text>, HaltModel>(
                opt_text(name),
            ),
            Err(h) => naming_spec(*cache, symbol@) == Err::<Option<Text>, HaltModel>(h@),
        },
{
    match cache.confirms.get(symbol) {
        Some(n) => Ok(Some(n.clone())),
        None => match cache.definition(symbol) {
            None => Err(Halt::NeedSymbol(String::from_str(symbol))),
            Some(def) => if def.has("fhir/polymorphic") {
                Ok(None)
            } else {
                match get_name(def) {
                    Some(n) => Ok(Some(n)),
                    None => Err(Halt::Malformed(Flaw::Name)),
                }
            },
        },
    }
}

/// The output names of the symbols `confirms`, each once.
pub fn known_names(cache: &Cache, confirms: &Vec<String>) -> (r: Result<Vec<String>, Halt>)
    ensures
        names_outcome(r) == names_spec(*cache, texts(confirms@)),
{
    let mut out: Vec<String> = Vec::new();
    let mut i: usize = 0;
    assert(texts(confirms@).take(0) =~= Seq::<Text>::empty());
    assert(texts(out@) =~= Seq::<Text>::empty());
    while i < confirms.len()
        invariant
            i <= confirms.len(),
            names_spec(*cache, texts(confirms@).take(i as int)) == Ok::<Seq<Text>, HaltModel>(
                texts(out@),
            ),
        decreases confirms.len() - i,
    {
        let ghost upto = texts(confirms@).take(i + 1);
        assert(upto.drop_last() =~= texts(confirms@).take(i as int));
        assert(upto.last() == confirms@[i as int]@);
        match known_name(cache, confirms[i].as_str()) {
            Err(h) => {
                proof {
                    lemma_names_stop(*cache, texts(confirms@), i + 1);
                }
                return Err(h);
            },
            Ok(None) => {},
            Ok(Some(n)) => {
                if !contains_text(&out, n.as_str()) {
                    let ghost before = out@;
                    out.push(n);
                    assert(texts(out@) =~= texts(before).push(n@));
                }
            },
        }
        i = i + 1;
    }
    assert(texts(confirms@).take(i as int) =~= texts(confirms@));
    Ok(out)
}

/// Once the names of a prefix could not be resolved, the names of the whole
/// cannot, for the same reason.
pub proof fn lemma_names_stop(cache: Cache, symbols: Seq<Text>, n: int)
    requires
        0 <= n <= symbols.len(),
        names_spec(cache, symbols.take(n)) is Err,
    ensures
        names_spec(cache, symbols) == names_spec(cache, symbols.take(n)),
    decreases symbols.len() - n,
{
    if n < symbols.len() {
        let next = symbols.take(n + 1);
        assert(next.drop_last() =~= symbols.take(n));
        lemma_names_stop(cache, symbols, n + 1);
    } else {
        assert(symbols.take(n) =~= symbols);
    }
}

/// `names` with the generic resource marker given the parameter
/// `resource_name`.
pub fn parametrize_resource(names: Vec<String>, resource_name: &str) -> (r: Vec<String>)
    ensures
        texts(r@) == with_resource(texts(names@), resource_name@),
{
    let mut out: Vec<String> = Vec::new();
    let mut i: usize = 0;
    while i < names.len()
        invariant
            i <= names.len(),
            out@.len() == i,
            forall|j: int|
                0 <= j < i ==> out@[j]@ == with_resource(texts(names@), resource_name@)[j],
        decreases names.len() - i,
    {
        if text_eq(names[i].as_str(), "Resource") {
            let mut marker = String::from_str("Resource<'");
            marker.append(resource_name);
            marker.append("'>");
            out.push(marker);
        } else {
            out.push(names[i].clone());
        }
        i = i + 1;
    }
    assert(texts(out@) =~= with_resource(texts(names@), resource_name@));
    out
}

/// The output names of the symbols `confirms`, the generic resource marker
/// with `resource_name` as its parameter.
pub fn known_resource_names(cache: &Cache, confirms: &Vec<String>, resource_name: &str) -> (r: Result<
    Vec<String>,
    Halt,
>)
    ensures
        names_outcome(r) == match names_spec(*cache, texts(confirms@)) {
            Ok(names) => Ok::<Seq<Text>, HaltModel>(with_resource(names, resource_name@)),
            Err(h) => Err(h),
        },
{
    match known_names(cache, confirms) {
        Ok(names) => Ok(parametrize_resource(names, resource_name)),
        Err(h) => Err(h),
    }
}

/// The output names of what the definition inherits from.
pub fn declared_names(cache: &Cache, definition: &Value) -> (r: Result<Vec<String>, Halt>)
    ensures
        names_outcome(r) == confirm_names(*cache, *definition),
{
    match definition.get("confirms") {
        None => {
            let none: Vec<String> = Vec::new();
            assert(texts(none@) =~= Seq::<Text>::empty());
            Ok(none)
        },
        Some(c) => match c.as_array() {
            Some(items) => {
                let symbols = strings_of(items);
                known_names(cache, &symbols)
            },
            None => Err(Halt::Malformed(Flaw::Confirms)),
        },
    }
}

/// The output names of what the definition of the type `resource_name`
/// inherits from.
pub fn declared_resource_names(cache: &Cache, resource_name: &str, definition: &Value) -> (r: Result<
    Vec<String>,
    Halt,
>)
    ensures
        names_outcome(r) == resource_confirms(*cache, resource_name@, *definition),
{
    match declared_names(cache, definition) {
        Ok(names) => Ok(parametrize_resource(names, resource_name)),
        Err(h) => Err(h),
    }
}

/// The output names of the targets that the reference declaration of
/// `definition` names.
pub fn target_names(
    cache: &Cache,
    resource_name: &str,
    definition: &Value,
) -> (r: Result<Vec<String>, Halt>)
    ensures
        names_outcome(r) == reference_targets(*cache, resource_name@, *definition),
{
    let none: Vec<String> = Vec::new();
    assert(texts(none@) =~= Seq::<Text>::empty());
    let symbols = match definition.get("zen.fhir/reference") {
        None => none,
        Some(r) => match r.as_object() {
            None => {
                return Err(Halt::Malformed(Flaw::Reference));
            },
            Some(_) => match r.get("refers") {
                None => none,
                Some(list) => match list.as_array() {
                    Some(items) => strings_of(items),
                    None => {
                        return Err(Halt::Malformed(Flaw::Reference));
                    },
                },
            },
        },
    };
    known_resource_names(cache, &symbols, resource_name)
}

/// The codes of the value-set that `definition` is bound to.
pub fn bound_codes(cache: &Cache, definition: &Value) -> (r: Result<Vec<String>, Halt>)
    ensures
        names_outcome(r) == codes_spec(*cache, *definition),
{
    let symbol = match definition.get("zen.fhir/value-set") {
        Some(vs) => match vs.get_str("symbol") {
            Some(s) => s,
            None => {
                return Err(Halt::Malformed(Flaw::ValueSet));
            },
        },
        None => {
            return Err(Halt::Malformed(Flaw::ValueSet));
        },
    };
    get_value_set(cache, symbol)
}

/// The literals that a string field enumerates.
pub fn enumerated(definition: &Value) -> (r: Result<Option<Vec<String>>, Halt>)
    ensures
        match r {
            Ok(v) => literals_spec(*definition) == Ok::<Option<Seq<Text>>, HaltModel>(
                crate::schema::opt_texts(v),
            ),
            Err(h) => literals_spec(*definition) == Err::<Option<Seq<Text>>, HaltModel>(h@),
        },
{
    let items = match definition.get("enum") {
        None => {
            return Ok(None);
        },
        Some(e) => match e.as_array() {
            None => {
                return Err(Halt::Malformed(Flaw::Enum));
            },
            Some(items) => items,
        },
    };
    let mut out: Vec<String> = Vec::new();
    let mut i: usize = 0;
    assert(items@.take(0) =~= Seq::<Value>::empty());
    assert(texts(out@) =~= Seq::<Text>::empty());
    while i < items.len()
        invariant
            i <= items.len(),
            definition.member("enum"@) matches Some(e) && e.items() == Some(items@),
            enum_values(items@.take(i as int)) == Some(texts(out@)),
        decreases items.len() - i,
    {
        let ghost upto = items@.take(i + 1);
        assert(upto.drop_last() =~= items@.take(i as int));
        assert(upto.last() == items@[i as int]);
        match items[i].get_str("value") {
            Some(s) => {
                let ghost before = out@;
                out.push(String::from_str(s));
                assert(texts(out@) =~= texts(before).push(s@));
            },
            None => {
                proof {
                    assert(enum_values(upto) is None);
                    lemma_enum_stop(items@, i + 1);
                }
                return Err(Halt::Malformed(Flaw::Enum));
            },
        }
        i = i + 1;
    }
    assert(items@.take(i as int) =~= items@);
    if out.len() == 0 {
        Ok(None)
    } else {
        Ok(Some(out))
    }
}

/// Once an item of a prefix has no value, the whole enumeration has no
/// values.
pub proof fn lemma_enum_stop(items: Seq<Value>, n: int)
    requires
        0 <= n <= items.len(),
        enum_values(items.take(n)) is None,
    ensures
        enum_values(items) is None,
    decreases items.len() - n,
{
    if n < items.len() {
        let next = items.take(n + 1);
        assert(next.drop_last() =~= items.take(n));
        lemma_enum_stop(items, n + 1);
    } else {
        assert(items.take(n) =~= items);
    }
}

/// Whether the validation of `definition` is open.
pub fn has_open_validation(definition: &Value) -> (r: bool)
    ensures
        r == is_open(*definition),
{
    match definition.get_str("validation-type") {
        Some(s) => text_eq(s, "open"),
        None => false,
    }
}

/// The keys that a map requires.
pub fn required_keys(require_keys: Option<&Value>) -> (r: Vec<String>)
    ensures
        texts(r@) == required_spec(
            match require_keys {
                Some(v) => Some(*v),
                None => None,
            },
        ),
{
    let none: Vec<String> = Vec::new();
    assert(texts(none@) =~= Seq::<Text>::empty());
    match require_keys {
        Some(v) => match v.as_array() {
            Some(items) => strings_of(items),
            None => none,
        },
        None => none,
    }
}

/// Builds a field from its parts.
pub fn make_field(
    extends: Option<Vec<String>>,
    is_array: bool,
    is_reference: bool,
    require: bool,
    description: Option<String>,
    sub_type: Option<TextMap<ElementSchema>>,
    plain_type: Option<String>,
    values: Option<Vec<String>>,
) -> (r: ElementSchema)
    ensures
        r@ == field(
            crate::schema::opt_texts(extends),
            is_array,
            is_reference,
            require,
            opt_text(description),
            crate::schema::opt_fields(sub_type),
            opt_text(plain_type),
            crate::schema::opt_texts(values),
        ),
{
    let r = ElementSchema {
        extends,
        is_array,
        is_reference,
        require,
        description,
        sub_type,
        plain_type,
        values,
    };
    proof {
        lemma_sub_type_model(r);
    }
    r
}

/// The map whose single entry is the catch-all.
pub fn catch_all_fields(description: Option<String>) -> (r: TextMap<ElementSchema>)
    ensures
        fields_model(r) == catch_all(opt_text(description)),
{
    let entry = make_field(None, false, false, false, description, None, None, None);
    let mut entries: Vec<(String, ElementSchema)> = Vec::new();
    entries.push((String::from_str("__"), entry));
    let r = TextMap { entries };
    assert(fields_model(r) =~= catch_all(opt_text(description)));
    r
}

/// The opaque field.
pub fn opaque_field(description: &Option<String>, require: bool, is_array: bool) -> (r:
    ElementSchema)
    ensures
        r@ == opaque(opt_text(*description), require, is_array),
{
    let inner = catch_all_fields(crate::schema::copy_opt_text(description));
    make_field(
        None,
        is_array,
        false,
        require,
        crate::schema::copy_opt_text(description),
        Some(inner),
        None,
        None,
    )
}

/// The value behind an optional reference.
pub open spec fn opt_value(o: Option<&Value>) -> Option<Value> {
    match o {
        Some(v) => Some(*v),
        None => None,
    }
}

/// A field that was resolved without anomaly.
pub fn clean_field(f: ElementSchema) -> (r: Result<(ElementSchema, Vec<Diagnostic>), Halt>)
    ensures
        field_outcome(r) == clean(f@),
{
    let found: Vec<Diagnostic> = Vec::new();
    assert(diagnostics(found@) =~= Seq::<DiagnosticModel>::empty());
    Ok((f, found))
}

/// A field that was resolved to the opaque field, with the report of it.
pub fn reported_field(f: ElementSchema, resource_name: &str, key: &str, anomaly: Anomaly) -> (r:
    Result<(ElementSchema, Vec<Diagnostic>), Halt>)
    ensures
        field_outcome(r) == reported(f@, resource_name@, key@, anomaly),
{
    let mut found: Vec<Diagnostic> = Vec::new();
    found.push(
        Diagnostic {
            resource: String::from_str(resource_name),
            key: String::from_str(key),
            anomaly,
        },
    );
    assert(diagnostics(found@) =~= seq![
        DiagnosticModel { resource: resource_name@, key: key@, anomaly },
    ]);
    Ok((f, found))
}

/// Resolves a field that is bound to a value-set.
pub fn read_value_set_field(cache: &Cache, value: &Value, require: bool) -> (r: Result<
    (ElementSchema, Vec<Diagnostic>),
    Halt,
>)
    ensures
        field_outcome(r) == value_set_field(*cache, *value, require),
{
    let description = get_description(value);
    let codes = match bound_codes(cache, value) {
        Ok(c) => c,
        Err(h) => {
            return Err(h);
        },
    };
    if codes.len() > 0 {
        return clean_field(
            make_field(None, false, false, require, description, None, None, Some(codes)),
        );
    }
    let names = match declared_names(cache, value) {
        Ok(n) => n,
        Err(h) => {
            return Err(h);
        },
    };
    if names.len() > 0 {
        clean_field(make_field(None, false, false, require, description, None, None, Some(names)))
    } else {
        clean_field(
            make_field(
                None,
                false,
                false,
                require,
                description,
                None,
                Some(String::from_str("any")),
                None,
            ),
        )
    }
}

/// Resolves a field that declares a reference.
pub fn read_reference_field(
    cache: &Cache,
    resource_name: &str,
    value: &Value,
    description: Option<String>,
    require: bool,
    is_array: bool,
) -> (r: Result<(ElementSchema, Vec<Diagnostic>), Halt>)
    ensures
        field_outcome(r) == reference_field(
            *cache,
            resource_name@,
            *value,
            opt_text(description),
            require,
            is_array,
        ),
{
    let targets = match target_names(cache, resource_name, value) {
        Ok(t) => t,
        Err(h) => {
            return Err(h);
        },
    };
    if targets.len() > 0 {
        clean_field(
            make_field(None, is_array, true, require, description, None, None, Some(targets)),
        )
    } else {
        clean_field(
            make_field(
                None,
                is_array,
                true,
                require,
                description,
                None,
                Some(String::from_str("Reference")),
                None,
            ),
        )
    }
}

/// Resolves a string field.
pub fn read_text_field(
    value: &Value,
    extends: Option<Vec<String>>,
    description: Option<String>,
    require: bool,
    is_array: bool,
) -> (r: Result<(ElementSchema, Vec<Diagnostic>), Halt>)
    ensures
        field_outcome(r) == text_field(
            *value,
            crate::schema::opt_texts(extends),
            opt_text(description),
            require,
            is_array,
        ),
{
    match enumerated(value) {
        Err(h) => Err(h),
        Ok(Some(vals)) => clean_field(
            make_field(extends, is_array, false, require, description, None, None, Some(vals)),
        ),
        Ok(None) => clean_field(
            make_field(
                extends,
                is_array,
                false,
                require,
                description,
                None,
                Some(String::from_str("string")),
                None,
            ),
        ),
    }
}

/// The field of a scalar keyword.
pub fn read_scalar_field(
    keyword: Keyword,
    names: Vec<String>,
    description: Option<String>,
    require: bool,
) -> (r: ElementSchema)
    ensures
        r@ == scalar_field(keyword, texts(names@), opt_text(description), require),
{
    match keyword {
        Keyword::Number => make_field(
            Some(names),
            false,
            false,
            require,
            description,
            None,
            Some(String::from_str("number")),
            None,
        ),
        Keyword::DateTime => make_field(
            Some(names),
            false,
            false,
            require,
            description,
            None,
            Some(String::from_str("dateTime")),
            None,
        ),
        Keyword::Boolean => make_field(
            None,
            false,
            false,
            require,
            description,
            None,
            Some(String::from_str("boolean")),
            None,
        ),
        Keyword::Integer => make_field(
            Some(names),
            false,
            false,
            require,
            description,
            None,
            Some(String::from_str("integer")),
            None,
        ),
        Keyword::Date => make_field(
            Some(names),
            false,
            false,
            require,
            description,
            None,
            Some(String::from_str("date")),
            None,
        ),
        Keyword::Any => make_field(
            Some(names),
            false,
            false,
            require,
            description,
            None,
            Some(String::from_str("any")),
            None,
        ),
        Keyword::Symbol => make_field(
            Some(names),
            false,
            false,
            require,
            description,
            None,
            Some(String::from_str("string")),
            None,
        ),
        Keyword::Collection => make_field(
            Some(names),
            true,
            false,
            require,
            description,
            None,
            Some(String::from_str("string")),
            None,
        ),
        _ => opaque_field(&description, require, false),
    }
}

/// Resolves the elements of an array that are bound to a value-set.
pub fn read_bound_elements(
    cache: &Cache,
    resource_name: &str,
    key: &str,
    every: &Value,
    names: Vec<String>,
    description: Option<String>,
) -> (r: Result<(ElementSchema, Vec<Diagnostic>), Halt>)
    ensures
        field_outcome(r) == bound_elements(
            *cache,
            resource_name@,
            key@,
            *every,
            texts(names@),
            opt_text(description),
        ),
{
    let codes = match bound_codes(cache, every) {
        Ok(c) => c,
        Err(h) => {
            return Err(h);
        },
    };
    if !every.has("confirms") {
        return clean_field(make_field(None, true, false, false, description, None, None, None));
    }
    if names.len() > 0 && text_eq(names[0].as_str(), "code") {
        if codes.len() == 0 {
            clean_field(
                make_field(
                    None,
                    true,
                    false,
                    false,
                    description,
                    None,
                    Some(String::from_str("code")),
                    None,
                ),
            )
        } else {
            clean_field(make_field(None, true, false, false, description, None, None, Some(codes)))
        }
    } else if names.len() > 0 && (text_eq(names[0].as_str(), "CodeableConcept") || text_eq(
        names[0].as_str(),
        "Coding",
    )) {
        let values = if codes.len() == 0 {
            None
        } else {
            Some(codes)
        };
        clean_field(
            make_field(
                None,
                true,
                false,
                false,
                description,
                None,
                Some(names[0].clone()),
                values,
            ),
        )
    } else {
        reported_field(
            opaque_field(&description, false, true),
            resource_name,
            key,
            Anomaly::ValueSetBinding,
        )
    }
}

/// Putting a field into a map puts it into the map's model.
pub proof fn lemma_insert_model(
    before: TextMap<ElementSchema>,
    after: TextMap<ElementSchema>,
    key: String,
    value: ElementSchema,
)
    requires
        match first_index(before.keys(), key@) {
            Some(i) => after.entries@ == before.entries@.update(i, (key, value)),
            None => after.entries@ == before.entries@.push((key, value)),
        },
    ensures
        fields_model(after) == model_insert(fields_model(before), key@, value@),
{
    lemma_model_keys(before);
    lemma_first_index(before.keys(), key@);
    assert(fields_model(after) =~= model_insert(fields_model(before), key@, value@));
}

/// Once the first entries of a map could not be resolved, the map cannot,
/// for the same reason.
pub proof fn lemma_map_stop(cache: Cache, resource: Text, keys: Value, n: nat, required: Seq<Text>)
    requires
        keys is Object,
        n <= keys->Object_0.entries@.len(),
        map_spec(cache, resource, keys, n, required) is Err,
    ensures
        map_spec(cache, resource, keys, keys->Object_0.entries@.len(), required) == map_spec(
            cache,
            resource,
            keys,
            n,
            required,
        ),
    decreases keys->Object_0.entries@.len() - n,
{
    if n < keys->Object_0.entries@.len() {
        lemma_map_stop(cache, resource, keys, n + 1, required);
    }
}

/// Resolves the array field that `value` declares under `key` in the type
/// `resource_name`.
pub fn read_vector(cache: &Cache, resource_name: &str, key: &str, value: &Value) -> (r: Result<
    (ElementSchema, Vec<Diagnostic>),
    Halt,
>)
    ensures
        field_outcome(r) == vector_spec(*cache, resource_name@, key@, *value),
    decreases value, 0int,
{
    let description = get_description(value);
    let every = match value.get("every") {
        None => {
            return clean_field(
                make_field(None, true, false, false, description, None, None, None),
            );
        },
        Some(e) => e,
    };
    let names = match declared_names(cache, every) {
        Ok(n) => n,
        Err(h) => {
            return Err(h);
        },
    };
    if every.has("zen.fhir/value-set") {
        return read_bound_elements(cache, resource_name, key, every, names, description);
    }
    if every.has("zen.fhir/reference") {
        return read_reference_field(cache, resource_name, every, description, false, true);
    }
    let declared = match every.get("type") {
        None => {
            return clean_field(
                make_field(Some(names), true, false, false, description, None, None, None),
            );
        },
        Some(t) => t,
    };
    match keyword_of(declared) {
        Keyword::Record => match every.get("keys") {
            Some(keys) => if has_open_validation(every) {
                let inner = catch_all_fields(crate::schema::copy_opt_text(&description));
                clean_field(
                    make_field(
                        Some(names),
                        true,
                        false,
                        false,
                        description,
                        Some(inner),
                        None,
                        None,
                    ),
                )
            } else {
                match read_map(cache, resource_name, keys, every.get("require")) {
                    Err(h) => Err(h),
                    Ok((sub, found)) => Ok(
                        (
                            make_field(
                                Some(names),
                                true,
                                false,
                                false,
                                description,
                                Some(sub),
                                None,
                                None,
                            ),
                            found,
                        ),
                    ),
                }
            },
            None => {
                let inner = catch_all_fields(crate::schema::copy_opt_text(&description));
                clean_field(
                    make_field(
                        Some(names),
                        true,
                        false,
                        false,
                        description,
                        Some(inner),
                        None,
                        None,
                    ),
                )
            },
        },
        Keyword::Text => read_text_field(every, Some(names), description, false, true),
        Keyword::Vector => read_vector(cache, resource_name, key, every),
        Keyword::Integer => clean_field(
            make_field(
                Some(names),
                true,
                false,
                false,
                description,
                None,
                Some(String::from_str("integer")),
                None,
            ),
        ),
        _ => reported_field(
            opaque_field(&description, false, true),
            resource_name,
            key,
            Anomaly::UnknownElementType,
        ),
    }
}

/// Resolves the field that `value` declares under `key` in the type
/// `resource_name`; `required` lists the keys that the enclosing map
/// requires.
pub fn read_field(
    cache: &Cache,
    resource_name: &str,
    key: &str,
    value: &Value,
    required: &Vec<String>,
) -> (r: Result<(ElementSchema, Vec<Diagnostic>), Halt>)
    ensures
        field_outcome(r) == field_spec(*cache, resource_name@, key@, *value, texts(required@)),
    decreases value, 1int,
{
    let req = contains_text(required, key);
    let description = get_description(value);
    if value.has("zen.fhir/value-set") {
        return read_value_set_field(cache, value, req);
    }
    if value.has("zen.fhir/reference") {
        return read_reference_field(cache, resource_name, value, description, req, false);
    }
    let declared = match value.get("type") {
        None => {
            if value.has("confirms") {
                return match declared_names(cache, value) {
                    Err(h) => Err(h),
                    Ok(names) => clean_field(
                        make_field(Some(names), false, false, req, description, None, None, None),
                    ),
                };
            } else {
                return clean_field(opaque_field(&description, req, false));
            }
        },
        Some(t) => t,
    };
    let names = match declared_names(cache, value) {
        Ok(n) => n,
        Err(h) => {
            return Err(h);
        },
    };
    match keyword_of(declared) {
        Keyword::Vector => match read_vector(cache, resource_name, key, value) {
            Err(h) => Err(h),
            Ok((f, found)) => {
                proof {
                    lemma_sub_type_model(f);
                }
                let mut f = f;
                f.require = req;
                proof {
                    lemma_sub_type_model(f);
                }
                Ok((f, found))
            },
        },
        Keyword::Record => if has_open_validation(value) {
            let inner = catch_all_fields(crate::schema::copy_opt_text(&description));
            clean_field(
                make_field(Some(names), false, false, req, description, Some(inner), None, None),
            )
        } else {
            match value.get("keys") {
                Some(keys) => match read_map(cache, resource_name, keys, value.get("require")) {
                    Err(h) => Err(h),
                    Ok((sub, found)) => Ok(
                        (
                            make_field(
                                Some(names),
                                false,
                                false,
                                false,
                                description,
                                Some(sub),
                                None,
                                None,
                            ),
                            found,
                        ),
                    ),
                },
                None => {
                    let inner = catch_all_fields(crate::schema::copy_opt_text(&description));
                    clean_field(
                        make_field(
                            Some(names),
                            false,
                            false,
                            false,
                            description,
                            Some(inner),
                            None,
                            None,
                        ),
                    )
                },
            }
        },
        Keyword::Text => read_text_field(value, None, description, req, false),
        Keyword::Unknown => reported_field(
            opaque_field(&description, req, false),
            resource_name,
            key,
            Anomaly::UnknownType,
        ),
        scalar => clean_field(read_scalar_field(scalar, names, description, req)),
    }
}

/// Resolves the fields that the object `keys` declares in the type
/// `resource_name`; `require_keys` lists the keys that are required.
pub fn read_map(
    cache: &Cache,
    resource_name: &str,
    keys: &Value,
    require_keys: Option<&Value>,
) -> (r: Result<(TextMap<ElementSchema>, Vec<Diagnostic>), Halt>)
    ensures
        fields_outcome(r) == read_map_spec(
            *cache,
            resource_name@,
            *keys,
            opt_value(require_keys),
        ),
        r matches Ok((m, found)) ==> m.wf(),
    decreases keys, 0int,
{
    let m = match keys.as_object() {
        Some(m) => m,
        None => {
            return Err(Halt::Malformed(Flaw::Keys));
        },
    };
    let required = required_keys(require_keys);
    let mut result: TextMap<ElementSchema> = TextMap::new();
    let mut found: Vec<Diagnostic> = Vec::new();
    let mut i: usize = 0;
    assert(fields_model(result) =~= Seq::<(Text, FieldModel)>::empty());
    assert(diagnostics(found@) =~= Seq::<DiagnosticModel>::empty());
    while i < m.entries.len()
        invariant
            i <= m.entries@.len(),
            *keys == Value::Object(*m),
            result.wf(),
            texts(required@) == required_spec(opt_value(require_keys)),
            map_spec(*cache, resource_name@, *keys, i as nat, texts(required@)) == Ok::<
                (FieldsModel, Seq<DiagnosticModel>),
                HaltModel,
            >((fields_model(result), diagnostics(found@))),
        decreases m.entries@.len() - i,
    {
        let key = m.entries[i].0.as_str();
        let value = &m.entries[i].1;
        match read_field(cache, resource_name, key, value, &required) {
            Err(h) => {
                proof {
                    assert(map_spec(
                        *cache,
                        resource_name@,
                        *keys,
                        (i + 1) as nat,
                        texts(required@),
                    ) == Err::<(FieldsModel, Seq<DiagnosticModel>), HaltModel>(h@));
                    lemma_map_stop(
                        *cache,
                        resource_name@,
                        *keys,
                        (i + 1) as nat,
                        texts(required@),
                    );
                }
                return Err(h);
            },
            Ok((f, more)) => {
                let ghost before = result;
                let ghost found_before = found@;
                let wrapped = wrap_key(key);
                result.insert(wrapped, f);
                proof {
                    lemma_insert_model(before, result, wrapped, f);
                }
                let mut more = more;
                let ghost added = more@;
                found.append(&mut more);
                assert(diagnostics(found@) =~= diagnostics(found_before) + diagnostics(added));
            },
        }
        i = i + 1;
    }
    Ok((result, found))
}

/// A field that is bound to a value-set never has an empty list of
/// literals. Where the set has no codes and the field inherits from
/// nothing, the field is `any` and has no literals at all.
pub proof fn lemma_empty_value_set_is_any(
    cache: Cache,
    resource: Text,
    key: Text,
    value: Value,
    required: Seq<Text>,
)
    requires
        value.member("zen.fhir/value-set"@) is Some,
    ensures
        field_spec(cache, resource, key, value, required) matches Ok((f, found)) ==> (f.values
            matches Some(literals) ==> literals.len() > 0),
        codes_spec(cache, value) == Ok::<Seq<Text>, HaltModel>(Seq::empty()) && confirm_names(
            cache,
            value,
        ) == Ok::<Seq<Text>, HaltModel>(Seq::empty()) ==> field_spec(
            cache,
            resource,
            key,
            value,
            required,
        ) == clean(
            field(
                None,
                false,
                false,
                required.contains(key),
                description_of(value),
                None,
                Some("any"@),
                None,
            ),
        ),
{
}

/// Putting a field that is in order into a map that is in order leaves the
/// map in order.
pub proof fn lemma_insert_wf(m: FieldsModel, key: Text, f: FieldModel)
    requires
        fields_wf(m),
        field_wf(f),
    ensures
        fields_wf(model_insert(m, key, f)),
{
    let r = model_insert(m, key, f);
    lemma_first_index(model_keys(m), key);
    match first_index(model_keys(m), key) {
        Some(p) => {
            assert(model_keys(r) =~= model_keys(m));
            assert forall|i: int| 0 <= i < r.len() implies field_wf(#[trigger] r[i].1) by {
                if i != p {
                    assert(r[i] == m[i]);
                    assert(field_wf(m[i].1));
                }
            }
        },
        None => {
            assert(model_keys(r) =~= model_keys(m).push(key));
            assert forall|i: int| 0 <= i < r.len() implies field_wf(#[trigger] r[i].1) by {
                if i < m.len() {
                    assert(r[i] == m[i]);
                    assert(field_wf(m[i].1));
                }
            }
        },
    }
}

/// The catch-all map is in order.
pub proof fn lemma_catch_all_wf(description: Option<Text>)
    ensures
        fields_wf(catch_all(description)),
        field_wf(opaque(description, true, true)),
        field_wf(opaque(description, true, false)),
        field_wf(opaque(description, false, true)),
        field_wf(opaque(description, false, false)),
{
    let m = catch_all(description);
    assert(m.len() == 1);
    assert(field_wf(m[0].1));
    assert(fields_wf(m));
}

/// An array field that was resolved is in order.
pub proof fn lemma_vector_wf(cache: Cache, resource: Text, key: Text, value: Value)
    ensures
        vector_spec(cache, resource, key, value) matches Ok((f, found)) ==> field_wf(f),
    decreases value, 0int,
{
    lemma_catch_all_wf(description_of(value));
    match value.member("every"@) {
        Some(every) => match every.member("type"@) {
            Some(t) => match keyword_spec(t.text()) {
                Keyword::Record => match every.member("keys"@) {
                    Some(keys) => {
                        lemma_read_map_wf(cache, resource, keys, every.member("require"@));
                    },
                    None => {},
                },
                Keyword::Vector => {
                    lemma_vector_wf(cache, resource, key, every);
                },
                _ => {},
            },
            None => {},
        },
        None => {},
    }
}

/// A field that was resolved is in order: it does not have both a scalar
/// type and nested fields, and no map of nested fields has a key twice.
pub proof fn lemma_field_wf(
    cache: Cache,
    resource: Text,
    key: Text,
    value: Value,
    required: Seq<Text>,
)
    ensures
        field_spec(cache, resource, key, value, required) matches Ok((f, found)) ==> field_wf(f),
    decreases value, 1int,
{
    lemma_catch_all_wf(description_of(value));
    lemma_vector_wf(cache, resource, key, value);
    match value.member("keys"@) {
        Some(keys) => {
            lemma_read_map_wf(cache, resource, keys, value.member("require"@));
        },
        None => {},
    }
}

/// The first entries of a map that were resolved are in order.
pub proof fn lemma_map_wf(cache: Cache, resource: Text, keys: Value, n: nat, required: Seq<Text>)
    ensures
        map_spec(cache, resource, keys, n, required) matches Ok((m, found)) ==> fields_wf(m),
    decreases keys, n,
{
    match keys {
        Value::Object(m) => {
            if n == 0 || n > m.entries@.len() {
                assert(fields_wf(Seq::<(Text, FieldModel)>::empty()));
            } else {
                lemma_map_wf(cache, resource, keys, (n - 1) as nat, required);
                lemma_field_wf(
                    cache,
                    resource,
                    m.entries@[n - 1].0@,
                    m.entries@[n - 1].1,
                    required,
                );
                match map_spec(cache, resource, keys, (n - 1) as nat, required) {
                    Ok((front, found)) => match field_spec(
                        cache,
                        resource,
                        m.entries@[n - 1].0@,
                        m.entries@[n - 1].1,
                        required,
                    ) {
                        Ok((f, more)) => {
                            lemma_insert_wf(front, wrap_key_spec(m.entries@[n - 1].0@), f);
                        },
                        Err(_) => {},
                    },
                    Err(_) => {},
                }
            }
        },
        _ => {},
    }
}

/// A map of fields that was resolved is in order.
pub proof fn lemma_read_map_wf(
    cache: Cache,
    resource: Text,
    keys: Value,
    require_keys: Option<Value>,
)
    ensures
        read_map_spec(cache, resource, keys, require_keys) matches Ok((m, found)) ==> fields_wf(
            m,
        ),
    decreases keys,
        match keys {
            Value::Object(m) => m.entries@.len() + 1,
            _ => 0,
        },
{
    match keys {
        Value::Object(m) => {
            lemma_map_wf(cache, resource, keys, m.entries@.len(), required_spec(require_keys));
        },
        _ => {},
    }
}

/// Whether a definition declares a map of keys of its own: a closed map,
/// which is never marked as required.
pub open spec fn is_keyed_map(value: Value) -> bool {
    &&& value.member("zen.fhir/value-set"@) is None
    &&& value.member("zen.fhir/reference"@) is None
    &&& value.member("type"@) matches Some(t)
    &&& keyword_spec(t.text()) == Keyword::Record
    &&& !is_open(value)
}

/// A field is required exactly where the enclosing map lists its key as
/// required, but for a field that declares a closed map of its own.
pub proof fn lemma_field_required(
    cache: Cache,
    resource: Text,
    key: Text,
    value: Value,
    required: Seq<Text>,
)
    ensures
        field_spec(cache, resource, key, value, required) matches Ok((f, found)) ==> f.require
            == (required.contains(key) && !is_keyed_map(value)),
{
}

/// What putting a field into a map does to looking a key up: the key that
/// was put gives the field, every other key gives what it gave.
pub proof fn lemma_insert_lookup(m: FieldsModel, key: Text, f: FieldModel, other: Text)
    ensures
        crate::common::model_lookup(model_insert(m, key, f), key) == Some(f),
        other != key ==> crate::common::model_lookup(model_insert(m, key, f), other)
            == crate::common::model_lookup(m, other),
{
    let r = model_insert(m, key, f);
    lemma_first_index(model_keys(m), key);
    lemma_first_index(model_keys(m), other);
    match first_index(model_keys(m), key) {
        Some(p) => {
            assert(model_keys(r) =~= model_keys(m));
        },
        None => {
            assert(model_keys(r) =~= model_keys(m).push(key));
            assert(model_keys(r).drop_last() =~= model_keys(m));
            crate::map::lemma_is_first(model_keys(r), key, m.len() as int);
        },
    }
}

/// The field under a written key is that of the last entry that is written
/// so: where the first `n` entries of a map resolve and no entry after the
/// entry `i` is written as it is, the map has the field of the entry `i`
/// under its written key.
pub proof fn lemma_map_entry(
    cache: Cache,
    resource: Text,
    keys: Value,
    n: nat,
    required: Seq<Text>,
    i: int,
)
    requires
        keys is Object,
        0 <= i < n <= keys->Object_0.entries@.len(),
        map_spec(cache, resource, keys, n, required) is Ok,
        forall|j: int|
            i < j < n ==> wrap_key_spec(keys->Object_0.entries@[j].0@) != wrap_key_spec(
                keys->Object_0.entries@[i].0@,
            ),
    ensures
        field_spec(
            cache,
            resource,
            keys->Object_0.entries@[i].0@,
            keys->Object_0.entries@[i].1,
            required,
        ) matches Ok((f, found)) && crate::common::model_lookup(
            map_spec(cache, resource, keys, n, required)->Ok_0.0,
            wrap_key_spec(keys->Object_0.entries@[i].0@),
        ) == Some(f),
    decreases n,
{
    let entries = keys->Object_0.entries@;
    let front = map_spec(cache, resource, keys, (n - 1) as nat, required);
    let last = field_spec(cache, resource, entries[n - 1].0@, entries[n - 1].1, required);
    assert(front is Ok && last is Ok);
    lemma_insert_lookup(
        front->Ok_0.0,
        wrap_key_spec(entries[n - 1].0@),
        last->Ok_0.0,
        wrap_key_spec(entries[i].0@),
    );
    if i < n - 1 {
        lemma_map_entry(cache, resource, keys, (n - 1) as nat, required, i);
    }
}

/// In a map that was resolved, a field is required exactly where the list
/// of required keys holds its key: so for every entry that no later entry
/// is written like, and that declares no closed map of its own.
pub proof fn lemma_required_flag(
    cache: Cache,
    resource: Text,
    keys: Value,
    require_keys: Option<Value>,
    i: int,
)
    requires
        keys is Object,
        0 <= i < keys->Object_0.entries@.len(),
        read_map_spec(cache, resource, keys, require_keys) is Ok,
        forall|j: int|
            i < j < keys->Object_0.entries@.len() ==> wrap_key_spec(
                keys->Object_0.entries@[j].0@,
            ) != wrap_key_spec(keys->Object_0.entries@[i].0@),
    ensures
        crate::common::model_lookup(
            read_map_spec(cache, resource, keys, require_keys)->Ok_0.0,
            wrap_key_spec(keys->Object_0.entries@[i].0@),
        ) matches Some(f) && f.require == (required_spec(require_keys).contains(
            keys->Object_0.entries@[i].0@,
        ) && !is_keyed_map(keys->Object_0.entries@[i].1)),
{
    let entries = keys->Object_0.entries@;
    let required = required_spec(require_keys);
    lemma_map_entry(cache, resource, keys, entries.len(), required, i);
    lemma_field_required(cache, resource, entries[i].0@, entries[i].1, required);
}

/// Whether the entry `i` is the last of the first `n` entries of the object
/// `keys` that is written as `written`.
pub open spec fn last_written(keys: Value, n: nat, written: Text, i: int) -> bool {
    &&& keys is Object
    &&& 0 <= i < n <= keys->Object_0.entries@.len()
    &&& wrap_key_spec(keys->Object_0.entries@[i].0@) == written
    &&& forall|j: int|
        i < j < n ==> wrap_key_spec(keys->Object_0.entries@[j].0@) != wrap_key_spec(
            keys->Object_0.entries@[i].0@,
        )
}

/// Every field of a resolved map comes from an entry: the last of the
/// entries that is written as the field's key. The lemma gives that entry.
pub proof fn lemma_written_by(
    cache: Cache,
    resource: Text,
    keys: Value,
    n: nat,
    required: Seq<Text>,
    written: Text,
) -> (i: int)
    requires
        keys is Object,
        n <= keys->Object_0.entries@.len(),
        map_spec(cache, resource, keys, n, required) matches Ok(r) && crate::common::model_lookup(
            r.0,
            written,
        ) is Some,
    ensures
        last_written(keys, n, written, i),
    decreases n,
{
    let entries = keys->Object_0.entries@;
    if n == 0 {
        assert(model_keys(Seq::<(Text, FieldModel)>::empty()) =~= Seq::<Text>::empty());
        0
    } else {
        let front = map_spec(cache, resource, keys, (n - 1) as nat, required);
        let last = field_spec(cache, resource, entries[n - 1].0@, entries[n - 1].1, required);
        assert(front is Ok && last is Ok);
        let key = wrap_key_spec(entries[n - 1].0@);
        let fields = front->Ok_0;
        let field = last->Ok_0;
        lemma_insert_lookup(fields.0, key, field.0, written);
        if key == written {
            n - 1
        } else {
            lemma_written_by(cache, resource, keys, (n - 1) as nat, required, written)
        }
    }
}

/// Every field of a resolved map is required exactly where the list of
/// required keys holds the key of the entry that it comes from, the last
/// that is written as the field's key, but for an entry that declares a
/// closed map of its own.
pub proof fn lemma_every_field_required(
    cache: Cache,
    resource: Text,
    keys: Value,
    require_keys: Option<Value>,
    written: Text,
) -> (i: int)
    requires
        keys is Object,
        read_map_spec(cache, resource, keys, require_keys) matches Ok(r)
            && crate::common::model_lookup(r.0, written) is Some,
    ensures
        last_written(keys, keys->Object_0.entries@.len(), written, i),
        read_map_spec(cache, resource, keys, require_keys) matches Ok(r)
            && crate::common::model_lookup(r.0, written) matches Some(f) && f.require == (
        required_spec(require_keys).contains(keys->Object_0.entries@[i].0@) && !is_keyed_map(
            keys->Object_0.entries@[i].1,
        )),
{
    let entries = keys->Object_0.entries@;
    let i = lemma_written_by(
        cache,
        resource,
        keys,
        entries.len(),
        required_spec(require_keys),
        written,
    );
    lemma_required_flag(cache, resource, keys, require_keys, i);
    i
}

/// After the names of symbols were noted, every one of the symbols that
/// resolves to a name has that name among the noted names.
pub proof fn lemma_noted_names(before: Cache, after: Cache, symbols: Seq<Text>, i: int)
    requires
        before.noted(after, symbols),
        0 <= i < symbols.len(),
    ensures
        naming_spec(before, symbols[i]) matches Ok(Some(n)) ==> (after.confirms.lookup(symbols[i])
            matches Some(s) && s@ == n),
{
    let k = symbols[i];
    assert(symbols.contains(k));
    assert(after.naming(k) == before.naming(k));
    assert(after.confirms.lookup(k) is Some <==> (before.confirms.lookup(k) is Some || (
        symbols.contains(k) && before.can_note(k))));
}

/// The symbols that a definition lists as what it inherits from; none
/// where the list is no list.
pub open spec fn asked_confirms(v: Value) -> Seq<Text> {
    match declared_confirms(v) {
        Ok(symbols) => symbols,
        Err(_) => Seq::empty(),
    }
}

/// The symbols that the reference declaration of a definition names as its
/// targets; none where the declaration is malformed.
pub open spec fn asked_targets(v: Value) -> Seq<Text> {
    match declared_targets(v) {
        Ok(symbols) => symbols,
        Err(_) => Seq::empty(),
    }
}

/// The symbols that a definition lists as what it inherits from.
pub fn confirms_of(definition: &Value) -> (r: Vec<String>)
    ensures
        texts(r@) == asked_confirms(*definition),
{
    let none: Vec<String> = Vec::new();
    assert(texts(none@) =~= Seq::<Text>::empty());
    match definition.get("confirms") {
        None => none,
        Some(c) => match c.as_array() {
            Some(items) => strings_of(items),
            None => none,
        },
    }
}

/// The symbols that the reference declaration of a definition names as its
/// targets.
pub fn targets_of(definition: &Value) -> (r: Vec<String>)
    ensures
        texts(r@) == asked_targets(*definition),
{
    let none: Vec<String> = Vec::new();
    assert(texts(none@) =~= Seq::<Text>::empty());
    match definition.get("zen.fhir/reference") {
        None => none,
        Some(r) => match r.as_object() {
            None => none,
            Some(_) => match r.get("refers") {
                None => none,
                Some(list) => match list.as_array() {
                    Some(items) => strings_of(items),
                    None => none,
                },
            },
        },
    }
}

/// The output name of a symbol that something inherits from. The name is
/// noted in the cache, where the cache can note it; that changes no name.
pub fn confirm_name(cache: &mut Cache, symbol: &str) -> (r: Result<Option<String>, Halt>)
    ensures
        match r {
            Ok(name) => naming_spec(*old(cache), symbol@) == Ok::<Option<Text>, HaltModel>(
                opt_text(name),
            ),
            Err(h) => naming_spec(*old(cache), symbol@) == Err::<Option<Text>, HaltModel>(h@),
        },
        old(cache).noted(*final(cache), seq![symbol@]),
        r matches Ok(Some(n)) ==> (final(cache).confirms.lookup(symbol@) matches Some(s) && s@
            == n@),
{
    let r = known_name(cache, symbol);
    cache.note_name(symbol);
    proof {
        assert(seq![symbol@][0] == symbol@);
        assert(cache.naming(symbol@) == old(cache).naming(symbol@));
    }
    r
}

/// The output names of the symbols `confirms`, each once. The names are
/// noted in the cache, each where the cache can note it; that changes no
/// name.
pub fn get_confirms_value(cache: &mut Cache, confirms: &Vec<String>) -> (r: Result<
    Vec<String>,
    Halt,
>)
    ensures
        names_outcome(r) == names_spec(*old(cache), texts(confirms@)),
        old(cache).noted(*final(cache), texts(confirms@)),
        forall|i: int|
            0 <= i < confirms@.len() ==> (naming_spec(*old(cache), #[trigger] confirms@[i]@)
                matches Ok(Some(n)) ==> (final(cache).confirms.lookup(confirms@[i]@) matches Some(
                s,
            ) && s@ == n)),
{
    let r = known_names(cache, confirms);
    cache.note_names(confirms);
    proof {
        assert forall|i: int| 0 <= i < confirms@.len() implies (naming_spec(
            *old(cache),
            #[trigger] confirms@[i]@,
        ) matches Ok(Some(n)) ==> (cache.confirms.lookup(confirms@[i]@) matches Some(s) && s@
            == n)) by {
            lemma_noted_names(*old(cache), *cache, texts(confirms@), i);
        }
    }
    r
}

/// The output names of the symbols `confirms`, the generic resource marker
/// with `resource_name` as its parameter. The names are noted in the
/// cache, each where the cache can note it; that changes no name.
pub fn get_confirms(cache: &mut Cache, confirms: &Vec<String>, resource_name: &str) -> (r: Result<
    Vec<String>,
    Halt,
>)
    ensures
        names_outcome(r) == match names_spec(*old(cache), texts(confirms@)) {
            Ok(names) => Ok::<Seq<Text>, HaltModel>(with_resource(names, resource_name@)),
            Err(h) => Err(h),
        },
        old(cache).noted(*final(cache), texts(confirms@)),
        forall|i: int|
            0 <= i < confirms@.len() ==> (naming_spec(*old(cache), #[trigger] confirms@[i]@)
                matches Ok(Some(n)) ==> (final(cache).confirms.lookup(confirms@[i]@) matches Some(
                s,
            ) && s@ == n)),
{
    let r = known_resource_names(cache, confirms, resource_name);
    cache.note_names(confirms);
    proof {
        assert forall|i: int| 0 <= i < confirms@.len() implies (naming_spec(
            *old(cache),
            #[trigger] confirms@[i]@,
        ) matches Ok(Some(n)) ==> (cache.confirms.lookup(confirms@[i]@) matches Some(s) && s@
            == n)) by {
            lemma_noted_names(*old(cache), *cache, texts(confirms@), i);
        }
    }
    r
}

/// The output names of what the definition inherits from. The names are
/// noted in the cache, each where the cache can note it; that changes no
/// name.
pub fn init_confirms_value(cache: &mut Cache, definition: &Value) -> (r: Result<
    Vec<String>,
    Halt,
>)
    ensures
        names_outcome(r) == confirm_names(*old(cache), *definition),
        old(cache).noted(*final(cache), asked_confirms(*definition)),
{
    let r = declared_names(cache, definition);
    let symbols = confirms_of(definition);
    cache.note_names(&symbols);
    r
}

/// The output names of what the definition of the type `resource_name`
/// inherits from. The names are noted in the cache, each where the cache
/// can note it; that changes no name.
pub fn init_confirms(cache: &mut Cache, resource_name: &str, definition: &Value) -> (r: Result<
    Vec<String>,
    Halt,
>)
    ensures
        names_outcome(r) == resource_confirms(*old(cache), resource_name@, *definition),
        old(cache).noted(*final(cache), asked_confirms(*definition)),
{
    let r = declared_resource_names(cache, resource_name, definition);
    let symbols = confirms_of(definition);
    cache.note_names(&symbols);
    r
}

/// The output names of the targets that the reference declaration of
/// `definition` names. The names are noted in the cache, each where the
/// cache can note it; that changes no name.
pub fn init_reference_confirms_value(
    cache: &mut Cache,
    resource_name: &str,
    definition: &Value,
) -> (r: Result<Vec<String>, Halt>)
    ensures
        names_outcome(r) == reference_targets(*old(cache), resource_name@, *definition),
        old(cache).noted(*final(cache), asked_targets(*definition)),
{
    let r = target_names(cache, resource_name, definition);
    let symbols = targets_of(definition);
    cache.note_names(&symbols);
    r
}

/// The symbols that a definition refers to for their names: what it and
/// every field in it, nested however deep, lists as what it inherits from
/// and names as targets of a reference.
pub open spec fn referenced_spec(v: Value) -> Seq<Text>
    decreases v, 0nat,
{
    asked_confirms(v) + asked_targets(v) + (match v.member("every"@) {
        Some(e) => referenced_spec(e),
        None => Seq::empty(),
    }) + (match v.member("keys"@) {
        Some(k) => match k {
            Value::Object(m) => referenced_in_keys(k, m.entries@.len()),
            _ => Seq::empty(),
        },
        None => Seq::empty(),
    }) + (match v.member("params"@) {
        Some(p) => referenced_spec(p),
        None => Seq::empty(),
    })
}

/// The symbols that the first `n` fields of the object `keys` refer to.
pub open spec fn referenced_in_keys(keys: Value, n: nat) -> Seq<Text>
    decreases keys, n,
{
    match keys {
        Value::Object(m) => if n == 0 || n > m.entries@.len() {
            Seq::empty()
        } else {
            referenced_in_keys(keys, (n - 1) as nat) + referenced_spec(m.entries@[n - 1].1)
        },
        _ => Seq::empty(),
    }
}

/// Adds strings to a list.
pub fn append_texts(out: &mut Vec<String>, more: Vec<String>)
    ensures
        texts(final(out)@) == texts(old(out)@) + texts(more@),
{
    let ghost before = out@;
    let mut more = more;
    let ghost added = more@;
    out.append(&mut more);
    assert(texts(out@) =~= texts(before) + texts(added));
}

/// Adds to `out` the symbols that a definition refers to for their names.
pub fn collect_referenced(v: &Value, out: &mut Vec<String>)
    ensures
        texts(final(out)@) == texts(old(out)@) + referenced_spec(*v),
    decreases v, 0nat,
{
    let ghost start = texts(out@);
    append_texts(out, confirms_of(v));
    append_texts(out, targets_of(v));
    let ghost own = asked_confirms(*v) + asked_targets(*v);
    assert(texts(out@) =~= start + own);
    let ghost after_every = own + (match v.member("every"@) {
        Some(e) => referenced_spec(e),
        None => Seq::empty(),
    });
    match v.get("every") {
        Some(e) => {
            collect_referenced(e, out);
        },
        None => {},
    }
    assert(texts(out@) =~= start + after_every);
    let ghost after_keys = after_every + (match v.member("keys"@) {
        Some(k) => match k {
            Value::Object(m) => referenced_in_keys(k, m.entries@.len()),
            _ => Seq::empty(),
        },
        None => Seq::empty(),
    });
    match v.get("keys") {
        Some(k) => match k.as_object() {
            Some(m) => {
                let mut i: usize = 0;
                while i < m.entries.len()
                    invariant
                        i <= m.entries@.len(),
                        *k == Value::Object(*m),
                        v.member("keys"@) == Some(*k),
                        texts(out@) == start + after_every + referenced_in_keys(*k, i as nat),
                    decreases m.entries@.len() - i,
                {
                    let ghost before = texts(out@);
                    collect_referenced(&m.entries[i].1, out);
                    assert(texts(out@) =~= start + after_every + referenced_in_keys(
                        *k,
                        (i + 1) as nat,
                    ));
                    i = i + 1;
                }
            },
            None => {},
        },
        None => {},
    }
    assert(texts(out@) =~= start + after_keys);
    match v.get("params") {
        Some(p) => {
            collect_referenced(p, out);
        },
        None => {},
    }
    assert(texts(out@) =~= start + referenced_spec(*v));
}

/// The symbols that a definition refers to for their names.
pub fn referenced_symbols(definition: &Value) -> (r: Vec<String>)
    ensures
        texts(r@) == referenced_spec(*definition),
{
    let mut out: Vec<String> = Vec::new();
    assert(texts(out@) =~= Seq::<Text>::empty());
    collect_referenced(definition, &mut out);
    assert(Seq::<Text>::empty() + referenced_spec(*definition) =~= referenced_spec(*definition));
    out
}

/// The symbols that the definition of `symbol` refers to for their names;
/// none where the cache has no definition of the symbol.
pub open spec fn referenced_by(cache: Cache, symbol: Text) -> Seq<Text> {
    match cache.schema.lookup(symbol) {
        Some(d) => referenced_spec(d),
        None => Seq::empty(),
    }
}

/// Notes the names that the resolution of `symbol` asks for: the output
/// name of every symbol that the definition of `symbol` refers to, each
/// where the cache can note it. That changes no name.
pub fn note_referenced(cache: &mut Cache, symbol: &str)
    ensures
        old(cache).noted(*final(cache), referenced_by(*old(cache), symbol@)),
{
    let symbols = match cache.definition(symbol) {
        Some(d) => referenced_symbols(d),
        None => {
            let none: Vec<String> = Vec::new();
            assert(texts(none@) =~= Seq::<Text>::empty());
            none
        },
    };
    cache.note_names(&symbols);
}

} // verus!
