//! Resolution of a whole symbol: which symbols give a type, of what kind,
//! and under which name.

use vstd::prelude::*;
use vstd::string::StringExecFns;
use crate::cache::Cache;
use crate::config::ExcludeConfig;
use crate::helpers::{
    convert_primitive, convert_primitive_spec, description_of, get_description, get_name,
    is_persistent_any, is_persistent_any_spec, is_type_and_not_map, is_type_and_not_map_spec,
    name_of, normalize_confirms, normalize_confirms_spec, path_name_spec, zen_path_to_name,
};
use crate::map::TextMap;
use crate::reader::{
    bound_codes, catch_all, catch_all_fields, codes_spec, contains_text, diagnostics, field,
    fields_outcome, get_symbol, has_open_validation, declared_resource_names, is_open, lemma_catch_all_wf,
    lemma_insert_model, lemma_insert_wf, lemma_read_map_wf, make_field, model_insert, read_map,
    read_map_spec, resource_confirms, resource_of, strings_of, Diagnostic, DiagnosticModel,
    FieldsResult, Flaw, Halt, HaltModel, Resolved,
};
use crate::schema::{
    element_wf,
    opt_fields, opt_text, opt_texts, Element, ElementModel, ElementSchema, ElementWrapper,
    FieldModel, FieldsModel,
};
use crate::text::{
    capitalize, capitalize_spec, concat_all, concat_spec, contains_char, join, join_spec,
    kebab_to_pascal, kebab_to_pascal_spec, split, split_spec, starts_with, text_eq, texts, Text,
};
use crate::value::{text_items, Value};

verus! {

/// A type, part by part.
pub open spec fn element(
    is_rpc: bool,
    rpc_method: Option<Text>,
    description: Option<Text>,
    profile: bool,
    extends: Option<Seq<Text>>,
    plain: Option<Text>,
    schema: Option<FieldsModel>,
    values: Option<Seq<Text>>,
) -> ElementModel {
    ElementModel {
        is_rpc,
        rpc_method,
        description,
        profile,
        extends,
        plain,
        schema,
        values,
    }
}

/// A resolved symbol: the type and its name, or nothing where the symbol
/// gives no type; with the anomalies found on the way.
pub type TypeResult = Result<(Option<(Text, ElementModel)>, Seq<DiagnosticModel>), HaltModel>;

/// The symbol gives the type `e` under `name`.
pub open spec fn typed(name: Text, e: ElementModel, found: Seq<DiagnosticModel>) -> TypeResult {
    Ok((Some((name, e)), found))
}

/// The symbol gives no type.
pub open spec fn skipped() -> TypeResult {
    Ok((None, Seq::empty()))
}

/// The fields of a definition: those of its keys, or the catch-all where it
/// has no keys.
pub open spec fn keys_spec(cache: Cache, resource: Text, definition: Value) -> FieldsResult {
    match definition.member("keys"@) {
        Some(keys) => read_map_spec(cache, resource, keys, definition.member("require"@)),
        None => Ok((catch_all(description_of(definition)), Seq::empty())),
    }
}

/// One part of a dotted name in Pascal case.
pub open spec fn pascal_part(p: Text) -> Text {
    capitalize_spec(kebab_to_pascal_spec(p))
}

/// The parts of a dotted name, each in Pascal case, run together.
pub open spec fn dotted_name(item: Text) -> Text {
    let parts = split_spec(item, '.');
    concat_spec(Seq::new(parts.len(), |i: int| pascal_part(parts[i])))
}

/// The name of the type of a remote call: `RPC`, then every part of the
/// path of the call in Pascal case.
pub open spec fn rpc_name_spec(path: Text) -> Text {
    let items = split_spec(path, '/');
    "RPC"@ + concat_spec(Seq::new(items.len(), |i: int| dotted_name(items[i])))
}

/// The fields of the parameters of a remote call, if it has parameters.
pub open spec fn rpc_params_spec(cache: Cache, resource: Text, definition: Value) -> Result<
    (Option<FieldsModel>, Seq<DiagnosticModel>),
    HaltModel,
> {
    match definition.member("params"@) {
        None => Ok((None, Seq::empty())),
        Some(params) => if is_open(params) {
            Ok((Some(catch_all(description_of(params))), Seq::empty()))
        } else {
            match params.member("keys"@) {
                None => Ok((Some(catch_all(description_of(params))), Seq::empty())),
                Some(keys) => match read_map_spec(
                    cache,
                    resource,
                    keys,
                    params.member("require"@),
                ) {
                    Err(h) => Err(h),
                    Ok((sub, found)) => Ok(
                        (
                            if sub.len() == 0 {
                                None
                            } else {
                                Some(sub)
                            },
                            found,
                        ),
                    ),
                },
            }
        },
    }
}

/// The type of a remote call. A call whose definition is malformed gives no
/// type.
pub open spec fn rpc_spec(cache: Cache, symbol: Text, resource: Text, definition: Value)
    -> TypeResult {
    match definition.text_member("zen/name"@) {
        None => skipped(),
        Some(path) => match rpc_params_spec(cache, resource, definition) {
            Err(HaltModel::Malformed(_)) => skipped(),
            Err(h) => Err(h),
            Ok((schema, found)) => typed(
                rpc_name_spec(path),
                element(true, Some(symbol), None, false, None, None, schema, None),
                found,
            ),
        },
    }
}

/// The type of a stored resource.
pub open spec fn persistent_spec(
    cache: Cache,
    resource: Text,
    definition: Value,
    confirms: Seq<Text>,
) -> TypeResult {
    let desc = description_of(definition);
    if is_persistent_any_spec(definition) {
        typed(
            resource,
            element(
                false,
                None,
                desc,
                false,
                normalize_confirms_spec(confirms, resource),
                None,
                Some(catch_all(None)),
                None,
            ),
            Seq::empty(),
        )
    } else {
        match keys_spec(cache, resource, definition) {
            Err(h) => Err(h),
            Ok((keys, found)) => typed(
                resource,
                element(
                    false,
                    None,
                    desc,
                    false,
                    Some(seq![resource_of(resource)]),
                    None,
                    Some(keys),
                    None,
                ),
                found,
            ),
        }
    }
}

/// The output primitive that a definition with a scalar type is an alias
/// of.
pub open spec fn primitive_spec(definition: Value) -> Text {
    match definition.text_member("type"@) {
        Some(t) => convert_primitive_spec(t),
        None => "any"@,
    }
}

/// The field that says which resource a resource is.
pub open spec fn resource_type_field() -> FieldModel {
    field(None, false, false, true, None, None, Some("T"@), None)
}

/// The type of a structure that declares no type of its own: an
/// enumeration, or an alias of what it inherits from. A structure whose
/// name has a `-` in its second dotted part gives no type.
pub open spec fn untyped_structure_spec(
    cache: Cache,
    resource: Text,
    definition: Value,
    confirms: Seq<Text>,
) -> TypeResult {
    let desc = description_of(definition);
    let codes: Resolved<Option<Seq<Text>>> = if definition.member("zen.fhir/value-set"@) is Some {
        match codes_spec(cache, definition) {
            Ok(c) => Ok(Some(c)),
            Err(h) => Err(h),
        }
    } else {
        Ok(None)
    };
    match codes {
        Err(h) => Err(h),
        Ok(values) => match definition.text_member("zen/name"@) {
            None => Err(HaltModel::Malformed(Flaw::Name)),
            Some(path) => {
                let parts = split_spec(path, '.');
                if parts.len() < 2 {
                    Err(HaltModel::Malformed(Flaw::Name))
                } else if parts[1].contains('-') {
                    skipped()
                } else if join_spec(confirms, ", "@) != resource {
                    typed(
                        resource,
                        element(
                            false,
                            None,
                            desc,
                            false,
                            normalize_confirms_spec(confirms, resource),
                            None,
                            None,
                            values,
                        ),
                        Seq::empty(),
                    )
                } else {
                    match path_name_spec(path) {
                        None => Err(HaltModel::Malformed(Flaw::Name)),
                        Some(renamed) => typed(
                            renamed,
                            element(
                                false,
                                None,
                                desc,
                                false,
                                normalize_confirms_spec(confirms, renamed),
                                None,
                                None,
                                values,
                            ),
                            Seq::empty(),
                        ),
                    }
                }
            },
        },
    }
}

/// The type of a structure.
pub open spec fn structure_spec(
    cache: Cache,
    resource: Text,
    definition: Value,
    confirms: Seq<Text>,
    profile: bool,
) -> TypeResult {
    let desc = description_of(definition);
    if is_type_and_not_map_spec(definition) {
        typed(
            resource,
            element(
                false,
                None,
                desc,
                false,
                normalize_confirms_spec(confirms, resource),
                Some(primitive_spec(definition)),
                None,
                None,
            ),
            Seq::empty(),
        )
    } else if definition.member("type"@) is None {
        untyped_structure_spec(cache, resource, definition, confirms)
    } else {
        match keys_spec(cache, resource, definition) {
            Err(h) => Err(h),
            Ok((keys, found)) => if resource == "Resource"@ {
                typed(
                    "Resource<T = string>"@,
                    element(
                        false,
                        None,
                        desc,
                        profile,
                        None,
                        None,
                        Some(model_insert(keys, "resourceType"@, resource_type_field())),
                        None,
                    ),
                    found,
                )
            } else if resource == "DomainResource"@ {
                typed(
                    "DomainResource"@,
                    element(false, None, desc, profile, None, None, Some(keys), None),
                    found,
                )
            } else {
                typed(
                    resource,
                    element(
                        false,
                        None,
                        desc,
                        profile,
                        normalize_confirms_spec(confirms, resource),
                        None,
                        Some(keys),
                        None,
                    ),
                    found,
                )
            },
        }
    }
}

/// The type of a symbol that is neither a remote call, a stored resource
/// nor a structure.
pub open spec fn composite_spec(
    cache: Cache,
    resource: Text,
    definition: Value,
    confirms: Seq<Text>,
    profile: bool,
) -> TypeResult {
    match keys_spec(cache, resource, definition) {
        Err(h) => Err(h),
        Ok((keys, found)) => typed(
            resource,
            element(
                false,
                None,
                description_of(definition),
                profile,
                normalize_confirms_spec(confirms, resource),
                None,
                Some(keys),
                None,
            ),
            found,
        ),
    }
}

/// The tags whose symbols never give a type.
pub open spec fn excluded_tags() -> Seq<Text> {
    seq![
        "zen.fhir/search"@,
        "zen/tag"@,
        "aidbox.rest/param-engine"@,
        "aidbox.rest/search-by-engine"@,
        "aidbox.rest/op-engine"@,
        "aidbox.rest/middleware-engine"@,
        "aidbox.rest.acl/filter-table-insert-engine"@,
        "aidbox.rest.acl/coerce-method"@,
        "aidbox.rest.acl/sql-template"@,
        "aidbox.rest/op"@,
        "aidbox.rest.acl/filter"@,
        "aidbox.rest/api"@,
        "aidbox.rest.acl/request-param"@,
        "aidbox.rest/middleware"@,
        "aidbox.auth/grant-lookup"@,
        "aidbox/system"@,
        "aidbox/service"@,
    ]
}

/// Whether one of `tags` is excluded, always or by the user.
pub open spec fn tags_excluded(tags: Seq<Text>, user: Seq<Text>) -> bool {
    exists|i: int|
        0 <= i < tags.len() && (excluded_tags().contains(#[trigger] tags[i]) || user.contains(
            tags[i],
        ))
}

/// Whether a symbol with these tags is let through by the choice of
/// profile. A profile is let through only from the core namespace or from
/// the chosen profile; once a profile is chosen, so is a structure.
pub open spec fn profile_admitted(symbol: Text, tags: Seq<Text>, include_profile: Option<Text>)
    -> bool {
    let core = "hl7-fhir-r4-core."@.is_prefix_of(symbol);
    let inside = match include_profile {
        Some(p) => (p + "."@).is_prefix_of(symbol),
        None => false,
    };
    let checked = tags.contains("zen.fhir/profile-schema"@) || (include_profile is Some
        && tags.contains("zen.fhir/structure-schema"@));
    !checked || core || inside
}

/// The tags that the user excludes.
pub open spec fn user_tags(exclude: ExcludeConfig) -> Seq<Text> {
    match exclude.tags {
        Some(t) => texts(t@),
        None => Seq::empty(),
    }
}

/// The type that a symbol gives. A symbol gives no type where its
/// definition has no tags, where the choice of profile does not let it
/// through, where one of its tags is excluded, and where it is the
/// reference type itself. Otherwise its tags decide what kind of type it
/// is: a remote call, a stored resource, a structure, or a plain composite.
pub open spec fn symbol_spec(
    cache: Cache,
    symbol: Text,
    include_profile: Option<Text>,
    exclude: ExcludeConfig,
) -> TypeResult {
    match cache.schema.lookup(symbol) {
        None => Err(HaltModel::NeedSymbol(symbol)),
        Some(definition) => match definition.member("zen/tags"@) {
            None => skipped(),
            Some(tv) => match tv.items() {
                None => Err(HaltModel::Malformed(Flaw::Tags)),
                Some(items) => {
                    let tags = text_items(items);
                    if !profile_admitted(symbol, tags, include_profile) {
                        skipped()
                    } else if tags_excluded(tags, user_tags(exclude)) {
                        skipped()
                    } else {
                        match name_of(definition) {
                            None => Err(HaltModel::Malformed(Flaw::Name)),
                            Some(resource) => if resource == "Reference"@ {
                                skipped()
                            } else {
                                match resource_confirms(cache, resource, definition) {
                                    Err(h) => Err(h),
                                    Ok(confirms) => {
                                        let profile = tags.contains("zen.fhir/profile-schema"@);
                                        if tags.contains("zenbox/rpc"@) {
                                            rpc_spec(cache, symbol, resource, definition)
                                        } else if tags.contains("zenbox/persistent"@) {
                                            persistent_spec(cache, resource, definition, confirms)
                                        } else if tags.contains("zen.fhir/structure-schema"@) {
                                            structure_spec(
                                                cache,
                                                resource,
                                                definition,
                                                confirms,
                                                profile,
                                            )
                                        } else {
                                            composite_spec(
                                                cache,
                                                resource,
                                                definition,
                                                confirms,
                                                profile,
                                            )
                                        }
                                    },
                                }
                            },
                        }
                    }
                },
            },
        },
    }
}

/// What a resolution of a symbol came to.
pub open spec fn type_outcome(r: Result<(Option<ElementWrapper>, Vec<Diagnostic>), Halt>)
    -> TypeResult {
    match r {
        Ok((Some(w), found)) => Ok((Some((w.name@, w.element@)), diagnostics(found@))),
        Ok((None, found)) => Ok((None, diagnostics(found@))),
        Err(h) => Err(h@),
    }
}

/// What an optional map of fields with anomalies came to.
pub open spec fn params_outcome(
    r: Result<(Option<TextMap<ElementSchema>>, Vec<Diagnostic>), Halt>,
) -> Result<(Option<FieldsModel>, Seq<DiagnosticModel>), HaltModel> {
    match r {
        Ok((m, found)) => Ok((opt_fields(m), diagnostics(found@))),
        Err(h) => Err(h@),
    }
}

/// Builds a type from its parts.
pub fn make_element(
    is_rpc: bool,
    rpc_method: Option<String>,
    description: Option<String>,
    profile: bool,
    extends: Option<Vec<String>>,
    plain: Option<String>,
    schema: Option<TextMap<ElementSchema>>,
    values: Option<Vec<String>>,
) -> (r: Element)
    ensures
        r@ == element(
            is_rpc,
            opt_text(rpc_method),
            opt_text(description),
            profile,
            opt_texts(extends),
            opt_text(plain),
            opt_fields(schema),
            opt_texts(values),
        ),
{
    Element { is_rpc, rpc_method, description, profile, extends, plain, schema, values }
}

/// The symbol gives the type `e` under `name`.
pub fn typed_as(name: String, e: Element, found: Vec<Diagnostic>) -> (r: Result<
    (Option<ElementWrapper>, Vec<Diagnostic>),
    Halt,
>)
    ensures
        type_outcome(r) == typed(name@, e@, diagnostics(found@)),
{
    Ok((Some(ElementWrapper::new(name, e)), found))
}

/// The symbol gives no type.
pub fn no_type() -> (r: Result<(Option<ElementWrapper>, Vec<Diagnostic>), Halt>)
    ensures
        type_outcome(r) == skipped(),
{
    let found: Vec<Diagnostic> = Vec::new();
    assert(diagnostics(found@) =~= Seq::<DiagnosticModel>::empty());
    Ok((None, found))
}

/// No anomalies: the empty list of diagnostics.
pub fn nothing_found() -> (r: Vec<Diagnostic>)
    ensures
        r@.len() == 0,
        diagnostics(r@) == Seq::<DiagnosticModel>::empty(),
{
    let found: Vec<Diagnostic> = Vec::new();
    assert(diagnostics(found@) =~= Seq::<DiagnosticModel>::empty());
    found
}

/// Resolves the fields of a definition.
pub fn read_keys(cache: &Cache, resource_name: &str, definition: &Value) -> (r: Result<
    (TextMap<ElementSchema>, Vec<Diagnostic>),
    Halt,
>)
    ensures
        fields_outcome(r) == keys_spec(*cache, resource_name@, *definition),
{
    match definition.get("keys") {
        Some(keys) => read_map(cache, resource_name, keys, definition.get("require")),
        None => Ok((catch_all_fields(get_description(definition)), nothing_found())),
    }
}

/// One dotted name in Pascal case.
pub fn dotted(item: &str) -> (r: String)
    ensures
        r@ == dotted_name(item@),
{
    let parts = split(item, '.');
    let mut out: Vec<String> = Vec::new();
    let mut i: usize = 0;
    while i < parts.len()
        invariant
            i <= parts.len(),
            out@.len() == i,
            forall|j: int| 0 <= j < i ==> out@[j]@ == pascal_part(texts(parts@)[j]),
        decreases parts.len() - i,
    {
        let pascal = kebab_to_pascal(parts[i].as_str());
        out.push(capitalize(pascal.as_str()));
        i = i + 1;
    }
    let ghost ps = split_spec(item@, '.');
    assert(texts(out@) =~= Seq::new(ps.len(), |i: int| pascal_part(ps[i])));
    concat_all(&out)
}

/// The name of the type of the remote call at `path`.
pub fn rpc_name(path: &str) -> (r: String)
    ensures
        r@ == rpc_name_spec(path@),
{
    let items = split(path, '/');
    let mut out: Vec<String> = Vec::new();
    let mut i: usize = 0;
    while i < items.len()
        invariant
            i <= items.len(),
            out@.len() == i,
            forall|j: int| 0 <= j < i ==> out@[j]@ == dotted_name(texts(items@)[j]),
        decreases items.len() - i,
    {
        out.push(dotted(items[i].as_str()));
        i = i + 1;
    }
    let ghost its = split_spec(path@, '/');
    assert(texts(out@) =~= Seq::new(its.len(), |i: int| dotted_name(its[i])));
    let mut name = String::from_str("RPC");
    let rest = concat_all(&out);
    name.append(rest.as_str());
    name
}

/// Resolves the parameters of a remote call.
pub fn read_rpc_params(cache: &Cache, resource_name: &str, definition: &Value) -> (r: Result<
    (Option<TextMap<ElementSchema>>, Vec<Diagnostic>),
    Halt,
>)
    ensures
        params_outcome(r) == rpc_params_spec(*cache, resource_name@, *definition),
{
    let params = match definition.get("params") {
        None => {
            return Ok((None, nothing_found()));
        },
        Some(p) => p,
    };
    if has_open_validation(params) {
        return Ok((Some(catch_all_fields(get_description(params))), nothing_found()));
    }
    match params.get("keys") {
        None => Ok((Some(catch_all_fields(get_description(params))), nothing_found())),
        Some(keys) => match read_map(cache, resource_name, keys, params.get("require")) {
            Err(h) => Err(h),
            Ok((sub, found)) => if sub.is_empty() {
                Ok((None, found))
            } else {
                Ok((Some(sub), found))
            },
        },
    }
}

/// Resolves the type of the remote call that `symbol_name` names.
pub fn read_rpc(cache: &Cache, symbol_name: &str, resource_name: &str, definition: &Value) -> (r:
    Result<(Option<ElementWrapper>, Vec<Diagnostic>), Halt>)
    ensures
        type_outcome(r) == rpc_spec(*cache, symbol_name@, resource_name@, *definition),
{
    let path = match definition.get_str("zen/name") {
        None => {
            return no_type();
        },
        Some(p) => p,
    };
    match read_rpc_params(cache, resource_name, definition) {
        Err(Halt::Malformed(_)) => no_type(),
        Err(h) => Err(h),
        Ok((schema, found)) => typed_as(
            rpc_name(path),
            make_element(
                true,
                Some(String::from_str(symbol_name)),
                None,
                false,
                None,
                None,
                schema,
                None,
            ),
            found,
        ),
    }
}

/// Resolves the type of a stored resource.
pub fn read_persistent(
    cache: &Cache,
    resource_name: &str,
    definition: &Value,
    confirms: &Vec<String>,
) -> (r: Result<(Option<ElementWrapper>, Vec<Diagnostic>), Halt>)
    ensures
        type_outcome(r) == persistent_spec(
            *cache,
            resource_name@,
            *definition,
            texts(confirms@),
        ),
{
    let description = get_description(definition);
    if is_persistent_any(definition) {
        typed_as(
            String::from_str(resource_name),
            make_element(
                false,
                None,
                description,
                false,
                normalize_confirms(confirms.as_slice(), resource_name),
                None,
                Some(catch_all_fields(None)),
                None,
            ),
            nothing_found(),
        )
    } else {
        match read_keys(cache, resource_name, definition) {
            Err(h) => Err(h),
            Ok((keys, found)) => {
                let mut marker = String::from_str("Resource<'");
                marker.append(resource_name);
                marker.append("'>");
                let mut extends: Vec<String> = Vec::new();
                extends.push(marker);
                assert(texts(extends@) =~= seq![resource_of(resource_name@)]);
                typed_as(
                    String::from_str(resource_name),
                    make_element(
                        false,
                        None,
                        description,
                        false,
                        Some(extends),
                        None,
                        Some(keys),
                        None,
                    ),
                    found,
                )
            },
        }
    }
}

/// The output primitive that a definition with a scalar type is an alias
/// of.
pub fn primitive_of(definition: &Value) -> (r: String)
    ensures
        r@ == primitive_spec(*definition),
{
    match definition.get_str("type") {
        Some(t) => convert_primitive(t),
        None => String::from_str("any"),
    }
}

/// Resolves the type of a structure that declares no type of its own.
pub fn read_untyped_structure(
    cache: &Cache,
    resource_name: &str,
    definition: &Value,
    confirms: &Vec<String>,
) -> (r: Result<(Option<ElementWrapper>, Vec<Diagnostic>), Halt>)
    ensures
        type_outcome(r) == untyped_structure_spec(
            *cache,
            resource_name@,
            *definition,
            texts(confirms@),
        ),
{
    let description = get_description(definition);
    let values = if definition.has("zen.fhir/value-set") {
        match bound_codes(cache, definition) {
            Ok(c) => Some(c),
            Err(h) => {
                return Err(h);
            },
        }
    } else {
        None
    };
    let path = match definition.get_str("zen/name") {
        None => {
            return Err(Halt::Malformed(Flaw::Name));
        },
        Some(p) => p,
    };
    let parts = split(path, '.');
    if parts.len() < 2 {
        return Err(Halt::Malformed(Flaw::Name));
    }
    if contains_char(parts[1].as_str(), '-') {
        return no_type();
    }
    let joined = join(confirms, ", ");
    if !text_eq(joined.as_str(), resource_name) {
        typed_as(
            String::from_str(resource_name),
            make_element(
                false,
                None,
                description,
                false,
                normalize_confirms(confirms.as_slice(), resource_name),
                None,
                None,
                values,
            ),
            nothing_found(),
        )
    } else {
        let renamed = match definition.get("zen/name") {
            Some(n) => match zen_path_to_name(n) {
                Some(name) => name,
                None => {
                    return Err(Halt::Malformed(Flaw::Name));
                },
            },
            None => {
                return Err(Halt::Malformed(Flaw::Name));
            },
        };
        let extends = normalize_confirms(confirms.as_slice(), renamed.as_str());
        typed_as(
            renamed,
            make_element(false, None, description, false, extends, None, None, values),
            nothing_found(),
        )
    }
}

/// Resolves the type of a structure.
pub fn read_structure(
    cache: &Cache,
    resource_name: &str,
    definition: &Value,
    confirms: &Vec<String>,
    profile: bool,
) -> (r: Result<(Option<ElementWrapper>, Vec<Diagnostic>), Halt>)
    ensures
        type_outcome(r) == structure_spec(
            *cache,
            resource_name@,
            *definition,
            texts(confirms@),
            profile,
        ),
{
    let description = get_description(definition);
    if is_type_and_not_map(definition) {
        return typed_as(
            String::from_str(resource_name),
            make_element(
                false,
                None,
                description,
                false,
                normalize_confirms(confirms.as_slice(), resource_name),
                Some(primitive_of(definition)),
                None,
                None,
            ),
            nothing_found(),
        );
    }
    if !definition.has("type") {
        return read_untyped_structure(cache, resource_name, definition, confirms);
    }
    match read_keys(cache, resource_name, definition) {
        Err(h) => Err(h),
        Ok((keys, found)) => if text_eq(resource_name, "Resource") {
            let marker = make_field(
                None,
                false,
                false,
                true,
                None,
                None,
                Some(String::from_str("T")),
                None,
            );
            let ghost before = keys;
            let mut keys = keys;
            let key = String::from_str("resourceType");
            keys.insert(key, marker);
            proof {
                lemma_insert_model(before, keys, key, marker);
            }
            typed_as(
                String::from_str("Resource<T = string>"),
                make_element(false, None, description, profile, None, None, Some(keys), None),
                found,
            )
        } else if text_eq(resource_name, "DomainResource") {
            typed_as(
                String::from_str("DomainResource"),
                make_element(false, None, description, profile, None, None, Some(keys), None),
                found,
            )
        } else {
            typed_as(
                String::from_str(resource_name),
                make_element(
                    false,
                    None,
                    description,
                    profile,
                    normalize_confirms(confirms.as_slice(), resource_name),
                    None,
                    Some(keys),
                    None,
                ),
                found,
            )
        },
    }
}

/// Resolves the type of a symbol that is neither a remote call, a stored
/// resource nor a structure.
pub fn read_composite(
    cache: &Cache,
    resource_name: &str,
    definition: &Value,
    confirms: &Vec<String>,
    profile: bool,
) -> (r: Result<(Option<ElementWrapper>, Vec<Diagnostic>), Halt>)
    ensures
        type_outcome(r) == composite_spec(
            *cache,
            resource_name@,
            *definition,
            texts(confirms@),
            profile,
        ),
{
    match read_keys(cache, resource_name, definition) {
        Err(h) => Err(h),
        Ok((keys, found)) => typed_as(
            String::from_str(resource_name),
            make_element(
                false,
                None,
                get_description(definition),
                profile,
                normalize_confirms(confirms.as_slice(), resource_name),
                None,
                Some(keys),
                None,
            ),
            found,
        ),
    }
}

/// The tags whose symbols never give a type.
pub fn builtin_excluded_tags() -> (r: Vec<String>)
    ensures
        texts(r@) == excluded_tags(),
{
    let mut v: Vec<String> = Vec::new();
    v.push(String::from_str("zen.fhir/search"));
    v.push(String::from_str("zen/tag"));
    v.push(String::from_str("aidbox.rest/param-engine"));
    v.push(String::from_str("aidbox.rest/search-by-engine"));
    v.push(String::from_str("aidbox.rest/op-engine"));
    v.push(String::from_str("aidbox.rest/middleware-engine"));
    v.push(String::from_str("aidbox.rest.acl/filter-table-insert-engine"));
    v.push(String::from_str("aidbox.rest.acl/coerce-method"));
    v.push(String::from_str("aidbox.rest.acl/sql-template"));
    v.push(String::from_str("aidbox.rest/op"));
    v.push(String::from_str("aidbox.rest.acl/filter"));
    v.push(String::from_str("aidbox.rest/api"));
    v.push(String::from_str("aidbox.rest.acl/request-param"));
    v.push(String::from_str("aidbox.rest/middleware"));
    v.push(String::from_str("aidbox.auth/grant-lookup"));
    v.push(String::from_str("aidbox/system"));
    v.push(String::from_str("aidbox/service"));
    assert(texts(v@) =~= excluded_tags());
    v
}

/// Whether one of `tags` is excluded, always or by `user`.
pub fn any_tag_excluded(tags: &Vec<String>, user: &Vec<String>) -> (r: bool)
    ensures
        r == tags_excluded(texts(tags@), texts(user@)),
{
    let always = builtin_excluded_tags();
    let mut i: usize = 0;
    while i < tags.len()
        invariant
            i <= tags.len(),
            texts(always@) == excluded_tags(),
            forall|j: int|
                0 <= j < i ==> !(excluded_tags().contains(#[trigger] texts(tags@)[j])
                    || texts(user@).contains(texts(tags@)[j])),
        decreases tags.len() - i,
    {
        if contains_text(&always, tags[i].as_str()) || contains_text(user, tags[i].as_str()) {
            assert(excluded_tags().contains(texts(tags@)[i as int]) || texts(user@).contains(
                texts(tags@)[i as int],
            ));
            return true;
        }
        i = i + 1;
    }
    false
}

/// Whether the choice of profile lets a symbol with these tags through.
pub fn profile_allows(symbol: &str, tags: &Vec<String>, include_profile: &Option<String>) -> (r:
    bool)
    ensures
        r == profile_admitted(symbol@, texts(tags@), opt_text(*include_profile)),
{
    let checked = contains_text(tags, "zen.fhir/profile-schema") || (include_profile.is_some()
        && contains_text(tags, "zen.fhir/structure-schema"));
    if !checked {
        return true;
    }
    if starts_with(symbol, "hl7-fhir-r4-core.") {
        return true;
    }
    match include_profile {
        Some(p) => {
            let mut prefix = p.clone();
            prefix.append(".");
            starts_with(symbol, prefix.as_str())
        },
        None => false,
    }
}

/// The tags that `exclude` names.
pub fn excluded_by_user(exclude: &ExcludeConfig) -> (r: Vec<String>)
    ensures
        texts(r@) == user_tags(*exclude),
{
    match &exclude.tags {
        Some(t) => crate::schema::copy_texts(t),
        None => {
            let none: Vec<String> = Vec::new();
            assert(texts(none@) =~= Seq::<Text>::empty());
            none
        },
    }
}

/// Resolves the type that `symbol` gives, from what the cache holds.
///
/// `include_profile` names the profile whose symbols are let through
/// besides the core ones; `exclude` names the tags that the user leaves
/// out. The result is the type with its name, or nothing where the symbol
/// gives no type, together with the shapes that were resolved to the opaque
/// field. Where the cache lacks a definition or a value-set that the
/// resolution needs, the result names it.
pub fn symbol_read(
    cache: &Cache,
    symbol: &str,
    include_profile: &Option<String>,
    exclude: &ExcludeConfig,
) -> (r: Result<(Option<ElementWrapper>, Vec<Diagnostic>), Halt>)
    ensures
        type_outcome(r) == symbol_spec(*cache, symbol@, opt_text(*include_profile), *exclude),
{
    let definition = match get_symbol(cache, symbol) {
        Ok(d) => d,
        Err(h) => {
            return Err(h);
        },
    };
    let tags = match definition.get("zen/tags") {
        None => {
            return no_type();
        },
        Some(tv) => match tv.as_array() {
            None => {
                return Err(Halt::Malformed(Flaw::Tags));
            },
            Some(items) => strings_of(items),
        },
    };
    if !profile_allows(symbol, &tags, include_profile) {
        return no_type();
    }
    let user = excluded_by_user(exclude);
    if any_tag_excluded(&tags, &user) {
        return no_type();
    }
    let resource_name = match get_name(definition) {
        None => {
            return Err(Halt::Malformed(Flaw::Name));
        },
        Some(n) => n,
    };
    if text_eq(resource_name.as_str(), "Reference") {
        return no_type();
    }
    let confirms = match declared_resource_names(cache, resource_name.as_str(), definition) {
        Ok(c) => c,
        Err(h) => {
            return Err(h);
        },
    };
    let profile = contains_text(&tags, "zen.fhir/profile-schema");
    if contains_text(&tags, "zenbox/rpc") {
        read_rpc(cache, symbol, resource_name.as_str(), definition)
    } else if contains_text(&tags, "zenbox/persistent") {
        read_persistent(cache, resource_name.as_str(), definition, &confirms)
    } else if contains_text(&tags, "zen.fhir/structure-schema") {
        read_structure(cache, resource_name.as_str(), definition, &confirms, profile)
    } else {
        read_composite(cache, resource_name.as_str(), definition, &confirms, profile)
    }
}

/// A symbol that carries an excluded tag gives no type, and no error:
/// whatever tags the user excludes, excluding cannot make a resolution fail.
pub proof fn lemma_excluded_tag_skips(
    cache: Cache,
    symbol: Text,
    include_profile: Option<Text>,
    exclude: ExcludeConfig,
)
    requires
        cache.schema.lookup(symbol) matches Some(definition) && definition.member("zen/tags"@)
            matches Some(tv) && tv.items() matches Some(items) && tags_excluded(
            text_items(items),
            user_tags(exclude),
        ),
    ensures
        symbol_spec(cache, symbol, include_profile, exclude) == skipped(),
{
}

/// A type that a symbol gives is in order: it is a remote call, a scalar
/// alias, an enumeration or a map of fields, and not two of them; and its
/// fields are in order.
pub proof fn lemma_symbol_wf(
    cache: Cache,
    symbol: Text,
    include_profile: Option<Text>,
    exclude: ExcludeConfig,
)
    ensures
        symbol_spec(cache, symbol, include_profile, exclude) matches Ok((Some((name, e)), found))
            ==> element_wf(e),
{
    match cache.schema.lookup(symbol) {
        Some(definition) => {
            lemma_catch_all_wf(None);
            lemma_catch_all_wf(description_of(definition));
            match definition.member("keys"@) {
                Some(keys) => {
                    match name_of(definition) {
                        Some(resource) => {
                            lemma_read_map_wf(
                                cache,
                                resource,
                                keys,
                                definition.member("require"@),
                            );
                            match read_map_spec(
                                cache,
                                resource,
                                keys,
                                definition.member("require"@),
                            ) {
                                Ok((fields, found)) => {
                                    lemma_insert_wf(
                                        fields,
                                        "resourceType"@,
                                        resource_type_field(),
                                    );
                                },
                                Err(_) => {},
                            }
                        },
                        None => {},
                    }
                },
                None => {
                    lemma_insert_wf(
                        catch_all(description_of(definition)),
                        "resourceType"@,
                        resource_type_field(),
                    );
                },
            }
            match definition.member("params"@) {
                Some(params) => {
                    lemma_catch_all_wf(description_of(params));
                    match (params.member("keys"@), name_of(definition)) {
                        (Some(keys), Some(resource)) => {
                            lemma_read_map_wf(cache, resource, keys, params.member("require"@));
                        },
                        _ => {},
                    }
                },
                None => {},
            }
        },
        None => {},
    }
}

} // verus!
