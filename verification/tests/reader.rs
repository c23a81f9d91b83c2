use aidbox_generator::cache::Cache;
use aidbox_generator::map::TextMap;
use aidbox_generator::reader::{
    confirm_name, get_confirms, get_confirms_value, get_symbol, get_value_set, init_confirms,
    init_confirms_value, init_reference_confirms_value, keyword_of, note_referenced, read_field,
    read_map, referenced_symbols,
    read_vector, Anomaly, Diagnostic, Flaw, Halt, Keyword,
};
use aidbox_generator::schema::ElementSchema;
use aidbox_generator::value::Value;

fn s(text: &str) -> Value {
    Value::Str(text.to_string())
}

fn list(items: Vec<Value>) -> Value {
    Value::List(items)
}

fn names(items: &[&str]) -> Value {
    Value::List(items.iter().map(|t| s(t)).collect())
}

fn obj(members: Vec<(&str, Value)>) -> Value {
    let mut m = TextMap::new();
    for (k, v) in members {
        m.insert(k.to_string(), v);
    }
    Value::Object(m)
}

fn strings(items: &[&str]) -> Vec<String> {
    items.iter().map(|s| s.to_string()).collect()
}

fn typed(name: &str) -> Value {
    obj(vec![("zen.fhir/type", s(name))])
}

fn value_set(symbol: &str) -> Value {
    obj(vec![("symbol", s(symbol))])
}

fn catch_all(description: Option<&str>) -> TextMap<ElementSchema> {
    let mut inner = ElementSchema::blank();
    inner.description = description.map(|d| d.to_string());
    let mut m = TextMap::new();
    m.insert("__".to_string(), inner);
    m
}

fn cache() -> Cache {
    let mut c = Cache::new();
    c.put_definition("demo/human-name".to_string(), typed("HumanName"));
    c.put_definition("demo/patient".to_string(), typed("Patient"));
    c.put_definition("demo/practitioner".to_string(), typed("Practitioner"));
    c.put_definition("demo/code".to_string(), typed("code"));
    c.put_definition("demo/coding".to_string(), typed("Coding"));
    c.put_definition("demo/concept".to_string(), typed("CodeableConcept"));
    c.put_definition("demo/resource".to_string(), typed("Resource"));
    c.put_definition(
        "demo/poly".to_string(),
        obj(vec![("zen.fhir/type", s("Poly")), ("fhir/polymorphic", Value::Bool(true))]),
    );
    c.put_definition("demo/nameless".to_string(), obj(vec![]));
    c.put_value_set("demo/status".to_string(), strings(&["planned", "finished"]));
    c.put_value_set("demo/empty".to_string(), strings(&[]));
    c
}

fn field(value: &Value) -> ElementSchema {
    let (f, found) = read_field(&cache(), "Demo", "key", value, &strings(&[])).unwrap();
    assert_eq!(found, Vec::<Diagnostic>::new());
    f
}

fn vector(every: Value) -> ElementSchema {
    let value = obj(vec![("type", s("zen/vector")), ("every", every)]);
    let (f, found) = read_vector(&cache(), "Demo", "key", &value).unwrap();
    assert_eq!(found, Vec::<Diagnostic>::new());
    f
}

fn blank() -> ElementSchema {
    ElementSchema::blank()
}

#[test]
fn keyword_table() {
    assert_eq!(keyword_of(&s("zen/vector")), Keyword::Vector);
    assert_eq!(keyword_of(&s("zen/map")), Keyword::Record);
    assert_eq!(keyword_of(&s("zen/string")), Keyword::Text);
    assert_eq!(keyword_of(&s("zen/keyword")), Keyword::Text);
    assert_eq!(keyword_of(&s("zen/number")), Keyword::Number);
    assert_eq!(keyword_of(&s("zen/datetime")), Keyword::DateTime);
    assert_eq!(keyword_of(&s("zen/boolean")), Keyword::Boolean);
    assert_eq!(keyword_of(&s("zen/integer")), Keyword::Integer);
    assert_eq!(keyword_of(&s("zen/date")), Keyword::Date);
    assert_eq!(keyword_of(&s("zen/any")), Keyword::Any);
    assert_eq!(keyword_of(&s("zen/symbol")), Keyword::Symbol);
    assert_eq!(keyword_of(&s("zen/set")), Keyword::Collection);
    assert_eq!(keyword_of(&s("zen/case")), Keyword::Unknown);
    assert_eq!(keyword_of(&Value::Null), Keyword::Unknown);
}

#[test]
fn cache_lookups_name_what_is_missing() {
    let c = cache();
    assert!(get_symbol(&c, "demo/patient").is_ok());
    assert_eq!(get_symbol(&c, "demo/none"), Err(Halt::NeedSymbol("demo/none".to_string())));
    assert_eq!(get_value_set(&c, "demo/status"), Ok(strings(&["planned", "finished"])));
    assert_eq!(get_value_set(&c, "demo/empty"), Ok(strings(&[])));
    assert_eq!(get_value_set(&c, "demo/none"), Err(Halt::NeedValueSet("demo/none".to_string())));
}

#[test]
fn cache_keeps_what_it_has() {
    let mut c = cache();
    c.put_definition("demo/patient".to_string(), typed("Other"));
    c.put_value_set("demo/status".to_string(), strings(&["x"]));
    c.put_primitive("code".to_string(), "string".to_string());
    c.put_primitive("code".to_string(), "number".to_string());
    assert_eq!(get_symbol(&c, "demo/patient"), Ok(&typed("Patient")));
    assert_eq!(get_value_set(&c, "demo/status"), Ok(strings(&["planned", "finished"])));
    assert_eq!(c.primitives.get("code"), Some(&"string".to_string()));
    assert_eq!(c.primitives.len(), 1);
}

#[test]
fn names_are_noted_when_they_are_asked_for() {
    let mut c = cache();
    assert_eq!(c.schema.len(), 9);
    assert_eq!(c.confirms.len(), 0);
    assert_eq!(confirm_name(&mut c, "demo/patient"), Ok(Some("Patient".to_string())));
    assert_eq!(c.confirms.get("demo/patient"), Some(&"Patient".to_string()));
    assert_eq!(c.confirms.len(), 1);
    assert_eq!(confirm_name(&mut c, "demo/poly"), Ok(None));
    assert_eq!(confirm_name(&mut c, "demo/nameless"), Err(Halt::Malformed(Flaw::Name)));
    assert_eq!(confirm_name(&mut c, "demo/none"), Err(Halt::NeedSymbol("demo/none".to_string())));
    assert_eq!(c.confirms.len(), 1);
    assert_eq!(
        get_confirms(&mut c, &strings(&["demo/resource", "demo/poly", "demo/code"]), "X"),
        Ok(strings(&["Resource<'X'>", "code"]))
    );
    assert_eq!(c.confirms.get("demo/resource"), Some(&"Resource".to_string()));
    assert_eq!(c.confirms.get("demo/code"), Some(&"code".to_string()));
    assert_eq!(c.confirms.get("demo/poly"), None);
    assert_eq!(c.confirms.len(), 3);
    let definition = obj(vec![
        ("confirms", names(&["demo/coding"])),
        ("zen.fhir/reference", obj(vec![("refers", names(&["demo/practitioner"]))])),
    ]);
    assert_eq!(init_confirms_value(&mut c, &definition), Ok(strings(&["Coding"])));
    assert_eq!(c.confirms.get("demo/coding"), Some(&"Coding".to_string()));
    assert_eq!(c.confirms.get("demo/practitioner"), None);
    assert_eq!(
        init_reference_confirms_value(&mut c, "X", &definition),
        Ok(strings(&["Practitioner"]))
    );
    assert_eq!(c.confirms.get("demo/practitioner"), Some(&"Practitioner".to_string()));
    assert_eq!(c.schema.len(), 9);
}

#[test]
fn the_names_that_a_resolution_asks_for_are_noted() {
    let mut c = cache();
    let definition = obj(vec![
        ("confirms", names(&["demo/patient", "demo/unknown"])),
        (
            "keys",
            obj(vec![
                ("name", obj(vec![("confirms", names(&["demo/human-name"]))])),
                (
                    "subject",
                    obj(vec![
                        ("type", s("zen/vector")),
                        (
                            "every",
                            obj(vec![(
                                "zen.fhir/reference",
                                obj(vec![("refers", names(&["demo/practitioner", "demo/poly"]))]),
                            )]),
                        ),
                    ]),
                ),
            ]),
        ),
    ]);
    assert_eq!(
        referenced_symbols(&definition),
        strings(&[
            "demo/patient",
            "demo/unknown",
            "demo/human-name",
            "demo/practitioner",
            "demo/poly",
        ])
    );
    c.put_definition("demo/profile".to_string(), definition);
    note_referenced(&mut c, "demo/none");
    assert_eq!(c.confirms.len(), 0);
    note_referenced(&mut c, "demo/profile");
    let noted: Vec<(&str, &str)> =
        c.confirms.entries.iter().map(|e| (e.0.as_str(), e.1.as_str())).collect();
    assert_eq!(
        noted,
        vec![
            ("demo/patient", "Patient"),
            ("demo/human-name", "HumanName"),
            ("demo/practitioner", "Practitioner"),
        ]
    );
    c.confirms.insert("demo/patient".to_string(), "Kept".to_string());
    note_referenced(&mut c, "demo/profile");
    assert_eq!(c.confirms.get("demo/patient"), Some(&"Kept".to_string()));
    assert_eq!(c.confirms.len(), 3);
}

#[test]
fn confirm_name_cases() {
    let mut c = cache();
    assert_eq!(confirm_name(&mut c, "demo/patient"), Ok(Some("Patient".to_string())));
    assert_eq!(confirm_name(&mut c, "demo/poly"), Ok(None));
    assert_eq!(confirm_name(&mut c, "demo/nameless"), Err(Halt::Malformed(Flaw::Name)));
    assert_eq!(confirm_name(&mut c, "demo/none"), Err(Halt::NeedSymbol("demo/none".to_string())));
    c.confirms.insert("demo/none".to_string(), "Noted".to_string());
    assert_eq!(confirm_name(&mut c, "demo/none"), Ok(Some("Noted".to_string())));
}

#[test]
fn confirms_are_named_once_and_in_order() {
    let mut c = cache();
    assert_eq!(
        get_confirms_value(
            &mut c,
            &strings(&["demo/patient", "demo/poly", "demo/human-name", "demo/patient"])
        ),
        Ok(strings(&["Patient", "HumanName"]))
    );
    assert_eq!(get_confirms_value(&mut c, &strings(&[])), Ok(strings(&[])));
    assert_eq!(
        get_confirms_value(&mut c, &strings(&["demo/patient", "demo/a", "demo/b"])),
        Err(Halt::NeedSymbol("demo/a".to_string()))
    );
    assert_eq!(
        get_confirms_value(&mut c, &strings(&["demo/nameless", "demo/a"])),
        Err(Halt::Malformed(Flaw::Name))
    );
}

#[test]
fn resource_marker_gets_its_parameter() {
    let mut c = cache();
    assert_eq!(
        get_confirms(&mut c, &strings(&["demo/resource", "demo/patient"]), "Encounter"),
        Ok(strings(&["Resource<'Encounter'>", "Patient"]))
    );
    let definition = obj(vec![("confirms", names(&["demo/resource"]))]);
    assert_eq!(init_confirms(&mut c, "Encounter", &definition), Ok(strings(&["Resource<'Encounter'>"])));
    assert_eq!(init_confirms_value(&mut c, &definition), Ok(strings(&["Resource"])));
}

#[test]
fn declared_confirms_shapes() {
    let mut c = cache();
    assert_eq!(init_confirms_value(&mut c, &obj(vec![])), Ok(strings(&[])));
    assert_eq!(
        init_confirms_value(&mut c, &obj(vec![("confirms", s("demo/patient"))])),
        Err(Halt::Malformed(Flaw::Confirms))
    );
    assert_eq!(
        init_confirms_value(
            &mut c,
            &obj(vec![("confirms", list(vec![Value::Null, s("demo/patient"), Value::Bool(true)]))])
        ),
        Ok(strings(&["Patient"]))
    );
}

#[test]
fn reference_targets_shapes() {
    let mut c = cache();
    let two = obj(vec![(
        "zen.fhir/reference",
        obj(vec![("refers", names(&["demo/patient", "demo/practitioner"]))]),
    )]);
    assert_eq!(
        init_reference_confirms_value(&mut c, "Demo", &two),
        Ok(strings(&["Patient", "Practitioner"]))
    );
    let none = obj(vec![("zen.fhir/reference", obj(vec![]))]);
    assert_eq!(init_reference_confirms_value(&mut c, "Demo", &none), Ok(strings(&[])));
    let bad = obj(vec![("zen.fhir/reference", s("demo/patient"))]);
    assert_eq!(
        init_reference_confirms_value(&mut c, "Demo", &bad),
        Err(Halt::Malformed(Flaw::Reference))
    );
    let worse = obj(vec![("zen.fhir/reference", obj(vec![("refers", s("demo/patient"))]))]);
    assert_eq!(
        init_reference_confirms_value(&mut c, "Demo", &worse),
        Err(Halt::Malformed(Flaw::Reference))
    );
}

#[test]
fn value_set_with_codes_gives_literals() {
    let f = field(&obj(vec![
        ("zen.fhir/value-set", value_set("demo/status")),
        ("type", s("zen/string")),
        ("zen/desc", s("Status")),
    ]));
    let mut expected = blank();
    expected.values = Some(strings(&["planned", "finished"]));
    expected.description = Some("Status".to_string());
    assert_eq!(f, expected);
}

#[test]
fn empty_value_set_without_inheritance_is_any() {
    let f = field(&obj(vec![("zen.fhir/value-set", value_set("demo/empty"))]));
    let mut expected = blank();
    expected.plain_type = Some("any".to_string());
    assert_eq!(f, expected);
    assert_eq!(f.values, None);
}

#[test]
fn empty_value_set_with_inheritance_gives_the_names() {
    let f = field(&obj(vec![
        ("zen.fhir/value-set", value_set("demo/empty")),
        ("confirms", names(&["demo/code"])),
    ]));
    let mut expected = blank();
    expected.values = Some(strings(&["code"]));
    assert_eq!(f, expected);
}

#[test]
fn value_set_shapes() {
    let c = cache();
    let missing = obj(vec![("zen.fhir/value-set", value_set("demo/unknown"))]);
    assert_eq!(
        read_field(&c, "Demo", "key", &missing, &strings(&[])),
        Err(Halt::NeedValueSet("demo/unknown".to_string()))
    );
    let bad = obj(vec![("zen.fhir/value-set", obj(vec![]))]);
    assert_eq!(
        read_field(&c, "Demo", "key", &bad, &strings(&[])),
        Err(Halt::Malformed(Flaw::ValueSet))
    );
}

#[test]
fn reference_with_targets() {
    let f = field(&obj(vec![(
        "zen.fhir/reference",
        obj(vec![("refers", names(&["demo/patient", "demo/practitioner"]))]),
    )]));
    let mut expected = blank();
    expected.is_reference = true;
    expected.values = Some(strings(&["Patient", "Practitioner"]));
    assert_eq!(f, expected);
}

#[test]
fn reference_without_targets_is_generic() {
    for reference in [obj(vec![("refers", names(&[]))]), obj(vec![])] {
        let f = field(&obj(vec![("zen.fhir/reference", reference)]));
        let mut expected = blank();
        expected.is_reference = true;
        expected.plain_type = Some("Reference".to_string());
        assert_eq!(f, expected);
    }
}

#[test]
fn inheritance_without_type_is_a_mixin() {
    let f = field(&obj(vec![("confirms", names(&["demo/human-name"]))]));
    let mut expected = blank();
    expected.extends = Some(strings(&["HumanName"]));
    assert_eq!(f, expected);
}

#[test]
fn neither_type_nor_inheritance_is_opaque() {
    let f = field(&obj(vec![("zen/desc", s("Anything"))]));
    let mut expected = blank();
    expected.description = Some("Anything".to_string());
    expected.sub_type = Some(catch_all(Some("Anything")));
    assert_eq!(f, expected);
}

#[test]
fn required_keys_are_marked() {
    let value = obj(vec![("type", s("zen/string"))]);
    let (f, _) = read_field(&cache(), "Demo", "key", &value, &strings(&["other", "key"])).unwrap();
    assert!(f.require);
    let (f, _) = read_field(&cache(), "Demo", "key", &value, &strings(&["other"])).unwrap();
    assert!(!f.require);
}

#[test]
fn scalar_keywords() {
    let table = [
        ("zen/number", "number", true, false),
        ("zen/datetime", "dateTime", true, false),
        ("zen/boolean", "boolean", false, false),
        ("zen/integer", "integer", true, false),
        ("zen/date", "date", true, false),
        ("zen/any", "any", true, false),
        ("zen/symbol", "string", true, false),
        ("zen/set", "string", true, true),
    ];
    for (keyword, plain, inherits, is_array) in table {
        let f = field(&obj(vec![("type", s(keyword)), ("confirms", names(&["demo/code"]))]));
        let mut expected = blank();
        expected.plain_type = Some(plain.to_string());
        expected.is_array = is_array;
        expected.extends = if inherits { Some(strings(&["code"])) } else { None };
        assert_eq!(f, expected, "{}", keyword);
    }
}

#[test]
fn scalar_without_inheritance_has_empty_list() {
    let f = field(&obj(vec![("type", s("zen/number"))]));
    assert_eq!(f.extends, Some(strings(&[])));
}

#[test]
fn string_with_enum_gives_literals() {
    for keyword in ["zen/string", "zen/keyword"] {
        let f = field(&obj(vec![
            ("type", s(keyword)),
            ("confirms", names(&["demo/code"])),
            ("enum", list(vec![obj(vec![("value", s("a"))]), obj(vec![("value", s("b"))])])),
        ]));
        let mut expected = blank();
        expected.values = Some(strings(&["a", "b"]));
        assert_eq!(f, expected);
    }
}

#[test]
fn string_without_enum_is_string() {
    for value in [
        obj(vec![("type", s("zen/string"))]),
        obj(vec![("type", s("zen/string")), ("enum", list(vec![]))]),
    ] {
        let mut expected = blank();
        expected.plain_type = Some("string".to_string());
        assert_eq!(field(&value), expected);
    }
}

#[test]
fn enum_shapes() {
    let c = cache();
    for bad in [s("a"), list(vec![s("a")]), list(vec![obj(vec![("value", Value::Bool(true))])])] {
        let value = obj(vec![("type", s("zen/string")), ("enum", bad)]);
        assert_eq!(
            read_field(&c, "Demo", "key", &value, &strings(&[])),
            Err(Halt::Malformed(Flaw::Enum))
        );
    }
}

#[test]
fn map_with_open_validation_has_the_catch_all() {
    let f = field(&obj(vec![
        ("type", s("zen/map")),
        ("validation-type", s("open")),
        ("keys", obj(vec![("a", obj(vec![("type", s("zen/string"))]))])),
        ("confirms", names(&["demo/patient"])),
    ]));
    let mut expected = blank();
    expected.extends = Some(strings(&["Patient"]));
    expected.sub_type = Some(catch_all(None));
    assert_eq!(f, expected);
}

#[test]
fn map_without_keys_has_the_catch_all() {
    let f = field(&obj(vec![("type", s("zen/map")), ("zen/desc", s("Extra"))]));
    let mut expected = blank();
    expected.extends = Some(strings(&[]));
    expected.description = Some("Extra".to_string());
    expected.sub_type = Some(catch_all(Some("Extra")));
    assert_eq!(f, expected);
}

#[test]
fn map_with_keys_recurses_with_its_own_required_keys() {
    let value = obj(vec![
        ("type", s("zen/map")),
        ("require", names(&["given"])),
        (
            "keys",
            obj(vec![
                ("given", obj(vec![("type", s("zen/string"))])),
                ("family-name", obj(vec![("type", s("zen/string"))])),
            ]),
        ),
    ]);
    let (f, found) = read_field(&cache(), "Demo", "key", &value, &strings(&["key"])).unwrap();
    assert_eq!(found, Vec::<Diagnostic>::new());
    let mut given = blank();
    given.plain_type = Some("string".to_string());
    given.require = true;
    let mut family = blank();
    family.plain_type = Some("string".to_string());
    let mut sub = TextMap::new();
    sub.insert("given".to_string(), given);
    sub.insert("'family-name'".to_string(), family);
    let mut expected = blank();
    expected.extends = Some(strings(&[]));
    expected.sub_type = Some(sub);
    assert_eq!(f, expected);
}

#[test]
fn unknown_type_is_reported_and_opaque() {
    for declared in [s("zen/case"), Value::Null] {
        let value = obj(vec![("type", declared), ("zen/desc", s("Odd"))]);
        let (f, found) =
            read_field(&cache(), "Demo", "odd", &value, &strings(&["odd"])).unwrap();
        let mut expected = blank();
        expected.require = true;
        expected.description = Some("Odd".to_string());
        expected.sub_type = Some(catch_all(Some("Odd")));
        assert_eq!(f, expected);
        assert_eq!(
            found,
            vec![Diagnostic {
                resource: "Demo".to_string(),
                key: "odd".to_string(),
                anomaly: Anomaly::UnknownType,
            }]
        );
    }
}

#[test]
fn vector_through_field_takes_required_from_the_map() {
    let value = obj(vec![
        ("type", s("zen/vector")),
        ("every", obj(vec![("type", s("zen/string"))])),
    ]);
    let (f, _) = read_field(&cache(), "Demo", "key", &value, &strings(&["key"])).unwrap();
    let mut expected = blank();
    expected.is_array = true;
    expected.require = true;
    expected.extends = Some(strings(&[]));
    expected.plain_type = Some("string".to_string());
    assert_eq!(f, expected);
}

#[test]
fn vector_without_every() {
    let value = obj(vec![("type", s("zen/vector")), ("zen/desc", s("List"))]);
    let (f, found) = read_vector(&cache(), "Demo", "key", &value).unwrap();
    assert_eq!(found, Vec::<Diagnostic>::new());
    let mut expected = blank();
    expected.is_array = true;
    expected.description = Some("List".to_string());
    assert_eq!(f, expected);
}

#[test]
fn vector_of_untyped_elements() {
    let f = vector(obj(vec![("confirms", names(&["demo/patient"]))]));
    let mut expected = blank();
    expected.is_array = true;
    expected.extends = Some(strings(&["Patient"]));
    assert_eq!(f, expected);
}

#[test]
fn vector_of_references() {
    let f = vector(obj(vec![(
        "zen.fhir/reference",
        obj(vec![("refers", names(&["demo/patient", "demo/practitioner"]))]),
    )]));
    let mut expected = blank();
    expected.is_array = true;
    expected.is_reference = true;
    expected.values = Some(strings(&["Patient", "Practitioner"]));
    assert_eq!(f, expected);
    let f = vector(obj(vec![("zen.fhir/reference", obj(vec![]))]));
    let mut expected = blank();
    expected.is_array = true;
    expected.is_reference = true;
    expected.plain_type = Some("Reference".to_string());
    assert_eq!(f, expected);
}

#[test]
fn vector_of_codes() {
    let f = vector(obj(vec![
        ("zen.fhir/value-set", value_set("demo/status")),
        ("confirms", names(&["demo/code"])),
    ]));
    let mut expected = blank();
    expected.is_array = true;
    expected.values = Some(strings(&["planned", "finished"]));
    assert_eq!(f, expected);
    let f = vector(obj(vec![
        ("zen.fhir/value-set", value_set("demo/empty")),
        ("confirms", names(&["demo/code"])),
    ]));
    let mut expected = blank();
    expected.is_array = true;
    expected.plain_type = Some("code".to_string());
    assert_eq!(f, expected);
}

#[test]
fn vector_of_codings_and_concepts() {
    for (symbol, name) in [("demo/coding", "Coding"), ("demo/concept", "CodeableConcept")] {
        let f = vector(obj(vec![
            ("zen.fhir/value-set", value_set("demo/status")),
            ("confirms", names(&[symbol])),
        ]));
        let mut expected = blank();
        expected.is_array = true;
        expected.plain_type = Some(name.to_string());
        expected.values = Some(strings(&["planned", "finished"]));
        assert_eq!(f, expected);
        let f = vector(obj(vec![
            ("zen.fhir/value-set", value_set("demo/empty")),
            ("confirms", names(&[symbol])),
        ]));
        let mut expected = blank();
        expected.is_array = true;
        expected.plain_type = Some(name.to_string());
        assert_eq!(f, expected);
    }
}

#[test]
fn vector_bound_to_value_set_without_inheritance_is_untyped() {
    let f = vector(obj(vec![("zen.fhir/value-set", value_set("demo/status"))]));
    let mut expected = blank();
    expected.is_array = true;
    assert_eq!(f, expected);
}

#[test]
fn vector_bound_to_value_set_with_other_inheritance_is_reported() {
    for confirms in [names(&["demo/patient"]), names(&["demo/poly"]), names(&[])] {
        let value = obj(vec![
            ("type", s("zen/vector")),
            ("zen/desc", s("Odd")),
            (
                "every",
                obj(vec![
                    ("zen.fhir/value-set", value_set("demo/status")),
                    ("confirms", confirms),
                ]),
            ),
        ]);
        let (f, found) = read_vector(&cache(), "Demo", "odd", &value).unwrap();
        let mut expected = blank();
        expected.is_array = true;
        expected.description = Some("Odd".to_string());
        expected.sub_type = Some(catch_all(Some("Odd")));
        assert_eq!(f, expected);
        assert_eq!(
            found,
            vec![Diagnostic {
                resource: "Demo".to_string(),
                key: "odd".to_string(),
                anomaly: Anomaly::ValueSetBinding,
            }]
        );
    }
}

#[test]
fn vector_of_maps() {
    let open = vector(obj(vec![
        ("type", s("zen/map")),
        ("validation-type", s("open")),
        ("keys", obj(vec![])),
    ]));
    let bare = vector(obj(vec![("type", s("zen/map"))]));
    let mut expected = blank();
    expected.is_array = true;
    expected.extends = Some(strings(&[]));
    expected.sub_type = Some(catch_all(None));
    assert_eq!(open, expected);
    assert_eq!(bare, expected);
    let keyed = vector(obj(vec![
        ("type", s("zen/map")),
        ("require", names(&["a"])),
        ("keys", obj(vec![("a", obj(vec![("type", s("zen/boolean"))]))])),
    ]));
    let mut a = blank();
    a.plain_type = Some("boolean".to_string());
    a.require = true;
    let mut sub = TextMap::new();
    sub.insert("a".to_string(), a);
    let mut expected = blank();
    expected.is_array = true;
    expected.extends = Some(strings(&[]));
    expected.sub_type = Some(sub);
    assert_eq!(keyed, expected);
}

#[test]
fn vector_of_strings_and_integers() {
    let f = vector(obj(vec![
        ("type", s("zen/string")),
        ("enum", list(vec![obj(vec![("value", s("a"))])])),
    ]));
    let mut expected = blank();
    expected.is_array = true;
    expected.extends = Some(strings(&[]));
    expected.values = Some(strings(&["a"]));
    assert_eq!(f, expected);
    let f = vector(obj(vec![("type", s("zen/keyword"))]));
    let mut expected = blank();
    expected.is_array = true;
    expected.extends = Some(strings(&[]));
    expected.plain_type = Some("string".to_string());
    assert_eq!(f, expected);
    let f = vector(obj(vec![("type", s("zen/integer"))]));
    let mut expected = blank();
    expected.is_array = true;
    expected.extends = Some(strings(&[]));
    expected.plain_type = Some("integer".to_string());
    assert_eq!(f, expected);
}

#[test]
fn vector_of_vectors() {
    let f = vector(obj(vec![
        ("type", s("zen/vector")),
        ("zen/desc", s("Inner")),
        ("every", obj(vec![("type", s("zen/integer"))])),
    ]));
    let mut expected = blank();
    expected.is_array = true;
    expected.description = Some("Inner".to_string());
    expected.extends = Some(strings(&[]));
    expected.plain_type = Some("integer".to_string());
    assert_eq!(f, expected);
}

#[test]
fn vector_of_unknown_elements_is_reported() {
    let value = obj(vec![
        ("type", s("zen/vector")),
        ("every", obj(vec![("type", s("zen/number"))])),
    ]);
    let (f, found) = read_vector(&cache(), "Demo", "numbers", &value).unwrap();
    let mut expected = blank();
    expected.is_array = true;
    expected.sub_type = Some(catch_all(None));
    assert_eq!(f, expected);
    assert_eq!(
        found,
        vec![Diagnostic {
            resource: "Demo".to_string(),
            key: "numbers".to_string(),
            anomaly: Anomaly::UnknownElementType,
        }]
    );
}

#[test]
fn read_map_resolves_keys_in_order() {
    let keys = obj(vec![
        ("name", obj(vec![("confirms", names(&["demo/human-name"]))])),
        ("type", obj(vec![("type", s("zen/string"))])),
        ("odd", obj(vec![("type", s("zen/case"))])),
        ("worse", obj(vec![("type", s("zen/vector")), ("every", obj(vec![("type", s("zen/any"))]))])),
    ]);
    let require = names(&["type"]);
    let (m, found) = read_map(&cache(), "Demo", &keys, Some(&require)).unwrap();
    let listed: Vec<&str> = m.entries.iter().map(|e| e.0.as_str()).collect();
    assert_eq!(listed, vec!["name", "'type'", "odd", "worse"]);
    assert!(m.get("'type'").unwrap().require);
    assert!(!m.get("name").unwrap().require);
    let reported: Vec<(&str, Anomaly)> =
        found.iter().map(|d| (d.key.as_str(), d.anomaly)).collect();
    assert_eq!(
        reported,
        vec![("odd", Anomaly::UnknownType), ("worse", Anomaly::UnknownElementType)]
    );
}

#[test]
fn read_map_stops_at_the_first_missing_symbol() {
    let keys = obj(vec![
        ("a", obj(vec![("type", s("zen/string"))])),
        ("b", obj(vec![("confirms", names(&["demo/b"]))])),
        ("c", obj(vec![("confirms", names(&["demo/c"]))])),
    ]);
    assert_eq!(
        read_map(&cache(), "Demo", &keys, None),
        Err(Halt::NeedSymbol("demo/b".to_string()))
    );
}

#[test]
fn read_map_shapes() {
    assert_eq!(read_map(&cache(), "Demo", &s("keys"), None), Err(Halt::Malformed(Flaw::Keys)));
    let (m, found) = read_map(&cache(), "Demo", &obj(vec![]), Some(&s("name"))).unwrap();
    assert!(m.is_empty());
    assert!(found.is_empty());
}

#[test]
fn a_field_goes_by_the_last_entry_that_is_written_like_it() {
    let keys = obj(vec![
        ("type", obj(vec![("type", s("zen/string"))])),
        ("plain", obj(vec![("type", s("zen/string"))])),
        ("'type'", obj(vec![("type", s("zen/boolean"))])),
    ]);
    let require = names(&["type", "plain"]);
    let (m, _) = read_map(&cache(), "Demo", &keys, Some(&require)).unwrap();
    let listed: Vec<&str> = m.entries.iter().map(|e| e.0.as_str()).collect();
    assert_eq!(listed, vec!["'type'", "plain"]);
    let last = m.get("'type'").unwrap();
    assert_eq!(last.plain_type, Some("boolean".to_string()));
    assert!(!last.require);
    assert!(m.get("plain").unwrap().require);
}
