use aidbox_generator::cache::Cache;
use aidbox_generator::map::TextMap;
use aidbox_generator::reader::read_field;
use aidbox_generator::schema::{Element, ElementSchema};
use aidbox_generator::typescript::{
    build_any, build_plain_type, build_values, finish_source, render_types,
    typescript_write_nested_type, write_rpc, write_typescript_types, WriterConfig,
};
use aidbox_generator::value::Value;

fn strings(items: &[&str]) -> Vec<String> {
    items.iter().map(|s| s.to_string()).collect()
}

fn config() -> WriterConfig {
    WriterConfig { fhir: false, output: "types.ts".to_string(), collapse_values: false, max_values: 10 }
}

fn collapsing(max_values: usize) -> WriterConfig {
    WriterConfig { fhir: false, output: "types.ts".to_string(), collapse_values: true, max_values }
}

fn field(is_array: bool, is_reference: bool) -> ElementSchema {
    let mut f = ElementSchema::blank();
    f.is_array = is_array;
    f.is_reference = is_reference;
    f
}

fn plain(name: &str) -> ElementSchema {
    let mut f = ElementSchema::blank();
    f.plain_type = Some(name.to_string());
    f
}

fn literals(items: &[&str]) -> ElementSchema {
    let mut f = ElementSchema::blank();
    f.values = Some(strings(items));
    f
}

fn fields(entries: Vec<(&str, ElementSchema)>) -> TextMap<ElementSchema> {
    let mut m = TextMap::new();
    for (k, v) in entries {
        m.insert(k.to_string(), v);
    }
    m
}

fn element() -> Element {
    Element {
        is_rpc: false,
        rpc_method: None,
        description: None,
        profile: false,
        extends: None,
        plain: None,
        schema: None,
        values: None,
    }
}

fn lines(map: &TextMap<ElementSchema>, config: &WriterConfig) -> Vec<String> {
    let mut out = Vec::new();
    typescript_write_nested_type(map, &mut out, config);
    out
}

#[test]
fn build_any_wrapping() {
    assert_eq!(build_any(&field(false, false)), "any");
    assert_eq!(build_any(&field(true, false)), "Array<any>");
    assert_eq!(build_any(&field(false, true)), "Reference");
    assert_eq!(build_any(&field(true, true)), "Array<Reference>");
}

#[test]
fn build_plain_type_wrapping() {
    let with = |name: &str, is_array: bool, is_reference: bool| {
        let mut f = field(is_array, is_reference);
        f.plain_type = Some(name.to_string());
        build_plain_type(&f)
    };
    assert_eq!(with("Patient", false, false), "Patient");
    assert_eq!(with("Patient", true, false), "Array<Patient>");
    assert_eq!(with("Patient", false, true), "Reference<'Patient'>");
    assert_eq!(with("Patient", true, true), "Array<Reference<'Patient'>>");
    assert_eq!(with("Reference", false, true), "Reference");
    assert_eq!(with("Reference", true, true), "Array<Reference>");
    assert_eq!(with("Reference", true, false), "Array<Reference>");
    assert_eq!(with("Reference", false, false), "Reference");
    assert_eq!(build_plain_type(&field(true, false)), "Array<any>");
}

#[test]
fn build_values_wrapping() {
    let with = |items: &[&str], is_array: bool, is_reference: bool, config: &WriterConfig| {
        let mut f = field(is_array, is_reference);
        f.values = Some(strings(items));
        build_values(&f, config)
    };
    assert_eq!(with(&["a", "b"], false, false, &config()), "\"a\"|\"b\"");
    assert_eq!(with(&["a", "b"], true, false, &config()), "Array<\"a\"|\"b\">");
    assert_eq!(with(&["a", "b"], false, true, &config()), "Reference<\"a\"|\"b\">");
    assert_eq!(with(&["a"], false, false, &config()), "\"a\"");
    assert_eq!(with(&[], false, false, &config()), "");
    assert_eq!(build_values(&field(false, true), &config()), "Reference");
}

#[test]
fn array_of_reference_with_two_targets() {
    let mut f = field(true, true);
    f.values = Some(strings(&["Patient", "Practitioner"]));
    assert_eq!(build_values(&f, &config()), "Array<Reference<\"Patient\"|\"Practitioner\">>");
    assert_eq!(build_values(&f, &collapsing(1)), "Array<Reference<\"Patient\"|\"Practitioner\">>");
}

#[test]
fn array_of_reference_from_definition_to_source() {
    let s = |t: &str| Value::Str(t.to_string());
    let obj = |members: Vec<(&str, Value)>| {
        let mut m = TextMap::new();
        for (k, v) in members {
            m.insert(k.to_string(), v);
        }
        Value::Object(m)
    };
    let mut cache = Cache::new();
    cache.put_definition("demo/patient".to_string(), obj(vec![("zen.fhir/type", s("Patient"))]));
    cache.put_definition(
        "demo/practitioner".to_string(),
        obj(vec![("zen.fhir/type", s("Practitioner"))]),
    );
    let definition = obj(vec![
        ("type", s("zen/vector")),
        (
            "every",
            obj(vec![(
                "zen.fhir/reference",
                obj(vec![(
                    "refers",
                    Value::List(vec![s("demo/patient"), s("demo/practitioner")]),
                )]),
            )]),
        ),
    ]);
    let (f, _) = read_field(&cache, "Encounter", "subject", &definition, &strings(&[])).unwrap();
    let written = lines(&fields(vec![("subject", f)]), &config());
    assert_eq!(written, strings(&["subject?: Array<Reference<\"Patient\"|\"Practitioner\">>;"]));
}

#[test]
fn large_unions_collapse_only_above_the_threshold() {
    let with = |items: &[&str], is_array: bool, config: &WriterConfig| {
        let mut f = field(is_array, false);
        f.values = Some(strings(items));
        build_values(&f, config)
    };
    assert_eq!(with(&["a", "b", "c"], false, &collapsing(2)), "string");
    assert_eq!(with(&["a", "b", "c"], true, &collapsing(2)), "Array<string>");
    assert_eq!(with(&["a", "b"], false, &collapsing(2)), "\"a\"|\"b\"");
    assert_eq!(with(&["a", "b"], true, &collapsing(2)), "Array<\"a\"|\"b\">");
    let mut not_collapsing = collapsing(2);
    not_collapsing.collapse_values = false;
    assert_eq!(with(&["a", "b", "c"], false, &not_collapsing), "\"a\"|\"b\"|\"c\"");
}

#[test]
fn nested_fields() {
    let mut name = ElementSchema::blank();
    name.extends = Some(strings(&["HumanName", "Element"]));
    let mut empty_mixin = ElementSchema::blank();
    empty_mixin.extends = Some(strings(&[]));
    let mut birth = plain("date");
    birth.require = true;
    birth.extends = Some(strings(&[]));
    let mut mixed = plain("string");
    mixed.extends = Some(strings(&["b", "A", "a", "B"]));
    let mut contact = ElementSchema::blank();
    contact.is_array = true;
    contact.description = Some("Contacts".to_string());
    contact.sub_type = Some(fields(vec![("phone", plain("string"))]));
    let mut address = ElementSchema::blank();
    address.require = true;
    address.sub_type = Some(fields(vec![]));
    let mut organization = literals(&["Organization"]);
    organization.is_reference = true;
    let mut described = ElementSchema::blank();
    described.description = Some("Anything".to_string());
    let map = fields(vec![
        ("name", name),
        ("empty", empty_mixin),
        ("'birth-date'", birth),
        ("mixed", mixed),
        ("status", literals(&["a", "b"])),
        ("contact", contact),
        ("address", address),
        ("__", described),
        ("managingOrganization", organization),
        ("anything", ElementSchema::blank()),
    ]);
    assert_eq!(
        lines(&map, &config()),
        strings(&[
            "name?: HumanName & Element;",
            "empty?: any;",
            "'birth-date':  date;",
            "mixed?: A & a & b & B & {  string;",
            "status?: \"a\"|\"b\";",
            "/* Contacts */",
            "contact?: {",
            "phone?:  string;",
            "}[];",
            "address: {",
            "};",
            "/* Anything */",
            "[key: string]: any;",
            "managingOrganization?: Reference<\"Organization\">;",
            "anything?: any;",
        ])
    );
}

#[test]
fn nested_fields_are_added_to_what_is_there() {
    let mut out = strings(&["before"]);
    typescript_write_nested_type(&fields(vec![("a", plain("string"))]), &mut out, &config());
    assert_eq!(out, strings(&["before", "a?:  string;"]));
    typescript_write_nested_type(&fields(vec![]), &mut out, &config());
    assert_eq!(out, strings(&["before", "a?:  string;"]));
}

#[test]
fn rpc_record() {
    let mut call = element();
    call.is_rpc = true;
    call.rpc_method = Some("demo/run".to_string());
    let mut out = Vec::new();
    write_rpc("RPCDemoRun".to_string(), &call, &mut out, &config());
    assert_eq!(out, strings(&["export type RPCDemoRun = {", "method: \"demo/run\";", "}\n"]));
    let mut id = plain("string");
    id.require = true;
    call.schema = Some(fields(vec![("id", id)]));
    let mut out = Vec::new();
    write_rpc("RPCDemoRun".to_string(), &call, &mut out, &config());
    assert_eq!(
        out,
        strings(&[
            "export type RPCDemoRun = {",
            "method: \"demo/run\";",
            "params: {",
            "id:  string;",
            "}",
            "}\n",
        ])
    );
}

fn table() -> TextMap<Element> {
    let mut patient = element();
    patient.description = Some("A patient".to_string());
    patient.extends = Some(strings(&["Resource<'Patient'>", "DomainResource"]));
    let mut name = ElementSchema::blank();
    name.extends = Some(strings(&["HumanName"]));
    patient.schema = Some(fields(vec![("name", name), ("status", literals(&["a", "b"]))]));
    let mut builtin = element();
    builtin.plain = Some("string".to_string());
    let mut code = element();
    code.plain = Some("string".to_string());
    let coding = element();
    let mut status = element();
    status.values = Some(strings(&["x", "y"]));
    let mut alias = element();
    alias.extends = Some(strings(&["B", "A"]));
    let mut nothing = element();
    nothing.extends = Some(strings(&[]));
    let mut bare = element();
    bare.schema = Some(fields(vec![]));
    bare.extends = Some(strings(&["ResourceList"]));
    let mut call = element();
    call.is_rpc = true;
    call.rpc_method = Some("demo/run".to_string());
    let mut t = TextMap::new();
    t.insert("Patient".to_string(), patient);
    t.insert("string".to_string(), builtin.clone());
    t.insert("boolean".to_string(), builtin);
    t.insert("code".to_string(), code);
    t.insert("Coding".to_string(), coding);
    t.insert("Status".to_string(), status);
    t.insert("Alias".to_string(), alias);
    t.insert("Nothing".to_string(), nothing);
    t.insert("CodeableConcept".to_string(), bare);
    t.insert("RPCDemoRun".to_string(), call);
    t
}

fn expected_source(reference: &str) -> String {
    [
        reference,
        "/* A patient */",
        "export interface Patient extends DomainResource , Resource<'Patient'> { ",
        "name?: HumanName;",
        "status?: \"a\"|\"b\";",
        "};\n",
        "export type code = string;",
        "export type Coding<T = code> = any;",
        "export type Status = \"x\" | \"y\";",
        "export type Alias = B & A;",
        "export type Nothing = any;",
        "export interface CodeableConcept<T = code> extends ResourceList { ",
        "};\n",
        "export type RPCDemoRun = {",
        "method: \"demo/run\";",
        "}\n",
        "export type EntityList = {",
        "Patient:Patient",
        "CodeableConcept<T = code>:CodeableConcept<T = code>",
        "};\n",
        "export type EntityType = keyof EntityList;",
        "export type Entity<T extends EntityType | void = void> = T extends EntityType ? EntityList[T] : EntityList;",
    ]
    .join("\n")
}

#[test]
fn source_of_a_table() {
    let reference = "export type Reference<T = string> = {\n  id: string;\n  resourceType: T;\n  display?: string;\n identifier: Identifier[];\n};\n";
    assert_eq!(render_types(&table(), &config()), expected_source(reference));
}

#[test]
fn source_of_a_table_the_fhir_way() {
    let reference = "export type Reference<T extends string> = {\n  reference: `${T}/${string}`;\n  display?: string;\n identifier: Identifier[];\n};\n";
    let mut config = config();
    config.fhir = true;
    assert_eq!(render_types(&table(), &config), expected_source(reference));
}

#[test]
fn source_of_an_empty_table() {
    let source = render_types(&TextMap::new(), &config());
    assert!(source.ends_with(
        "};\n\nexport type EntityList = {\n};\n\nexport type EntityType = keyof EntityList;\nexport type Entity<T extends EntityType | void = void> = T extends EntityType ? EntityList[T] : EntityList;"
    ));
}

#[test]
fn finish_source_prefers_the_formatted() {
    assert_eq!(finish_source("raw".to_string(), Some("formatted".to_string())), "formatted");
    assert_eq!(finish_source("raw".to_string(), None), "raw");
}

#[test]
fn source_is_formatted_where_the_formatter_can_read_it() {
    let mut patient = element();
    patient.extends = Some(strings(&["Resource<'Patient'>"]));
    patient.schema = Some(fields(vec![("status", literals(&["a", "b"]))]));
    let mut t = TextMap::new();
    t.insert("Patient".to_string(), patient);
    let raw = render_types(&t, &config());
    let written = write_typescript_types(&t, &config());
    assert_ne!(written, raw);
    assert!(written.contains("export interface Patient extends Resource<'Patient'> {"));
    assert!(written.contains("  status?: 'a' | 'b';"));
    assert!(!written.contains("\n identifier"));
}

#[test]
fn source_stays_as_it_is_where_the_formatter_cannot_read_it() {
    let mut t = TextMap::new();
    t.insert("not a name".to_string(), element());
    let raw = render_types(&t, &config());
    assert!(raw.contains("export type not a name = any;"));
    assert_eq!(write_typescript_types(&t, &config()), raw);
}

#[test]
fn a_description_cannot_end_its_comment() {
    let mut f = ElementSchema::blank();
    f.description = Some("ends */ here, and **/ there, and * / stays".to_string());
    assert_eq!(
        lines(&fields(vec![("a", f)]), &config()),
        strings(&["/* ends * / here, and ** / there, and * / stays */", "a?: any;"])
    );
    let mut t = TextMap::new();
    let mut described = element();
    described.description = Some("*/ with (a) { b } /*".to_string());
    t.insert("Described".to_string(), described);
    let raw = render_types(&t, &config());
    assert!(raw.contains("/* * / with (a) { b } /* */\nexport type Described = any;"));
    let written = write_typescript_types(&t, &config());
    assert!(written.contains("export type Described = any;"));
    assert!(!written.contains("with (a) {\n"));
}

#[test]
fn a_table_that_is_not_plain_is_written_unformatted() {
    for name in ["X = 1; with (a) { b } //", "A\nB", "A/*", "A`"] {
        let mut t = TextMap::new();
        t.insert(name.to_string(), element());
        assert_eq!(write_typescript_types(&t, &config()), render_types(&t, &config()));
    }
    let mut t = TextMap::new();
    let mut e = element();
    e.values = Some(strings(&["a\"; with (a) { b } //"]));
    t.insert("Status".to_string(), e);
    assert_eq!(write_typescript_types(&t, &config()), render_types(&t, &config()));
    let mut js = config();
    js.output = "types.js".to_string();
    let mut t = TextMap::new();
    t.insert("A".to_string(), element());
    let written = write_typescript_types(&t, &js);
    assert!(written.contains("A"));
}
