use aidbox_generator::helpers::{
    convert_primitive, get_description, get_name, is_persistent_any, is_type_and_not_map,
    key_required, normalize_confirms, wrap_key, zen_path_to_name,
};
use aidbox_generator::map::TextMap;
use aidbox_generator::value::Value;

fn s(text: &str) -> Value {
    Value::Str(text.to_string())
}

fn obj(members: Vec<(&str, Value)>) -> Value {
    let mut m = TextMap::new();
    for (k, v) in members {
        m.insert(k.to_string(), v);
    }
    Value::Object(m)
}

fn strings(items: &[&str]) -> Vec<String> {
    items.iter().map(|s| s.to_string()).collect()
}

#[test]
fn mod_test_capitalize() {
    let m = obj(vec![]);
    assert_eq!(get_description(&m), None);
}

#[test]
fn description_is_read_where_it_is_text() {
    assert_eq!(
        get_description(&obj(vec![("zen/desc", s("A patient"))])),
        Some("A patient".to_string())
    );
    assert_eq!(get_description(&obj(vec![("zen/desc", Value::Bool(true))])), None);
    assert_eq!(get_description(&obj(vec![("desc", s("x"))])), None);
    assert_eq!(get_description(&s("zen/desc")), None);
}

#[test]
fn wrap_key_quotes_what_needs_quotes() {
    assert_eq!(wrap_key("name"), "name");
    assert_eq!(wrap_key("birth-date"), "'birth-date'");
    assert_eq!(wrap_key("type"), "'type'");
    assert_eq!(wrap_key("types"), "types");
    assert_eq!(wrap_key("active?"), "'active?'");
    assert_eq!(wrap_key(""), "");
}

#[test]
fn convert_primitive_table() {
    assert_eq!(convert_primitive("zen/string"), "string");
    assert_eq!(convert_primitive("zen/boolean"), "boolean");
    assert_eq!(convert_primitive("zen/date"), "string");
    assert_eq!(convert_primitive("zen/datetime"), "string");
    assert_eq!(convert_primitive("zen/number"), "number");
    assert_eq!(convert_primitive("zen/integer"), "number");
    assert_eq!(convert_primitive("zen/map"), "any");
    assert_eq!(convert_primitive(""), "any");
}

#[test]
fn normalize_confirms_elides_self_reference() {
    assert_eq!(normalize_confirms(&strings(&["Patient"]), "Patient"), None);
    assert_eq!(normalize_confirms(&strings(&[]), "Patient"), None);
    assert_eq!(normalize_confirms(&strings(&["Patient", "Patient"]), "Patient"), None);
}

#[test]
fn normalize_confirms_keeps_the_others_in_order() {
    assert_eq!(
        normalize_confirms(&strings(&["DomainResource"]), "Patient"),
        Some(strings(&["DomainResource"]))
    );
    assert_eq!(
        normalize_confirms(&strings(&["B", "Patient", "A"]), "Patient"),
        Some(strings(&["B", "A"]))
    );
}

#[test]
fn key_required_marks_optional_keys() {
    assert_eq!(key_required("name".to_string(), true), "name");
    assert_eq!(key_required("name".to_string(), false), "name?");
    assert_eq!(key_required("[key: string]".to_string(), false), "[key: string]");
    assert_eq!(key_required("[key: string]".to_string(), true), "[key: string]");
}

#[test]
fn persistent_any_by_open_validation_or_any_values() {
    assert!(is_persistent_any(&obj(vec![("validation-type", s("open"))])));
    assert!(!is_persistent_any(&obj(vec![("validation-type", s("closed"))])));
    assert!(is_persistent_any(&obj(vec![("values", obj(vec![("type", s("zen/any"))]))])));
    assert!(!is_persistent_any(&obj(vec![("values", obj(vec![("type", s("zen/string"))]))])));
    assert!(!is_persistent_any(&obj(vec![("values", obj(vec![]))])));
    assert!(!is_persistent_any(&obj(vec![])));
}

#[test]
fn type_and_not_map() {
    assert!(is_type_and_not_map(&obj(vec![("type", s("zen/string"))])));
    assert!(!is_type_and_not_map(&obj(vec![("type", s("zen/map"))])));
    assert!(!is_type_and_not_map(&obj(vec![])));
}

#[test]
fn zen_path_to_name_cases() {
    assert_eq!(zen_path_to_name(&s("demo/patient-profile")), Some("PatientProfile".to_string()));
    assert_eq!(zen_path_to_name(&s("demo/Patient")), Some("Patient".to_string()));
    assert_eq!(
        zen_path_to_name(&s("hl7-fhir-r4-core.Patient/schema")),
        Some("Patient".to_string())
    );
    assert_eq!(
        zen_path_to_name(&s("hl7-fhir-r4-core.human-name/schema")),
        Some("HumanName".to_string())
    );
    assert_eq!(zen_path_to_name(&s("/schema")), Some("unknown-name".to_string()));
    assert_eq!(zen_path_to_name(&s("no-slash")), None);
    assert_eq!(zen_path_to_name(&Value::Null), None);
}

#[test]
fn get_name_prefers_declared_type() {
    let all = obj(vec![
        ("zen/name", s("demo/patient")),
        ("resourceType", s("Resource")),
        ("zen.fhir/type", s("Patient")),
    ]);
    assert_eq!(get_name(&all), Some("Patient".to_string()));
    let two = obj(vec![("zen/name", s("demo/patient")), ("resourceType", s("Resource"))]);
    assert_eq!(get_name(&two), Some("Resource".to_string()));
    let one = obj(vec![("zen/name", s("demo/patient"))]);
    assert_eq!(get_name(&one), Some("Patient".to_string()));
    assert_eq!(get_name(&obj(vec![])), None);
    assert_eq!(get_name(&obj(vec![("zen.fhir/type", Value::Null)])), None);
}
