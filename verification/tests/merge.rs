use aidbox_generator::common::{
    deep_merge_element_schema, merge_element_schema, merge_elements, union_texts,
};
use aidbox_generator::map::TextMap;
use aidbox_generator::schema::{Element, ElementSchema};

fn strings(items: &[&str]) -> Vec<String> {
    items.iter().map(|s| s.to_string()).collect()
}

fn plain(name: &str) -> ElementSchema {
    let mut f = ElementSchema::blank();
    f.plain_type = Some(name.to_string());
    f
}

fn literals(items: &[&str]) -> ElementSchema {
    let mut f = ElementSchema::blank();
    f.values = Some(strings(items));
    f
}

fn fields(entries: Vec<(&str, ElementSchema)>) -> TextMap<ElementSchema> {
    let mut m = TextMap::new();
    for (k, v) in entries {
        m.insert(k.to_string(), v);
    }
    m
}

fn nested(entries: Vec<(&str, ElementSchema)>) -> ElementSchema {
    let mut f = ElementSchema::blank();
    f.sub_type = Some(fields(entries));
    f
}

fn element() -> Element {
    Element {
        is_rpc: false,
        rpc_method: None,
        description: None,
        profile: false,
        extends: None,
        plain: None,
        schema: None,
        values: None,
    }
}

#[test]
fn union_keeps_first_occurrences_in_order() {
    assert_eq!(union_texts(&strings(&["a", "b"]), &strings(&["b", "c"])), strings(&["a", "b", "c"]));
    assert_eq!(union_texts(&strings(&["a", "a"]), &strings(&[])), strings(&["a"]));
    assert_eq!(union_texts(&strings(&[]), &strings(&[])), strings(&[]));
    assert_eq!(union_texts(&strings(&["b", "a"]), &strings(&["a", "b", "a"])), strings(&["b", "a"]));
}

#[test]
fn union_is_commutative_up_to_order() {
    let ab = union_texts(&strings(&["a", "b"]), &strings(&["b", "c"]));
    let mut ba = union_texts(&strings(&["b", "c"]), &strings(&["a", "b"]));
    assert_eq!(ba, strings(&["b", "c", "a"]));
    let mut sorted = ab.clone();
    sorted.sort();
    ba.sort();
    assert_eq!(sorted, ba);
}

#[test]
fn merge_with_itself_is_idempotent() {
    let m = fields(vec![
        ("status", literals(&["planned", "planned", "finished"])),
        ("name", plain("string")),
        ("contact", nested(vec![("phone", plain("string"))])),
    ]);
    let merged = deep_merge_element_schema(m.clone(), m.clone());
    assert_eq!(merged, m);
}

#[test]
fn merge_of_equal_fields_keeps_the_field() {
    let f = literals(&["a", "a"]);
    assert_eq!(merge_element_schema(&f, &f), f);
}

#[test]
fn merge_unites_literal_values() {
    let left = fields(vec![("status", literals(&["planned", "finished"]))]);
    let right = fields(vec![("status", literals(&["planned", "cancelled"]))]);
    let merged = deep_merge_element_schema(left, right);
    assert_eq!(merged, fields(vec![("status", literals(&["planned", "finished", "cancelled"]))]));
}

#[test]
fn merge_lets_the_new_scalar_attributes_win() {
    let mut old = plain("string");
    old.description = Some("old".to_string());
    old.require = false;
    old.extends = Some(strings(&["A"]));
    let mut new = plain("code");
    new.description = Some("new".to_string());
    new.require = true;
    new.is_array = true;
    new.is_reference = true;
    new.extends = Some(strings(&["B"]));
    let merged = merge_element_schema(&old, &new);
    assert_eq!(merged, new);
}

#[test]
fn merge_keeps_values_that_only_one_side_has() {
    let old = literals(&["a", "a"]);
    let new = plain("string");
    let merged = merge_element_schema(&old, &new);
    assert_eq!(merged.values, Some(strings(&["a"])));
    assert_eq!(merged.plain_type, Some("string".to_string()));
    let merged = merge_element_schema(&new, &old);
    assert_eq!(merged.values, Some(strings(&["a"])));
    assert_eq!(merged.plain_type, None);
}

#[test]
fn merge_carries_keys_of_one_side_over() {
    let left = fields(vec![("a", plain("string")), ("b", plain("number"))]);
    let right = fields(vec![("c", plain("boolean")), ("a", plain("code"))]);
    let merged = deep_merge_element_schema(left, right);
    assert_eq!(
        merged,
        fields(vec![("a", plain("code")), ("b", plain("number")), ("c", plain("boolean"))])
    );
}

#[test]
fn merge_with_empty_map() {
    let m = fields(vec![("a", plain("string"))]);
    assert_eq!(deep_merge_element_schema(TextMap::new(), m.clone()), m);
    assert_eq!(deep_merge_element_schema(m.clone(), TextMap::new()), m);
}

#[test]
fn merge_descends_into_nested_maps() {
    let mut old = nested(vec![("x", literals(&["1"])), ("y", plain("string"))]);
    old.description = Some("old".to_string());
    let mut new = nested(vec![("x", literals(&["2"])), ("z", plain("number"))]);
    new.description = Some("new".to_string());
    let merged = merge_element_schema(&old, &new);
    let mut expected = nested(vec![
        ("x", literals(&["1", "2"])),
        ("y", plain("string")),
        ("z", plain("number")),
    ]);
    expected.description = Some("new".to_string());
    assert_eq!(merged, expected);
}

#[test]
fn merge_keeps_a_nested_map_that_only_one_side_has() {
    let old = nested(vec![("x", plain("string"))]);
    let new = plain("string");
    let merged = merge_element_schema(&new, &old);
    assert_eq!(merged.sub_type, Some(fields(vec![("x", plain("string"))])));
    assert_eq!(merged.plain_type, None);
    let mut described = nested(vec![("x", plain("string"))]);
    described.description = Some("more".to_string());
    let bare = ElementSchema::blank();
    assert_eq!(merge_element_schema(&described, &bare).sub_type, described.sub_type);
    assert_eq!(merge_element_schema(&bare, &described).sub_type, described.sub_type);
}

#[test]
fn merge_never_gives_scalar_type_and_nested_fields() {
    let old = nested(vec![("x", plain("string"))]);
    let new = plain("string");
    let merged = merge_element_schema(&old, &new);
    assert_eq!(merged.plain_type, Some("string".to_string()));
    assert_eq!(merged.sub_type, None);
    let left = fields(vec![("a", nested(vec![("x", plain("string"))]))]);
    let right = fields(vec![("a", plain("code"))]);
    assert_eq!(deep_merge_element_schema(left, right), fields(vec![("a", plain("code"))]));
}

#[test]
fn merge_elements_follows_the_table_rules() {
    let mut old = element();
    old.description = Some("base".to_string());
    old.extends = Some(strings(&["DomainResource", "A"]));
    old.values = Some(strings(&["v"]));
    old.plain = Some("string".to_string());
    old.schema = Some(fields(vec![("status", literals(&["planned", "finished"]))]));
    let mut new = element();
    new.is_rpc = true;
    new.rpc_method = Some("m".to_string());
    new.description = Some("profile".to_string());
    new.profile = true;
    new.extends = Some(strings(&["A", "B"]));
    new.values = Some(strings(&["w"]));
    new.plain = Some("number".to_string());
    new.schema = Some(fields(vec![("status", literals(&["planned", "cancelled"]))]));
    let merged = merge_elements(&old, &new);
    assert!(merged.is_rpc);
    assert_eq!(merged.rpc_method, Some("m".to_string()));
    assert_eq!(merged.description, Some("profile".to_string()));
    assert!(merged.profile);
    assert_eq!(merged.extends, Some(strings(&["DomainResource", "A", "B"])));
    assert_eq!(merged.values, Some(strings(&["v"])));
    assert_eq!(merged.plain, Some("string".to_string()));
    assert_eq!(
        merged.schema,
        Some(fields(vec![("status", literals(&["planned", "finished", "cancelled"]))]))
    );
}

#[test]
fn merge_elements_with_missing_parts() {
    let mut old = element();
    old.schema = Some(fields(vec![("a", plain("string"))]));
    let mut new = element();
    new.extends = Some(strings(&["X"]));
    let merged = merge_elements(&old, &new);
    assert_eq!(merged.extends, Some(strings(&["X"])));
    assert_eq!(merged.schema, Some(fields(vec![("a", plain("string"))])));
    let merged = merge_elements(&new, &old);
    assert_eq!(merged.extends, Some(strings(&["X"])));
    assert_eq!(merged.schema, Some(fields(vec![("a", plain("string"))])));
}

#[test]
fn merged_inheritance_has_no_name_twice() {
    let mut old = element();
    old.extends = Some(strings(&["A", "B", "A"]));
    let new = element();
    assert_eq!(merge_elements(&old, &new).extends, Some(strings(&["A", "B"])));
    assert_eq!(merge_elements(&new, &old).extends, Some(strings(&["A", "B"])));
    assert_eq!(merge_elements(&new, &new).extends, None);
}
