use aidbox_generator::catalog::{
    builtin_excluded_symbols, builtin_namespace_patterns, catalog_symbols, filter_namespaces,
    keep_unmarked, kept_catalog, namespace_symbols, Listing,
};
use aidbox_generator::config::ExcludeConfig;

fn strings(items: &[&str]) -> Vec<String> {
    items.iter().map(|s| s.to_string()).collect()
}

fn all_namespaces() -> Vec<String> {
    strings(&[
        "zenbox",
        "zenbox.api",
        "my.zenbox",
        "lisp",
        "aidbox.metrics",
        "aidboxXmetrics.more",
        "aidbox.ftr.x",
        "hl7.fhir",
        "hl7-fhir-r4-core.Patient",
        "zen",
        "zen.fhir",
        "zenith",
        "a.value-set.b",
        "a.value-set",
        "a.search.b",
        "aidbox.sdc",
        "aidbox.notebooks",
        "aidbox.mock",
        "aidbox.product",
        "aidbox.pg",
        "aidbox",
        "aidbox.rest",
        "demo",
    ])
}

#[test]
fn builtin_lists() {
    assert_eq!(builtin_namespace_patterns().len(), 14);
    assert_eq!(builtin_excluded_symbols().len(), 16);
    assert_eq!(builtin_namespace_patterns()[7], r"\.value-set\.");
}

#[test]
fn namespaces_that_match_a_pattern_are_left_out() {
    let kept = filter_namespaces(&all_namespaces(), &ExcludeConfig::none()).unwrap();
    assert_eq!(
        kept,
        strings(&[
            "my.zenbox",
            "hl7-fhir-r4-core.Patient",
            "zenith",
            "a.value-set",
            "aidbox",
            "aidbox.rest",
            "demo",
        ])
    );
}

#[test]
fn namespaces_that_a_user_pattern_matches_are_left_out() {
    let exclude =
        ExcludeConfig { ns: Some(strings(&["^demo$", "^aidbox$"])), symbols: None, tags: None };
    let kept = filter_namespaces(&all_namespaces(), &exclude).unwrap();
    assert_eq!(
        kept,
        strings(&["my.zenbox", "hl7-fhir-r4-core.Patient", "zenith", "a.value-set", "aidbox.rest"])
    );
    let exclude = ExcludeConfig { ns: Some(strings(&["aidbox"])), symbols: None, tags: None };
    let kept = filter_namespaces(&all_namespaces(), &exclude).unwrap();
    assert_eq!(
        kept,
        strings(&["my.zenbox", "hl7-fhir-r4-core.Patient", "zenith", "a.value-set", "demo"])
    );
}

#[test]
fn user_entries_are_patterns_not_names() {
    let namespaces = strings(&["a+b", "aab", "demo.x", "demoXx"]);
    let exclude = ExcludeConfig { ns: Some(strings(&["a+b"])), symbols: None, tags: None };
    assert_eq!(filter_namespaces(&namespaces, &exclude), Ok(strings(&["a+b", "demo.x", "demoXx"])));
    let exclude = ExcludeConfig { ns: Some(strings(&["demo.x"])), symbols: None, tags: None };
    assert_eq!(filter_namespaces(&namespaces, &exclude), Ok(strings(&["a+b", "aab"])));
    let exclude = ExcludeConfig { ns: Some(strings(&[r"demo\.x"])), symbols: None, tags: None };
    assert_eq!(filter_namespaces(&namespaces, &exclude), Ok(strings(&["a+b", "aab", "demoXx"])));
}

#[test]
fn a_user_entry_that_is_no_pattern_names_a_namespace() {
    let namespaces = strings(&["demo", "a(b", "xa(bx", "other"]);
    let exclude =
        ExcludeConfig { ns: Some(strings(&["a(b", "^other$", "("])), symbols: None, tags: None };
    assert_eq!(filter_namespaces(&namespaces, &exclude), Ok(strings(&["demo", "xa(bx"])));
    let exclude = ExcludeConfig { ns: Some(strings(&["("])), symbols: None, tags: None };
    assert_eq!(filter_namespaces(&namespaces, &exclude), Ok(namespaces.clone()));
    assert_eq!(filter_namespaces(&strings(&[]), &exclude), Ok(strings(&[])));
}

#[test]
fn exclusions_that_match_nothing_change_nothing() {
    let exclude = ExcludeConfig {
        ns: Some(strings(&["no.such.namespace", "^demo.more$"])),
        symbols: Some(strings(&["no/such-symbol"])),
        tags: Some(strings(&["no/such-tag"])),
    };
    let with = filter_namespaces(&all_namespaces(), &exclude).unwrap();
    let without = filter_namespaces(&all_namespaces(), &ExcludeConfig::none()).unwrap();
    assert_eq!(with, without);
    assert!(with.len() <= all_namespaces().len());
    assert_eq!(
        namespace_symbols("demo", &strings(&["a", "b"]), &exclude),
        namespace_symbols("demo", &strings(&["a", "b"]), &ExcludeConfig::none())
    );
    assert_eq!(filter_namespaces(&strings(&[]), &exclude), Ok(strings(&[])));
    let empty = ExcludeConfig { ns: Some(strings(&[])), symbols: Some(strings(&[])), tags: None };
    assert_eq!(filter_namespaces(&all_namespaces(), &empty).unwrap(), without);
}

#[test]
fn keep_unmarked_keeps_what_is_not_marked() {
    assert_eq!(
        keep_unmarked(&strings(&["a", "b", "c"]), &vec![false, true, false]),
        strings(&["a", "c"])
    );
    assert_eq!(keep_unmarked(&strings(&["a"]), &vec![true]), strings(&[]));
    assert_eq!(keep_unmarked(&strings(&[]), &vec![]), strings(&[]));
}

#[test]
fn symbols_are_qualified_and_filtered() {
    let names = strings(&["Configuration", "Client", "config", "system", "op"]);
    assert_eq!(
        namespace_symbols("aidbox", &names, &ExcludeConfig::none()),
        strings(&["aidbox/Client", "aidbox/op"])
    );
    assert_eq!(
        namespace_symbols("aidbox.rest", &names, &ExcludeConfig::none()),
        strings(&[
            "aidbox.rest/Configuration",
            "aidbox.rest/Client",
            "aidbox.rest/config",
            "aidbox.rest/system",
        ])
    );
    let exclude =
        ExcludeConfig { ns: None, symbols: Some(strings(&["aidbox/Client", "Client"])), tags: None };
    assert_eq!(namespace_symbols("aidbox", &names, &exclude), strings(&["aidbox/op"]));
    assert_eq!(namespace_symbols("demo", &strings(&[]), &exclude), strings(&[]));
}

#[test]
fn a_kept_catalog_is_used_when_it_is_not_empty() {
    assert_eq!(kept_catalog(None), None);
    assert_eq!(kept_catalog(Some(strings(&[]))), None);
    assert_eq!(kept_catalog(Some(strings(&["demo/a"]))), Some(strings(&["demo/a"])));
}

fn listing(namespace: &str, names: &[&str]) -> Listing {
    Listing { namespace: namespace.to_string(), names: strings(names) }
}

fn is_embedded(part: &[String], whole: &[String]) -> bool {
    let mut rest = whole.iter();
    part.iter().all(|p| rest.any(|w| w == p))
}

#[test]
fn the_catalog_goes_namespace_by_namespace() {
    let listings =
        vec![listing("demo", &["b", "a"]), listing("empty", &[]), listing("aidbox", &["op", "config"])];
    assert_eq!(
        catalog_symbols(&listings, &ExcludeConfig::none()),
        strings(&["demo/b", "demo/a", "aidbox/op"])
    );
    assert_eq!(catalog_symbols(&vec![], &ExcludeConfig::none()), strings(&[]));
}

#[test]
fn excluding_leaves_the_rest_of_the_catalog_in_order() {
    let namespaces = strings(&["demo", "lisp", "other", "demo.more"]);
    let names = ["x", "y", "z"];
    let catalog_for = |exclude: &ExcludeConfig| {
        let kept = filter_namespaces(&namespaces, exclude).unwrap();
        let listings: Vec<Listing> = kept.iter().map(|n| listing(n.as_str(), &names)).collect();
        catalog_symbols(&listings, exclude)
    };
    let all = catalog_for(&ExcludeConfig::none());
    assert_eq!(
        all,
        strings(&[
            "demo/x",
            "demo/y",
            "demo/z",
            "other/x",
            "other/y",
            "other/z",
            "demo.more/x",
            "demo.more/y",
            "demo.more/z",
        ])
    );
    let exclude = ExcludeConfig {
        ns: Some(strings(&["^other$", "nothing-is-called-this"])),
        symbols: Some(strings(&["demo/y", "demo.more/x", "absent/one"])),
        tags: None,
    };
    let fewer = catalog_for(&exclude);
    assert_eq!(fewer, strings(&["demo/x", "demo/z", "demo.more/y", "demo.more/z"]));
    assert!(is_embedded(&fewer, &all));
    assert!(fewer.len() <= all.len());
}
