use aidbox_generator::text::{
    capitalize, chars_of, concat_all, contains_char, join, kebab_to_camel, kebab_to_pascal, split,
    upper_head,
    starts_with, text_eq, with_head,
};

fn strings(items: &[&str]) -> Vec<String> {
    items.iter().map(|s| s.to_string()).collect()
}

#[test]
fn lib_test_capitalize() {
    assert_eq!(capitalize("test"), "Test".to_string());
}

#[test]
fn test_kebab_to_camel() {
    assert_eq!(kebab_to_camel("test-case-string"), "testCaseString".to_string());
}

#[test]
fn capitalize_of_nothing_is_nothing() {
    assert_eq!(capitalize(""), "".to_string());
}

#[test]
fn capitalize_twice_is_capitalize_once() {
    for s in ["a", "abc", "zen", "patient", "hl7", "x1"] {
        let once = capitalize(s);
        assert_eq!(capitalize(once.as_str()), once);
    }
}

#[test]
fn capitalize_may_lengthen() {
    assert_eq!(capitalize("\u{df}a"), "SSa".to_string());
}

#[test]
fn with_head_replaces_first_character() {
    assert_eq!(with_head("test", "T"), "Test".to_string());
    assert_eq!(with_head("test", "XY"), "XYest".to_string());
    assert_eq!(with_head("", "T"), "".to_string());
    assert_eq!(with_head("t", ""), "".to_string());
}

#[test]
fn kebab_to_camel_edges() {
    assert_eq!(kebab_to_camel(""), "".to_string());
    assert_eq!(kebab_to_camel("patient"), "patient".to_string());
    assert_eq!(kebab_to_camel("patient-profile"), "patientProfile".to_string());
    assert_eq!(kebab_to_camel("-a"), "A".to_string());
    assert_eq!(kebab_to_camel("a--b"), "aB".to_string());
}

#[test]
fn kebab_to_pascal_capitalizes_every_piece() {
    assert_eq!(kebab_to_pascal("test-case"), "TestCase".to_string());
    assert_eq!(kebab_to_pascal("rpc"), "Rpc".to_string());
    assert_eq!(kebab_to_pascal(""), "".to_string());
}

#[test]
fn split_keeps_empty_pieces() {
    assert_eq!(split("", '/'), strings(&[""]));
    assert_eq!(split("a", '/'), strings(&["a"]));
    assert_eq!(split("a/b", '/'), strings(&["a", "b"]));
    assert_eq!(split("a/", '/'), strings(&["a", ""]));
    assert_eq!(split("/a", '/'), strings(&["", "a"]));
    assert_eq!(split("a//b", '/'), strings(&["a", "", "b"]));
    assert_eq!(split("a.b/c", '.'), strings(&["a", "b/c"]));
}

#[test]
fn split_agrees_with_std() {
    for s in ["", "x", "a-b-c", "-", "--", "a-", "-a", "\u{e9}-\u{df}"] {
        let expected: Vec<String> = s.split('-').map(|p| p.to_string()).collect();
        assert_eq!(split(s, '-'), expected);
    }
}

#[test]
fn join_puts_separator_between() {
    assert_eq!(join(&strings(&[]), ", "), "".to_string());
    assert_eq!(join(&strings(&["a"]), ", "), "a".to_string());
    assert_eq!(join(&strings(&["a", "b", "c"]), ", "), "a, b, c".to_string());
    assert_eq!(join(&strings(&["", ""]), "|"), "|".to_string());
}

#[test]
fn concat_runs_pieces_together() {
    assert_eq!(concat_all(&strings(&[])), "".to_string());
    assert_eq!(concat_all(&strings(&["ab", "", "c"])), "abc".to_string());
}

#[test]
fn starts_with_and_contains() {
    assert!(starts_with("hl7-fhir-r4-core.Patient", "hl7-fhir-r4-core."));
    assert!(!starts_with("hl7", "hl7-fhir-r4-core."));
    assert!(starts_with("abc", ""));
    assert!(!starts_with("abc", "abd"));
    assert!(contains_char("a-b", '-'));
    assert!(!contains_char("ab", '-'));
    assert!(!contains_char("", '-'));
}

#[test]
fn chars_of_lists_characters() {
    assert_eq!(chars_of("a\u{e9}"), vec!['a', '\u{e9}']);
    assert_eq!(chars_of(""), Vec::<char>::new());
}

#[test]
fn text_eq_compares_characters() {
    assert!(text_eq("", ""));
    assert!(text_eq("zen/map", "zen/map"));
    assert!(!text_eq("zen/map", "zen/mat"));
    assert!(!text_eq("zen/map", "zen/ma"));
    assert!(!text_eq("", "a"));
    assert!(text_eq("\u{e9}t\u{e9}", "\u{e9}t\u{e9}"));
    assert!(!text_eq("\u{e9}", "e"));
}

#[test]
fn capitalize_agrees_with_the_uppercase_mapping() {
    for code in 0u32..0x800 {
        if let Some(c) = char::from_u32(code) {
            let text = format!("{}x", c);
            let expected: String = c.to_uppercase().chain("x".chars()).collect();
            assert_eq!(capitalize(text.as_str()), expected);
        }
    }
    assert_eq!(upper_head('a'), "A".to_string());
    assert_eq!(upper_head('z'), "Z".to_string());
    assert_eq!(upper_head('`'), "`".to_string());
    assert_eq!(upper_head('{'), "{".to_string());
    assert_eq!(upper_head('Q'), "Q".to_string());
    assert_eq!(upper_head('7'), "7".to_string());
    assert_eq!(upper_head('\u{e9}'), "\u{c9}".to_string());
    assert_eq!(upper_head('\u{df}'), "SS".to_string());
}
