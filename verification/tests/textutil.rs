use go_to_rust::emit::{add_sorted_imports, split_import};
use go_to_rust::error::Error;
use go_to_rust::text::{is_hashmap_type, mangle, parse_comment, str_le, u64_to_dec};

#[test]
fn comments_lose_their_marker_and_edges() {
    assert_eq!(parse_comment("// hello there "), "hello there");
    assert_eq!(parse_comment("//x"), "x");
    assert_eq!(parse_comment("no marker"), "no marker");
    assert_eq!(parse_comment("a // b"), "a  b");
}

#[test]
fn mangle_escapes_the_two_reserved_words() {
    assert_eq!(mangle("ref"), "ref_");
    assert_eq!(mangle("type"), "type_");
    assert_eq!(mangle("other"), "other");
}

#[test]
fn keyed_collection_renders_are_recognized() {
    assert!(is_hashmap_type("HashMap<String, i64>"));
    assert!(is_hashmap_type("HashMap<String, HashMap<String, i64>>"));
    assert!(!is_hashmap_type("HashMap<>"));
    assert!(!is_hashmap_type("Option<HashMap<String, i64>>"));
    assert!(!is_hashmap_type("String"));
}

#[test]
fn decimal_rendering_is_plain() {
    assert_eq!(u64_to_dec(0), "0");
    assert_eq!(u64_to_dec(7), "7");
    assert_eq!(u64_to_dec(10), "10");
    assert_eq!(u64_to_dec(90210), "90210");
}

#[test]
fn string_order_is_lexicographic() {
    assert!(str_le("a", "b"));
    assert!(str_le("a", "a"));
    assert!(str_le("a", "ab"));
    assert!(!str_le("b", "a"));
    assert!(str_le("serde::de", "serde_json"));
}

#[test]
fn sorted_import_rows_merge_without_duplicates() {
    let mut imports: Vec<String> = Vec::new();
    let batch1 = vec!["chrono::Utc".to_string(), "chrono::DateTime".to_string()];
    let batch2 = vec!["chrono::Utc".to_string(), "custom_serde::*".to_string()];
    add_sorted_imports(&mut imports, &batch1);
    add_sorted_imports(&mut imports, &batch2);
    assert_eq!(
        imports,
        vec![
            "chrono::DateTime".to_string(),
            "chrono::Utc".to_string(),
            "custom_serde::*".to_string(),
        ]
    );
}

#[test]
fn import_paths_split_at_the_last_separator() {
    assert_eq!(
        split_import("std::collections::HashMap").unwrap(),
        ("std::collections".to_string(), "HashMap".to_string())
    );
    assert_eq!(
        split_import("chrono::Utc").unwrap(),
        ("chrono".to_string(), "Utc".to_string())
    );
    match split_import("nothing") {
        Err(Error::Internal(_)) => {},
        other => panic!("expected an internal error, got {:?}", other),
    }
}
