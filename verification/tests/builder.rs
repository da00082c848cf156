use go_to_rust::decl::{RustItem, RustModule, RustStruct};
use go_to_rust::dispatch::{dispatch_top_level, parse_go_string};
use go_to_rust::error::Error;
use go_to_rust::parser::{Node, Rule};

fn only_struct(module: &RustModule) -> &RustStruct {
    assert_eq!(module.items.len(), 1);
    match &module.items[0] {
        RustItem::Struct(s) => s,
        RustItem::Alias(_) => panic!("expected a struct"),
    }
}

#[test]
fn pointer_field_is_optional_without_omit_tag() {
    let src = "type MyFoo struct { Count *int }".to_string();
    let (_go, module) = parse_go_string(src).expect("translates");
    let s = only_struct(&module);
    assert_eq!(s.name, "MyFoo");
    assert_eq!(s.fields.len(), 1);
    assert_eq!(s.fields[0].name, "count");
    assert_eq!(s.fields[0].value, "Option<i64>");
    assert!(s.fields[0].annotations.is_empty());
}

#[test]
fn empty_input_translates_to_empty_module() {
    let src = "   \n  ".to_string();
    let (go, module) = parse_go_string(src.clone()).expect("translates");
    assert_eq!(go.text(), &src);
    assert!(module.items.is_empty());
    assert!(module.imports.is_empty());
}

#[test]
fn empty_struct_translates_to_empty_declaration() {
    let src = "type Empty struct {}".to_string();
    let (_go, module) = parse_go_string(src).expect("translates");
    let s = only_struct(&module);
    assert_eq!(s.name, "Empty");
    assert!(s.fields.is_empty());
    assert!(s.generics.is_empty());
    assert!(s.doc.is_none());
    assert!(module.imports.is_empty());
}

#[test]
fn omit_tagged_map_field_keeps_collection_with_override() {
    let src =
        "type MyFoo struct { Attrs map[string]string `json:\"attrs,omitempty\"` }".to_string();
    let (_go, module) = parse_go_string(src).expect("translates");
    let s = only_struct(&module);
    assert_eq!(s.fields[0].name, "attrs");
    assert_eq!(s.fields[0].value, "HashMap<String, String>");
    assert_eq!(
        s.fields[0].annotations,
        vec![
            "#[serde(deserialize_with = \"deserialize_lambda_map\")]".to_string(),
            "#[serde(default)]".to_string(),
        ]
    );
}

#[test]
fn string_field_is_null_coalesced_with_and_without_omit() {
    let src = "type MyFoo struct { Name string }".to_string();
    let (_go, module) = parse_go_string(src).expect("translates");
    let s = only_struct(&module);
    assert_eq!(s.fields[0].value, "Option<String>");
    assert_eq!(
        s.fields[0].annotations,
        vec![
            "#[serde(deserialize_with = \"deserialize_lambda_string\")]".to_string(),
            "#[serde(default)]".to_string(),
        ]
    );

    let src = "type MyFoo struct { Name string `json:\"name,omitempty\"` }".to_string();
    let (_go, module) = parse_go_string(src).expect("translates");
    let s = only_struct(&module);
    assert_eq!(s.fields[0].value, "Option<String>");
    assert_eq!(
        s.fields[0].annotations,
        vec![
            "#[serde(deserialize_with = \"deserialize_lambda_string\")]".to_string(),
            "#[serde(default)]".to_string(),
        ]
    );
}

#[test]
fn imports_are_sorted_and_deduplicated_whatever_the_field_order() {
    let a = "type A struct { When time.Time\n Data []byte\n Name string }".to_string();
    let b = "type A struct { Name string\n When time.Time\n Data []byte }".to_string();
    let (_g1, m1) = parse_go_string(a).expect("translates");
    let (_g2, m2) = parse_go_string(b).expect("translates");
    assert_eq!(m1.imports, m2.imports);
    assert_eq!(
        m1.imports,
        vec![
            "chrono::DateTime".to_string(),
            "chrono::Utc".to_string(),
            "custom_serde::*".to_string(),
            "super::super::encodings::Base64Data".to_string(),
        ]
    );
}

#[test]
fn four_field_struct_translates_end_to_end() {
    let src = "type MyEvent struct {\n  Name string `json:\"name\"`\n  Count *int `json:\"count,omitempty\"`\n  Data []byte `json:\"data\"`\n  Attrs map[string]interface{} `json:\"attrs\"`\n}"
        .to_string();
    let (_go, module) = parse_go_string(src).expect("translates");
    let s = only_struct(&module);
    assert_eq!(s.name, "MyEvent");
    assert_eq!(s.derives, vec!["Debug", "Clone", "PartialEq", "Deserialize", "Serialize"]);
    assert_eq!(s.fields.len(), 4);

    assert_eq!(s.fields[0].name, "name");
    assert_eq!(s.fields[0].value, "Option<String>");
    assert_eq!(
        s.fields[0].annotations,
        vec![
            "#[serde(deserialize_with = \"deserialize_lambda_string\")]".to_string(),
            "#[serde(default)]".to_string(),
        ]
    );

    assert_eq!(s.fields[1].name, "count");
    assert_eq!(s.fields[1].value, "Option<i64>");
    assert!(s.fields[1].annotations.is_empty());

    assert_eq!(s.fields[2].name, "data");
    assert_eq!(s.fields[2].value, "Base64Data");
    assert!(s.fields[2].annotations.is_empty());

    assert_eq!(s.fields[3].name, "attrs");
    assert_eq!(s.fields[3].value, "HashMap<String, T1>");
    assert_eq!(
        s.fields[3].annotations,
        vec![
            "#[serde(bound=\"\")]".to_string(),
            "#[serde(deserialize_with = \"deserialize_lambda_map\")]".to_string(),
            "#[serde(default)]".to_string(),
        ]
    );

    assert_eq!(s.generics.len(), 1);
    assert_eq!(s.generics[0].value, "T1");
    assert_eq!(s.generics[0].default.as_deref(), Some("Value"));
    assert_eq!(
        s.generics[0].bounds,
        vec!["DeserializeOwned".to_string(), "Serialize".to_string()]
    );

    assert_eq!(
        module.imports,
        vec![
            "custom_serde::*".to_string(),
            "serde::de::DeserializeOwned".to_string(),
            "serde::ser::Serialize".to_string(),
            "serde_json::Value".to_string(),
            "std::collections::HashMap".to_string(),
            "super::super::encodings::Base64Data".to_string(),
        ]
    );
}

#[test]
fn dynamic_fields_number_sequentially_and_restart_per_struct() {
    let src = "type A struct {\n  First interface{}\n  Second interface{}\n}\ntype B struct {\n  Third interface{}\n}"
        .to_string();
    let (_go, module) = parse_go_string(src).expect("translates");
    assert_eq!(module.items.len(), 2);
    let a = match &module.items[0] {
        RustItem::Struct(s) => s,
        RustItem::Alias(_) => panic!("expected a struct"),
    };
    let b = match &module.items[1] {
        RustItem::Struct(s) => s,
        RustItem::Alias(_) => panic!("expected a struct"),
    };
    assert_eq!(a.fields[0].value, "T1");
    assert_eq!(a.fields[1].value, "T2");
    assert_eq!(a.generics.len(), 2);
    assert_eq!(a.generics[0].value, "T1");
    assert_eq!(a.generics[1].value, "T2");
    assert_eq!(b.fields[0].value, "T1");
    assert_eq!(b.generics.len(), 1);
    assert_eq!(b.generics[0].value, "T1");
}

#[test]
fn omit_tagged_dynamic_field_wraps_optionally() {
    let src = "type A struct {\n  First interface{} `json:\"first,omitempty\"`\n  Second interface{}\n}"
        .to_string();
    let (_go, module) = parse_go_string(src).expect("translates");
    let s = only_struct(&module);
    assert_eq!(s.fields[0].value, "Option<T1>");
    assert_eq!(s.fields[1].value, "T2");
    assert_eq!(s.generics.len(), 2);
    assert_eq!(s.generics[0].value, "T1");
    assert_eq!(s.generics[0].default.as_deref(), Some("Value"));
    assert_eq!(
        s.generics[0].bounds,
        vec!["DeserializeOwned".to_string(), "Serialize".to_string()]
    );
    assert_eq!(s.generics[1].value, "T2");
}

#[test]
fn rename_and_flatten_annotations() {
    let src = "type A struct { FooBar string `json:\"fooBar\"` }".to_string();
    let (_go, module) = parse_go_string(src).expect("translates");
    let s = only_struct(&module);
    assert_eq!(s.fields[0].name, "foo_bar");
    assert_eq!(s.fields[0].annotations[0], "#[serde(rename = \"fooBar\")]");

    let src = "type A struct { Base }".to_string();
    let (_go, module) = parse_go_string(src).expect("translates");
    let s = only_struct(&module);
    assert_eq!(s.fields[0].name, "base");
    assert_eq!(s.fields[0].value, "Base");
    assert_eq!(s.fields[0].annotations, vec!["#[serde(flatten)]".to_string()]);
}

#[test]
fn reserved_word_field_names_are_escaped() {
    let src = "type A struct { Type string `json:\"type\"` }".to_string();
    let (_go, module) = parse_go_string(src).expect("translates");
    let s = only_struct(&module);
    assert_eq!(s.fields[0].name, "type_");
    assert_eq!(s.fields[0].annotations[0], "#[serde(rename = \"type\")]");
}

#[test]
fn struct_doc_comment_rewrites_the_name() {
    let src = "// my_event is sent on change\ntype my_event struct { Name string }".to_string();
    let (_go, module) = parse_go_string(src).expect("translates");
    let s = only_struct(&module);
    assert_eq!(s.name, "MyEvent");
    assert_eq!(s.doc.as_deref(), Some("`MyEvent` is sent on change"));
}

#[test]
fn field_comments_and_inline_tag_comment_are_kept() {
    let src = "type A struct {\n  // how many\n  Count int `json:\"count\"` // from the wire\n}"
        .to_string();
    let (_go, module) = parse_go_string(src).expect("translates");
    let s = only_struct(&module);
    assert_eq!(s.fields[0].doc.as_deref(), Some("how many\n\nfrom the wire"));
}

#[test]
fn local_and_package_type_aliases_translate() {
    let src = "type Duration int64".to_string();
    let (_go, module) = parse_go_string(src).expect("translates");
    assert_eq!(module.items.len(), 1);
    match &module.items[0] {
        RustItem::Alias(a) => {
            assert_eq!(a.name, "Duration");
            assert_eq!(a.value, "i64");
            assert!(a.annotations.is_empty());
        },
        RustItem::Struct(_) => panic!("expected an alias"),
    }

    let src = "type When time.Time".to_string();
    let (_go, module) = parse_go_string(src).expect("translates");
    match &module.items[0] {
        RustItem::Alias(a) => {
            assert_eq!(a.name, "When");
            assert_eq!(a.value, "DateTime<Utc>");
        },
        RustItem::Struct(_) => panic!("expected an alias"),
    }
    assert_eq!(module.imports, vec!["chrono::DateTime".to_string(), "chrono::Utc".to_string()]);
}

#[test]
fn unknown_package_alias_aborts() {
    let src = "type Addr net.IP".to_string();
    match parse_go_string(src) {
        Err(Error::UnsupportedPackageIdent(name)) => assert_eq!(name, "net.IP"),
        other => panic!("expected an unsupported-package error, got {:?}", other),
    }
}

#[test]
fn allow_listed_top_level_forms_are_skipped() {
    let src = "package events\nimport \"time\"\n// a comment\nconst thing = 1\nfunc ignored() { return }\ntype A struct { Name string }"
        .to_string();
    let (go, module) = parse_go_string(src.clone()).expect("translates");
    assert_eq!(go.text(), &src);
    assert_eq!(module.items.len(), 1);
}

#[test]
fn unrecognized_top_level_text_aborts_before_output() {
    let src = "type A struct { Name string }\n@@@garbage@@@".to_string();
    match parse_go_string(src) {
        Err(Error::Syntax(_pos)) => {},
        other => panic!("expected a syntax error, got {:?}", other),
    }
}

#[test]
fn unrecognized_top_level_node_kind_aborts() {
    let nodes = vec![Node { rule: Rule::Ident, start: 0, end: 4, children: Vec::new() }];
    match dispatch_top_level("blah", &nodes) {
        Err(Error::UnexpectedTopLevel(text)) => assert_eq!(text, "blah"),
        other => panic!("expected an unexpected-top-level error, got {:?}", other),
    }
}
