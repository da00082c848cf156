use go_to_rust::error::Error;
use go_to_rust::go_type::{
    parse_go_ident, parse_go_package_ident, parse_go_type_primitive, GoType,
};
use go_to_rust::rust_type::translate_go_type_to_rust_type;

fn translated_value(t: &GoType) -> String {
    let (rust, _ctr) = translate_go_type_to_rust_type(t, None).expect("translates");
    rust.value
}

#[test]
fn translates_every_primitive_scalar() {
    assert_eq!(translated_value(&GoType::StringType), "String");
    assert_eq!(translated_value(&GoType::BoolType), "bool");
    assert_eq!(translated_value(&GoType::ByteType), "u8");
    assert_eq!(translated_value(&GoType::IntType), "i64");
    assert_eq!(translated_value(&GoType::UnsignedIntType), "u64");
    assert_eq!(translated_value(&GoType::FloatType), "f64");
}

#[test]
fn primitive_names_map_to_kinds() {
    assert_eq!(parse_go_type_primitive("string").unwrap(), GoType::StringType);
    assert_eq!(parse_go_type_primitive("int").unwrap(), GoType::IntType);
    assert_eq!(parse_go_type_primitive("int32").unwrap(), GoType::IntType);
    assert_eq!(parse_go_type_primitive("int64").unwrap(), GoType::IntType);
    assert_eq!(parse_go_type_primitive("uint").unwrap(), GoType::UnsignedIntType);
    assert_eq!(parse_go_type_primitive("uint32").unwrap(), GoType::UnsignedIntType);
    assert_eq!(parse_go_type_primitive("uint64").unwrap(), GoType::UnsignedIntType);
    assert_eq!(parse_go_type_primitive("float").unwrap(), GoType::FloatType);
    assert_eq!(parse_go_type_primitive("float32").unwrap(), GoType::FloatType);
    assert_eq!(parse_go_type_primitive("float64").unwrap(), GoType::FloatType);
    assert_eq!(parse_go_type_primitive("bool").unwrap(), GoType::BoolType);
    assert_eq!(parse_go_type_primitive("byte").unwrap(), GoType::ByteType);
}

#[test]
fn unknown_primitive_name_fails_naming_it() {
    match parse_go_type_primitive("complex128") {
        Err(Error::UnsupportedGoPrimitive(name)) => assert_eq!(name, "complex128"),
        other => panic!("expected an unsupported-primitive error, got {:?}", other),
    }
}

#[test]
fn special_idents_become_epoch_wrappers() {
    assert_eq!(
        parse_go_ident("MilliSecondsEpochTime").unwrap(),
        GoType::TimestampMillisecondsType
    );
    assert_eq!(parse_go_ident("SecondsEpochTime").unwrap(), GoType::TimestampSecondsType);
    assert_eq!(
        parse_go_ident("SomethingElse").unwrap(),
        GoType::UserDefined("SomethingElse".to_string())
    );
}

#[test]
fn unknown_package_ident_fails_naming_it() {
    assert_eq!(parse_go_package_ident("time.Time").unwrap(), GoType::TimeType);
    assert_eq!(parse_go_package_ident("json.RawMessage").unwrap(), GoType::JsonRawType);
    match parse_go_package_ident("net.IP") {
        Err(Error::UnsupportedPackageIdent(name)) => assert_eq!(name, "net.IP"),
        other => panic!("expected an unsupported-package error, got {:?}", other),
    }
}

#[test]
fn byte_array_collapses_to_base64_scalar_once() {
    let bytes = GoType::ArrayType(Box::new(GoType::ByteType));
    let (rust, _ctr) = translate_go_type_to_rust_type(&bytes, None).expect("translates");
    assert_eq!(rust.value, "Base64Data");
    assert_eq!(rust.libraries, vec!["super::super::encodings::Base64Data".to_string()]);

    let nested = GoType::ArrayType(Box::new(GoType::ArrayType(Box::new(GoType::ByteType))));
    let (rust, _ctr) = translate_go_type_to_rust_type(&nested, None).expect("translates");
    assert_eq!(rust.value, "Vec<Base64Data>");
    assert_eq!(rust.libraries, vec!["super::super::encodings::Base64Data".to_string()]);
}

#[test]
fn nested_pointers_nest_optionality() {
    let t = GoType::PointerType(Box::new(GoType::PointerType(Box::new(GoType::BoolType))));
    assert_eq!(translated_value(&t), "Option<Option<bool>>");
}

#[test]
fn map_with_non_primitive_key_fails() {
    let t = GoType::MapType(
        Box::new(GoType::UserDefined("Foo".to_string())),
        Box::new(GoType::BoolType),
    );
    match translate_go_type_to_rust_type(&t, Some(0)) {
        Err(Error::NonPrimitiveMapKey(key)) => {
            assert_eq!(*key, GoType::UserDefined("Foo".to_string()));
        },
        other => panic!("expected a non-primitive-key error, got {:?}", other),
    }
}

#[test]
fn map_value_generics_continue_numbering() {
    let t = GoType::MapType(Box::new(GoType::StringType), Box::new(GoType::InterfaceType));
    let (rust, after) = translate_go_type_to_rust_type(&t, Some(3)).expect("translates");
    assert_eq!(rust.value, "HashMap<String, T4>");
    assert_eq!(after, Some(4));
    assert_eq!(rust.generics.len(), 1);
    assert_eq!(rust.generics[0].value, "T4");
    assert_eq!(rust.generics[0].default.as_deref(), Some("Value"));
    assert_eq!(rust.generics[0].bounds, vec!["DeserializeOwned".to_string(), "Serialize".to_string()]);
}

#[test]
fn dynamic_any_without_counter_stays_concrete() {
    let (rust, after) = translate_go_type_to_rust_type(&GoType::InterfaceType, None)
        .expect("translates");
    assert_eq!(rust.value, "Value");
    assert_eq!(after, None);
    assert!(rust.generics.is_empty());
    assert_eq!(rust.libraries, vec!["serde_json::Value".to_string()]);
}

#[test]
fn dynamic_any_with_counter_mints_sequential_placeholders() {
    let (first, after) = translate_go_type_to_rust_type(&GoType::InterfaceType, Some(0))
        .expect("translates");
    assert_eq!(first.value, "T1");
    assert_eq!(after, Some(1));
    assert_eq!(first.annotations, vec!["#[serde(bound=\"\")]".to_string()]);
    let (second, after) = translate_go_type_to_rust_type(&GoType::JsonRawType, after.map(|c| c))
        .expect("translates");
    assert_eq!(second.value, "T2");
    assert_eq!(after, Some(2));
}

#[test]
fn exhausted_generic_counter_fails() {
    match translate_go_type_to_rust_type(&GoType::InterfaceType, Some(usize::MAX)) {
        Err(Error::TooManyGenerics) => {},
        other => panic!("expected a counter-exhausted error, got {:?}", other),
    }
}

#[test]
fn time_and_timestamps_use_wrapper_types() {
    let (rust, _ctr) = translate_go_type_to_rust_type(&GoType::TimeType, None).expect("translates");
    assert_eq!(rust.value, "DateTime<Utc>");
    let mut libs = rust.libraries.clone();
    libs.sort();
    assert_eq!(libs, vec!["chrono::DateTime".to_string(), "chrono::Utc".to_string()]);
    assert_eq!(translated_value(&GoType::TimestampSecondsType), "SecondTimestamp");
    assert_eq!(translated_value(&GoType::TimestampMillisecondsType), "MillisecondTimestamp");
}
