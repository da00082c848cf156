//! The recursive type translator: maps one source-dialect type into one
//! target-dialect type description, threading a per-struct generic-parameter
//! counter and accumulating required imports and annotations.

use vstd::prelude::*;
use crate::casing::{camel_of, to_camel_case};
use crate::error::Error;
use crate::go_type::{is_primitive, GoType};
use crate::text::{dec_str, str_eq, u64_to_dec};

verus! {

/// A generic parameter introduced by a translation: its placeholder name,
/// its optional default type, and its required capability bounds.
#[derive(Debug)]
pub struct RustGeneric {
    pub value: String,
    pub default: Option<String>,
    pub bounds: Vec<String>,
}

/// The mathematical content of a [`RustGeneric`].
#[verifier::ext_equal]
pub ghost struct GenericModel {
    pub value: Seq<char>,
    pub default: Option<Seq<char>>,
    pub bounds: Seq<Seq<char>>,
}

impl View for RustGeneric {
    type V = GenericModel;

    open spec fn view(&self) -> GenericModel {
        GenericModel {
            value: self.value@,
            default: match self.default {
                Some(d) => Some(d@),
                None => None,
            },
            bounds: self.bounds@.map_values(|b: String| b@),
        }
    }
}

/// A translated type: the rendered type text, the import paths it needs
/// (order-independent during accumulation; sorted only at render time), the
/// annotations to attach to the owning field, and the generic parameters
/// introduced by this translation.
#[derive(Debug)]
pub struct RustType {
    pub annotations: Vec<String>,
    pub libraries: Vec<String>,
    pub value: String,
    pub generics: Vec<RustGeneric>,
}

/// The mathematical content of a [`RustType`]; the imports are a set.
#[verifier::ext_equal]
pub ghost struct RustTypeModel {
    pub value: Seq<char>,
    pub annotations: Seq<Seq<char>>,
    pub libraries: Set<Seq<char>>,
    pub generics: Seq<GenericModel>,
}

/// The set of import paths held by a vector.
pub open spec fn libs_set(s: Seq<String>) -> Set<Seq<char>> {
    s.map_values(|t: String| t@).to_set()
}

impl View for RustType {
    type V = RustTypeModel;

    open spec fn view(&self) -> RustTypeModel {
        RustTypeModel {
            value: self.value@,
            annotations: self.annotations@.map_values(|a: String| a@),
            libraries: libs_set(self.libraries@),
            generics: self.generics@.map_values(|g: RustGeneric| g@),
        }
    }
}

/// How many generic parameters a translation of `t` mints when a counter is
/// in scope: one per dynamic-any occurrence.
pub open spec fn dynamic_count(t: GoType) -> nat
    decreases t,
{
    match t {
        GoType::InterfaceType | GoType::JsonRawType => 1,
        GoType::ArrayType(x) => dynamic_count(*x),
        GoType::PointerType(x) => dynamic_count(*x),
        GoType::MapType(k, v) => dynamic_count(*k) + dynamic_count(*v),
        _ => 0,
    }
}

/// The counter a map's key side starts from: the enclosing counter if one is
/// in scope, else a fresh one starting at zero.
pub open spec fn child_counter(ctr: Option<nat>) -> nat {
    match ctr {
        Some(c) => c,
        None => 0,
    }
}

/// The rendered type text of a successful translation of `t` with the given
/// generic counter in scope.
pub open spec fn translated_value(t: GoType, ctr: Option<nat>) -> Seq<char>
    decreases t,
{
    match t {
        GoType::StringType => "String"@,
        GoType::BoolType => "bool"@,
        GoType::ByteType => "u8"@,
        GoType::IntType => "i64"@,
        GoType::UnsignedIntType => "u64"@,
        GoType::FloatType => "f64"@,
        GoType::UserDefined(x) => camel_of(x@),
        GoType::ArrayType(x) => if translated_value(*x, ctr) == "u8"@ {
            "Base64Data"@
        } else {
            "Vec<"@ + translated_value(*x, ctr) + ">"@
        },
        GoType::PointerType(x) => "Option<"@ + translated_value(*x, ctr) + ">"@,
        GoType::MapType(k, v) => "HashMap<"@ + translated_value(*k, Some(child_counter(ctr)))
            + ", "@ + translated_value(*v, Some(child_counter(ctr) + dynamic_count(*k))) + ">"@,
        GoType::InterfaceType | GoType::JsonRawType => match ctr {
            Some(c) => seq!['T'] + dec_str(c + 1),
            None => "Value"@,
        },
        GoType::TimestampSecondsType => "SecondTimestamp"@,
        GoType::TimestampMillisecondsType => "MillisecondTimestamp"@,
        GoType::TimeType => "DateTime<Utc>"@,
    }
}

/// The import paths a successful translation of `t` requires.
pub open spec fn translated_libraries(t: GoType, ctr: Option<nat>) -> Set<Seq<char>>
    decreases t,
{
    match t {
        GoType::ArrayType(x) => if translated_value(*x, ctr) == "u8"@ {
            translated_libraries(*x, ctr).insert("super::super::encodings::Base64Data"@)
        } else {
            translated_libraries(*x, ctr)
        },
        GoType::PointerType(x) => translated_libraries(*x, ctr),
        GoType::MapType(k, v) => translated_libraries(*k, Some(child_counter(ctr))).union(
            translated_libraries(*v, Some(child_counter(ctr) + dynamic_count(*k))),
        ).insert("std::collections::HashMap"@),
        GoType::InterfaceType | GoType::JsonRawType => match ctr {
            Some(_) => set![
                "serde_json::Value"@,
                "serde::de::DeserializeOwned"@,
                "serde::ser::Serialize"@,
            ],
            None => set!["serde_json::Value"@],
        },
        GoType::TimestampSecondsType => set!["super::super::encodings::SecondTimestamp"@],
        GoType::TimestampMillisecondsType => set![
            "super::super::encodings::MillisecondTimestamp"@,
        ],
        GoType::TimeType => set!["chrono::DateTime"@, "chrono::Utc"@],
        _ => Set::empty(),
    }
}

/// The annotations a successful translation of `t` attaches to the owning
/// field, in traversal order.
pub open spec fn translated_annotations(t: GoType, ctr: Option<nat>) -> Seq<Seq<char>>
    decreases t,
{
    match t {
        GoType::ArrayType(x) => translated_annotations(*x, ctr),
        GoType::PointerType(x) => translated_annotations(*x, ctr),
        GoType::MapType(k, v) => translated_annotations(*k, Some(child_counter(ctr)))
            + translated_annotations(*v, Some(child_counter(ctr) + dynamic_count(*k))),
        GoType::InterfaceType | GoType::JsonRawType => match ctr {
            Some(_) => seq!["#[serde(bound=\"\")]"@],
            None => Seq::empty(),
        },
        _ => Seq::empty(),
    }
}

/// The generic parameters a successful translation of `t` mints, in
/// traversal order.
pub open spec fn translated_generics(t: GoType, ctr: Option<nat>) -> Seq<GenericModel>
    decreases t,
{
    match t {
        GoType::ArrayType(x) => translated_generics(*x, ctr),
        GoType::PointerType(x) => translated_generics(*x, ctr),
        GoType::MapType(k, v) => translated_generics(*k, Some(child_counter(ctr)))
            + translated_generics(*v, Some(child_counter(ctr) + dynamic_count(*k))),
        GoType::InterfaceType | GoType::JsonRawType => match ctr {
            Some(c) => seq![
                GenericModel {
                    value: seq!['T'] + dec_str(c + 1),
                    default: Some("Value"@),
                    bounds: seq!["DeserializeOwned"@, "Serialize"@],
                },
            ],
            None => Seq::empty(),
        },
        _ => Seq::empty(),
    }
}

/// The whole model of a successful translation.
pub open spec fn translated_model(t: GoType, ctr: Option<nat>) -> RustTypeModel {
    RustTypeModel {
        value: translated_value(t, ctr),
        annotations: translated_annotations(t, ctr),
        libraries: translated_libraries(t, ctr),
        generics: translated_generics(t, ctr),
    }
}

/// The first fatal condition a translation of `t` meets, in traversal order:
/// a map key outside the primitive kinds, or a generic counter that cannot
/// be incremented further. `None` when the translation succeeds.
pub open spec fn translation_error(t: GoType, ctr: Option<nat>) -> Option<Error>
    decreases t,
{
    match t {
        GoType::ArrayType(x) => translation_error(*x, ctr),
        GoType::PointerType(x) => translation_error(*x, ctr),
        GoType::MapType(k, v) => if !is_primitive(*k) {
            Some(Error::NonPrimitiveMapKey(k))
        } else {
            translation_error(*v, Some(child_counter(ctr) + dynamic_count(*k)))
        },
        GoType::InterfaceType | GoType::JsonRawType => match ctr {
            Some(c) => if c >= usize::MAX as nat {
                Some(Error::TooManyGenerics)
            } else {
                None
            },
            None => None,
        },
        _ => None,
    }
}

/// The generic counter as the model sees it.
pub open spec fn counter_model(c: Option<usize>) -> Option<nat> {
    match c {
        Some(n) => Some(n as nat),
        None => None,
    }
}

/// A deep copy of a source-dialect type.
pub fn clone_go_type(t: &GoType) -> (r: GoType)
    ensures
        r == *t,
    decreases *t,
{
    match t {
        GoType::StringType => GoType::StringType,
        GoType::IntType => GoType::IntType,
        GoType::UnsignedIntType => GoType::UnsignedIntType,
        GoType::FloatType => GoType::FloatType,
        GoType::BoolType => GoType::BoolType,
        GoType::ByteType => GoType::ByteType,
        GoType::UserDefined(x) => GoType::UserDefined(x.clone()),
        GoType::ArrayType(x) => GoType::ArrayType(Box::new(clone_go_type(&**x))),
        GoType::MapType(k, v) => GoType::MapType(
            Box::new(clone_go_type(&**k)),
            Box::new(clone_go_type(&**v)),
        ),
        GoType::InterfaceType => GoType::InterfaceType,
        GoType::PointerType(x) => GoType::PointerType(Box::new(clone_go_type(&**x))),
        GoType::TimeType => GoType::TimeType,
        GoType::TimestampMillisecondsType => GoType::TimestampMillisecondsType,
        GoType::TimestampSecondsType => GoType::TimestampSecondsType,
        GoType::JsonRawType => GoType::JsonRawType,
    }
}

/// True when `t` is one of the primitive scalar kinds.
pub fn is_primitive_go_type(t: &GoType) -> (r: bool)
    ensures
        r == is_primitive(*t),
{
    match t {
        GoType::StringType
        | GoType::IntType
        | GoType::UnsignedIntType
        | GoType::FloatType
        | GoType::BoolType
        | GoType::ByteType => true,
        _ => false,
    }
}

pub(crate) proof fn lemma_libs_set_push(s: Seq<String>, x: String)
    ensures
        libs_set(s.push(x)) =~= libs_set(s).insert(x@),
{
    let m1 = s.push(x).map_values(|t: String| t@);
    let m0 = s.map_values(|t: String| t@);
    assert(m1 =~= m0.push(x@));
    assert forall|e: Seq<char>| m1.contains(e) implies m0.contains(e) || e == x@ by {
        let i = choose|i: int| 0 <= i < m1.len() && m1[i] == e;
        if i < m0.len() {
            assert(m0[i] == e);
        }
    }
    assert forall|e: Seq<char>| m0.contains(e) implies m1.contains(e) by {
        let i = choose|i: int| 0 <= i < m0.len() && m0[i] == e;
        assert(m1[i] == e);
    }
    assert(m1.contains(x@)) by {
        assert(m1[m0.len() as int] == x@);
    }
}

/// Adds one import path to an accumulating set, keeping it duplicate-free.
pub(crate) fn insert_lib(libs: &mut Vec<String>, lib: &str)
    ensures
        libs_set(final(libs)@) == libs_set(old(libs)@).insert(lib@),
{
    let mut i: usize = 0;
    let n = libs.len();
    while i < n
        invariant
            n == libs@.len(),
            i <= n,
            forall|j: int| 0 <= j < i ==> libs@[j]@ != lib@,
        decreases n - i,
    {
        if str_eq(libs[i].as_str(), lib) {
            proof {
                let m = libs@.map_values(|t: String| t@);
                assert(m[i as int] == lib@);
                assert(libs_set(libs@).contains(lib@));
                assert(libs_set(libs@) =~= libs_set(libs@).insert(lib@));
            }
            return ;
        }
        i = i + 1;
    }
    let ghost pre = libs@;
    libs.push(lib.to_owned());
    proof {
        lemma_libs_set_push(pre, libs@[pre.len() as int]);
        assert(libs_set(libs@) =~= libs_set(pre).insert(lib@));
    }
}

/// Unions one accumulated import set into another.
pub(crate) fn extend_libs(dst: &mut Vec<String>, src: &Vec<String>)
    ensures
        libs_set(final(dst)@) == libs_set(old(dst)@).union(libs_set(src@)),
{
    let n = src.len();
    let mut i: usize = 0;
    while i < n
        invariant
            n == src@.len(),
            i <= n,
            libs_set(dst@) =~= libs_set(old(dst)@).union(libs_set(src@.take(i as int))),
        decreases n - i,
    {
        insert_lib(dst, src[i].as_str());
        proof {
            assert(src@.take(i + 1 as int) =~= src@.take(i as int).push(src@[i as int]));
            lemma_libs_set_push(src@.take(i as int), src@[i as int]);
        }
        i = i + 1;
    }
    proof {
        assert(src@.take(n as int) =~= src@);
        assert(libs_set(dst@) =~= libs_set(old(dst)@).union(libs_set(src@)));
    }
}

/// A translated type with no imports, annotations or generics: the rendered
/// text alone.
pub fn make_rust_type_with_no_libraries(value: &str) -> (r: RustType)
    ensures
        r@ == (RustTypeModel {
            value: value@,
            annotations: Seq::empty(),
            libraries: Set::empty(),
            generics: Seq::empty(),
        }),
{
    let r = RustType {
        annotations: Vec::new(),
        value: value.to_owned(),
        generics: Vec::new(),
        libraries: Vec::new(),
    };
    proof {
        assert(r@.annotations =~= Seq::<Seq<char>>::empty());
        assert(r@.generics =~= Seq::<GenericModel>::empty());
        assert(r@.libraries =~= Set::<Seq<char>>::empty());
        assert(r@ =~= (RustTypeModel {
            value: value@,
            annotations: Seq::empty(),
            libraries: Set::empty(),
            generics: Seq::empty(),
        }));
    }
    r
}

/// Translates one source-dialect type into one target-dialect type
/// description. When a generic counter is in scope, each dynamic-any
/// occurrence mints the next sequential generic placeholder; the counter
/// after all mints is returned alongside the result. Translation fails
/// exactly on a map key outside the primitive kinds, or on a counter that
/// cannot be incremented further; the error names the offending construct.
pub fn translate_go_type_to_rust_type(go_type: &GoType, generic_counter: Option<usize>) -> (r:
    Result<(RustType, Option<usize>), Error>)
    ensures
        (translation_error(*go_type, counter_model(generic_counter)) matches Some(e) ==> (r
            matches Err(e2) && e2 == e)),
        translation_error(*go_type, counter_model(generic_counter)) is None ==> (r matches Ok(p) && (
        p.0@ == translated_model(*go_type, counter_model(generic_counter)) && (match generic_counter {
            Some(c0) => p.1 matches Some(c1) && c1 as nat == c0 + dynamic_count(*go_type),
            None => p.1 is None,
        }))),
    decreases *go_type,
{
    match go_type {
        GoType::StringType => Ok((make_rust_type_with_no_libraries("String"), generic_counter)),
        GoType::BoolType => Ok((make_rust_type_with_no_libraries("bool"), generic_counter)),
        GoType::ByteType => Ok((make_rust_type_with_no_libraries("u8"), generic_counter)),
        GoType::IntType => Ok((make_rust_type_with_no_libraries("i64"), generic_counter)),
        GoType::UnsignedIntType => Ok((make_rust_type_with_no_libraries("u64"), generic_counter)),
        GoType::FloatType => Ok((make_rust_type_with_no_libraries("f64"), generic_counter)),
        GoType::UserDefined(x) => {
            let camel = to_camel_case(x.as_str());
            Ok((make_rust_type_with_no_libraries(camel.as_str()), generic_counter))
        },
        GoType::ArrayType(x) => {
            let (inner, after) = translate_go_type_to_rust_type(&**x, generic_counter)?;
            if str_eq(inner.value.as_str(), "u8") {
                // A byte sequence is serialized as base64 text, so it
                // collapses to the codec scalar; one level only.
                let mut libraries = inner.libraries;
                insert_lib(&mut libraries, "super::super::encodings::Base64Data");
                let out = RustType {
                    annotations: inner.annotations,
                    value: String::from_str("Base64Data"),
                    generics: inner.generics,
                    libraries,
                };
                Ok((out, after))
            } else {
                let mut value = String::from_str("Vec<");
                value.append(inner.value.as_str());
                value.append(">");
                let out = RustType {
                    annotations: inner.annotations,
                    value,
                    generics: inner.generics,
                    libraries: inner.libraries,
                };
                proof {
                    assert(out@ =~= translated_model(
                        *go_type,
                        counter_model(generic_counter),
                    ));
                }
                Ok((out, after))
            }
        },
        GoType::PointerType(x) => {
            let (inner, after) = translate_go_type_to_rust_type(&**x, generic_counter)?;
            let mut value = String::from_str("Option<");
            value.append(inner.value.as_str());
            value.append(">");
            let out = RustType {
                annotations: inner.annotations,
                value,
                generics: inner.generics,
                libraries: inner.libraries,
            };
            proof {
                assert(out@ =~= translated_model(*go_type, counter_model(generic_counter)));
            }
            Ok((out, after))
        },
        GoType::MapType(k, v) => {
            if !is_primitive_go_type(&**k) {
                return Err(Error::NonPrimitiveMapKey(Box::new(clone_go_type(&**k))));
            }
            // Key and value share one counter, so value-side generic
            // numbering continues where the key side left off.
            let start: usize = match generic_counter {
                Some(c) => c,
                None => 0,
            };
            let (key_data, key_after) = translate_go_type_to_rust_type(&**k, Some(start))?;
            let (value_data, value_after) = translate_go_type_to_rust_type(
                &**v,
                Some(key_after.unwrap()),
            )?;
            let mut value = String::from_str("HashMap<");
            value.append(key_data.value.as_str());
            value.append(", ");
            value.append(value_data.value.as_str());
            value.append(">");
            let mut annotations = key_data.annotations;
            let mut value_annotations = value_data.annotations;
            annotations.append(&mut value_annotations);
            let mut generics = key_data.generics;
            let mut value_generics = value_data.generics;
            generics.append(&mut value_generics);
            let mut libraries = key_data.libraries;
            extend_libs(&mut libraries, &value_data.libraries);
            insert_lib(&mut libraries, "std::collections::HashMap");
            let out = RustType { annotations, value, generics, libraries };
            let after: Option<usize> = match generic_counter {
                Some(_) => Some(value_after.unwrap()),
                None => None,
            };
            proof {
                let ctr = counter_model(generic_counter);
                assert(out@.annotations =~= translated_annotations(*go_type, ctr));
                assert(out@.generics =~= translated_generics(*go_type, ctr));
                assert(out@.libraries =~= translated_libraries(*go_type, ctr));
                assert(out@ =~= translated_model(*go_type, ctr));
            }
            Ok((out, after))
        },
        GoType::InterfaceType | GoType::JsonRawType => {
            // A dynamic value: with a counter in scope it becomes the next
            // struct-level generic placeholder; bare, it stays the concrete
            // generic dynamic-value type.
            match generic_counter {
                Some(c) => {
                    if c == usize::MAX {
                        return Err(Error::TooManyGenerics);
                    }
                    let c1 = c + 1;
                    let mut name = String::from_str("T");
                    let digits = u64_to_dec(c1 as u64);
                    name.append(digits.as_str());
                    proof {
                        reveal_strlit("T");
                        assert(name@ =~= seq!['T'] + dec_str((c1 as u64) as nat));
                    }
                    let mut bounds: Vec<String> = Vec::new();
                    bounds.push(String::from_str("DeserializeOwned"));
                    bounds.push(String::from_str("Serialize"));
                    let generic = RustGeneric {
                        value: name.clone(),
                        default: Some(String::from_str("Value")),
                        bounds,
                    };
                    let mut annotations: Vec<String> = Vec::new();
                    annotations.push(String::from_str("#[serde(bound=\"\")]"));
                    let mut generics: Vec<RustGeneric> = Vec::new();
                    generics.push(generic);
                    let mut libraries: Vec<String> = Vec::new();
                    insert_lib(&mut libraries, "serde_json::Value");
                    insert_lib(&mut libraries, "serde::de::DeserializeOwned");
                    insert_lib(&mut libraries, "serde::ser::Serialize");
                    let out = RustType { annotations, value: name, generics, libraries };
                    proof {
                        let ctr = counter_model(generic_counter);
                        assert(out@.annotations =~= translated_annotations(*go_type, ctr));
                        assert(out@.generics.len() == 1);
                        assert(out@.generics[0].bounds =~= translated_generics(
                            *go_type,
                            ctr,
                        )[0].bounds);
                        assert(out@.generics[0] =~~= translated_generics(*go_type, ctr)[0]);
                        assert(out@.generics =~~= translated_generics(*go_type, ctr));
                        assert(out@.libraries =~= translated_libraries(*go_type, ctr));
                        assert(out@ =~~= translated_model(*go_type, ctr));
                    }
                    Ok((out, Some(c1)))
                },
                None => {
                    let mut libraries: Vec<String> = Vec::new();
                    insert_lib(&mut libraries, "serde_json::Value");
                    let out = RustType {
                        annotations: Vec::new(),
                        value: String::from_str("Value"),
                        generics: Vec::new(),
                        libraries,
                    };
                    proof {
                        let ctr = counter_model(generic_counter);
                        assert(out@.annotations =~= translated_annotations(*go_type, ctr));
                        assert(out@.generics =~= translated_generics(*go_type, ctr));
                        assert(out@.libraries =~= translated_libraries(*go_type, ctr));
                        assert(out@ =~= translated_model(*go_type, ctr));
                    }
                    Ok((out, None))
                },
            }
        },
        GoType::TimestampSecondsType => {
            let mut out = make_rust_type_with_no_libraries("SecondTimestamp");
            insert_lib(&mut out.libraries, "super::super::encodings::SecondTimestamp");
            proof {
                let ctr = counter_model(generic_counter);
                assert(out@.libraries =~= translated_libraries(*go_type, ctr));
                assert(out@ =~= translated_model(*go_type, ctr));
            }
            Ok((out, generic_counter))
        },
        GoType::TimestampMillisecondsType => {
            let mut out = make_rust_type_with_no_libraries("MillisecondTimestamp");
            insert_lib(&mut out.libraries, "super::super::encodings::MillisecondTimestamp");
            proof {
                let ctr = counter_model(generic_counter);
                assert(out@.libraries =~= translated_libraries(*go_type, ctr));
                assert(out@ =~= translated_model(*go_type, ctr));
            }
            Ok((out, generic_counter))
        },
        GoType::TimeType => {
            let mut out = make_rust_type_with_no_libraries("DateTime<Utc>");
            insert_lib(&mut out.libraries, "chrono::DateTime");
            insert_lib(&mut out.libraries, "chrono::Utc");
            proof {
                let ctr = counter_model(generic_counter);
                assert(out@.libraries =~= translated_libraries(*go_type, ctr));
                assert(out@ =~= translated_model(*go_type, ctr));
            }
            Ok((out, generic_counter))
        },
    }
}

/// For every primitive scalar kind, translation always succeeds, with no
/// imports, annotations or generic parameters, whatever counter is in scope.
pub proof fn lemma_translate_primitive_total(t: GoType, ctr: Option<nat>)
    requires
        is_primitive(t),
    ensures
        translation_error(t, ctr) is None,
        translated_libraries(t, ctr) == Set::<Seq<char>>::empty(),
        translated_annotations(t, ctr) == Seq::<Seq<char>>::empty(),
        translated_generics(t, ctr) == Seq::<GenericModel>::empty(),
{
}

/// An array of bytes collapses to the base64-codec scalar, with exactly the
/// codec import; an array of such arrays does not collapse again and renders
/// as a generic sequence of the codec type.
pub proof fn lemma_byte_array_collapses(t: GoType, tt: GoType, ctr: Option<nat>)
    requires
        t matches GoType::ArrayType(x) && *x is ByteType,
        tt matches GoType::ArrayType(y) && *y == t,
    ensures
        translation_error(t, ctr) is None,
        translated_value(t, ctr) == "Base64Data"@,
        translated_libraries(t, ctr) == set!["super::super::encodings::Base64Data"@],
        translation_error(tt, ctr) is None,
        translated_value(tt, ctr) == "Vec<Base64Data>"@,
{
    reveal_with_fuel(translated_value, 3);
    reveal_with_fuel(translation_error, 3);
    reveal_with_fuel(translated_libraries, 2);
    reveal_strlit("u8");
    reveal_strlit("Base64Data");
    reveal_strlit("Vec<");
    reveal_strlit(">");
    reveal_strlit("Vec<Base64Data>");
    assert(translated_libraries(t, ctr) =~= set!["super::super::encodings::Base64Data"@]);
    assert(translated_value(tt, ctr) =~= "Vec<Base64Data>"@);
}

/// Nested pointers produce nested optionality, one wrap per level.
pub proof fn lemma_pointer_nesting(t: GoType, ctr: Option<nat>)
    requires
        t matches GoType::PointerType(p) && (*p matches GoType::PointerType(q) && *q is BoolType),
    ensures
        translation_error(t, ctr) is None,
        translated_value(t, ctr) == "Option<Option<bool>>"@,
{
    reveal_with_fuel(translated_value, 3);
    reveal_with_fuel(translation_error, 3);
    reveal_strlit("bool");
    reveal_strlit("Option<");
    reveal_strlit(">");
    reveal_strlit("Option<Option<bool>>");
    assert(translated_value(t, ctr) =~= "Option<Option<bool>>"@);
}

/// A map whose key is outside the primitive kinds never translates.
pub proof fn lemma_map_key_must_be_primitive(t: GoType, ctr: Option<nat>)
    requires
        t matches GoType::MapType(k, v) && !is_primitive(*k),
    ensures
        translation_error(t, ctr) is Some,
{
}

/// With a counter in scope starting at `c`, a translation mints exactly one
/// generic parameter per dynamic-any occurrence, named sequentially
/// `T(c+1)`, `T(c+2)`, ... in traversal order; in particular, value-side
/// allocations of a map continue numbering where the key side left off.
pub proof fn lemma_generic_names(t: GoType, c: nat)
    ensures
        translated_generics(t, Some(c)).len() == dynamic_count(t),
        forall|j: int|
            0 <= j < dynamic_count(t) ==> translated_generics(t, Some(c))[j].value == seq!['T']
                + dec_str((c + j + 1) as nat),
    decreases t,
{
    match t {
        GoType::ArrayType(x) => {
            lemma_generic_names(*x, c);
        },
        GoType::PointerType(x) => {
            lemma_generic_names(*x, c);
        },
        GoType::MapType(k, v) => {
            lemma_generic_names(*k, c);
            lemma_generic_names(*v, c + dynamic_count(*k));
            let gk = translated_generics(*k, Some(c));
            let gv = translated_generics(*v, Some(c + dynamic_count(*k)));
            assert forall|j: int| 0 <= j < dynamic_count(t) implies translated_generics(
                t,
                Some(c),
            )[j].value == seq!['T'] + dec_str((c + j + 1) as nat) by {
                if j < gk.len() {
                    assert((gk + gv)[j] == gk[j]);
                } else {
                    assert((gk + gv)[j] == gv[j - gk.len()]);
                }
            }
        },
        _ => {},
    }
}

/// Within one counter scope, the minted generic placeholder names are
/// pairwise distinct.
pub proof fn lemma_generic_names_distinct(t: GoType, c: nat)
    ensures
        forall|i: int, j: int|
            0 <= i < j < translated_generics(t, Some(c)).len() ==> translated_generics(
                t,
                Some(c),
            )[i].value != translated_generics(t, Some(c))[j].value,
{
    lemma_generic_names(t, c);
    let gens = translated_generics(t, Some(c));
    assert forall|i: int, j: int| 0 <= i < j < gens.len() implies gens[i].value
        != gens[j].value by {
        crate::text::lemma_dec_str_injective((c + i + 1) as nat, (c + j + 1) as nat);
        let a = seq!['T'] + dec_str((c + i + 1) as nat);
        let b = seq!['T'] + dec_str((c + j + 1) as nat);
        if a == b {
            assert(a.skip(1) =~= dec_str((c + i + 1) as nat));
            assert(b.skip(1) =~= dec_str((c + j + 1) as nat));
            assert(false);
        }
    }
}

} // verus!
