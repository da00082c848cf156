//! The in-memory declaration model: what one field declaration of the
//! source dialect holds, and what the emitted target-dialect declarations
//! hold. The rendering layer prints these; the core never writes text files.

use vstd::prelude::*;
use crate::go_type::GoType;
use crate::rust_type::{GenericModel, RustGeneric};

verus! {

/// A field's serialization tag: the serialized name, an optional trailing
/// inline comment, and the omit-if-empty flag.
#[derive(Debug)]
pub struct JsonMapping {
    pub name: String,
    pub comment: Option<String>,
    pub omit_empty: bool,
}

/// The mathematical content of a [`JsonMapping`].
#[verifier::ext_equal]
pub ghost struct JsonMappingModel {
    pub name: Seq<char>,
    pub comment: Option<Seq<char>>,
    pub omit_empty: bool,
}

impl View for JsonMapping {
    type V = JsonMappingModel;

    open spec fn view(&self) -> JsonMappingModel {
        JsonMappingModel {
            name: self.name@,
            comment: match self.comment {
                Some(c) => Some(c@),
                None => None,
            },
            omit_empty: self.omit_empty,
        }
    }
}

/// One declared field, built once from the syntax tree and consumed exactly
/// once by translation. `omit_empty` is already final: the tag's flag or
/// the field's pointer qualifier.
#[derive(Debug)]
pub struct FieldDef {
    pub name: String,
    pub json_name: Option<String>,
    pub comments: Vec<String>,
    pub omit_empty: bool,
    pub go_type: GoType,
    pub embedded: bool,
}

/// The mathematical content of a [`FieldDef`].
#[verifier::ext_equal]
pub ghost struct FieldModel {
    pub name: Seq<char>,
    pub json_name: Option<Seq<char>>,
    pub comments: Seq<Seq<char>>,
    pub omit_empty: bool,
    pub go_type: GoType,
    pub embedded: bool,
}

impl View for FieldDef {
    type V = FieldModel;

    open spec fn view(&self) -> FieldModel {
        FieldModel {
            name: self.name@,
            json_name: match self.json_name {
                Some(j) => Some(j@),
                None => None,
            },
            comments: self.comments@.map_values(|c: String| c@),
            omit_empty: self.omit_empty,
            go_type: self.go_type,
            embedded: self.embedded,
        }
    }
}

/// One emitted field: rewritten name, rendered type text, ordered
/// annotations, and its doc text, if any.
#[derive(Debug)]
pub struct RustField {
    pub name: String,
    pub value: String,
    pub annotations: Vec<String>,
    pub doc: Option<String>,
}

/// The mathematical content of a [`RustField`].
#[verifier::ext_equal]
pub ghost struct RustFieldModel {
    pub name: Seq<char>,
    pub value: Seq<char>,
    pub annotations: Seq<Seq<char>>,
    pub doc: Option<Seq<char>>,
}

impl View for RustField {
    type V = RustFieldModel;

    open spec fn view(&self) -> RustFieldModel {
        RustFieldModel {
            name: self.name@,
            value: self.value@,
            annotations: self.annotations@.map_values(|a: String| a@),
            doc: match self.doc {
                Some(d) => Some(d@),
                None => None,
            },
        }
    }
}

/// One emitted struct declaration: always public, with a fixed derive set,
/// its aggregated doc comment, generic parameters and fields.
#[derive(Debug)]
pub struct RustStruct {
    pub name: String,
    pub doc: Option<String>,
    pub derives: Vec<String>,
    pub generics: Vec<RustGeneric>,
    pub fields: Vec<RustField>,
}

/// The mathematical content of a [`RustStruct`].
#[verifier::ext_equal]
pub ghost struct RustStructModel {
    pub name: Seq<char>,
    pub doc: Option<Seq<char>>,
    pub derives: Seq<Seq<char>>,
    pub generics: Seq<GenericModel>,
    pub fields: Seq<RustFieldModel>,
}

impl View for RustStruct {
    type V = RustStructModel;

    open spec fn view(&self) -> RustStructModel {
        RustStructModel {
            name: self.name@,
            doc: match self.doc {
                Some(d) => Some(d@),
                None => None,
            },
            derives: self.derives@.map_values(|d: String| d@),
            generics: self.generics@.map_values(|g: RustGeneric| g@),
            fields: self.fields@.map_values(|f: RustField| f@),
        }
    }
}

/// One emitted type alias: the rewritten name, the annotations to print
/// above it, and the rendered target type text.
#[derive(Debug)]
pub struct RustAlias {
    pub name: String,
    pub annotations: Vec<String>,
    pub value: String,
}

/// One emitted top-level declaration.
#[derive(Debug)]
pub enum RustItem {
    Struct(RustStruct),
    Alias(RustAlias),
}

/// The mathematical content of a [`RustItem`].
#[verifier::ext_equal]
pub ghost enum RustItemModel {
    Struct(RustStructModel),
    Alias { name: Seq<char>, annotations: Seq<Seq<char>>, value: Seq<char> },
}

impl View for RustItem {
    type V = RustItemModel;

    open spec fn view(&self) -> RustItemModel {
        match self {
            RustItem::Struct(st) => RustItemModel::Struct(st@),
            RustItem::Alias(a) => RustItemModel::Alias {
                name: a.name@,
                annotations: a.annotations@.map_values(|x: String| x@),
                value: a.value@,
            },
        }
    }
}

/// The emitted module: the accepted declarations in input order, and the
/// import paths they need, sorted and deduplicated.
#[derive(Debug)]
pub struct RustModule {
    pub items: Vec<RustItem>,
    pub imports: Vec<String>,
}

} // verus!
