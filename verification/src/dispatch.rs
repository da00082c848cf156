//! The declaration dispatcher: walks the top-level syntax nodes, routes
//! struct and type-alias declarations to the translator, skips the
//! allow-listed declaration kinds, and fails fast on anything else.

use vstd::prelude::*;
use crate::convert::{
    denotes_field, denotes_go_type, doc_texts, is_last_child_with, parse_go_type,
    parse_struct_fields, parse_struct_preamble, span_ok, span_text, wf_fields_node,
    wf_preamble_node,
};
use crate::go_type::{package_ident_of, GoType};
use crate::text::spec_mangle;
use crate::decl::{FieldModel, RustItemModel};
use crate::decl::{FieldDef, RustAlias, RustItem, RustModule, RustStruct};
use crate::emit::{add_sorted_imports, build_rust_struct, sorted_unique};
use crate::error::Error;
use crate::go_type::parse_go_package_ident;
use crate::parser::{AwsGoEventsParser, Node, Rule};
use crate::rust_type::{translate_go_type_to_rust_type, translated_model, translation_error, RustType};
use crate::text::{mangle, parse_comment, trim_text};
use crate::GoCode;

verus! {

/// How a row of emitted field models is tied to a struct node: it is the
/// parsed row of the last fields child, or empty when there is none.
pub open spec fn fields_row(s: Seq<char>, n: Node, fs: Seq<FieldModel>) -> bool {
    &&& forall|i: int|
        (#[trigger] is_last_child_with(n, i, Rule::StructFields)) ==> (fs.len()
            == n.children@[i].children.len() && (forall|k: int|
            0 <= k < fs.len() ==> denotes_field(s, n.children@[i].children@[k], #[trigger] fs[k])))
    &&& (forall|q: int|
        0 <= q < n.children.len() ==> (#[trigger] n.children@[q].rule) != Rule::StructFields)
        ==> fs.len() == 0
}

/// Everything an emitted struct owes to its struct node: its model is the
/// emitter's model of the name spelled by the last preamble, the parsed
/// doc-comment lines, and a field row tied to the last fields child; its
/// import row holds that row's libraries.
pub open spec fn denotes_struct(
    s: Seq<char>,
    n: Node,
    sm: crate::decl::RustStructModel,
    libs: Set<Seq<char>>,
) -> bool {
    exists|nm: Seq<char>, fs: Seq<FieldModel>|
        #![trigger crate::emit::struct_model(nm, doc_texts(s, n.children@), fs)]
        {
            &&& (forall|i: int|
                is_last_child_with(n, i, Rule::StructPreamble) ==> (forall|j: int|
                    is_last_child_with(n.children@[i], j, Rule::StructName) ==> nm == span_text(
                        s,
                        n.children@[i].children@[j],
                    )))
            &&& nm.len() >= 1
            &&& fields_row(s, n, fs)
            &&& crate::emit::fields_error_from(fs, 0) is None
            &&& sm == crate::emit::struct_model(nm, doc_texts(s, n.children@), fs)
            &&& libs == crate::emit::struct_libraries_upto(fs, fs.len() as int)
        }
}

/// A well-shaped struct node: doc comments, well-shaped preambles and
/// field rows only, with at least one preamble.
pub open spec fn wf_struct_node(s: Seq<char>, n: Node) -> bool {
    &&& forall|q: int|
        0 <= q < n.children.len() ==> {
            let c = #[trigger] n.children@[q];
            match c.rule {
                Rule::DocComment => span_ok(s, c),
                Rule::StructPreamble => wf_preamble_node(s, c),
                Rule::StructFields => wf_fields_node(s, c),
                _ => false,
            }
        }
    &&& exists|q: int|
        0 <= q < n.children.len() && (#[trigger] n.children@[q].rule) is StructPreamble
}

/// A whole struct declaration node: gathers its doc comments, name and
/// fields, then builds the emitted struct and its import set. A successful
/// result is the emitter's model of exactly what the node declares; a
/// well-shaped node whose every field row translates succeeds.
pub fn parse_struct(src: &str, node: &Node) -> (r: Result<(RustStruct, Vec<String>), Error>)
    ensures
        r matches Ok(p) ==> denotes_struct(
            src@,
            *node,
            p.0@,
            crate::rust_type::libs_set(p.1@),
        ),
        (wf_struct_node(src@, *node) && (forall|fs: Seq<FieldModel>|
            fields_row(src@, *node, fs) ==> crate::emit::fields_error_from(fs, 0) is None))
            ==> r is Ok,
{
    let nc = node.children.len();
    let mut name: Option<String> = None;
    let mut fields: Vec<FieldDef> = Vec::new();
    let mut comments: Vec<String> = Vec::new();
    let ghost mut last_pre: int = 0;
    let ghost mut last_fields: int = 0;
    let mut i: usize = 0;
    while i < nc
        invariant
            nc == node.children@.len(),
            i <= nc,
            comments@.map_values(|c: String| c@) == doc_texts(
                src@,
                node.children@.take(i as int),
            ),
            (match name {
                Some(t) => 0 <= last_pre < i && node.children@[last_pre].rule is StructPreamble
                    && (forall|j: int|
                    is_last_child_with(node.children@[last_pre], j, Rule::StructName) ==> t@
                        == span_text(src@, node.children@[last_pre].children@[j])) && (exists|
                    j: int,
                |
                    #[trigger] is_last_child_with(node.children@[last_pre], j, Rule::StructName)
                        && span_ok(src@, node.children@[last_pre].children@[j]) && t@ == span_text(
                        src@,
                        node.children@[last_pre].children@[j],
                    )) && (forall|q: int|
                    last_pre < q < i ==> !((#[trigger] node.children@[q].rule)
                        is StructPreamble)),
                None => forall|q: int|
                    0 <= q < i ==> !((#[trigger] node.children@[q].rule) is StructPreamble),
            }),
            (if exists|q: int|
                0 <= q < i && (#[trigger] node.children@[q].rule) is StructFields {
                0 <= last_fields < i && node.children@[last_fields].rule is StructFields
                    && fields@.len() == node.children@[last_fields].children.len() && (forall|
                    k: int,
                |
                    0 <= k < fields@.len() ==> denotes_field(
                        src@,
                        node.children@[last_fields].children@[k],
                        (#[trigger] fields@[k])@,
                    )) && (forall|q: int|
                    last_fields < q < i ==> !((#[trigger] node.children@[q].rule)
                        is StructFields))
            } else {
                fields@.len() == 0
            }),
        decreases nc - i,
    {
        let child = &node.children[i];
        proof {
            assert(*child == node.children@[i as int]);
        }
        match child.rule {
            Rule::DocComment => {
                let n2 = src.unicode_len();
                if child.start > child.end || child.end > n2 {
                    proof {
                        assert(!span_ok(src@, node.children@[i as int]));
                    }
                    return Err(Error::Internal(String::from_str("node span outside the text")));
                }
                let raw = src.substring_char(child.start, child.end);
                comments.push(parse_comment(raw));
            },
            Rule::StructPreamble => {
                match parse_struct_preamble(src, child) {
                    Ok(t) => {
                        name = Some(t);
                    },
                    Err(e) => {
                        proof {
                            assert(!wf_preamble_node(src@, node.children@[i as int]));
                        }
                        return Err(e);
                    },
                }
                proof {
                    last_pre = i as int;
                }
            },
            Rule::StructFields => {
                match parse_struct_fields(src, child) {
                    Ok(v) => {
                        fields = v;
                    },
                    Err(e) => {
                        proof {
                            assert(!wf_fields_node(src@, node.children@[i as int]));
                        }
                        return Err(e);
                    },
                }
                proof {
                    last_fields = i as int;
                    assert(node.children@[i as int].rule is StructFields);
                }
            },
            _ => {
                return Err(Error::Internal(String::from_str("unexpected struct child node")));
            },
        }
        proof {
            let taken = node.children@.take(i + 1 as int);
            assert(taken.drop_last() =~= node.children@.take(i as int));
            assert(taken.last() == node.children@[i as int]);
            assert(comments@.map_values(|c: String| c@) =~= doc_texts(src@, taken));
        }
        i = i + 1;
    }
    proof {
        assert(node.children@.take(nc as int) =~= node.children@);
    }
    let struct_name = match name {
        Some(n) => n,
        None => {
            proof {
                if wf_struct_node(src@, *node) {
                    let q = choose|q: int|
                        0 <= q < node.children@.len() && (#[trigger] node.children@[q].rule)
                            is StructPreamble;
                    assert(false);
                }
            }
            return Err(Error::Internal(String::from_str("structs always have a name")));
        },
    };
    proof {
        // The parsed row is tied to the last fields child, so it is a
        // field row of this node.
        if exists|q: int| 0 <= q < nc && (#[trigger] node.children@[q].rule) is StructFields {
            assert(is_last_child_with(*node, last_fields, Rule::StructFields));
            assert forall|w: int| #[trigger] is_last_child_with(
                *node,
                w,
                Rule::StructFields,
            ) implies w == last_fields by {
                if w < last_fields {
                    assert(node.children@[last_fields].rule is StructFields);
                } else if w > last_fields {
                    assert(node.children@[w].rule is StructFields);
                }
            }
        } else {
            assert forall|w: int| !(#[trigger] is_last_child_with(
                *node,
                w,
                Rule::StructFields,
            )) by {
                if is_last_child_with(*node, w, Rule::StructFields) {
                    assert(node.children@[w].rule is StructFields);
                }
            }
        }
        assert(fields_row(src@, *node, crate::emit::field_views(fields@)));
        assert(is_last_child_with(*node, last_pre, Rule::StructPreamble));
        assert forall|w: int| #[trigger] is_last_child_with(
            *node,
            w,
            Rule::StructPreamble,
        ) implies w == last_pre by {
            if w < last_pre {
                assert(node.children@[last_pre].rule is StructPreamble);
            } else if w > last_pre {
                assert(node.children@[w].rule is StructPreamble);
            }
        }
        if wf_struct_node(src@, *node) {
            let j = choose|j: int|
                #[trigger] is_last_child_with(node.children@[last_pre], j, Rule::StructName)
                    && span_ok(src@, node.children@[last_pre].children@[j]) && struct_name@
                    == span_text(src@, node.children@[last_pre].children@[j]);
            assert(node.children@[last_pre].children@[j].start
                < node.children@[last_pre].children@[j].end);
            assert(struct_name@.len() >= 1);
        }
    }
    let r = build_rust_struct(struct_name.as_str(), &comments, &fields);
    proof {
        match &r {
            Ok(p) => {
                assert(p.0@ == crate::emit::struct_model(
                    struct_name@,
                    comments@.map_values(|c: String| c@),
                    crate::emit::field_views(fields@),
                ));
                assert(denotes_struct(
                    src@,
                    *node,
                    p.0@,
                    crate::rust_type::libs_set(p.1@),
                ));
            },
            Err(_) => {},
        }
    }
    r
}

/// A well-shaped local alias node: identifier and target children only,
/// each readable, with one of each present.
pub open spec fn wf_local_alias(s: Seq<char>, n: Node) -> bool {
    &&& forall|q: int|
        0 <= q < n.children.len() ==> {
            let c = #[trigger] n.children@[q];
            match c.rule {
                Rule::Ident => span_ok(s, c),
                Rule::TypeAliasTarget => exists|g: GoType| #[trigger] denotes_go_type(s, c, g),
                _ => false,
            }
        }
    &&& exists|q: int| 0 <= q < n.children.len() && (#[trigger] n.children@[q].rule) is Ident
    &&& exists|q: int|
        0 <= q < n.children.len() && (#[trigger] n.children@[q].rule) is TypeAliasTarget
}

/// Whether every type the last target child denotes translates with no
/// counter in scope.
pub open spec fn local_alias_translates(s: Seq<char>, n: Node) -> bool {
    forall|i: int, g: GoType|
        #![trigger is_last_child_with(n, i, Rule::TypeAliasTarget), denotes_go_type(s, n.children@[i], g)]
        is_last_child_with(n, i, Rule::TypeAliasTarget) && denotes_go_type(s, n.children@[i], g)
            ==> translation_error(g, None) is None
}

/// A well-shaped package alias node: identifier and recognized
/// package-qualified identifier children only, with one of each present.
pub open spec fn wf_package_alias(s: Seq<char>, n: Node) -> bool {
    &&& forall|q: int|
        0 <= q < n.children.len() ==> {
            let c = #[trigger] n.children@[q];
            match c.rule {
                Rule::Ident => span_ok(s, c),
                Rule::PackageIdent => span_ok(s, c) && package_ident_of(span_text(s, c)) is Some,
                _ => false,
            }
        }
    &&& exists|q: int| 0 <= q < n.children.len() && (#[trigger] n.children@[q].rule) is Ident
    &&& exists|q: int|
        0 <= q < n.children.len() && (#[trigger] n.children@[q].rule) is PackageIdent
}

/// Everything an emitted alias owes to its alias node: the mangled name
/// spelled by the last identifier child, and the translator's exact model
/// of the type denoted (or recognized) by the last target child.
pub open spec fn denotes_alias(
    s: Seq<char>,
    c: Node,
    nm: Seq<char>,
    m: crate::rust_type::RustTypeModel,
) -> bool {
    &&& forall|i: int|
        is_last_child_with(c, i, Rule::Ident) ==> nm == spec_mangle(span_text(s, c.children@[i]))
    &&& exists|g: GoType|
        #![trigger translated_model(g, None)]
        {
            &&& translation_error(g, None) is None
            &&& m == translated_model(g, None)
            &&& c.rule is LocalTypeAlias ==> (forall|i: int|
                is_last_child_with(c, i, Rule::TypeAliasTarget) ==> denotes_go_type(
                    s,
                    c.children@[i],
                    g,
                ))
            &&& c.rule is PackageTypeAlias ==> (forall|i: int|
                is_last_child_with(c, i, Rule::PackageIdent) ==> (span_ok(s, c.children@[i])
                    && package_ident_of(span_text(s, c.children@[i])) == Some(g)))
        }
}

/// A local type alias: the alias name and its target type, translated with
/// no generic counter in scope.
pub fn parse_local_type_alias(src: &str, node: &Node) -> (r: Result<
    Option<(String, RustType)>,
    Error,
>)
    ensures
        node.rule is LocalTypeAlias ==> (r matches Ok(v) ==> (v matches Some(p) ==> denotes_alias(
            src@,
            *node,
            p.0@,
            p.1@,
        ))),
        r matches Ok(v) ==> v is Some,
        (wf_local_alias(src@, *node) && local_alias_translates(src@, *node)) ==> r is Ok,
{
    let nc = node.children.len();
    let mut name: Option<String> = None;
    let mut target: Option<crate::go_type::GoType> = None;
    let ghost mut last_id: int = 0;
    let ghost mut last_tgt: int = 0;
    let mut i: usize = 0;
    while i < nc
        invariant
            nc == node.children@.len(),
            i <= nc,
            (match name {
                Some(t) => 0 <= last_id < i && node.children@[last_id].rule is Ident && t@
                    == spec_mangle(span_text(src@, node.children@[last_id])) && (forall|q: int|
                    last_id < q < i ==> !((#[trigger] node.children@[q].rule) is Ident)),
                None => forall|q: int|
                    0 <= q < i ==> !((#[trigger] node.children@[q].rule) is Ident),
            }),
            (match target {
                Some(g) => 0 <= last_tgt < i && node.children@[last_tgt].rule is TypeAliasTarget
                    && denotes_go_type(src@, node.children@[last_tgt], g) && (forall|q: int|
                    last_tgt < q < i ==> !((#[trigger] node.children@[q].rule)
                        is TypeAliasTarget)),
                None => forall|q: int|
                    0 <= q < i ==> !((#[trigger] node.children@[q].rule) is TypeAliasTarget),
            }),
        decreases nc - i,
    {
        let child = &node.children[i];
        proof {
            assert(*child == node.children@[i as int]);
        }
        match child.rule {
            Rule::Ident => {
                let n2 = src.unicode_len();
                if child.start > child.end || child.end > n2 {
                    proof {
                        assert(!span_ok(src@, node.children@[i as int]));
                    }
                    return Err(Error::Internal(String::from_str("node span outside the text")));
                }
                name = Some(mangle(src.substring_char(child.start, child.end)));
                proof {
                    last_id = i as int;
                }
            },
            Rule::TypeAliasTarget => {
                match parse_go_type(src, child) {
                    Ok(g) => {
                        target = Some(g);
                    },
                    Err(e) => {
                        proof {
                            assert(!(exists|g: GoType|
                                #[trigger] denotes_go_type(
                                    src@,
                                    node.children@[i as int],
                                    g,
                                )));
                        }
                        return Err(e);
                    },
                }
                proof {
                    last_tgt = i as int;
                }
            },
            _ => {
                return Err(Error::Internal(String::from_str("unexpected alias child node")));
            },
        }
        i = i + 1;
    }
    let name = match name {
        Some(n) => n,
        None => {
            proof {
                if wf_local_alias(src@, *node) {
                    let q = choose|q: int|
                        0 <= q < node.children@.len() && (#[trigger] node.children@[q].rule)
                            is Ident;
                    assert(false);
                }
            }
            return Err(Error::Internal(String::from_str("aliases have names")));
        },
    };
    let target = match target {
        Some(t) => t,
        None => {
            proof {
                if wf_local_alias(src@, *node) {
                    let q = choose|q: int|
                        0 <= q < node.children@.len() && (#[trigger] node.children@[q].rule)
                            is TypeAliasTarget;
                    assert(false);
                }
            }
            return Err(Error::Internal(String::from_str("aliases have targets")));
        },
    };
    proof {
        assert(is_last_child_with(*node, last_id, Rule::Ident));
        assert forall|w: int| #[trigger] is_last_child_with(*node, w, Rule::Ident) implies w
            == last_id by {
            if w < last_id {
                assert(node.children@[last_id].rule is Ident);
            } else if w > last_id {
                assert(node.children@[w].rule is Ident);
            }
        }
        assert(is_last_child_with(*node, last_tgt, Rule::TypeAliasTarget));
        assert forall|w: int| #[trigger] is_last_child_with(
            *node,
            w,
            Rule::TypeAliasTarget,
        ) implies w == last_tgt by {
            if w < last_tgt {
                assert(node.children@[last_tgt].rule is TypeAliasTarget);
            } else if w > last_tgt {
                assert(node.children@[w].rule is TypeAliasTarget);
            }
        }
    }
    match translate_go_type_to_rust_type(&target, None) {
        Ok((rust, _ctr)) => {
            proof {
                assert(rust@ == translated_model(target, None));
            }
            Ok(Some((name, rust)))
        },
        Err(e) => {
            proof {
                if wf_local_alias(src@, *node) && local_alias_translates(src@, *node) {
                    assert(denotes_go_type(src@, node.children@[last_tgt], target));
                    assert(translation_error(target, Option::<nat>::None) is None);
                    assert(false);
                }
            }
            Err(e)
        },
    }
}

/// A package-qualified type alias: only the two recognized qualified
/// identifiers translate; any other is fatal.
pub fn parse_package_type_alias(src: &str, node: &Node) -> (r: Result<
    Option<(String, RustType)>,
    Error,
>)
    ensures
        node.rule is PackageTypeAlias ==> (r matches Ok(v) ==> (v matches Some(p)
            ==> denotes_alias(src@, *node, p.0@, p.1@))),
        r matches Ok(v) ==> v is Some,
        wf_package_alias(src@, *node) ==> r is Ok,
{
    let nc = node.children.len();
    let mut name: Option<String> = None;
    let mut target: Option<crate::go_type::GoType> = None;
    let ghost mut last_id: int = 0;
    let ghost mut last_pk: int = 0;
    let mut i: usize = 0;
    while i < nc
        invariant
            nc == node.children@.len(),
            i <= nc,
            (match name {
                Some(t) => 0 <= last_id < i && node.children@[last_id].rule is Ident && t@
                    == spec_mangle(span_text(src@, node.children@[last_id])) && (forall|q: int|
                    last_id < q < i ==> !((#[trigger] node.children@[q].rule) is Ident)),
                None => forall|q: int|
                    0 <= q < i ==> !((#[trigger] node.children@[q].rule) is Ident),
            }),
            (match target {
                Some(g) => 0 <= last_pk < i && node.children@[last_pk].rule is PackageIdent
                    && span_ok(src@, node.children@[last_pk]) && package_ident_of(
                    span_text(src@, node.children@[last_pk]),
                ) == Some(g) && (forall|q: int|
                    last_pk < q < i ==> !((#[trigger] node.children@[q].rule) is PackageIdent)),
                None => forall|q: int|
                    0 <= q < i ==> !((#[trigger] node.children@[q].rule) is PackageIdent),
            }),
        decreases nc - i,
    {
        let child = &node.children[i];
        proof {
            assert(*child == node.children@[i as int]);
        }
        let n2 = src.unicode_len();
        if child.start > child.end || child.end > n2 {
            proof {
                assert(!span_ok(src@, node.children@[i as int]));
            }
            return Err(Error::Internal(String::from_str("node span outside the text")));
        }
        let text = src.substring_char(child.start, child.end);
        match child.rule {
            Rule::Ident => {
                name = Some(mangle(text));
                proof {
                    last_id = i as int;
                }
            },
            Rule::PackageIdent => {
                match parse_go_package_ident(text) {
                    Ok(g) => {
                        target = Some(g);
                    },
                    Err(e) => {
                        proof {
                            assert(package_ident_of(
                                span_text(src@, node.children@[i as int]),
                            ) is None);
                        }
                        return Err(e);
                    },
                }
                proof {
                    last_pk = i as int;
                }
            },
            _ => {
                return Err(Error::Internal(String::from_str("unexpected alias child node")));
            },
        }
        i = i + 1;
    }
    let name = match name {
        Some(n) => n,
        None => {
            proof {
                if wf_package_alias(src@, *node) {
                    let q = choose|q: int|
                        0 <= q < node.children@.len() && (#[trigger] node.children@[q].rule)
                            is Ident;
                    assert(false);
                }
            }
            return Err(Error::Internal(String::from_str("aliases have names")));
        },
    };
    let target = match target {
        Some(t) => t,
        None => {
            proof {
                if wf_package_alias(src@, *node) {
                    let q = choose|q: int|
                        0 <= q < node.children@.len() && (#[trigger] node.children@[q].rule)
                            is PackageIdent;
                    assert(false);
                }
            }
            return Err(Error::Internal(String::from_str("aliases have targets")));
        },
    };
    proof {
        assert(is_last_child_with(*node, last_id, Rule::Ident));
        assert forall|w: int| #[trigger] is_last_child_with(*node, w, Rule::Ident) implies w
            == last_id by {
            if w < last_id {
                assert(node.children@[last_id].rule is Ident);
            } else if w > last_id {
                assert(node.children@[w].rule is Ident);
            }
        }
        assert(is_last_child_with(*node, last_pk, Rule::PackageIdent));
        assert forall|w: int| #[trigger] is_last_child_with(
            *node,
            w,
            Rule::PackageIdent,
        ) implies w == last_pk by {
            if w < last_pk {
                assert(node.children@[last_pk].rule is PackageIdent);
            } else if w > last_pk {
                assert(node.children@[w].rule is PackageIdent);
            }
        }
        assert(translation_error(target, Option::<nat>::None) is None);
    }
    let (rust, _ctr) = translate_go_type_to_rust_type(&target, None).unwrap();
    proof {
        assert(rust@ == translated_model(target, None));
    }
    Ok(Some((name, rust)))
}

/// Whether child `i` is the last local-or-package alias body of an alias
/// node.
pub open spec fn is_last_alias_child(n: Node, i: int) -> bool {
    &&& 0 <= i < n.children.len()
    &&& (n.children@[i].rule is LocalTypeAlias || n.children@[i].rule is PackageTypeAlias)
    &&& forall|q: int|
        i < q < n.children.len() ==> !((#[trigger] n.children@[q].rule) is LocalTypeAlias
            || n.children@[q].rule is PackageTypeAlias)
}

/// A well-shaped alias node: local or package alias bodies only, each
/// well-shaped and translatable.
pub open spec fn wf_alias_node(s: Seq<char>, n: Node) -> bool {
    forall|q: int|
        0 <= q < n.children.len() ==> {
            let c = #[trigger] n.children@[q];
            match c.rule {
                Rule::LocalTypeAlias => wf_local_alias(s, c) && local_alias_translates(s, c),
                Rule::PackageTypeAlias => wf_package_alias(s, c),
                _ => false,
            }
        }
}

/// A type-alias node: local or package-qualified; the last body wins.
pub fn parse_type_alias(src: &str, node: &Node) -> (r: Result<Option<(String, RustType)>, Error>)
    ensures
        r matches Ok(v) ==> (v matches Some(p) ==> exists|i: int|
            #[trigger] is_last_alias_child(*node, i) && denotes_alias(
                src@,
                node.children@[i],
                p.0@,
                p.1@,
            )),
        r matches Ok(v) ==> (v is None ==> forall|q: int|
            0 <= q < node.children@.len() ==> !((#[trigger] node.children@[q].rule)
                is LocalTypeAlias || node.children@[q].rule is PackageTypeAlias)),
        wf_alias_node(src@, *node) ==> r is Ok,
{
    let nc = node.children.len();
    let mut value: Option<(String, RustType)> = None;
    let ghost mut last: int = 0;
    let mut i: usize = 0;
    while i < nc
        invariant
            nc == node.children@.len(),
            i <= nc,
            (match value {
                Some(p) => 0 <= last < i && (node.children@[last].rule is LocalTypeAlias
                    || node.children@[last].rule is PackageTypeAlias) && denotes_alias(
                    src@,
                    node.children@[last],
                    p.0@,
                    p.1@,
                ) && (forall|q: int|
                    last < q < i ==> !((#[trigger] node.children@[q].rule) is LocalTypeAlias
                        || node.children@[q].rule is PackageTypeAlias)),
                None => forall|q: int|
                    0 <= q < i ==> !((#[trigger] node.children@[q].rule) is LocalTypeAlias
                        || node.children@[q].rule is PackageTypeAlias),
            }),
        decreases nc - i,
    {
        let child = &node.children[i];
        proof {
            assert(*child == node.children@[i as int]);
        }
        match child.rule {
            Rule::LocalTypeAlias => {
                match parse_local_type_alias(src, child) {
                    Ok(v) => {
                        value = v;
                    },
                    Err(e) => {
                        proof {
                            assert(!(wf_local_alias(src@, node.children@[i as int])
                                && local_alias_translates(src@, node.children@[i as int])));
                        }
                        return Err(e);
                    },
                }
                proof {
                    last = i as int;
                }
            },
            Rule::PackageTypeAlias => {
                match parse_package_type_alias(src, child) {
                    Ok(v) => {
                        value = v;
                    },
                    Err(e) => {
                        proof {
                            assert(!wf_package_alias(src@, node.children@[i as int]));
                        }
                        return Err(e);
                    },
                }
                proof {
                    last = i as int;
                }
            },
            _ => {
                return Err(Error::Internal(String::from_str("unexpected alias node")));
            },
        }
        i = i + 1;
    }
    proof {
        match &value {
            Some(_p) => {
                assert(is_last_alias_child(*node, last));
                assert forall|w: int| #[trigger] is_last_alias_child(*node, w) implies w
                    == last by {
                    if w < last {
                        assert(node.children@[last].rule is LocalTypeAlias
                            || node.children@[last].rule is PackageTypeAlias);
                    } else if w > last {
                        assert(node.children@[w].rule is LocalTypeAlias
                            || node.children@[w].rule is PackageTypeAlias);
                    }
                }
            },
            None => {},
        }
    }
    Ok(value)
}

/// The top-level declaration kinds the dispatcher accepts: the two
/// translated forms, and the allow-list of kinds that are skipped.
pub open spec fn allowed_top_level(r: Rule) -> bool {
    ||| r is StructDef
    ||| r is TypeAlias
    ||| r is AnyComment
    ||| r is ConstantDef
    ||| r is PackageDef
    ||| r is Import
    ||| r is ImportMultiple
    ||| r is Function
    ||| r is EnumOptions
}

/// What one top-level node contributes: a struct node yields its denoted
/// struct; an alias node yields the alias its last body denotes.
pub open spec fn denotes_item(s: Seq<char>, n: Node, it: RustItemModel) -> bool {
    if n.rule is StructDef {
        it matches RustItemModel::Struct(sm) && (exists|libs: Set<Seq<char>>|
            #[trigger] denotes_struct(s, n, sm, libs))
    } else {
        it matches RustItemModel::Alias { name, annotations, value } && (exists|i: int|
            #[trigger] is_last_alias_child(n, i) && (exists|m: crate::rust_type::RustTypeModel|
                #![trigger denotes_alias(s, n.children@[i], name, m)]
                denotes_alias(s, n.children@[i], name, m) && annotations == m.annotations
                    && value == m.value))
    }
}

/// How the emitted items row is tied to the top-level nodes: one denoted
/// struct per struct node, one denoted alias per alias node with an alias
/// body, nothing for the skipped kinds, in order.
pub open spec fn denotes_items(s: Seq<char>, nodes: Seq<Node>, items: Seq<RustItemModel>) -> bool
    decreases nodes.len(),
{
    if nodes.len() == 0 {
        items.len() == 0
    } else {
        let n0 = nodes[0];
        if n0.rule is StructDef {
            items.len() >= 1 && denotes_item(s, n0, items[0]) && denotes_items(
                s,
                nodes.skip(1),
                items.skip(1),
            )
        } else if n0.rule is TypeAlias {
            (items.len() >= 1 && denotes_item(s, n0, items[0]) && denotes_items(
                s,
                nodes.skip(1),
                items.skip(1),
            )) || ((forall|q: int|
                0 <= q < n0.children.len() ==> !((#[trigger] n0.children@[q].rule)
                    is LocalTypeAlias || n0.children@[q].rule is PackageTypeAlias))
                && denotes_items(s, nodes.skip(1), items))
        } else {
            denotes_items(s, nodes.skip(1), items)
        }
    }
}

proof fn lemma_denotes_items_snoc(
    s: Seq<char>,
    nodes: Seq<Node>,
    items: Seq<RustItemModel>,
    n: Node,
    extra: Seq<RustItemModel>,
)
    requires
        denotes_items(s, nodes, items),
        n.rule is StructDef ==> (extra.len() == 1 && denotes_item(s, n, extra[0])),
        n.rule is TypeAlias ==> ((extra.len() == 1 && denotes_item(s, n, extra[0])) || (
        extra.len() == 0 && (forall|q: int|
            0 <= q < n.children.len() ==> !((#[trigger] n.children@[q].rule) is LocalTypeAlias
                || n.children@[q].rule is PackageTypeAlias)))),
        (!(n.rule is StructDef) && !(n.rule is TypeAlias)) ==> extra.len() == 0,
    ensures
        denotes_items(s, nodes.push(n), items + extra),
    decreases nodes.len(),
{
    if nodes.len() == 0 {
        reveal_with_fuel(denotes_items, 3);
        assert(nodes.push(n)[0] == n);
        assert(nodes.push(n).skip(1) =~= Seq::<Node>::empty());
        assert((items + extra) =~= extra);
        assert((items + extra).skip(1) =~= extra.skip(1));
        assert((items + extra).len() == extra.len());
        if n.rule is StructDef || (n.rule is TypeAlias && extra.len() == 1) {
            assert((items + extra)[0] == extra[0]);
        }
    } else {
        assert(nodes.push(n)[0] == nodes[0]);
        assert(nodes.push(n).skip(1) =~= nodes.skip(1).push(n));
        let n0 = nodes[0];
        if n0.rule is StructDef {
            lemma_denotes_items_snoc(s, nodes.skip(1), items.skip(1), n, extra);
            assert((items + extra)[0] == items[0]);
            assert((items + extra).skip(1) =~= items.skip(1) + extra);
        } else if n0.rule is TypeAlias {
            if items.len() >= 1 && denotes_item(s, n0, items[0]) && denotes_items(
                s,
                nodes.skip(1),
                items.skip(1),
            ) {
                lemma_denotes_items_snoc(s, nodes.skip(1), items.skip(1), n, extra);
                assert((items + extra)[0] == items[0]);
                assert((items + extra).skip(1) =~= items.skip(1) + extra);
            } else {
                lemma_denotes_items_snoc(s, nodes.skip(1), items, n, extra);
            }
        } else {
            lemma_denotes_items_snoc(s, nodes.skip(1), items, n, extra);
        }
    }
}

/// What one top-level node needs for the dispatcher to accept it: a
/// well-shaped, translatable struct or alias declaration, or a kind on the
/// skip allow-list.
pub open spec fn top_level_translates(s: Seq<char>, n: Node) -> bool {
    if n.rule is StructDef {
        wf_struct_node(s, n) && (forall|fs: Seq<FieldModel>|
            fields_row(s, n, fs) ==> crate::emit::fields_error_from(fs, 0) is None)
    } else if n.rule is TypeAlias {
        wf_alias_node(s, n)
    } else {
        allowed_top_level(n.rule)
    }
}

/// Walks the top-level nodes in order: each struct declaration becomes one
/// emitted struct with its imports merged into the module's sorted import
/// row; each type alias becomes one emitted alias the same way; the
/// allow-listed kinds are skipped; any other kind aborts the whole
/// translation naming the offending text, before any output is produced.
/// The emitted items are exactly what the nodes denote, in order, and a
/// row of well-shaped, translatable declarations always succeeds.
pub fn dispatch_top_level(src: &str, nodes: &Vec<Node>) -> (r: Result<RustModule, Error>)
    ensures
        r matches Ok(m) ==> sorted_unique(m.imports@.map_values(|s2: String| s2@)),
        r matches Ok(m) ==> forall|j: int|
            0 <= j < nodes@.len() ==> allowed_top_level(#[trigger] nodes@[j].rule),
        r matches Ok(m) ==> denotes_items(
            src@,
            nodes@,
            m.items@.map_values(|it: RustItem| it@),
        ),
        (forall|j: int|
            0 <= j < nodes@.len() ==> top_level_translates(src@, #[trigger] nodes@[j])) ==> r
            is Ok,
        forall|j: int|
            (0 <= j < nodes@.len() && (forall|q: int|
                0 <= q < j ==> top_level_translates(src@, #[trigger] nodes@[q]))
                && !allowed_top_level((#[trigger] nodes@[j]).rule)) ==> (r matches Err(e) && e
                matches Error::UnexpectedTopLevel(t) && (crate::convert::span_ok(src@, nodes@[j])
                ==> t@ == crate::convert::span_text(src@, nodes@[j]))),
{
    let mut items: Vec<RustItem> = Vec::new();
    let mut imports: Vec<String> = Vec::new();
    let n = nodes.len();
    let mut i: usize = 0;
    proof {
        assert(nodes@.take(0) =~= Seq::<Node>::empty());
    }
    while i < n
        invariant
            n == nodes@.len(),
            i <= n,
            sorted_unique(imports@.map_values(|s2: String| s2@)),
            forall|j: int| 0 <= j < i ==> allowed_top_level(#[trigger] nodes@[j].rule),
            denotes_items(src@, nodes@.take(i as int), items@.map_values(|it: RustItem| it@)),
        decreases n - i,
    {
        let node = &nodes[i];
        proof {
            assert(*node == nodes@[i as int]);
        }
        let ghost pre_items = items@.map_values(|it: RustItem| it@);
        match node.rule {
            Rule::StructDef => {
                match parse_struct(src, node) {
                    Ok((parsed_struct, required_libraries)) => {
                        proof {
                            assert(denotes_item(
                                src@,
                                nodes@[i as int],
                                RustItemModel::Struct(parsed_struct@),
                            ));
                        }
                        items.push(RustItem::Struct(parsed_struct));
                        add_sorted_imports(&mut imports, &required_libraries);
                        proof {
                            let extra = seq![items@.last()@];
                            assert(extra.len() == 1);
                            assert(extra[0] == items@.last()@);
                            assert(denotes_item(src@, nodes@[i as int], extra[0]));
                            lemma_denotes_items_snoc(
                                src@,
                                nodes@.take(i as int),
                                pre_items,
                                nodes@[i as int],
                                extra,
                            );
                            assert(nodes@.take(i + 1 as int) =~= nodes@.take(i as int).push(
                                nodes@[i as int],
                            ));
                            assert(items@.map_values(|it: RustItem| it@) =~= pre_items + extra);
                        }
                    },
                    Err(e) => {
                        proof {
                            assert(!top_level_translates(src@, nodes@[i as int]));
                            assert forall|j: int|
                                !(0 <= j < nodes@.len() && (forall|q: int|
                                    0 <= q < j ==> top_level_translates(
                                        src@,
                                        #[trigger] nodes@[q],
                                    )) && !allowed_top_level((#[trigger] nodes@[j]).rule)) by {
                                if 0 <= j < nodes@.len() && (forall|q: int|
                                    0 <= q < j ==> top_level_translates(src@, nodes@[q]))
                                    && !allowed_top_level(nodes@[j].rule) {
                                    if j < i as int {
                                        assert(allowed_top_level(nodes@[j].rule));
                                    } else if j == i as int {
                                        assert(allowed_top_level(nodes@[i as int].rule));
                                    } else {
                                        assert(top_level_translates(src@, nodes@[i as int]));
                                    }
                                }
                            }
                        }
                        return Err(e);
                    },
                }
            },
            Rule::TypeAlias => {
                match parse_type_alias(src, node) {
                    Ok(alias) => {
                        match alias {
                            Some((name, target)) => {
                                add_sorted_imports(&mut imports, &target.libraries);
                                let ghost nm = name@;
                                let ghost tm = target@;
                                items.push(
                                    RustItem::Alias(
                                        RustAlias {
                                            name,
                                            annotations: target.annotations,
                                            value: target.value,
                                        },
                                    ),
                                );
                                proof {
                                    assert(items@.last()@ matches RustItemModel::Alias {
                                        name: n2,
                                        annotations: an,
                                        value: va,
                                    } && n2 == nm && an == tm.annotations && va == tm.value);
                                    let w = choose|w: int|
                                        #[trigger] is_last_alias_child(nodes@[i as int], w)
                                            && denotes_alias(
                                            src@,
                                            nodes@[i as int].children@[w],
                                            nm,
                                            tm,
                                        );
                                    assert(denotes_alias(
                                        src@,
                                        nodes@[i as int].children@[w],
                                        nm,
                                        tm,
                                    ));
                                    assert(denotes_item(
                                        src@,
                                        nodes@[i as int],
                                        items@.last()@,
                                    ));
                                    let extra = seq![items@.last()@];
                                    assert(extra.len() == 1);
                                    assert(extra[0] == items@.last()@);
                                    lemma_denotes_items_snoc(
                                        src@,
                                        nodes@.take(i as int),
                                        pre_items,
                                        nodes@[i as int],
                                        extra,
                                    );
                                    assert(nodes@.take(i + 1 as int) =~= nodes@.take(
                                        i as int,
                                    ).push(nodes@[i as int]));
                                    assert(items@.map_values(|it: RustItem| it@) =~= pre_items
                                        + extra);
                                }
                            },
                            None => {
                                proof {
                                    lemma_denotes_items_snoc(
                                        src@,
                                        nodes@.take(i as int),
                                        pre_items,
                                        nodes@[i as int],
                                        Seq::empty(),
                                    );
                                    assert(nodes@.take(i + 1 as int) =~= nodes@.take(
                                        i as int,
                                    ).push(nodes@[i as int]));
                                    assert(items@.map_values(|it: RustItem| it@) =~= pre_items
                                        + Seq::<RustItemModel>::empty());
                                }
                            },
                        }
                    },
                    Err(e) => {
                        proof {
                            assert(!top_level_translates(src@, nodes@[i as int]));
                            assert forall|j: int|
                                !(0 <= j < nodes@.len() && (forall|q: int|
                                    0 <= q < j ==> top_level_translates(
                                        src@,
                                        #[trigger] nodes@[q],
                                    )) && !allowed_top_level((#[trigger] nodes@[j]).rule)) by {
                                if 0 <= j < nodes@.len() && (forall|q: int|
                                    0 <= q < j ==> top_level_translates(src@, nodes@[q]))
                                    && !allowed_top_level(nodes@[j].rule) {
                                    if j < i as int {
                                        assert(allowed_top_level(nodes@[j].rule));
                                    } else if j == i as int {
                                        assert(allowed_top_level(nodes@[i as int].rule));
                                    } else {
                                        assert(top_level_translates(src@, nodes@[i as int]));
                                    }
                                }
                            }
                        }
                        return Err(e);
                    },
                }
            },
            Rule::AnyComment
            | Rule::ConstantDef
            | Rule::PackageDef
            | Rule::Import
            | Rule::ImportMultiple
            | Rule::Function
            | Rule::EnumOptions => {
                proof {
                    lemma_denotes_items_snoc(
                        src@,
                        nodes@.take(i as int),
                        pre_items,
                        nodes@[i as int],
                        Seq::empty(),
                    );
                    assert(nodes@.take(i + 1 as int) =~= nodes@.take(i as int).push(
                        nodes@[i as int],
                    ));
                    assert(items@.map_values(|it: RustItem| it@) =~= pre_items + Seq::<
                        RustItemModel,
                    >::empty());
                }
            },
            _ => {
                let n2 = src.unicode_len();
                let text: String = if node.start <= node.end && node.end <= n2 {
                    src.substring_char(node.start, node.end).to_owned()
                } else {
                    String::new()
                };
                proof {
                    assert(!allowed_top_level(nodes@[i as int].rule));
                    assert(!top_level_translates(src@, nodes@[i as int]));
                    assert forall|j: int|
                        (0 <= j < nodes@.len() && (forall|q: int|
                            0 <= q < j ==> top_level_translates(src@, #[trigger] nodes@[q]))
                            && !allowed_top_level((#[trigger] nodes@[j]).rule)) implies j == i
                        as int by {
                        if j < i as int {
                            assert(allowed_top_level(nodes@[j].rule));
                        } else if j > i as int {
                            assert(top_level_translates(src@, nodes@[i as int]));
                        }
                    }
                }
                return Err(Error::UnexpectedTopLevel(text));
            },
        }
        i = i + 1;
    }
    proof {
        assert(nodes@.take(n as int) =~= nodes@);
    }
    Ok(RustModule { items, imports })
}

/// The models of an emitted item row.
pub open spec fn items_view(items: Seq<RustItem>) -> Seq<RustItemModel> {
    items.map_values(|it: RustItem| it@)
}

/// The input text as the parser sees it: surrounding whitespace trimmed.
pub open spec fn trimmed_src(x: Seq<char>) -> Seq<char> {
    crate::text::trim_end_spaces(crate::text::trim_start_spaces(x))
}

/// Whether some top-level node row, every node of an allowed kind, denotes
/// exactly the emitted items.
pub open spec fn dispatched_from(s: Seq<char>, nodes: Seq<Node>, items: Seq<RustItem>) -> bool {
    &&& forall|j: int| 0 <= j < nodes.len() ==> allowed_top_level(#[trigger] nodes[j].rule)
    &&& denotes_items(s, nodes, items_view(items))
}

/// Whether some row the grammar accepts for the text, every node of an
/// allowed kind, denotes exactly the emitted items.
pub open spec fn dispatched_from_some(s: Seq<char>, items: Seq<RustItem>) -> bool {
    exists|nodes: Seq<Node>|
        #[trigger] dispatched_from(s, nodes, items) && crate::parser::parses_to(s, nodes)
}

/// Translates one unit of declaration source text: parses it, dispatches
/// the top-level declarations, and returns the original text unchanged
/// alongside the emitted module. On success, some top-level node row of
/// the trimmed text, every node of an allowed kind, denotes exactly the
/// emitted items; an empty input always succeeds with an empty module.
/// Every failure is fatal: there is no partial output.
#[verifier::rlimit(100)]
#[verifier::spinoff_prover]
pub fn parse_go_string(go_source: String) -> (r: Result<(GoCode, RustModule), Error>)
    ensures
        r matches Ok(p) ==> (p.0.0@ == go_source@ && sorted_unique(
            p.1.imports@.map_values(|s2: String| s2@),
        )),
        r matches Ok(p) ==> dispatched_from_some(trimmed_src(go_source@), p.1.items@),
        trimmed_src(go_source@).len() == 0 ==> (r matches Ok(p) && p.1.items@.len() == 0),
{
    let trimmed = trim_text(go_source.as_str());
    let nodes = match AwsGoEventsParser::parse(Rule::AwsGoEvents, trimmed.as_str()) {
        Ok(v) => v,
        Err(e) => {
            return Err(e);
        },
    };
    let module = match dispatch_top_level(trimmed.as_str(), &nodes) {
        Ok(m) => m,
        Err(e) => {
            return Err(e);
        },
    };
    let out = (GoCode(go_source), module);
    proof {
        assert(trimmed@ == trimmed_src(go_source@));
        assert(dispatched_from(trimmed_src(go_source@), nodes@, out.1.items@));
        assert(crate::parser::parses_to(trimmed_src(go_source@), nodes@));
        assert(dispatched_from_some(trimmed_src(go_source@), out.1.items@));
    }
    Ok(out)
}

} // verus!
