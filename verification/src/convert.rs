//! From syntax-tree nodes to the declaration model: types, tags, fields and
//! struct parts. Every expectation about node shape is checked; a node that
//! does not carry what its rule promises is an internal, fatal error.

use vstd::prelude::*;
use crate::decl::{FieldDef, JsonMapping};
use crate::error::Error;
use crate::go_type::{
    package_ident_of, parse_go_ident, parse_go_package_ident, parse_go_type_primitive,
    primitive_of, GoType,
};
use crate::parser::{Node, Rule};
use crate::text::{mangle, parse_comment, spec_mangle};

verus! {

/// Whether a node's span lies inside the text.
pub open spec fn span_ok(s: Seq<char>, n: Node) -> bool {
    n.start <= n.end <= s.len()
}

/// The characters a node matched.
pub open spec fn span_text(s: Seq<char>, n: Node) -> Seq<char> {
    s.subrange(n.start as int, n.end as int)
}

/// Whether an identifier spelling denotes a type: the two special
/// spellings become epoch-timestamp wrappers; everything else is a
/// user-defined named type spelled the same way.
pub open spec fn ident_denotes(t: Seq<char>, g: GoType) -> bool {
    if t == "MilliSecondsEpochTime"@ {
        g is TimestampMillisecondsType
    } else if t == "SecondsEpochTime"@ {
        g is TimestampSecondsType
    } else {
        g matches GoType::UserDefined(u) && u@ == t
    }
}

/// Whether a type node in wrapper position denotes the type `g`.
pub open spec fn denotes_go_type(s: Seq<char>, n: Node, g: GoType) -> bool
    decreases n, 2int,
{
    if n.rule is ValueType || n.rule is StructFieldType || n.rule is TypeAliasTarget {
        n.children.len() == 1 && denotes_go_type_bare(s, n.children@[0], g)
    } else {
        denotes_go_type_bare(s, n, g)
    }
}

/// Whether a bare type node denotes the type `g`.
pub open spec fn denotes_go_type_bare(s: Seq<char>, n: Node, g: GoType) -> bool
    decreases n, 1int,
{
    match n.rule {
        Rule::Array => denotes_array(s, n, g),
        Rule::GoMap => denotes_map(s, n, g),
        Rule::PointerType => denotes_pointer(s, n, g),
        Rule::Primitive => span_ok(s, n) && primitive_of(span_text(s, n)) == Some(g),
        Rule::Ident => span_ok(s, n) && ident_denotes(span_text(s, n), g),
        Rule::PackageIdent => span_ok(s, n) && package_ident_of(span_text(s, n)) == Some(g),
        Rule::Interface => span_ok(s, n) && g is InterfaceType,
        _ => false,
    }
}

/// Whether an array node denotes the type `g`: a sequence of what its one
/// element child denotes; an element identifier is taken as spelled, with
/// no special-casing.
pub open spec fn denotes_array(s: Seq<char>, n: Node, g: GoType) -> bool
    decreases n, 0int,
{
    n.children.len() == 1 && (g matches GoType::ArrayType(inner) && {
        let c = n.children@[0];
        match c.rule {
            Rule::Primitive => span_ok(s, c) && primitive_of(span_text(s, c)) == Some(*inner),
            Rule::Ident => span_ok(s, c) && (*inner matches GoType::UserDefined(u) && u@
                == span_text(s, c)),
            Rule::GoMap => denotes_map(s, c, *inner),
            Rule::Array => denotes_array(s, c, *inner),
            _ => false,
        }
    })
}

/// Whether a map node denotes the type `g`: its key text spells a
/// primitive kind, and its value child denotes the value type.
pub open spec fn denotes_map(s: Seq<char>, n: Node, g: GoType) -> bool
    decreases n, 0int,
{
    n.children.len() == 2 && n.children@[0].rule is KeyType && (g matches GoType::MapType(k, v)
        && span_ok(s, n.children@[0]) && primitive_of(span_text(s, n.children@[0])) == Some(*k)
        && denotes_go_type(s, n.children@[1], *v))
}

/// Whether a pointer node denotes the type `g`: every child is a pointer
/// mark or a value child, and `g` is optional-of what the last value child
/// denotes.
pub open spec fn denotes_pointer(s: Seq<char>, n: Node, g: GoType) -> bool
    decreases n, 0int,
{
    &&& forall|q: int|
        0 <= q < n.children.len() ==> ((#[trigger] n.children@[q].rule) is Pointer
            || n.children@[q].rule is ValueType)
    &&& g matches GoType::PointerType(inner) && (exists|j: int|
        0 <= j < n.children.len() && (#[trigger] n.children@[j].rule) is ValueType
            && denotes_go_type(s, n.children@[j], *inner) && (forall|q: int|
            j < q < n.children.len() ==> !((#[trigger] n.children@[q].rule) is ValueType)))
}

/// The text a node matched.
fn node_text(src: &str, node: &Node) -> (r: Result<String, Error>)
    ensures
        r matches Ok(t) ==> (span_ok(src@, *node) && t@ == span_text(src@, *node)),
        r is Err ==> !span_ok(src@, *node),
{
    let n = src.unicode_len();
    if node.start > node.end || node.end > n {
        return Err(Error::Internal(String::from_str("node span outside the text")));
    }
    Ok(src.substring_char(node.start, node.end).to_owned())
}

/// An interface type node: the dynamic any placeholder. The matched text is
/// not inspected further.
pub fn parse_go_type_interface(_t: &str) -> (r: Result<GoType, Error>)
    ensures
        r matches Ok(g) && g is InterfaceType,
{
    Ok(GoType::InterfaceType)
}

/// Maps one type node into the closed source-type set.
pub fn parse_go_type(src: &str, node: &Node) -> (r: Result<GoType, Error>)
    ensures
        r matches Ok(g) ==> denotes_go_type(src@, *node, g),
        (exists|g: GoType| #[trigger] denotes_go_type(src@, *node, g)) ==> r is Ok,
    decreases *node, 2int,
{
    match node.rule {
        Rule::ValueType | Rule::StructFieldType | Rule::TypeAliasTarget => {
            if node.children.len() != 1 {
                return Err(Error::Internal(String::from_str("a type node carries one child")));
            }
            proof {
                assert(decreases_to!(*node => node.children@[0]));
            }
            let r = parse_go_type_inner(src, &node.children[0]);
            proof {
                if exists|g: GoType| #[trigger] denotes_go_type(src@, *node, g) {
                    let g0 = choose|g: GoType| #[trigger] denotes_go_type(src@, *node, g);
                    assert(denotes_go_type_bare(src@, node.children@[0], g0));
                }
            }
            r
        },
        _ => {
            let r = parse_go_type_inner(src, node);
            proof {
                if exists|g: GoType| #[trigger] denotes_go_type(src@, *node, g) {
                    let g0 = choose|g: GoType| #[trigger] denotes_go_type(src@, *node, g);
                    assert(denotes_go_type_bare(src@, *node, g0));
                }
            }
            r
        },
    }
}

fn parse_go_type_inner(src: &str, node: &Node) -> (r: Result<GoType, Error>)
    ensures
        r matches Ok(g) ==> denotes_go_type_bare(src@, *node, g),
        (exists|g: GoType| #[trigger] denotes_go_type_bare(src@, *node, g)) ==> r is Ok,
    decreases *node, 1int,
{
    match node.rule {
        Rule::Array => {
            let r = parse_go_type_array(src, node);
            proof {
                if exists|g: GoType| #[trigger] denotes_go_type_bare(src@, *node, g) {
                    let g0 = choose|g: GoType| #[trigger] denotes_go_type_bare(src@, *node, g);
                    assert(denotes_array(src@, *node, g0));
                }
            }
            r
        },
        Rule::GoMap => {
            let r = parse_go_type_map(src, node);
            proof {
                if exists|g: GoType| #[trigger] denotes_go_type_bare(src@, *node, g) {
                    let g0 = choose|g: GoType| #[trigger] denotes_go_type_bare(src@, *node, g);
                    assert(denotes_map(src@, *node, g0));
                }
            }
            r
        },
        Rule::PointerType => {
            let r = parse_go_type_pointer(src, node);
            proof {
                if exists|g: GoType| #[trigger] denotes_go_type_bare(src@, *node, g) {
                    let g0 = choose|g: GoType| #[trigger] denotes_go_type_bare(src@, *node, g);
                    assert(denotes_pointer(src@, *node, g0));
                }
            }
            r
        },
        Rule::Primitive => {
            let t = node_text(src, node)?;
            parse_go_type_primitive(t.as_str())
        },
        Rule::Ident => {
            let t = node_text(src, node)?;
            parse_go_ident(t.as_str())
        },
        Rule::PackageIdent => {
            let t = node_text(src, node)?;
            parse_go_package_ident(t.as_str())
        },
        Rule::Interface => {
            let t = node_text(src, node)?;
            parse_go_type_interface(t.as_str())
        },
        _ => Err(Error::Internal(String::from_str("not a type node"))),
    }
}

/// An array node: its element child becomes the element type. An element
/// identifier is taken as a user-defined name as spelled.
pub fn parse_go_type_array(src: &str, node: &Node) -> (r: Result<GoType, Error>)
    ensures
        r matches Ok(g) ==> denotes_array(src@, *node, g),
        (exists|g: GoType| #[trigger] denotes_array(src@, *node, g)) ==> r is Ok,
    decreases *node, 0int,
{
    if node.children.len() != 1 {
        return Err(Error::Internal(String::from_str("an array node carries one child")));
    }
    proof {
        assert(decreases_to!(*node => node.children@[0]));
    }
    let child = &node.children[0];
    match child.rule {
        Rule::Primitive => {
            let t = node_text(src, child)?;
            let inner = parse_go_type_primitive(t.as_str())?;
            Ok(GoType::ArrayType(Box::new(inner)))
        },
        Rule::Ident => {
            let t = node_text(src, child)?;
            Ok(GoType::ArrayType(Box::new(GoType::UserDefined(t))))
        },
        Rule::GoMap => {
            match parse_go_type_map(src, child) {
                Ok(inner) => Ok(GoType::ArrayType(Box::new(inner))),
                Err(e) => {
                    proof {
                        assert forall|g: GoType| !denotes_array(src@, *node, g) by {
                            if denotes_array(src@, *node, g) {
                                let inner = g->ArrayType_0;
                                assert(denotes_map(src@, node.children@[0], *inner));
                            }
                        }
                    }
                    Err(e)
                },
            }
        },
        Rule::Array => {
            match parse_go_type_array(src, child) {
                Ok(inner) => Ok(GoType::ArrayType(Box::new(inner))),
                Err(e) => {
                    proof {
                        assert forall|g: GoType| !denotes_array(src@, *node, g) by {
                            if denotes_array(src@, *node, g) {
                                let inner = g->ArrayType_0;
                                assert(denotes_array(src@, node.children@[0], *inner));
                            }
                        }
                    }
                    Err(e)
                },
            }
        },
        _ => Err(Error::Internal(String::from_str("unexpected array element node"))),
    }
}

/// A map node: the key text must spell a primitive kind; the value child
/// becomes the value type.
pub fn parse_go_type_map(src: &str, node: &Node) -> (r: Result<GoType, Error>)
    ensures
        r matches Ok(g) ==> denotes_map(src@, *node, g),
        (exists|g: GoType| #[trigger] denotes_map(src@, *node, g)) ==> r is Ok,
        (node.children@.len() == 2 && node.children@[0].rule is KeyType && span_ok(
            src@,
            node.children@[0],
        ) && primitive_of(span_text(src@, node.children@[0])) is None) ==> (r matches Err(e) && e
            matches Error::UnsupportedGoPrimitive(t) && t@ == span_text(
            src@,
            node.children@[0],
        )),
    decreases *node, 0int,
{
    if node.children.len() != 2 {
        return Err(Error::Internal(String::from_str("a map node carries key and value")));
    }
    let key_node = &node.children[0];
    if !(key_node.rule == Rule::KeyType) {
        return Err(Error::Internal(String::from_str("a map node starts with its key")));
    }
    let key_text = node_text(src, key_node)?;
    let key = parse_go_type_primitive(key_text.as_str())?;
    proof {
        assert(decreases_to!(*node => node.children@[1]));
    }
    match parse_go_type(src, &node.children[1]) {
        Ok(value) => Ok(GoType::MapType(Box::new(key), Box::new(value))),
        Err(e) => {
            proof {
                assert forall|g: GoType| !denotes_map(src@, *node, g) by {
                    if denotes_map(src@, *node, g) {
                        let v = g->MapType_1;
                        assert(denotes_go_type(src@, node.children@[1], *v));
                    }
                }
            }
            Err(e)
        },
    }
}

/// A pointer node: every child must be a pointer mark or a value child,
/// and the last value child becomes the pointed-at inner type.
pub fn parse_go_type_pointer(src: &str, node: &Node) -> (r: Result<GoType, Error>)
    ensures
        r matches Ok(g) ==> denotes_pointer(src@, *node, g),
        (exists|g: GoType| #[trigger] denotes_pointer(src@, *node, g)) ==> r is Ok,
    decreases *node, 0int,
{
    let nc = node.children.len();
    let mut last_value: Option<usize> = None;
    let mut i: usize = 0;
    while i < nc
        invariant
            nc == node.children@.len(),
            i <= nc,
            forall|q: int|
                0 <= q < i ==> ((#[trigger] node.children@[q].rule) is Pointer
                    || node.children@[q].rule is ValueType),
            (match last_value {
                Some(j) => 0 <= j < i && node.children@[j as int].rule is ValueType && (forall|
                    q: int,
                |
                    j < q < i ==> !((#[trigger] node.children@[q].rule) is ValueType)),
                None => forall|q: int|
                    0 <= q < i ==> !((#[trigger] node.children@[q].rule) is ValueType),
            }),
        decreases nc - i,
    {
        let child = &node.children[i];
        match child.rule {
            Rule::Pointer => {},
            Rule::ValueType => {
                last_value = Some(i);
            },
            _ => {
                proof {
                    assert forall|g: GoType| !denotes_pointer(src@, *node, g) by {
                        assert(!(node.children@[i as int].rule is Pointer)
                            && !(node.children@[i as int].rule is ValueType));
                    }
                }
                return Err(Error::Internal(String::from_str("unexpected pointer child node")));
            },
        }
        i = i + 1;
    }
    match last_value {
        Some(j) => {
            proof {
                assert(decreases_to!(*node => node.children@[j as int]));
            }
            match parse_go_type(src, &node.children[j]) {
                Ok(g) => {
                    proof {
                        assert(denotes_pointer(
                            src@,
                            *node,
                            GoType::PointerType(Box::new(g)),
                        )) by {
                            assert(node.children@[j as int].rule is ValueType
                                && denotes_go_type(src@, node.children@[j as int], g));
                        }
                    }
                    Ok(GoType::PointerType(Box::new(g)))
                },
                Err(e) => {
                    proof {
                        assert forall|g: GoType| !denotes_pointer(src@, *node, g) by {
                            if denotes_pointer(src@, *node, g) {
                                let inner = g->PointerType_0;
                                let jj = choose|jj: int|
                                    0 <= jj < node.children@.len() && (#[trigger] node.children@[jj].rule)
                                        is ValueType && denotes_go_type(
                                        src@,
                                        node.children@[jj],
                                        *inner,
                                    ) && (forall|q: int|
                                        jj < q < node.children@.len() ==> !((
                                        #[trigger] node.children@[q].rule) is ValueType));
                                if jj < j {
                                    assert(!(node.children@[j as int].rule is ValueType));
                                    assert(false);
                                } else if jj > j {
                                    assert(!(node.children@[jj].rule is ValueType));
                                    assert(false);
                                } else {
                                    assert(denotes_go_type(
                                        src@,
                                        node.children@[j as int],
                                        *inner,
                                    ));
                                    assert(false);
                                }
                            }
                        }
                    }
                    Err(e)
                },
            }
        },
        None => {
            proof {
                assert forall|g: GoType| !denotes_pointer(src@, *node, g) by {
                    if denotes_pointer(src@, *node, g) {
                        let inner = g->PointerType_0;
                        let jj = choose|jj: int|
                            0 <= jj < node.children@.len() && (#[trigger] node.children@[jj].rule)
                                is ValueType && denotes_go_type(src@, node.children@[jj], *inner)
                                && (forall|q: int|
                                jj < q < node.children@.len() ==> !((
                                #[trigger] node.children@[q].rule) is ValueType));
                        assert(!(node.children@[jj].rule is ValueType));
                        assert(false);
                    }
                }
            }
            Err(Error::Internal(String::from_str("something pointed at")))
        },
    }
}

/// Whether a tag node carries the omit-if-empty flag.
pub open spec fn tag_node_omits(n: Node) -> bool {
    exists|i: int| 0 <= i < n.children.len() && (#[trigger] n.children@[i].rule) is OmitEmpty
}

/// A well-shaped tag node: every child is a serialized name, an inline
/// comment or the omit flag, with its span inside the text, and there is a
/// serialized name.
pub open spec fn wf_tag_node(s: Seq<char>, n: Node) -> bool {
    &&& forall|q: int|
        0 <= q < n.children.len() ==> (((#[trigger] n.children@[q].rule) is JsonName
            || n.children@[q].rule is AnyComment || n.children@[q].rule is OmitEmpty) && span_ok(
            s,
            n.children@[q],
        ))
    &&& exists|q: int| 0 <= q < n.children.len() && (#[trigger] n.children@[q].rule) is JsonName
}

/// Whether child `j` is the last inline-comment child of a tag node.
pub open spec fn is_last_tag_comment(n: Node, j: int) -> bool {
    0 <= j < n.children.len() && n.children@[j].rule is AnyComment && (forall|q: int|
        j < q < n.children.len() ==> !((#[trigger] n.children@[q].rule) is AnyComment))
}

/// Whether child `j` is the last serialized-name child of a tag node.
pub open spec fn is_last_tag_name(n: Node, j: int) -> bool {
    0 <= j < n.children.len() && n.children@[j].rule is JsonName && (forall|q: int|
        j < q < n.children.len() ==> !((#[trigger] n.children@[q].rule) is JsonName))
}

/// A serialization tag node: the serialized name, the omit flag, and the
/// trailing inline comment, if any.
pub fn parse_json_mapping(src: &str, node: &Node) -> (r: Result<JsonMapping, Error>)
    ensures
        r matches Ok(m) ==> (m.omit_empty == tag_node_omits(*node) && (forall|j: int|
            is_last_tag_name(*node, j) ==> m.name@ == span_text(src@, node.children@[j]))),
        r matches Ok(m) ==> ((forall|q: int|
            0 <= q < node.children@.len() ==> !((#[trigger] node.children@[q].rule)
                is AnyComment)) ==> m.comment is None),
        r matches Ok(m) ==> (forall|j: int|
            is_last_tag_comment(*node, j) ==> (m.comment matches Some(c) && c@
                == crate::text::spec_parse_comment(span_text(src@, node.children@[j])))),
        wf_tag_node(src@, *node) ==> r is Ok,
{
    let nc = node.children.len();
    let mut name: Option<String> = None;
    let mut comment: Option<String> = None;
    let mut omit_empty = false;
    let ghost mut last_name: int = 0;
    let ghost mut last_comment: int = 0;
    let mut i: usize = 0;
    while i < nc
        invariant
            nc == node.children@.len(),
            i <= nc,
            omit_empty == exists|q: int|
                0 <= q < i && (#[trigger] node.children@[q].rule) is OmitEmpty,
            (match name {
                Some(t) => 0 <= last_name < i && node.children@[last_name].rule is JsonName
                    && span_ok(src@, node.children@[last_name]) && t@ == span_text(
                    src@,
                    node.children@[last_name],
                ) && (forall|q: int|
                    last_name < q < i ==> !((#[trigger] node.children@[q].rule) is JsonName)),
                None => forall|q: int|
                    0 <= q < i ==> !((#[trigger] node.children@[q].rule) is JsonName),
            }),
            (match comment {
                Some(c) => 0 <= last_comment < i && node.children@[last_comment].rule
                    is AnyComment && c@ == crate::text::spec_parse_comment(
                    span_text(src@, node.children@[last_comment]),
                ) && (forall|q: int|
                    last_comment < q < i ==> !((#[trigger] node.children@[q].rule) is AnyComment)),
                None => forall|q: int|
                    0 <= q < i ==> !((#[trigger] node.children@[q].rule) is AnyComment),
            }),
        decreases nc - i,
    {
        let child = &node.children[i];
        match child.rule {
            Rule::JsonName => {
                match node_text(src, child) {
                    Ok(t) => {
                        name = Some(t);
                    },
                    Err(e) => {
                        proof {
                            assert(!span_ok(src@, node.children@[i as int]));
                        }
                        return Err(e);
                    },
                }
                proof {
                    last_name = i as int;
                }
            },
            Rule::AnyComment => {
                match node_text(src, child) {
                    Ok(t) => {
                        comment = Some(parse_comment(t.as_str()));
                    },
                    Err(e) => {
                        proof {
                            assert(!span_ok(src@, node.children@[i as int]));
                        }
                        return Err(e);
                    },
                }
                proof {
                    last_comment = i as int;
                }
            },
            Rule::OmitEmpty => {
                omit_empty = true;
                proof {
                    assert(node.children@[i as int].rule is OmitEmpty);
                }
            },
            _ => {
                return Err(Error::Internal(String::from_str("unexpected tag child node")));
            },
        }
        i = i + 1;
    }
    match name {
        Some(n) => Ok(JsonMapping { name: n, comment, omit_empty }),
        None => Err(Error::Internal(String::from_str("json mappings always have a name"))),
    }
}

spec fn pointer_prefix_seen(children: Seq<Node>, upto: int, flag: bool) -> bool {
    forall|a: int, b: int|
        0 <= a < upto && (#[trigger] children[a].rule) is StructFieldDecl && 0 <= b
            < children[a].children.len() && (#[trigger] children[a].children[b].rule)
            is Pointer ==> flag
}

/// Whether child `i` is the last serialization-tag child of a field node.
pub open spec fn is_last_field_tag(n: Node, i: int) -> bool {
    0 <= i < n.children.len() && n.children@[i].rule is JsonMapping && (forall|q: int|
        i < q < n.children.len() ==> !((#[trigger] n.children@[q].rule) is JsonMapping))
}

/// Whether the tag that governs a field (its last tag child) carries the
/// omit-if-empty flag.
pub open spec fn field_tag_omits(n: Node) -> bool {
    exists|i: int| #[trigger] is_last_field_tag(n, i) && tag_node_omits(n.children@[i])
}

/// Whether a field node's declaration carries a pointer qualifier.
pub open spec fn field_node_has_pointer(n: Node) -> bool {
    exists|i: int, j: int|
        0 <= i < n.children.len() && (#[trigger] n.children[i].rule) is StructFieldDecl && 0 <= j
            < n.children[i].children.len() && (#[trigger] n.children[i].children[j].rule)
            is Pointer
}

spec fn embedded_prefix_seen(children: Seq<Node>, upto: int, flag: bool) -> bool {
    forall|a: int, b: int|
        0 <= a < upto && (#[trigger] children[a].rule) is StructFieldDecl && 0 <= b
            < children[a].children.len() && (#[trigger] children[a].children[b].rule)
            is StructEmbeddedField ==> flag
}

/// Whether a field node's declaration has an embedded part.
pub open spec fn field_node_has_embedded(n: Node) -> bool {
    exists|i: int, j: int|
        0 <= i < n.children.len() && (#[trigger] n.children[i].rule) is StructFieldDecl && 0 <= j
            < n.children[i].children.len() && (#[trigger] n.children[i].children[j].rule)
            is StructEmbeddedField
}

/// The declaration parts that name a field.
pub open spec fn is_naming_part(p: Node) -> bool {
    p.rule is Ident || p.rule is StructEmbeddedField
}

/// The declaration parts that type a field.
pub open spec fn is_typing_part(p: Node) -> bool {
    p.rule is StructFieldType || p.rule is StructEmbeddedField
}

/// Whether declaration part `j` of declaration child `i` is the last
/// naming part of a field node.
pub open spec fn is_last_naming_part(n: Node, i: int, j: int) -> bool {
    &&& 0 <= i < n.children.len() && n.children@[i].rule is StructFieldDecl
    &&& 0 <= j < n.children@[i].children.len() && is_naming_part(n.children@[i].children@[j])
    &&& forall|q: int|
        j < q < n.children@[i].children.len() ==> !is_naming_part(
            #[trigger] n.children@[i].children@[q],
        )
    &&& forall|a: int, b: int|
        i < a < n.children.len() && (#[trigger] n.children@[a].rule) is StructFieldDecl && 0 <= b
            < n.children@[a].children.len() ==> !is_naming_part(
            #[trigger] n.children@[a].children@[b],
        )
}

/// Whether declaration part `j` of declaration child `i` is the last
/// typing part of a field node.
pub open spec fn is_last_typing_part(n: Node, i: int, j: int) -> bool {
    &&& 0 <= i < n.children.len() && n.children@[i].rule is StructFieldDecl
    &&& 0 <= j < n.children@[i].children.len() && is_typing_part(n.children@[i].children@[j])
    &&& forall|q: int|
        j < q < n.children@[i].children.len() ==> !is_typing_part(
            #[trigger] n.children@[i].children@[q],
        )
    &&& forall|a: int, b: int|
        i < a < n.children.len() && (#[trigger] n.children@[a].rule) is StructFieldDecl && 0 <= b
            < n.children@[a].children.len() ==> !is_typing_part(
            #[trigger] n.children@[a].children@[b],
        )
}

/// What a typing part denotes: a field-type wrapper's type, or for an
/// embedded part the type its one identifier child denotes.
pub open spec fn part_denotes_type(s: Seq<char>, p: Node, g: GoType) -> bool {
    if p.rule is StructFieldType {
        denotes_go_type(s, p, g)
    } else {
        p.children.len() == 1 && denotes_go_type(s, p.children@[0], g)
    }
}

/// The parsed texts of a row's doc-comment children, in order.
pub open spec fn doc_texts(s: Seq<char>, children: Seq<Node>) -> Seq<Seq<char>>
    decreases children.len(),
{
    if children.len() == 0 {
        Seq::empty()
    } else {
        let rest = doc_texts(s, children.drop_last());
        if children.last().rule is DocComment {
            rest.push(crate::text::spec_parse_comment(span_text(s, children.last())))
        } else {
            rest
        }
    }
}

/// Doc lines with a trailing inline comment attached, separated by one
/// blank line when both exist.
pub open spec fn with_inline(docs: Seq<Seq<char>>, c: Seq<char>) -> Seq<Seq<char>> {
    if docs.len() == 0 {
        seq![c]
    } else {
        docs + seq![Seq::<char>::empty()] + seq![c]
    }
}

/// A well-shaped declaration part: its text (or its embedded child's
/// denoted type) is available.
pub open spec fn wf_decl_part(s: Seq<char>, p: Node) -> bool {
    match p.rule {
        Rule::Ident => span_ok(s, p),
        Rule::Pointer => true,
        Rule::StructFieldType => exists|g: GoType| #[trigger] denotes_go_type(s, p, g),
        Rule::StructEmbeddedField => span_ok(s, p) && p.children.len() == 1 && (exists|g: GoType|
            #[trigger] denotes_go_type(s, p.children@[0], g)),
        _ => false,
    }
}

/// A well-shaped field child: a well-shaped tag, a doc comment, or a
/// declaration of well-shaped parts.
pub open spec fn wf_field_child(s: Seq<char>, c: Node) -> bool {
    match c.rule {
        Rule::JsonMapping => wf_tag_node(s, c),
        Rule::DocComment => span_ok(s, c),
        Rule::StructFieldDecl => forall|j: int|
            0 <= j < c.children.len() ==> wf_decl_part(s, #[trigger] c.children@[j]),
        _ => false,
    }
}

/// A well-shaped field node: every child well-shaped, with at least one
/// naming and one typing declaration part.
pub open spec fn wf_field_node(s: Seq<char>, n: Node) -> bool {
    &&& forall|i: int| 0 <= i < n.children.len() ==> wf_field_child(s, #[trigger] n.children@[i])
    &&& exists|i: int, j: int|
        0 <= i < n.children.len() && (#[trigger] n.children@[i].rule) is StructFieldDecl && 0 <= j
            < n.children@[i].children.len() && is_naming_part(
            #[trigger] n.children@[i].children@[j],
        )
    &&& exists|i: int, j: int|
        0 <= i < n.children.len() && (#[trigger] n.children@[i].rule) is StructFieldDecl && 0 <= j
            < n.children@[i].children.len() && is_typing_part(
            #[trigger] n.children@[i].children@[j],
        )
}

/// A field node: doc comments, the declaration (name, pointer qualifier,
/// type, or an embedded name), and the tag. The emitted field's name and
/// type come from the last naming and typing parts; its serialized name
/// and inline comment from the last tag; its final omit flag is the tag's
/// flag, or set by the pointer qualifier: a pointer can be nil and
/// essentially empty, so a pointer-qualified field is always omit-capable,
/// whatever its tag says.
pub fn parse_struct_field(src: &str, node: &Node) -> (r: Result<FieldDef, Error>)
    ensures
        r matches Ok(f) ==> f.omit_empty == (field_tag_omits(*node) || field_node_has_pointer(
            *node,
        )),
        r matches Ok(f) ==> f.embedded == field_node_has_embedded(*node),
        r matches Ok(f) ==> (exists|i: int, j: int|
            #[trigger] is_last_naming_part(*node, i, j) && f.name@ == spec_mangle(
                span_text(src@, node.children@[i].children@[j]),
            )),
        r matches Ok(f) ==> (exists|i: int, j: int|
            #[trigger] is_last_typing_part(*node, i, j) && part_denotes_type(
                src@,
                node.children@[i].children@[j],
                f.go_type,
            )),
        r matches Ok(f) ==> ((forall|q: int|
            0 <= q < node.children@.len() ==> !((#[trigger] node.children@[q].rule)
                is JsonMapping)) ==> f.json_name is None),
        r matches Ok(f) ==> (forall|i: int, j: int|
            #![trigger is_last_field_tag(*node, i), is_last_tag_name(node.children@[i], j)]
            is_last_field_tag(*node, i) && is_last_tag_name(node.children@[i], j) ==> (
            f.json_name matches Some(t) && t@ == span_text(
                src@,
                node.children@[i].children@[j],
            ))),
        r matches Ok(f) ==> ((forall|q: int|
            0 <= q < node.children@.len() ==> !((#[trigger] node.children@[q].rule)
                is JsonMapping)) ==> f.comments@.map_values(|c: String| c@) == doc_texts(
            src@,
            node.children@,
        )),
        r matches Ok(f) ==> (forall|i: int|
            (#[trigger] is_last_field_tag(*node, i)) ==> ((forall|q: int|
                0 <= q < node.children@[i].children.len() ==> !((
                #[trigger] node.children@[i].children@[q].rule) is AnyComment))
                ==> f.comments@.map_values(|c: String| c@) == doc_texts(src@, node.children@))),
        r matches Ok(f) ==> (forall|i: int, j: int|
            #![trigger is_last_field_tag(*node, i), is_last_tag_comment(node.children@[i], j)]
            is_last_field_tag(*node, i) && is_last_tag_comment(node.children@[i], j)
                ==> f.comments@.map_values(|c: String| c@) == with_inline(
                doc_texts(src@, node.children@),
                crate::text::spec_parse_comment(span_text(src@, node.children@[i].children@[j])),
            )),
        wf_field_node(src@, *node) ==> r is Ok,
{
    let nc = node.children.len();
    let mut name: Option<String> = None;
    let mut json: Option<JsonMapping> = None;
    let mut go_type: Option<GoType> = None;
    let mut comments: Vec<String> = Vec::new();
    let mut is_pointer = false;
    let mut embedded = false;
    let ghost mut last_tag: int = 0;
    let ghost mut nli: int = 0;
    let ghost mut nlj: int = 0;
    let ghost mut tli: int = 0;
    let ghost mut tlj: int = 0;
    let mut i: usize = 0;
    while i < nc
        invariant
            nc == node.children@.len(),
            i <= nc,
            pointer_prefix_seen(node.children@, i as int, is_pointer),
            is_pointer ==> field_node_has_pointer(*node),
            embedded_prefix_seen(node.children@, i as int, embedded),
            embedded ==> field_node_has_embedded(*node),
            comments@.map_values(|c: String| c@) == doc_texts(
                src@,
                node.children@.take(i as int),
            ),
            (match name {
                Some(t) => 0 <= nli < i && node.children@[nli].rule is StructFieldDecl && 0 <= nlj
                    < node.children@[nli].children.len() && is_naming_part(
                    node.children@[nli].children@[nlj],
                ) && t@ == spec_mangle(span_text(src@, node.children@[nli].children@[nlj])) && (
                forall|q: int|
                    nlj < q < node.children@[nli].children.len() ==> !is_naming_part(
                        #[trigger] node.children@[nli].children@[q],
                    )) && (forall|a: int, b: int|
                    nli < a < i && (#[trigger] node.children@[a].rule) is StructFieldDecl && 0 <= b
                        < node.children@[a].children.len() ==> !is_naming_part(
                        #[trigger] node.children@[a].children@[b],
                    )),
                None => forall|a: int, b: int|
                    0 <= a < i && (#[trigger] node.children@[a].rule) is StructFieldDecl && 0 <= b
                        < node.children@[a].children.len() ==> !is_naming_part(
                        #[trigger] node.children@[a].children@[b],
                    ),
            }),
            (match go_type {
                Some(g) => 0 <= tli < i && node.children@[tli].rule is StructFieldDecl && 0 <= tlj
                    < node.children@[tli].children.len() && is_typing_part(
                    node.children@[tli].children@[tlj],
                ) && part_denotes_type(src@, node.children@[tli].children@[tlj], g) && (forall|
                    q: int,
                |
                    tlj < q < node.children@[tli].children.len() ==> !is_typing_part(
                        #[trigger] node.children@[tli].children@[q],
                    )) && (forall|a: int, b: int|
                    tli < a < i && (#[trigger] node.children@[a].rule) is StructFieldDecl && 0 <= b
                        < node.children@[a].children.len() ==> !is_typing_part(
                        #[trigger] node.children@[a].children@[b],
                    )),
                None => forall|a: int, b: int|
                    0 <= a < i && (#[trigger] node.children@[a].rule) is StructFieldDecl && 0 <= b
                        < node.children@[a].children.len() ==> !is_typing_part(
                        #[trigger] node.children@[a].children@[b],
                    ),
            }),
            (match json {
                Some(m) => 0 <= last_tag < i && node.children@[last_tag].rule is JsonMapping
                    && m.omit_empty == tag_node_omits(node.children@[last_tag]) && (forall|jj: int|
                    is_last_tag_name(node.children@[last_tag], jj) ==> m.name@ == span_text(
                        src@,
                        node.children@[last_tag].children@[jj],
                    )) && ((forall|q: int|
                    0 <= q < node.children@[last_tag].children.len() ==> !((
                    #[trigger] node.children@[last_tag].children@[q].rule) is AnyComment))
                    ==> m.comment is None) && (forall|jj: int|
                    is_last_tag_comment(node.children@[last_tag], jj) ==> (m.comment matches Some(
                        c,
                    ) && c@ == crate::text::spec_parse_comment(
                        span_text(src@, node.children@[last_tag].children@[jj]),
                    ))) && (forall|q: int|
                    last_tag < q < i ==> !((#[trigger] node.children@[q].rule) is JsonMapping)),
                None => forall|q: int|
                    0 <= q < i ==> !((#[trigger] node.children@[q].rule) is JsonMapping),
            }),
        decreases nc - i,
    {
        let child = &node.children[i];
        proof {
            assert(*child == node.children@[i as int]);
        }
        match child.rule {
            Rule::JsonMapping => {
                match parse_json_mapping(src, child) {
                    Ok(m) => {
                        json = Some(m);
                    },
                    Err(e) => {
                        proof {
                            assert(!wf_tag_node(src@, node.children@[i as int]));
                            assert(!wf_field_child(src@, node.children@[i as int]));
                        }
                        return Err(e);
                    },
                }
                proof {
                    last_tag = i as int;
                }
            },
            Rule::DocComment => {
                let ghost pre = comments@;
                match node_text(src, child) {
                    Ok(t) => {
                        comments.push(parse_comment(t.as_str()));
                    },
                    Err(e) => {
                        proof {
                            assert(!span_ok(src@, node.children@[i as int]));
                            assert(!wf_field_child(src@, node.children@[i as int]));
                        }
                        return Err(e);
                    },
                }
                proof {
                    let taken = node.children@.take(i + 1 as int);
                    assert(taken.drop_last() =~= node.children@.take(i as int));
                    assert(taken.last() == node.children@[i as int]);
                    assert(comments@.map_values(|c: String| c@) =~= doc_texts(src@, taken));
                }
            },
            Rule::StructFieldDecl => {
                let dc = child.children.len();
                let mut j: usize = 0;
                while j < dc
                    invariant
                        nc == node.children@.len(),
                        i < nc,
                        *child == node.children@[i as int],
                        child.rule is StructFieldDecl,
                        dc == child.children@.len(),
                        j <= dc,
                        pointer_prefix_seen(node.children@, i as int, is_pointer),
                        is_pointer ==> field_node_has_pointer(*node),
                        embedded_prefix_seen(node.children@, i as int, embedded),
                        embedded ==> field_node_has_embedded(*node),
                        forall|b: int|
                            0 <= b < j && (#[trigger] child.children@[b].rule) is Pointer
                                ==> is_pointer,
                        forall|b: int|
                            0 <= b < j && (#[trigger] child.children@[b].rule)
                                is StructEmbeddedField ==> embedded,
                        (match name {
                            Some(t) => (nli == i && 0 <= nlj < j && is_naming_part(
                                child.children@[nlj],
                            ) && t@ == spec_mangle(span_text(src@, child.children@[nlj])) && (
                            forall|q: int|
                                nlj < q < j ==> !is_naming_part(#[trigger] child.children@[q])))
                                || (0 <= nli < i && node.children@[nli].rule is StructFieldDecl
                                && 0 <= nlj < node.children@[nli].children.len()
                                && is_naming_part(node.children@[nli].children@[nlj]) && t@
                                == spec_mangle(span_text(src@, node.children@[nli].children@[nlj]))
                                && (forall|q: int|
                                nlj < q < node.children@[nli].children.len() ==> !is_naming_part(
                                    #[trigger] node.children@[nli].children@[q],
                                )) && (forall|a: int, b: int|
                                nli < a < i && (#[trigger] node.children@[a].rule)
                                    is StructFieldDecl && 0 <= b
                                    < node.children@[a].children.len() ==> !is_naming_part(
                                    #[trigger] node.children@[a].children@[b],
                                )) && (forall|q: int|
                                0 <= q < j ==> !is_naming_part(#[trigger] child.children@[q]))),
                            None => (forall|a: int, b: int|
                                0 <= a < i && (#[trigger] node.children@[a].rule)
                                    is StructFieldDecl && 0 <= b
                                    < node.children@[a].children.len() ==> !is_naming_part(
                                    #[trigger] node.children@[a].children@[b],
                                )) && (forall|q: int|
                                0 <= q < j ==> !is_naming_part(#[trigger] child.children@[q])),
                        }),
                        (match go_type {
                            Some(g) => (tli == i && 0 <= tlj < j && is_typing_part(
                                child.children@[tlj],
                            ) && part_denotes_type(src@, child.children@[tlj], g) && (forall|
                                q: int,
                            |
                                tlj < q < j ==> !is_typing_part(#[trigger] child.children@[q])))
                                || (0 <= tli < i && node.children@[tli].rule is StructFieldDecl
                                && 0 <= tlj < node.children@[tli].children.len()
                                && is_typing_part(node.children@[tli].children@[tlj])
                                && part_denotes_type(src@, node.children@[tli].children@[tlj], g)
                                && (forall|q: int|
                                tlj < q < node.children@[tli].children.len() ==> !is_typing_part(
                                    #[trigger] node.children@[tli].children@[q],
                                )) && (forall|a: int, b: int|
                                tli < a < i && (#[trigger] node.children@[a].rule)
                                    is StructFieldDecl && 0 <= b
                                    < node.children@[a].children.len() ==> !is_typing_part(
                                    #[trigger] node.children@[a].children@[b],
                                )) && (forall|q: int|
                                0 <= q < j ==> !is_typing_part(#[trigger] child.children@[q]))),
                            None => (forall|a: int, b: int|
                                0 <= a < i && (#[trigger] node.children@[a].rule)
                                    is StructFieldDecl && 0 <= b
                                    < node.children@[a].children.len() ==> !is_typing_part(
                                    #[trigger] node.children@[a].children@[b],
                                )) && (forall|q: int|
                                0 <= q < j ==> !is_typing_part(#[trigger] child.children@[q])),
                        }),
                    decreases dc - j,
                {
                    proof {
                        assert(decreases_to!(*child => child.children@[j as int]));
                    }
                    let part = &child.children[j];
                    proof {
                        assert(*part == child.children@[j as int]);
                    }
                    match part.rule {
                        Rule::Ident => {
                            match node_text(src, part) {
                                Ok(t) => {
                                    name = Some(mangle(t.as_str()));
                                },
                                Err(e) => {
                                    proof {
                                        assert(!wf_decl_part(src@, child.children@[j as int]));
                                        assert(!wf_field_child(
                                            src@,
                                            node.children@[i as int],
                                        ));
                                    }
                                    return Err(e);
                                },
                            }
                            proof {
                                nli = i as int;
                                nlj = j as int;
                            }
                        },
                        Rule::Pointer => {
                            is_pointer = true;
                            proof {
                                assert(node.children@[i as int].rule is StructFieldDecl);
                                assert(node.children@[i as int].children@[j as int].rule
                                    is Pointer);
                                assert(field_node_has_pointer(*node));
                            }
                        },
                        Rule::StructFieldType => {
                            match parse_go_type(src, part) {
                                Ok(g) => {
                                    go_type = Some(g);
                                },
                                Err(e) => {
                                    proof {
                                        assert(!wf_decl_part(src@, child.children@[j as int]));
                                        assert(!wf_field_child(
                                            src@,
                                            node.children@[i as int],
                                        ));
                                    }
                                    return Err(e);
                                },
                            }
                            proof {
                                tli = i as int;
                                tlj = j as int;
                            }
                        },
                        Rule::StructEmbeddedField => {
                            match node_text(src, part) {
                                Ok(t) => {
                                    name = Some(mangle(t.as_str()));
                                },
                                Err(e) => {
                                    proof {
                                        assert(!wf_decl_part(src@, child.children@[j as int]));
                                        assert(!wf_field_child(
                                            src@,
                                            node.children@[i as int],
                                        ));
                                    }
                                    return Err(e);
                                },
                            }
                            if part.children.len() != 1 {
                                proof {
                                    assert(!wf_decl_part(src@, child.children@[j as int]));
                                    assert(!wf_field_child(src@, node.children@[i as int]));
                                }
                                return Err(
                                    Error::Internal(
                                        String::from_str("an embedded field carries its name"),
                                    ),
                                );
                            }
                            proof {
                                assert(decreases_to!(*part => part.children@[0]));
                            }
                            match parse_go_type(src, &part.children[0]) {
                                Ok(g) => {
                                    go_type = Some(g);
                                },
                                Err(e) => {
                                    proof {
                                        assert(!wf_decl_part(src@, child.children@[j as int]));
                                        assert(!wf_field_child(
                                            src@,
                                            node.children@[i as int],
                                        ));
                                    }
                                    return Err(e);
                                },
                            }
                            embedded = true;
                            proof {
                                nli = i as int;
                                nlj = j as int;
                                tli = i as int;
                                tlj = j as int;
                                assert(node.children@[i as int].rule is StructFieldDecl);
                                assert(node.children@[i as int].children@[j as int].rule
                                    is StructEmbeddedField);
                                assert(field_node_has_embedded(*node));
                            }
                        },
                        _ => {
                            proof {
                                assert(!wf_decl_part(src@, child.children@[j as int]));
                                assert(!wf_field_child(src@, node.children@[i as int]));
                            }
                            return Err(
                                Error::Internal(
                                    String::from_str("invalid node in a field declaration"),
                                ),
                            );
                        },
                    }
                    j = j + 1;
                }
                proof {
                    assert(pointer_prefix_seen(node.children@, i + 1 as int, is_pointer));
                    assert(embedded_prefix_seen(node.children@, i + 1 as int, embedded));
                    let taken = node.children@.take(i + 1 as int);
                    assert(taken.drop_last() =~= node.children@.take(i as int));
                    assert(taken.last() == node.children@[i as int]);
                    assert(comments@.map_values(|c: String| c@) =~= doc_texts(src@, taken));
                }
            },
            _ => {
                proof {
                    assert(!wf_field_child(src@, node.children@[i as int]));
                }
                return Err(Error::Internal(String::from_str("unexpected field child node")));
            },
        }
        proof {
            if !(node.children@[i as int].rule is DocComment) {
                let taken = node.children@.take(i + 1 as int);
                assert(taken.drop_last() =~= node.children@.take(i as int));
                assert(taken.last() == node.children@[i as int]);
                assert(comments@.map_values(|c: String| c@) =~= doc_texts(src@, taken));
            }
        }
        i = i + 1;
    }
    proof {
        assert(node.children@.take(nc as int) =~= node.children@);
        if field_node_has_pointer(*node) {
            let (a, b): (int, int) = choose|a: int, b: int|
                0 <= a < node.children@.len() && node.children@[a].rule is StructFieldDecl && 0 <= b
                    < node.children@[a].children.len() && node.children@[a].children@[b].rule
                    is Pointer;
            assert(is_pointer);
        }
        if field_node_has_embedded(*node) {
            let (a, b): (int, int) = choose|a: int, b: int|
                0 <= a < node.children@.len() && node.children@[a].rule is StructFieldDecl && 0 <= b
                    < node.children@[a].children.len() && node.children@[a].children@[b].rule
                    is StructEmbeddedField;
            assert(embedded);
        }
        match &json {
            Some(_m) => {
                assert(is_last_field_tag(*node, last_tag));
                assert forall|w: int| #[trigger] is_last_field_tag(*node, w) implies w
                    == last_tag by {
                    if w < last_tag {
                        assert(node.children@[last_tag].rule is JsonMapping);
                    } else if w > last_tag {
                        assert(node.children@[w].rule is JsonMapping);
                    }
                }
            },
            None => {
                assert forall|w: int| !(#[trigger] is_last_field_tag(*node, w)) by {
                    if is_last_field_tag(*node, w) {
                        assert(node.children@[w].rule is JsonMapping);
                    }
                }
                if field_tag_omits(*node) {
                    let w = choose|w: int|
                        #[trigger] is_last_field_tag(*node, w) && tag_node_omits(
                            node.children@[w],
                        );
                    assert(false);
                }
            },
        }
    }
    let json_name: Option<String> = match &json {
        Some(j) => Some(j.name.clone()),
        None => None,
    };
    let mut omit_empty = match &json {
        Some(j) => j.omit_empty,
        None => false,
    };
    if is_pointer {
        omit_empty = true;
    }
    let ghost docs = comments@.map_values(|c: String| c@);
    match json {
        Some(j) => {
            match j.comment {
                Some(inline_comment) => {
                    if comments.len() > 0 {
                        comments.push(String::new());
                    }
                    comments.push(inline_comment);
                    proof {
                        assert(comments@.map_values(|c: String| c@) =~= with_inline(
                            docs,
                            comments@.last()@,
                        ));
                    }
                },
                None => {},
            }
        },
        None => {},
    }
    let name = match name {
        Some(n) => n,
        None => {
            proof {
                if wf_field_node(src@, *node) {
                    let (a, b): (int, int) = choose|a: int, b: int|
                        0 <= a < node.children@.len() && (#[trigger] node.children@[a].rule)
                            is StructFieldDecl && 0 <= b < node.children@[a].children.len()
                            && is_naming_part(#[trigger] node.children@[a].children@[b]);
                    assert(false);
                }
            }
            return Err(Error::Internal(String::from_str("fields have names")));
        },
    };
    let go_type = match go_type {
        Some(g) => g,
        None => {
            proof {
                if wf_field_node(src@, *node) {
                    let (a, b): (int, int) = choose|a: int, b: int|
                        0 <= a < node.children@.len() && (#[trigger] node.children@[a].rule)
                            is StructFieldDecl && 0 <= b < node.children@[a].children.len()
                            && is_typing_part(#[trigger] node.children@[a].children@[b]);
                    assert(false);
                }
            }
            return Err(Error::Internal(String::from_str("fields have types")));
        },
    };
    proof {
        assert(is_last_naming_part(*node, nli, nlj));
        assert(is_last_typing_part(*node, tli, tlj));
    }
    Ok(FieldDef { name, json_name, comments, omit_empty, go_type, embedded })
}

/// Whether child `i` is the last child of rule kind `r`.
pub open spec fn is_last_child_with(n: Node, i: int, r: Rule) -> bool {
    0 <= i < n.children.len() && n.children@[i].rule == r && (forall|q: int|
        i < q < n.children.len() ==> (#[trigger] n.children@[q].rule) != r)
}

/// Everything an emitted field model owes to its field node: the omit
/// flag, the embedded flag, the mangled name and denoted type from the
/// last naming and typing parts, the serialized name from the last tag,
/// and the doc lines from the doc-comment children plus the tag's inline
/// comment.
pub open spec fn denotes_field(s: Seq<char>, n: Node, f: crate::decl::FieldModel) -> bool {
    &&& f.omit_empty == (field_tag_omits(n) || field_node_has_pointer(n))
    &&& f.embedded == field_node_has_embedded(n)
    &&& exists|i: int, j: int|
        #[trigger] is_last_naming_part(n, i, j) && f.name == spec_mangle(
            span_text(s, n.children@[i].children@[j]),
        )
    &&& exists|i: int, j: int|
        #[trigger] is_last_typing_part(n, i, j) && part_denotes_type(
            s,
            n.children@[i].children@[j],
            f.go_type,
        )
    &&& (forall|q: int|
        0 <= q < n.children.len() ==> !((#[trigger] n.children@[q].rule) is JsonMapping))
        ==> f.json_name is None
    &&& forall|i: int, j: int|
        #![trigger is_last_field_tag(n, i), is_last_tag_name(n.children@[i], j)]
        is_last_field_tag(n, i) && is_last_tag_name(n.children@[i], j) ==> (f.json_name
            matches Some(t) && t == span_text(s, n.children@[i].children@[j]))
    &&& (forall|q: int|
        0 <= q < n.children.len() ==> !((#[trigger] n.children@[q].rule) is JsonMapping))
        ==> f.comments == doc_texts(s, n.children@)
    &&& forall|i: int|
        (#[trigger] is_last_field_tag(n, i)) ==> ((forall|q: int|
            0 <= q < n.children@[i].children.len() ==> !((
            #[trigger] n.children@[i].children@[q].rule) is AnyComment)) ==> f.comments
            == doc_texts(s, n.children@))
    &&& forall|i: int, j: int|
        #![trigger is_last_field_tag(n, i), is_last_tag_comment(n.children@[i], j)]
        is_last_field_tag(n, i) && is_last_tag_comment(n.children@[i], j) ==> f.comments
            == with_inline(
            doc_texts(s, n.children@),
            crate::text::spec_parse_comment(span_text(s, n.children@[i].children@[j])),
        )
}

/// A well-shaped preamble node: only struct-name children with nonempty
/// spans inside the text, and at least one.
pub open spec fn wf_preamble_node(s: Seq<char>, n: Node) -> bool {
    &&& forall|q: int|
        0 <= q < n.children.len() ==> ((#[trigger] n.children@[q].rule) is StructName && span_ok(
            s,
            n.children@[q],
        ) && n.children@[q].start < n.children@[q].end)
    &&& exists|q: int| 0 <= q < n.children.len() && (#[trigger] n.children@[q].rule) is StructName
}

/// A well-shaped fields node: only well-shaped field children.
pub open spec fn wf_fields_node(s: Seq<char>, n: Node) -> bool {
    forall|q: int|
        0 <= q < n.children.len() ==> ((#[trigger] n.children@[q].rule) is StructField
            && wf_field_node(s, n.children@[q]))
}

/// A struct preamble node: yields the declared struct name, as spelled.
pub fn parse_struct_preamble(src: &str, node: &Node) -> (r: Result<String, Error>)
    ensures
        r matches Ok(t) ==> (forall|i: int|
            is_last_child_with(*node, i, Rule::StructName) ==> t@ == span_text(
                src@,
                node.children@[i],
            )),
        r matches Ok(t) ==> (exists|i: int|
            #[trigger] is_last_child_with(*node, i, Rule::StructName) && span_ok(
                src@,
                node.children@[i],
            ) && t@ == span_text(src@, node.children@[i])),
        wf_preamble_node(src@, *node) ==> r is Ok,
{
    let nc = node.children.len();
    let mut name: Option<String> = None;
    let ghost mut last: int = 0;
    let mut i: usize = 0;
    while i < nc
        invariant
            nc == node.children@.len(),
            i <= nc,
            (match name {
                Some(t) => 0 <= last < i && node.children@[last].rule is StructName && span_ok(
                    src@,
                    node.children@[last],
                ) && t@ == span_text(src@, node.children@[last]) && (forall|q: int|
                    last < q < i ==> !((#[trigger] node.children@[q].rule) is StructName)),
                None => forall|q: int|
                    0 <= q < i ==> !((#[trigger] node.children@[q].rule) is StructName),
            }),
        decreases nc - i,
    {
        let child = &node.children[i];
        match child.rule {
            Rule::StructName => {
                match node_text(src, child) {
                    Ok(t) => {
                        name = Some(t);
                    },
                    Err(e) => {
                        proof {
                            assert(!span_ok(src@, node.children@[i as int]));
                        }
                        return Err(e);
                    },
                }
                proof {
                    last = i as int;
                }
            },
            _ => {
                return Err(Error::Internal(String::from_str("unexpected preamble child node")));
            },
        }
        i = i + 1;
    }
    match name {
        Some(n) => {
            proof {
                assert(is_last_child_with(*node, last, Rule::StructName));
                assert forall|w: int| #[trigger] is_last_child_with(
                    *node,
                    w,
                    Rule::StructName,
                ) implies w == last by {
                    if w < last {
                        assert(node.children@[last].rule is StructName);
                    } else if w > last {
                        assert(node.children@[w].rule is StructName);
                    }
                }
            }
            Ok(n)
        },
        None => {
            proof {
                if wf_preamble_node(src@, *node) {
                    let q = choose|q: int|
                        0 <= q < node.children@.len() && (#[trigger] node.children@[q].rule)
                            is StructName;
                    assert(false);
                }
            }
            Err(Error::Internal(String::from_str("structs always have a name")))
        },
    }
}

/// A struct-fields node: each child field becomes one declared field.
pub fn parse_struct_fields(src: &str, node: &Node) -> (r: Result<Vec<FieldDef>, Error>)
    ensures
        r matches Ok(v) ==> (v@.len() == node.children@.len() && (forall|k: int|
            0 <= k < v@.len() ==> denotes_field(src@, node.children@[k], (#[trigger] v@[k])@))),
        wf_fields_node(src@, *node) ==> r is Ok,
{
    let nc = node.children.len();
    let mut fields: Vec<FieldDef> = Vec::new();
    let mut i: usize = 0;
    while i < nc
        invariant
            nc == node.children@.len(),
            i <= nc,
            fields@.len() == i,
            forall|k: int|
                0 <= k < i ==> denotes_field(src@, node.children@[k], (#[trigger] fields@[k])@),
        decreases nc - i,
    {
        let child = &node.children[i];
        proof {
            assert(*child == node.children@[i as int]);
        }
        match child.rule {
            Rule::StructField => {
                match parse_struct_field(src, child) {
                    Ok(f) => {
                        proof {
                            assert(denotes_field(src@, node.children@[i as int], f@));
                        }
                        fields.push(f);
                    },
                    Err(e) => {
                        proof {
                            assert(!wf_field_node(src@, node.children@[i as int]));
                        }
                        return Err(e);
                    },
                }
            },
            _ => {
                return Err(Error::Internal(String::from_str("unexpected fields child node")));
            },
        }
        i = i + 1;
    }
    Ok(fields)
}

} // verus!
