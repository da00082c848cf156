//! The grammar of the source dialect, as a recursive-descent parser over
//! characters. It turns declaration text into an ordered sequence of typed
//! nodes, each carrying its rule kind, its matched span, and its sub-nodes.

use vstd::prelude::*;
use crate::error::Error;

verus! {

/// The rule kinds a syntax-tree node can carry.
#[derive(Debug, Clone, Copy, PartialEq, Eq, Structural)]
pub enum Rule {
    AwsGoEvents,
    AnyComment,
    DocComment,
    PackageDef,
    Import,
    ImportMultiple,
    ImportPackage,
    PackageName,
    StructDef,
    StructPreamble,
    StructName,
    StructFields,
    StructField,
    StructFieldDecl,
    StructFieldType,
    StructEmbeddedField,
    JsonMapping,
    JsonName,
    OmitEmpty,
    TypeAlias,
    LocalTypeAlias,
    PackageTypeAlias,
    TypeAliasTarget,
    ConstantDef,
    Function,
    EnumOptions,
    Ident,
    PackageIdent,
    Primitive,
    PrimString,
    PrimBool,
    PrimInt,
    PrimUint,
    PrimFloat,
    PrimByte,
    Array,
    GoMap,
    KeyType,
    ValueType,
    Interface,
    Pointer,
    PointerType,
}

/// One syntax-tree node: its rule kind, its span as character offsets into
/// the parsed text, and its sub-nodes in order.
pub struct Node {
    pub rule: Rule,
    pub start: usize,
    pub end: usize,
    pub children: Vec<Node>,
}

/// The characters of a string slice, for position-indexed scanning.
pub fn chars_of(s: &str) -> (r: Vec<char>)
    ensures
        r@ == s@,
{
    let n = s.unicode_len();
    let mut v: Vec<char> = Vec::new();
    let mut i: usize = 0;
    while i < n
        invariant
            n == s@.len(),
            i <= n,
            v@ =~= s@.take(i as int),
        decreases n - i,
    {
        v.push(s.get_char(i));
        proof {
            assert(v@ =~= s@.take(i + 1 as int));
        }
        i = i + 1;
    }
    proof {
        assert(s@.take(n as int) =~= s@);
    }
    v
}

/// The whitespace the grammar skips between tokens.
pub open spec fn is_grammar_space(c: char) -> bool {
    c == ' ' || c == '\t' || c == '\r' || c == '\n'
}

/// Whether the characters of `w` stand in `s` at position `i`.
pub open spec fn starts_with_at(s: Seq<char>, i: int, w: Seq<char>) -> bool {
    &&& 0 <= i
    &&& i + w.len() <= s.len()
    &&& forall|k: int| 0 <= k < w.len() ==> s[i + k] == #[trigger] w[k]
}

/// What the grammar promises of one top-level node: a produced kind, a
/// nonempty span inside the text, and the kind's keyword standing in the
/// text (for a struct declaration, at its preamble child).
#[verifier::opaque]
pub open spec fn top_node_shape(s: Seq<char>, n: Node) -> bool {
    &&& n.start < n.end <= s.len()
    &&& match n.rule {
        Rule::AnyComment => starts_with_at(s, n.start as int, "//"@),
        Rule::PackageDef => starts_with_at(s, n.start as int, "package"@),
        Rule::Import => starts_with_at(s, n.start as int, "import"@),
        Rule::ImportMultiple => starts_with_at(s, n.start as int, "import"@),
        Rule::ConstantDef => starts_with_at(s, n.start as int, "const"@),
        Rule::Function => starts_with_at(s, n.start as int, "func"@),
        Rule::TypeAlias => starts_with_at(s, n.start as int, "type"@) && (exists|k: int|
            0 <= k < n.children.len() && ((#[trigger] n.children@[k].rule) is LocalTypeAlias
                || n.children@[k].rule is PackageTypeAlias)),
        Rule::StructDef => exists|k: int|
            0 <= k < n.children.len() && (#[trigger] n.children@[k].rule) is StructPreamble
                && n.start <= n.children@[k].start && n.children@[k].end <= n.end
                && starts_with_at(s, n.children@[k].start as int, "type"@),
        _ => false,
    }
}

/// What the grammar accepts of a whole input: a row of top-level nodes of
/// the produced kinds, in order, spans inside the text, with nothing but
/// whitespace outside the spans.
#[verifier::opaque]
pub open spec fn parses_to(s: Seq<char>, nodes: Seq<Node>) -> bool {
    &&& forall|j: int| 0 <= j < nodes.len() ==> top_node_shape(s, #[trigger] nodes[j])
    &&& forall|j: int| 0 <= j < nodes.len() - 1 ==> (#[trigger] nodes[j]).end <= nodes[j + 1].start
    &&& (if nodes.len() == 0 {
        forall|q: int| 0 <= q < s.len() ==> is_grammar_space(#[trigger] s[q])
    } else {
        &&& (forall|q: int| 0 <= q < nodes[0].start ==> is_grammar_space(#[trigger] s[q]))
        &&& (forall|j: int, q: int|
            #![trigger s[q], nodes[j]]
            0 <= j < nodes.len() - 1 && nodes[j].end <= q < nodes[j + 1].start
                ==> is_grammar_space(s[q]))
        &&& (forall|q: int|
            nodes[nodes.len() - 1].end <= q < s.len() ==> is_grammar_space(#[trigger] s[q]))
    })
}

fn is_ident_start(c: char) -> bool {
    let u = c as u32;
    (u >= 'a' as u32 && u <= 'z' as u32) || (u >= 'A' as u32 && u <= 'Z' as u32) || c == '_'
}

fn is_ident_char(c: char) -> bool {
    let u = c as u32;
    (u >= 'a' as u32 && u <= 'z' as u32) || (u >= 'A' as u32 && u <= 'Z' as u32) || (u >= '0'
        as u32 && u <= '9' as u32) || c == '_'
}

/// Skips spaces, tabs, carriage returns and line breaks.
fn skip_ws(s: &Vec<char>, i: usize) -> (r: usize)
    ensures
        i <= r <= s@.len() || (i > s@.len() && r == i),
        forall|q: int| i <= q < r ==> is_grammar_space(#[trigger] s@[q]),
{
    let mut k = i;
    while k < s.len() && (s[k] == ' ' || s[k] == '\t' || s[k] == '\r' || s[k] == '\n')
        invariant
            i <= k,
            k <= s@.len() || k == i,
            forall|q: int| i <= q < k ==> is_grammar_space(#[trigger] s@[q]),
        decreases s@.len() - k,
    {
        k = k + 1;
    }
    k
}

/// Skips spaces and tabs only.
fn skip_spaces(s: &Vec<char>, i: usize) -> (r: usize)
    ensures
        i <= r <= s@.len() || (i > s@.len() && r == i),
{
    let mut k = i;
    while k < s.len() && (s[k] == ' ' || s[k] == '\t')
        invariant
            i <= k,
            k <= s@.len() || k == i,
        decreases s@.len() - k,
    {
        k = k + 1;
    }
    k
}

/// Matches the characters of `w` at position `i`.
fn match_word(s: &Vec<char>, i: usize, w: &str) -> (r: Option<usize>)
    ensures
        r matches Some(j) ==> i <= j <= s@.len() && j == i + w@.len(),
        r is Some ==> starts_with_at(s@, i as int, w@),
{
    let wl = w.unicode_len();
    let n = s.len();
    if i > n || n - i < wl {
        return None;
    }
    let mut k: usize = 0;
    while k < wl
        invariant
            wl == w@.len(),
            n == s@.len(),
            i + wl <= n,
            k <= wl,
            forall|q: int| 0 <= q < k ==> s@[i + q] == #[trigger] w@[q],
        decreases wl - k,
    {
        if s[i + k] != w.get_char(k) {
            return None;
        }
        k = k + 1;
    }
    Some(i + wl)
}

/// Scans to the end of the line (or of the text).
fn scan_line_end(s: &Vec<char>, i: usize) -> (r: usize)
    ensures
        i <= r <= s@.len() || (i > s@.len() && r == i),
{
    let mut k = i;
    while k < s.len() && s[k] != '\n'
        invariant
            i <= k,
            k <= s@.len() || k == i,
        decreases s@.len() - k,
    {
        k = k + 1;
    }
    k
}

fn p_ident(s: &Vec<char>, i: usize) -> (r: Option<(Node, usize)>)
    ensures
        r matches Some(p) ==> i < p.1 <= s@.len(),
{
    if i >= s.len() || !is_ident_start(s[i]) {
        return None;
    }
    let mut j = i + 1;
    while j < s.len() && is_ident_char(s[j])
        invariant
            i < j,
            j <= s@.len(),
        decreases s@.len() - j,
    {
        j = j + 1;
    }
    Some((Node { rule: Rule::Ident, start: i, end: j, children: Vec::new() }, j))
}

/// Matches one primitive type keyword at `i`, with a word boundary after it.
fn p_primitive(s: &Vec<char>, i: usize) -> (r: Option<(Node, usize)>)
    ensures
        r matches Some(p) ==> i < p.1 <= s@.len(),
{
    let kinds: [(&str, Rule); 12] = [
        ("string", Rule::PrimString),
        ("bool", Rule::PrimBool),
        ("byte", Rule::PrimByte),
        ("int64", Rule::PrimInt),
        ("int32", Rule::PrimInt),
        ("int", Rule::PrimInt),
        ("uint64", Rule::PrimUint),
        ("uint32", Rule::PrimUint),
        ("uint", Rule::PrimUint),
        ("float64", Rule::PrimFloat),
        ("float32", Rule::PrimFloat),
        ("float", Rule::PrimFloat),
    ];
    let mut k: usize = 0;
    while k < kinds.len()
        invariant
            k <= kinds@.len(),
        decreases kinds@.len() - k,
    {
        let (w, rule) = kinds[k];
        match match_word(s, i, w) {
            Some(j) => {
                if j > i && (j >= s.len() || !is_ident_char(s[j])) {
                    let mut children: Vec<Node> = Vec::new();
                    children.push(Node { rule, start: i, end: j, children: Vec::new() });
                    return Some((Node { rule: Rule::Primitive, start: i, end: j, children }, j));
                }
            },
            None => {},
        }
        k = k + 1;
    }
    None
}

fn p_package_ident(s: &Vec<char>, i: usize) -> (r: Option<(Node, usize)>)
    ensures
        r matches Some(p) ==> i < p.1 <= s@.len(),
{
    match p_ident(s, i) {
        Some((_first, j)) => {
            if j < s.len() && s[j] == '.' {
                match p_ident(s, j + 1) {
                    Some((_second, k)) => Some(
                        (Node { rule: Rule::PackageIdent, start: i, end: k, children: Vec::new() }, k),
                    ),
                    None => None,
                }
            } else {
                None
            }
        },
        None => None,
    }
}

fn p_interface(s: &Vec<char>, i: usize) -> (r: Option<(Node, usize)>)
    ensures
        r matches Some(p) ==> i < p.1 <= s@.len(),
{
    match match_word(s, i, "interface{}") {
        Some(j) => {
            if j > i {
                Some((Node { rule: Rule::Interface, start: i, end: j, children: Vec::new() }, j))
            } else {
                None
            }
        },
        None => None,
    }
}

/// A type expression in value position: an array, map, interface, pointer,
/// primitive, package-qualified or plain identifier, wrapped as a
/// value-type node.
fn p_value_type(s: &Vec<char>, i: usize) -> (r: Option<(Node, usize)>)
    ensures
        r matches Some(p) ==> i < p.1 <= s@.len(),
    decreases s@.len() - i, 1int,
{
    let inner: Option<(Node, usize)> = match p_array(s, i) {
        Some(p) => Some(p),
        None => match p_map(s, i) {
            Some(p) => Some(p),
            None => match p_interface(s, i) {
                Some(p) => Some(p),
                None => match p_pointer_type(s, i) {
                    Some(p) => Some(p),
                    None => match p_primitive(s, i) {
                        Some(p) => Some(p),
                        None => match p_package_ident(s, i) {
                            Some(p) => Some(p),
                            None => p_ident(s, i),
                        },
                    },
                },
            },
        },
    };
    match inner {
        Some((node, j)) => {
            let mut children: Vec<Node> = Vec::new();
            children.push(node);
            Some((Node { rule: Rule::ValueType, start: i, end: j, children }, j))
        },
        None => None,
    }
}

/// A pointer-qualified type in value position.
fn p_pointer_type(s: &Vec<char>, i: usize) -> (r: Option<(Node, usize)>)
    ensures
        r matches Some(p) ==> i < p.1 <= s@.len(),
    decreases s@.len() - i, 0int,
{
    if i >= s.len() || s[i] != '*' {
        return None;
    }
    match p_value_type(s, i + 1) {
        Some((vnode, j)) => {
            let mut children: Vec<Node> = Vec::new();
            children.push(Node { rule: Rule::Pointer, start: i, end: i + 1, children: Vec::new() });
            children.push(vnode);
            Some((Node { rule: Rule::PointerType, start: i, end: j, children }, j))
        },
        None => None,
    }
}

/// A slice type: `[]` and its element type.
fn p_array(s: &Vec<char>, i: usize) -> (r: Option<(Node, usize)>)
    ensures
        r matches Some(p) ==> i < p.1 <= s@.len(),
    decreases s@.len() - i, 0int,
{
    let after = match match_word(s, i, "[]") {
        Some(j) => j,
        None => {
            return None;
        },
    };
    proof {
        reveal_strlit("[]");
    }
    let inner: Option<(Node, usize)> = match p_map(s, after) {
        Some(p) => Some(p),
        None => match p_array(s, after) {
            Some(p) => Some(p),
            None => match p_primitive(s, after) {
                Some(p) => Some(p),
                None => p_ident(s, after),
            },
        },
    };
    match inner {
        Some((node, j)) => {
            let mut children: Vec<Node> = Vec::new();
            children.push(node);
            Some((Node { rule: Rule::Array, start: i, end: j, children }, j))
        },
        None => None,
    }
}

/// A map type: `map[`, a key type, `]`, and a value type.
fn p_map(s: &Vec<char>, i: usize) -> (r: Option<(Node, usize)>)
    ensures
        r matches Some(p) ==> i < p.1 <= s@.len(),
    decreases s@.len() - i, 0int,
{
    let after = match match_word(s, i, "map[") {
        Some(j) => j,
        None => {
            return None;
        },
    };
    proof {
        reveal_strlit("map[");
    }
    let key_inner: Option<(Node, usize)> = match p_primitive(s, after) {
        Some(p) => Some(p),
        None => p_ident(s, after),
    };
    let (key_node, kend) = match key_inner {
        Some((node, j)) => {
            let mut children: Vec<Node> = Vec::new();
            let start = node.start;
            let end = node.end;
            children.push(node);
            (Node { rule: Rule::KeyType, start, end, children }, j)
        },
        None => {
            return None;
        },
    };
    if kend >= s.len() || s[kend] != ']' {
        return None;
    }
    match p_value_type(s, kend + 1) {
        Some((vnode, j)) => {
            let mut children: Vec<Node> = Vec::new();
            children.push(key_node);
            children.push(vnode);
            Some((Node { rule: Rule::GoMap, start: i, end: j, children }, j))
        },
        None => None,
    }
}

/// A type expression in field position.
fn p_struct_field_type(s: &Vec<char>, i: usize) -> (r: Option<(Node, usize)>)
    ensures
        r matches Some(p) ==> i < p.1 <= s@.len(),
    decreases s@.len() - i, 1int,
{
    let inner: Option<(Node, usize)> = match p_array(s, i) {
        Some(p) => Some(p),
        None => match p_map(s, i) {
            Some(p) => Some(p),
            None => match p_interface(s, i) {
                Some(p) => Some(p),
                None => match p_pointer_type(s, i) {
                    Some(p) => Some(p),
                    None => match p_primitive(s, i) {
                        Some(p) => Some(p),
                        None => match p_package_ident(s, i) {
                            Some(p) => Some(p),
                            None => p_ident(s, i),
                        },
                    },
                },
            },
        },
    };
    match inner {
        Some((node, j)) => {
            let mut children: Vec<Node> = Vec::new();
            children.push(node);
            Some((Node { rule: Rule::StructFieldType, start: i, end: j, children }, j))
        },
        None => None,
    }
}


/// A comment line: `//` to the end of the line.
fn p_comment(s: &Vec<char>, i: usize, rule: Rule) -> (r: Option<(Node, usize)>)
    ensures
        r matches Some(p) ==> (i < p.1 <= s@.len() && p.0.start == i && p.0.end == p.1
            && p.0.rule == rule && starts_with_at(s@, i as int, "//"@)),
{
    match match_word(s, i, "//") {
        Some(j) => {
            proof {
                reveal_strlit("//");
            }
            let e = scan_line_end(s, j);
            Some((Node { rule, start: i, end: e, children: Vec::new() }, e))
        },
        None => None,
    }
}

/// A serialization tag: the serialized name, an optional omit flag, and an
/// optional trailing inline comment.
fn p_json_mapping(s: &Vec<char>, i: usize) -> (r: Option<(Node, usize)>)
    ensures
        r matches Some(p) ==> i < p.1 <= s@.len(),
{
    let a = match match_word(s, i, "`json:\"") {
        Some(j) => j,
        None => {
            return None;
        },
    };
    proof {
        reveal_strlit("`json:\"");
    }
    let mut b = a;
    while b < s.len() && s[b] != '"' && s[b] != ',' && s[b] != '`'
        invariant
            a <= b,
            b <= s@.len() || b == a,
        decreases s@.len() - b,
    {
        b = b + 1;
    }
    if b == a {
        return None;
    }
    let mut children: Vec<Node> = Vec::new();
    children.push(Node { rule: Rule::JsonName, start: a, end: b, children: Vec::new() });
    let mut k = b;
    match match_word(s, k, ",omitempty") {
        Some(j) => {
            children.push(Node { rule: Rule::OmitEmpty, start: k, end: j, children: Vec::new() });
            k = j;
        },
        None => {},
    }
    let k = match match_word(s, k, "\"`") {
        Some(j) => j,
        None => {
            return None;
        },
    };
    proof {
        reveal_strlit("\"`");
    }
    // A trailing inline comment belongs to the tag.
    let c = skip_spaces(s, k);
    let mut end = k;
    if c < s.len() && s[c] == '/' && c + 1 < s.len() && s[c + 1] == '/' {
        let e = scan_line_end(s, c);
        children.push(Node { rule: Rule::AnyComment, start: c, end: e, children: Vec::new() });
        end = e;
    }
    Some((Node { rule: Rule::JsonMapping, start: i, end, children }, end))
}

/// One field declaration: a named field with an optional pointer qualifier
/// and a type, or an embedded field, itself optionally pointer-qualified.
fn p_struct_field_decl(s: &Vec<char>, i: usize) -> (r: Option<(Node, usize)>)
    ensures
        r matches Some(p) ==> i < p.1 <= s@.len(),
{
    // A named field: identifier, spaces, optional pointer, type.
    match p_ident(s, i) {
        Some((id, j)) => {
            let k = skip_spaces(s, j);
            if k > j {
                let mut children: Vec<Node> = Vec::new();
                let mut t = k;
                let mut has_ptr = false;
                if t < s.len() && s[t] == '*' {
                    has_ptr = true;
                    t = t + 1;
                }
                match p_struct_field_type(s, t) {
                    Some((ty, e)) => {
                        children.push(id);
                        if has_ptr {
                            children.push(
                                Node {
                                    rule: Rule::Pointer,
                                    start: t - 1,
                                    end: t,
                                    children: Vec::new(),
                                },
                            );
                        }
                        children.push(ty);
                        return Some(
                            (Node { rule: Rule::StructFieldDecl, start: i, end: e, children }, e),
                        );
                    },
                    None => {},
                }
            }
        },
        None => {},
    }
    // An embedded field: optional pointer, identifier.
    let mut t = i;
    let mut has_ptr = false;
    if t < s.len() && s[t] == '*' {
        has_ptr = true;
        t = t + 1;
    }
    match p_ident(s, t) {
        Some((id, e)) => {
            let mut children: Vec<Node> = Vec::new();
            if has_ptr {
                children.push(
                    Node { rule: Rule::Pointer, start: t - 1, end: t, children: Vec::new() },
                );
            }
            let id_start = id.start;
            let id_end = id.end;
            let mut emb_children: Vec<Node> = Vec::new();
            emb_children.push(id);
            children.push(
                Node {
                    rule: Rule::StructEmbeddedField,
                    start: id_start,
                    end: id_end,
                    children: emb_children,
                },
            );
            Some((Node { rule: Rule::StructFieldDecl, start: i, end: e, children }, e))
        },
        None => None,
    }
}

/// One struct field: its doc comments, its declaration, and its tag.
fn p_struct_field(s: &Vec<char>, i: usize) -> (r: Option<(Node, usize)>)
    ensures
        r matches Some(p) ==> i < p.1 <= s@.len(),
{
    let mut children: Vec<Node> = Vec::new();
    let mut k = i;
    loop
        invariant
            i <= k,
            k <= s@.len() || k == i,
        decreases s@.len() - k,
    {
        match p_comment(s, k, Rule::DocComment) {
            Some((c, e)) => {
                children.push(c);
                let w = skip_ws(s, e);
                if w <= k {
                    break ;
                }
                k = w;
            },
            None => {
                break ;
            },
        }
    }
    match p_struct_field_decl(s, k) {
        Some((decl, e)) => {
            children.push(decl);
            let sp = skip_spaces(s, e);
            match p_json_mapping(s, sp) {
                Some((jm, je)) => {
                    children.push(jm);
                    Some((Node { rule: Rule::StructField, start: i, end: je, children }, je))
                },
                None => {
                    Some((Node { rule: Rule::StructField, start: i, end: sp, children }, sp))
                },
            }
        },
        None => None,
    }
}

/// The fields of a struct, separated by line breaks.
fn p_struct_fields(s: &Vec<char>, i: usize) -> (r: Option<(Node, usize)>)
    ensures
        r matches Some(p) ==> i < p.1 <= s@.len(),
{
    let (first, first_pos) = match p_struct_field(s, i) {
        Some(p) => p,
        None => {
            return None;
        },
    };
    let start = first.start;
    let mut pos = first_pos;
    let mut children: Vec<Node> = Vec::new();
    children.push(first);
    loop
        invariant
            i < pos,
            pos <= s@.len(),
        decreases s@.len() - pos,
    {
        let w = skip_ws(s, pos);
        match p_struct_field(s, w) {
            Some((f, e)) => {
                children.push(f);
                if e <= pos {
                    break ;
                }
                pos = e;
            },
            None => {
                break ;
            },
        }
    }
    Some((Node { rule: Rule::StructFields, start, end: pos, children }, pos))
}

/// The head of a struct declaration: `type`, the struct name, `struct`.
fn p_struct_preamble(s: &Vec<char>, i: usize) -> (r: Option<(Node, usize)>)
    ensures
        r matches Some(p) ==> (i < p.1 <= s@.len() && p.0.start == i && p.0.end == p.1
            && p.0.rule is StructPreamble && starts_with_at(s@, i as int, "type"@)),
{
    let a = match match_word(s, i, "type") {
        Some(j) => j,
        None => {
            return None;
        },
    };
    proof {
        reveal_strlit("type");
    }
    let b = skip_spaces(s, a);
    if b <= a {
        return None;
    }
    let (id, c) = match p_ident(s, b) {
        Some(p) => p,
        None => {
            return None;
        },
    };
    let d = skip_spaces(s, c);
    if d <= c {
        return None;
    }
    let e = match match_word(s, d, "struct") {
        Some(j) => j,
        None => {
            return None;
        },
    };
    proof {
        reveal_strlit("struct");
    }
    let id_start = id.start;
    let id_end = id.end;
    let mut name_children: Vec<Node> = Vec::new();
    name_children.push(id);
    let mut children: Vec<Node> = Vec::new();
    children.push(
        Node { rule: Rule::StructName, start: id_start, end: id_end, children: name_children },
    );
    Some((Node { rule: Rule::StructPreamble, start: i, end: e, children }, e))
}

/// A whole struct declaration: doc comments, preamble, braced fields.
fn p_struct_def(s: &Vec<char>, i: usize) -> (r: Option<(Node, usize)>)
    ensures
        r matches Some(p) ==> (i < p.1 <= s@.len() && p.0.start == i && p.0.end == p.1
            && p.0.rule is StructDef && top_node_shape(s@, p.0)),
{
    let mut children: Vec<Node> = Vec::new();
    let mut k = i;
    loop
        invariant
            i <= k,
            k <= s@.len() || k == i,
        decreases s@.len() - k,
    {
        match p_comment(s, k, Rule::DocComment) {
            Some((c, e)) => {
                children.push(c);
                let w = skip_ws(s, e);
                if w <= k {
                    break ;
                }
                k = w;
            },
            None => {
                break ;
            },
        }
    }
    let (pre, a) = match p_struct_preamble(s, k) {
        Some(p) => p,
        None => {
            return None;
        },
    };
    let ghost pv = pre;
    let ghost pk = children@.len() as int;
    children.push(pre);
    let b = skip_spaces(s, a);
    if b >= s.len() || s[b] != '{' {
        return None;
    }
    let c = skip_ws(s, b + 1);
    let mut pos = c;
    match p_struct_fields(s, c) {
        Some((fs, e)) => {
            children.push(fs);
            pos = e;
        },
        None => {},
    }
    let d = skip_ws(s, pos);
    if d >= s.len() || s[d] != '}' {
        return None;
    }
    let out = Node { rule: Rule::StructDef, start: i, end: d + 1, children };
    proof {
        reveal(top_node_shape);
        assert(out.children@[pk] == pv);
        assert(top_node_shape(s@, out));
    }
    Some((out, d + 1))
}

/// A package header: `package` and its name.
fn p_package_def(s: &Vec<char>, i: usize) -> (r: Option<(Node, usize)>)
    ensures
        r matches Some(p) ==> (i < p.1 <= s@.len() && p.0.start == i && p.0.end == p.1
            && p.0.rule is PackageDef && starts_with_at(s@, i as int, "package"@)),
{
    let a = match match_word(s, i, "package") {
        Some(j) => j,
        None => {
            return None;
        },
    };
    proof {
        reveal_strlit("package");
    }
    let b = skip_spaces(s, a);
    if b <= a {
        return None;
    }
    match p_ident(s, b) {
        Some((id, e)) => {
            let mut children: Vec<Node> = Vec::new();
            children.push(id);
            Some((Node { rule: Rule::PackageDef, start: i, end: e, children }, e))
        },
        None => None,
    }
}

/// A quoted package path.
fn p_import_package(s: &Vec<char>, i: usize) -> (r: Option<(Node, usize)>)
    ensures
        r matches Some(p) ==> i < p.1 <= s@.len(),
{
    if i >= s.len() || s[i] != '"' {
        return None;
    }
    let mut b = i + 1;
    while b < s.len() && s[b] != '"'
        invariant
            i < b,
            b <= s@.len(),
        decreases s@.len() - b,
    {
        b = b + 1;
    }
    if b >= s.len() || b == i + 1 {
        return None;
    }
    let mut children: Vec<Node> = Vec::new();
    children.push(Node { rule: Rule::PackageName, start: i + 1, end: b, children: Vec::new() });
    Some((Node { rule: Rule::ImportPackage, start: i, end: b + 1, children }, b + 1))
}

/// A single import line.
fn p_import(s: &Vec<char>, i: usize) -> (r: Option<(Node, usize)>)
    ensures
        r matches Some(p) ==> (i < p.1 <= s@.len() && p.0.start == i && p.0.end == p.1
            && p.0.rule is Import && starts_with_at(s@, i as int, "import"@)),
{
    let a = match match_word(s, i, "import") {
        Some(j) => j,
        None => {
            return None;
        },
    };
    proof {
        reveal_strlit("import");
    }
    let b = skip_spaces(s, a);
    if b <= a {
        return None;
    }
    match p_import_package(s, b) {
        Some((pkg, e)) => {
            let mut children: Vec<Node> = Vec::new();
            children.push(pkg);
            Some((Node { rule: Rule::Import, start: i, end: e, children }, e))
        },
        None => None,
    }
}

/// A parenthesized import block.
fn p_import_multiple(s: &Vec<char>, i: usize) -> (r: Option<(Node, usize)>)
    ensures
        r matches Some(p) ==> (i < p.1 <= s@.len() && p.0.start == i && p.0.end == p.1
            && p.0.rule is ImportMultiple && starts_with_at(s@, i as int, "import"@)),
{
    let a = match match_word(s, i, "import") {
        Some(j) => j,
        None => {
            return None;
        },
    };
    proof {
        reveal_strlit("import");
    }
    let b = skip_spaces(s, a);
    if b >= s.len() || s[b] != '(' {
        return None;
    }
    let mut children: Vec<Node> = Vec::new();
    let mut pos = b + 1;
    loop
        invariant
            i < pos,
            pos <= s@.len(),
        decreases s@.len() - pos,
    {
        let w = skip_ws(s, pos);
        match p_import_package(s, w) {
            Some((pkg, e)) => {
                children.push(pkg);
                if e <= pos {
                    break ;
                }
                pos = e;
            },
            None => {
                break ;
            },
        }
    }
    let c = skip_ws(s, pos);
    if c >= s.len() || s[c] != ')' {
        return None;
    }
    Some((Node { rule: Rule::ImportMultiple, start: i, end: c + 1, children }, c + 1))
}

/// A type alias: local (`type Name OtherType`) or package-qualified
/// (`type Name pkg.Item`).
fn p_type_alias(s: &Vec<char>, i: usize) -> (r: Option<(Node, usize)>)
    ensures
        r matches Some(p) ==> (i < p.1 <= s@.len() && p.0.start == i && p.0.end == p.1
            && p.0.rule is TypeAlias && starts_with_at(s@, i as int, "type"@)
            && p.0.children@.len() == 1 && (p.0.children@[0].rule is LocalTypeAlias
            || p.0.children@[0].rule is PackageTypeAlias)),
{
    let a = match match_word(s, i, "type") {
        Some(j) => j,
        None => {
            return None;
        },
    };
    proof {
        reveal_strlit("type");
    }
    let b = skip_spaces(s, a);
    if b <= a {
        return None;
    }
    let (id, c) = match p_ident(s, b) {
        Some(p) => p,
        None => {
            return None;
        },
    };
    let d = skip_spaces(s, c);
    if d <= c {
        return None;
    }
    match p_package_ident(s, d) {
        Some((pk, e)) => {
            let mut inner_children: Vec<Node> = Vec::new();
            inner_children.push(id);
            inner_children.push(pk);
            let inner = Node {
                rule: Rule::PackageTypeAlias,
                start: i,
                end: e,
                children: inner_children,
            };
            let mut children: Vec<Node> = Vec::new();
            children.push(inner);
            return Some((Node { rule: Rule::TypeAlias, start: i, end: e, children }, e));
        },
        None => {},
    }
    let target: Option<(Node, usize)> = match p_array(s, d) {
        Some(p) => Some(p),
        None => match p_map(s, d) {
            Some(p) => Some(p),
            None => match p_interface(s, d) {
                Some(p) => Some(p),
                None => match p_primitive(s, d) {
                    Some(p) => Some(p),
                    None => p_ident(s, d),
                },
            },
        },
    };
    match target {
        Some((t, e)) => {
            let t_start = t.start;
            let t_end = t.end;
            let mut target_children: Vec<Node> = Vec::new();
            target_children.push(t);
            let mut inner_children: Vec<Node> = Vec::new();
            inner_children.push(id);
            inner_children.push(
                Node {
                    rule: Rule::TypeAliasTarget,
                    start: t_start,
                    end: t_end,
                    children: target_children,
                },
            );
            let inner = Node {
                rule: Rule::LocalTypeAlias,
                start: i,
                end: e,
                children: inner_children,
            };
            let mut children: Vec<Node> = Vec::new();
            children.push(inner);
            Some((Node { rule: Rule::TypeAlias, start: i, end: e, children }, e))
        },
        None => None,
    }
}

/// A constant definition, skipped by the dispatcher: `const` to the end of
/// the line, or a parenthesized block.
fn p_constant_def(s: &Vec<char>, i: usize) -> (r: Option<(Node, usize)>)
    ensures
        r matches Some(p) ==> (i < p.1 <= s@.len() && p.0.start == i && p.0.end == p.1
            && p.0.rule is ConstantDef && starts_with_at(s@, i as int, "const"@)),
{
    let a = match match_word(s, i, "const") {
        Some(j) => j,
        None => {
            return None;
        },
    };
    proof {
        reveal_strlit("const");
    }
    let b = skip_spaces(s, a);
    if b < s.len() && s[b] == '(' {
        let mut k = b + 1;
        while k < s.len() && s[k] != ')'
            invariant
                i < k,
                k <= s@.len(),
            decreases s@.len() - k,
        {
            k = k + 1;
        }
        if k >= s.len() {
            return None;
        }
        return Some((Node { rule: Rule::ConstantDef, start: i, end: k + 1, children: Vec::new() }, k + 1));
    }
    let e = scan_line_end(s, a);
    Some((Node { rule: Rule::ConstantDef, start: i, end: e, children: Vec::new() }, e))
}

/// A function body, skipped by the dispatcher: `func` to the matching
/// closing brace.
fn p_function(s: &Vec<char>, i: usize) -> (r: Option<(Node, usize)>)
    ensures
        r matches Some(p) ==> (i < p.1 <= s@.len() && p.0.start == i && p.0.end == p.1
            && p.0.rule is Function && starts_with_at(s@, i as int, "func"@)),
{
    let a = match match_word(s, i, "func") {
        Some(j) => j,
        None => {
            return None;
        },
    };
    proof {
        reveal_strlit("func");
    }
    let mut k = a;
    while k < s.len() && s[k] != '{'
        invariant
            i < k,
            k <= s@.len(),
        decreases s@.len() - k,
    {
        k = k + 1;
    }
    if k >= s.len() {
        return None;
    }
    let mut depth: usize = 1;
    let mut j = k + 1;
    while j < s.len() && depth > 0
        invariant
            i < j,
            j <= s@.len(),
        decreases s@.len() - j,
    {
        if s[j] == '{' {
            if depth < usize::MAX {
                depth = depth + 1;
            }
        } else if s[j] == '}' {
            depth = depth - 1;
        }
        j = j + 1;
    }
    if depth > 0 {
        return None;
    }
    Some((Node { rule: Rule::Function, start: i, end: j, children: Vec::new() }, j))
}

/// One top-level item.
fn p_top_level(s: &Vec<char>, i: usize) -> (r: Option<(Node, usize)>)
    ensures
        r matches Some(p) ==> (i < p.1 <= s@.len() && p.0.start == i && p.0.end == p.1
            && top_node_shape(s@, p.0)),
{
    proof {
        reveal(top_node_shape);
    }
    match p_struct_def(s, i) {
        Some(p) => {
            return Some(p);
        },
        None => {},
    }
    match p_comment(s, i, Rule::AnyComment) {
        Some(p) => {
            return Some(p);
        },
        None => {},
    }
    match p_package_def(s, i) {
        Some(p) => {
            return Some(p);
        },
        None => {},
    }
    match p_import_multiple(s, i) {
        Some(p) => {
            return Some(p);
        },
        None => {},
    }
    match p_import(s, i) {
        Some(p) => {
            return Some(p);
        },
        None => {},
    }
    match p_type_alias(s, i) {
        Some(p) => {
            return Some(p);
        },
        None => {},
    }
    match p_constant_def(s, i) {
        Some(p) => {
            return Some(p);
        },
        None => {},
    }
    p_function(s, i)
}

/// The root loop's running state: the nodes parsed so far are shaped, in
/// order, and everything outside their spans up to the boundary is
/// whitespace.
#[verifier::opaque]
pub open spec fn row_state(s: Seq<char>, nodes: Seq<Node>, upto: int) -> bool {
    &&& forall|j: int| 0 <= j < nodes.len() ==> top_node_shape(s, #[trigger] nodes[j])
    &&& forall|j: int| 0 <= j < nodes.len() - 1 ==> (#[trigger] nodes[j]).end <= nodes[j + 1].start
    &&& nodes.len() == 0 ==> (forall|q: int| 0 <= q < upto ==> is_grammar_space(#[trigger] s[q]))
    &&& nodes.len() > 0 ==> {
        &&& (forall|q: int| 0 <= q < nodes[0].start ==> is_grammar_space(#[trigger] s[q]))
        &&& (forall|j: int, q: int|
            #![trigger s[q], nodes[j]]
            0 <= j < nodes.len() - 1 && nodes[j].end <= q < nodes[j + 1].start
                ==> is_grammar_space(s[q]))
        &&& nodes[nodes.len() - 1].end <= upto
        &&& (forall|q: int|
            nodes[nodes.len() - 1].end <= q < upto ==> is_grammar_space(#[trigger] s[q]))
    }
}

#[verifier::rlimit(100)]
#[verifier::spinoff_prover]
proof fn lemma_row_push(s: Seq<char>, pre: Seq<Node>, nd: Node, i0: int, e: int, w: int)
    requires
        row_state(s, pre, i0),
        top_node_shape(s, nd),
        nd.start == i0,
        nd.end == e,
        i0 < e <= s.len(),
        e <= w <= s.len(),
        forall|q: int| e <= q < w ==> is_grammar_space(#[trigger] s[q]),
    ensures
        row_state(s, pre.push(nd), w),
{
    reveal(row_state);
    let row = pre.push(nd);
    assert(row[row.len() - 1] == nd);
    assert forall|j: int| 0 <= j < row.len() implies top_node_shape(s, #[trigger] row[j]) by {
        if j < pre.len() {
            assert(row[j] == pre[j]);
        }
    }
    assert forall|j: int| 0 <= j < row.len() - 1 implies (#[trigger] row[j]).end <= row[j
        + 1].start by {
        if j < pre.len() - 1 {
            assert(row[j] == pre[j]);
            assert(row[j + 1] == pre[j + 1]);
        } else {
            assert(row[j] == pre[pre.len() - 1]);
            assert(row[j + 1] == nd);
        }
    }
    assert forall|q: int| 0 <= q < row[0].start implies is_grammar_space(#[trigger] s[q]) by {
        if pre.len() == 0 {
            assert(row[0] == nd);
        } else {
            assert(row[0] == pre[0]);
        }
    }
    assert forall|j: int, q: int|
        #![trigger s[q], row[j]]
        0 <= j < row.len() - 1 && row[j].end <= q < row[j + 1].start implies is_grammar_space(
        s[q],
    ) by {
        if j < pre.len() - 1 {
            assert(row[j] == pre[j]);
            assert(row[j + 1] == pre[j + 1]);
        } else {
            assert(row[j] == pre[pre.len() - 1]);
            assert(row[j + 1] == nd);
        }
    }
}

#[verifier::rlimit(100)]
#[verifier::spinoff_prover]
proof fn lemma_row_state_parses(s: Seq<char>, nodes: Seq<Node>)
    requires
        row_state(s, nodes, s.len() as int),
    ensures
        parses_to(s, nodes),
{
    reveal(row_state);
    reveal(parses_to);
}

/// The parser for the source dialect:/// The parser for the source dialect: a struct-and-type-alias declaration
/// grammar with package headers, imports, comments, constants and function
/// bodies.
pub struct AwsGoEventsParser;

impl AwsGoEventsParser {
    /// Parses `input` starting at the given rule. For the root rule the
    /// whole text must be consumed and the top-level nodes are returned in
    /// order; for any other supported rule, one node is returned. A text
    /// that matches no rule fails with the position where no rule could
    /// make progress.
    #[verifier::rlimit(100)]
    pub fn parse(rule: Rule, input: &str) -> (r: Result<Vec<Node>, Error>)
        ensures
            rule == Rule::AwsGoEvents ==> (r matches Ok(v) ==> parses_to(input@, v@)),
            rule == Rule::AwsGoEvents ==> (r matches Err(e) ==> (e matches Error::Syntax(pos)
                && pos <= input@.len())),
            (rule == Rule::AwsGoEvents && input@.len() == 0) ==> (r matches Ok(v) && v@.len()
                == 0),
    {
        let s = chars_of(input);
        if let Rule::AwsGoEvents = rule {
            let n = s.len();
            let mut items: Vec<Node> = Vec::new();
            let mut i = skip_ws(&s, 0);
            proof {
                reveal(row_state);
                assert(row_state(s@, items@, i as int));
            }
            while i < n
                invariant
                    n == s@.len(),
                    s@ == input@,
                    i <= n,
                    n == 0 ==> items@.len() == 0,
                    row_state(s@, items@, i as int),
                decreases n - i,
            {
                let ghost i0 = i as int;
                match p_top_level(&s, i) {
                    Some((node, e)) => {
                        let ghost nd = node;
                        let ghost pre_items = items@;
                        items.push(node);
                        i = skip_ws(&s, e);
                        proof {
                            assert(items@ == pre_items.push(nd));
                            lemma_row_push(s@, pre_items, nd, i0, e as int, i as int);
                        }
                    },
                    None => {
                        return Err(Error::Syntax(i));
                    },
                }
            }
            proof {
                lemma_row_state_parses(input@, items@);
            }
            return Ok(items);
        }
        let one: Option<(Node, usize)> = match rule {
            Rule::Array => p_array(&s, 0),
            Rule::GoMap => p_map(&s, 0),
            Rule::PackageDef => p_package_def(&s, 0),
            Rule::StructDef => p_struct_def(&s, 0),
            Rule::StructField => p_struct_field(&s, 0),
            Rule::JsonMapping => p_json_mapping(&s, 0),
            Rule::Import => p_import(&s, 0),
            Rule::ImportMultiple => p_import_multiple(&s, 0),
            Rule::TypeAlias => p_type_alias(&s, 0),
            Rule::Ident => p_ident(&s, 0),
            Rule::Primitive => p_primitive(&s, 0),
            _ => None,
        };
        match one {
            Some((node, _e)) => {
                let mut items: Vec<Node> = Vec::new();
                items.push(node);
                Ok(items)
            },
            None => Err(Error::Syntax(0)),
        }
    }
}

} // verus!
