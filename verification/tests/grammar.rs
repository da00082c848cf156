use go_to_rust::parser::{AwsGoEventsParser, Node, Rule};

fn parsed(rule: Rule, input: &str) -> Node {
    let mut nodes = AwsGoEventsParser::parse(rule, input).expect("parses");
    assert_eq!(nodes.len(), 1);
    nodes.remove(0)
}

fn check(n: &Node, rule: Rule, start: usize, end: usize) {
    assert_eq!(n.rule, rule);
    assert_eq!(n.start, start);
    assert_eq!(n.end, end);
}

#[test]
fn test_parses_array() {
    let n = parsed(Rule::Array, "[]bool");
    check(&n, Rule::Array, 0, 6);
    assert_eq!(n.children.len(), 1);
    check(&n.children[0], Rule::Primitive, 2, 6);
    check(&n.children[0].children[0], Rule::PrimBool, 2, 6);

    let n = parsed(Rule::Array, "[]blah");
    check(&n, Rule::Array, 0, 6);
    assert_eq!(n.children.len(), 1);
    check(&n.children[0], Rule::Ident, 2, 6);
}

#[test]
fn test_parses_map() {
    let n = parsed(Rule::GoMap, "map[string]interface{}");
    check(&n, Rule::GoMap, 0, 22);
    assert_eq!(n.children.len(), 2);
    let key = &n.children[0];
    check(key, Rule::KeyType, 4, 10);
    check(&key.children[0], Rule::Primitive, 4, 10);
    check(&key.children[0].children[0], Rule::PrimString, 4, 10);
    let value = &n.children[1];
    check(value, Rule::ValueType, 11, 22);
    check(&value.children[0], Rule::Interface, 11, 22);
}

#[test]
fn test_parses_package_def() {
    let n = parsed(Rule::PackageDef, "package foo");
    check(&n, Rule::PackageDef, 0, 11);
    assert_eq!(n.children.len(), 1);
    check(&n.children[0], Rule::Ident, 8, 11);
}

#[test]
fn test_parses_struct_def() {
    let n = parsed(Rule::StructDef, "type MyFoo struct {}");
    check(&n, Rule::StructDef, 0, 20);
    assert_eq!(n.children.len(), 1);
    let pre = &n.children[0];
    check(pre, Rule::StructPreamble, 0, 17);
    check(&pre.children[0], Rule::StructName, 5, 10);
    check(&pre.children[0].children[0], Rule::Ident, 5, 10);

    let n = parsed(Rule::StructDef, "type MyFoo struct { foo string }");
    check(&n, Rule::StructDef, 0, 32);
    assert_eq!(n.children.len(), 2);
    check(&n.children[0], Rule::StructPreamble, 0, 17);
    let fields = &n.children[1];
    check(fields, Rule::StructFields, 20, 31);
    let field = &fields.children[0];
    check(field, Rule::StructField, 20, 31);
    let decl = &field.children[0];
    check(decl, Rule::StructFieldDecl, 20, 30);
    check(&decl.children[0], Rule::Ident, 20, 23);
    let ty = &decl.children[1];
    check(ty, Rule::StructFieldType, 24, 30);
    check(&ty.children[0], Rule::Primitive, 24, 30);
    check(&ty.children[0].children[0], Rule::PrimString, 24, 30);

    let n = parsed(Rule::StructDef, "type MyFoo struct { T1 }");
    check(&n, Rule::StructDef, 0, 24);
    let fields = &n.children[1];
    check(fields, Rule::StructFields, 20, 23);
    let field = &fields.children[0];
    check(field, Rule::StructField, 20, 23);
    let decl = &field.children[0];
    check(decl, Rule::StructFieldDecl, 20, 22);
    let emb = &decl.children[0];
    check(emb, Rule::StructEmbeddedField, 20, 22);
    check(&emb.children[0], Rule::Ident, 20, 22);

    let n = parsed(Rule::StructDef, "type MyFoo struct { *T1 }");
    check(&n, Rule::StructDef, 0, 25);
    let fields = &n.children[1];
    check(fields, Rule::StructFields, 20, 24);
    let field = &fields.children[0];
    check(field, Rule::StructField, 20, 24);
    let decl = &field.children[0];
    check(decl, Rule::StructFieldDecl, 20, 23);
    check(&decl.children[0], Rule::Pointer, 20, 21);
    let emb = &decl.children[1];
    check(emb, Rule::StructEmbeddedField, 21, 23);
    check(&emb.children[0], Rule::Ident, 21, 23);

    let n = parsed(
        Rule::StructDef,
        r#"type MyFoo struct {
                  foo string
                  bar int
                }"#,
    );
    check(&n, Rule::StructDef, 0, 92);
    check(&n.children[0], Rule::StructPreamble, 0, 17);
    let fields = &n.children[1];
    check(fields, Rule::StructFields, 38, 74);
    let f1 = &fields.children[0];
    check(f1, Rule::StructField, 38, 48);
    let d1 = &f1.children[0];
    check(d1, Rule::StructFieldDecl, 38, 48);
    check(&d1.children[0], Rule::Ident, 38, 41);
    let t1 = &d1.children[1];
    check(t1, Rule::StructFieldType, 42, 48);
    check(&t1.children[0], Rule::Primitive, 42, 48);
    check(&t1.children[0].children[0], Rule::PrimString, 42, 48);
    let f2 = &fields.children[1];
    check(f2, Rule::StructField, 67, 74);
    let d2 = &f2.children[0];
    check(d2, Rule::StructFieldDecl, 67, 74);
    check(&d2.children[0], Rule::Ident, 67, 70);
    let t2 = &d2.children[1];
    check(t2, Rule::StructFieldType, 71, 74);
    check(&t2.children[0], Rule::Primitive, 71, 74);
    check(&t2.children[0].children[0], Rule::PrimInt, 71, 74);
}

#[test]
fn test_parses_struct_field() {
    let n = parsed(Rule::StructField, "EventVersion string");
    check(&n, Rule::StructField, 0, 19);
    let decl = &n.children[0];
    check(decl, Rule::StructFieldDecl, 0, 19);
    check(&decl.children[0], Rule::Ident, 0, 12);
    let ty = &decl.children[1];
    check(ty, Rule::StructFieldType, 13, 19);
    check(&ty.children[0], Rule::Primitive, 13, 19);
    check(&ty.children[0].children[0], Rule::PrimString, 13, 19);

    let n = parsed(Rule::StructField, "EventVersion bool");
    check(&n, Rule::StructField, 0, 17);
    let decl = &n.children[0];
    check(decl, Rule::StructFieldDecl, 0, 17);
    check(&decl.children[0], Rule::Ident, 0, 12);
    let ty = &decl.children[1];
    check(ty, Rule::StructFieldType, 13, 17);
    check(&ty.children[0], Rule::Primitive, 13, 17);
    check(&ty.children[0].children[0], Rule::PrimBool, 13, 17);

    let n = parsed(Rule::StructField, "EventVersion *bool");
    check(&n, Rule::StructField, 0, 18);
    let decl = &n.children[0];
    check(decl, Rule::StructFieldDecl, 0, 18);
    check(&decl.children[0], Rule::Ident, 0, 12);
    check(&decl.children[1], Rule::Pointer, 13, 14);
    let ty = &decl.children[2];
    check(ty, Rule::StructFieldType, 14, 18);
    check(&ty.children[0], Rule::Primitive, 14, 18);
    check(&ty.children[0].children[0], Rule::PrimBool, 14, 18);
}

#[test]
fn test_parses_struct_embedded_field() {
    let n = parsed(Rule::StructField, "EventVersion");
    check(&n, Rule::StructField, 0, 12);
    let decl = &n.children[0];
    check(decl, Rule::StructFieldDecl, 0, 12);
    let emb = &decl.children[0];
    check(emb, Rule::StructEmbeddedField, 0, 12);
    check(&emb.children[0], Rule::Ident, 0, 12);

    let n = parsed(Rule::StructField, "*EventVersion");
    check(&n, Rule::StructField, 0, 13);
    let decl = &n.children[0];
    check(decl, Rule::StructFieldDecl, 0, 13);
    check(&decl.children[0], Rule::Pointer, 0, 1);
    let emb = &decl.children[1];
    check(emb, Rule::StructEmbeddedField, 1, 13);
    check(&emb.children[0], Rule::Ident, 1, 13);

    let n = parsed(Rule::StructField, "EventVersion MyType");
    check(&n, Rule::StructField, 0, 19);
    let decl = &n.children[0];
    check(decl, Rule::StructFieldDecl, 0, 19);
    check(&decl.children[0], Rule::Ident, 0, 12);
    let ty = &decl.children[1];
    check(ty, Rule::StructFieldType, 13, 19);
    check(&ty.children[0], Rule::Ident, 13, 19);
}

#[test]
fn test_parses_json_mapping() {
    let n = parsed(Rule::JsonMapping, "`json:\"fooBar\"`");
    check(&n, Rule::JsonMapping, 0, 15);
    assert_eq!(n.children.len(), 1);
    check(&n.children[0], Rule::JsonName, 7, 13);

    let n = parsed(Rule::JsonMapping, "`json:\"foo-x\"`");
    check(&n, Rule::JsonMapping, 0, 14);
    check(&n.children[0], Rule::JsonName, 7, 12);

    let n = parsed(Rule::JsonMapping, "`json:\"foo.x\"`");
    check(&n, Rule::JsonMapping, 0, 14);
    check(&n.children[0], Rule::JsonName, 7, 12);

    let n = parsed(Rule::JsonMapping, "`json:\"foo,omitempty\"`");
    check(&n, Rule::JsonMapping, 0, 22);
    assert_eq!(n.children.len(), 2);
    check(&n.children[0], Rule::JsonName, 7, 10);
    check(&n.children[1], Rule::OmitEmpty, 10, 20);

    let n = parsed(Rule::JsonMapping, "`json:\"fooBar\"` // whatever");
    check(&n, Rule::JsonMapping, 0, 27);
    assert_eq!(n.children.len(), 2);
    check(&n.children[0], Rule::JsonName, 7, 13);
    check(&n.children[1], Rule::AnyComment, 16, 27);
}

#[test]
fn test_parses_import() {
    let n = parsed(Rule::Import, "import \"foo\"");
    check(&n, Rule::Import, 0, 12);
    let pkg = &n.children[0];
    check(pkg, Rule::ImportPackage, 7, 12);
    check(&pkg.children[0], Rule::PackageName, 8, 11);

    let n = parsed(Rule::Import, "import \"a/b\"");
    check(&n, Rule::Import, 0, 12);
    let pkg = &n.children[0];
    check(pkg, Rule::ImportPackage, 7, 12);
    check(&pkg.children[0], Rule::PackageName, 8, 11);
}

#[test]
fn test_parses_mutiple_imports() {
    let n = parsed(Rule::ImportMultiple, "import (\n\"foo\"\n \"bar\"\n)");
    check(&n, Rule::ImportMultiple, 0, 23);
    assert_eq!(n.children.len(), 2);
    let p1 = &n.children[0];
    check(p1, Rule::ImportPackage, 9, 14);
    check(&p1.children[0], Rule::PackageName, 10, 13);
    let p2 = &n.children[1];
    check(p2, Rule::ImportPackage, 16, 21);
    check(&p2.children[0], Rule::PackageName, 17, 20);
}
