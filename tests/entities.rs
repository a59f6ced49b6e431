use slicec::class_visitor::{primary_constructors, ClassVisitor, MemberRef};
use slicec::diagnostics::{DiagnosticKind, Diagnostics, Error, Location, Span};
use slicec::encoded_result::{encoded_result_struct, escape_parameter_name};
use slicec::encoding::{Encoding, SupportedEncodings};
use slicec::grammar::{
    Ast, CustomType, DataType, Entity, EntityKind, Member, Operation, Parameter, Primitive, TagFormat, TypeRef,
};
use slicec::slicing::{decode_class, encode_class, SliceItem, Value};
use slicec::validators::{validate_entity_encoding, CompilationMode};

fn span(n: usize) -> Span {
    Span::new(Location { row: n, col: 1 }, Location { row: n, col: 10 }, "test.slice")
}

fn member(name: &str, t: DataType, has_default: bool) -> Member {
    Member {
        identifier: name.to_owned(),
        data_type: TypeRef { definition: t, is_optional: false },
        tag: None,
        has_default,
    }
}

fn entity(name: &str, kind: EntityKind, members: Vec<Member>, base: Option<usize>) -> Entity {
    Entity { identifier: name.to_owned(), kind, members, base, compact_id: None, span: span(3) }
}

const BOTH: SupportedEncodings = SupportedEncodings { slice1: true, slice2: true };
const ONLY1: SupportedEncodings = SupportedEncodings { slice1: true, slice2: false };
const ONLY2: SupportedEncodings = SupportedEncodings { slice1: false, slice2: true };

#[test]
fn supported_encodings_meet_over_members() {
    let mut ast = Ast::new();
    let plain = ast.add(entity("S", EntityKind::Struct, vec![member("a", DataType::Primitive(Primitive::Int32), false)], None));
    let c = ast.add(entity("C", EntityKind::Class, vec![], None));
    let holds_class = ast.add(entity("H", EntityKind::Struct, vec![member("c", DataType::Entity(c), false)], None));
    let outer = ast.add(entity("O", EntityKind::Struct, vec![member("h", DataType::Entity(holds_class), false)], None));
    let slice2_only = ast.add(entity("V", EntityKind::Struct, vec![member("v", DataType::Primitive(Primitive::VarUInt62), false)], None));
    let custom = ast.add(entity("T", EntityKind::CustomType, vec![], None));
    let empty = ast.add(entity(
        "X",
        EntityKind::Struct,
        vec![member("h", DataType::Entity(holds_class), false), member("t", DataType::Entity(custom), false)],
        None,
    ));
    let any = ast.add(entity("A", EntityKind::Struct, vec![member("a", DataType::Primitive(Primitive::AnyClass), false)], None));
    assert_eq!(ast.try_supported_encodings(plain), None);
    ast.resolve_encodings();
    assert_eq!(ast.supported_encodings(plain), BOTH);
    assert_eq!(ast.supported_encodings(c), ONLY1);
    assert_eq!(ast.supported_encodings(holds_class), ONLY1);
    assert_eq!(ast.supported_encodings(outer), ONLY1);
    assert_eq!(ast.supported_encodings(slice2_only), ONLY2);
    assert_eq!(ast.supported_encodings(custom), ONLY2);
    assert_eq!(ast.supported_encodings(empty), SupportedEncodings { slice1: false, slice2: false });
    assert!(ast.supported_encodings(empty).is_empty());
    assert_eq!(ast.supported_encodings(any), ONLY1);
    assert!(ast.is_class_type(c));
    assert!(!ast.is_class_type(holds_class));
}

#[test]
fn exception_inheritance_is_slice1_only() {
    let mut ast = Ast::new();
    let a = ast.add(entity("A", EntityKind::Exception, vec![], None));
    let b = ast.add(entity("B", EntityKind::Exception, vec![], Some(a)));
    let d = ast.add(entity("D", EntityKind::Class, vec![], None));
    let e = ast.add(entity("E", EntityKind::Class, vec![], Some(d)));
    ast.resolve_encodings();
    assert_eq!(ast.supported_encodings(a), BOTH);
    assert_eq!(ast.supported_encodings(b), ONLY1);
    assert_eq!(ast.supported_encodings(e), ONLY1);
}

#[test]
fn inheritance_fails() {
    let mut ast = Ast::new();
    ast.add(entity("A", EntityKind::Exception, vec![], None));
    let b = ast.add(entity("B", EntityKind::Exception, vec![], Some(0)));
    ast.resolve_encodings();
    let mode = CompilationMode { encoding: Encoding::Slice2, declaration: None };
    let mut diagnostics = Diagnostics::new();
    validate_entity_encoding(&ast, 0, &mode, &mut diagnostics);
    validate_entity_encoding(&ast, b, &mode, &mut diagnostics);
    let all = diagnostics.into_inner();
    assert_eq!(all.len(), 1);
    assert_eq!(
        all[0].kind,
        DiagnosticKind::Error(Error::NotSupportedWithEncoding {
            kind: "exception".to_owned(),
            identifier: "B".to_owned(),
            encoding: Encoding::Slice2,
        })
    );
    let notes: Vec<&str> = all[0].notes.iter().map(|n| n.message.as_str()).collect();
    assert_eq!(
        notes,
        vec![
            "file is using the Slice2 encoding by default",
            "to use a different encoding, specify it at the top of the slice file\nex: 'encoding = 1;'",
            "exception inheritance is only supported by the Slice1 encoding",
        ]
    );
}

#[test]
fn can_be_data_members() {
    let mut ast = Ast::new();
    let e = ast.add(entity("E", EntityKind::Exception, vec![], None));
    ast.add(entity("S", EntityKind::Struct, vec![member("e", DataType::Entity(e), false)], None));
    ast.resolve_encodings();
    let mode = CompilationMode { encoding: Encoding::Slice2, declaration: None };
    let mut diagnostics = Diagnostics::new();
    validate_entity_encoding(&ast, 0, &mode, &mut diagnostics);
    validate_entity_encoding(&ast, 1, &mode, &mut diagnostics);
    assert!(diagnostics.is_empty());
}

#[test]
fn class_under_declared_slice2_names_the_declaration() {
    let mut ast = Ast::new();
    let c = ast.add(entity("C", EntityKind::Class, vec![], None));
    ast.resolve_encodings();
    let mode = CompilationMode { encoding: Encoding::Slice2, declaration: Some(span(1)) };
    let mut diagnostics = Diagnostics::new();
    validate_entity_encoding(&ast, c, &mode, &mut diagnostics);
    let all = diagnostics.into_inner();
    assert_eq!(all.len(), 1);
    let notes: Vec<&str> = all[0].notes.iter().map(|n| n.message.as_str()).collect();
    assert_eq!(notes, vec!["file encoding was set to Slice2 here:", "classes are only supported by the Slice1 encoding"]);
    assert_eq!(all[0].notes[0].span, Some(span(1)));
}

#[test]
fn custom_type_under_slice1_is_rejected() {
    let mut ast = Ast::new();
    let t = ast.add(entity("T", EntityKind::CustomType, vec![], None));
    ast.resolve_encodings();
    let mode = CompilationMode { encoding: Encoding::Slice1, declaration: Some(span(1)) };
    let mut diagnostics = Diagnostics::new();
    validate_entity_encoding(&ast, t, &mode, &mut diagnostics);
    let all = diagnostics.into_inner();
    assert_eq!(all.len(), 1);
    let notes: Vec<&str> = all[0].notes.iter().map(|n| n.message.as_str()).collect();
    assert_eq!(notes, vec!["file encoding was set to Slice1 here:", "custom types are not supported by the Slice1 encoding"]);
}

#[test]
fn custom_type_queries() {
    let t = CustomType::new("Money".to_owned(), span(2));
    assert_eq!(t.type_string(), "Money");
    assert_eq!(t.fixed_wire_size(), None);
    assert!(!t.is_class_type());
    assert_eq!(t.tag_format(), None);
    assert_eq!(t.supported_encodings(), ONLY2);
    assert!(t.supported_encodings().supports(Encoding::Slice2));
    assert!(!t.supported_encodings().supports(Encoding::Slice1));
}

#[test]
fn primitive_queries() {
    assert_eq!(Primitive::Int32.fixed_wire_size(), Some(4));
    assert_eq!(Primitive::UInt16.fixed_wire_size(), Some(2));
    assert_eq!(Primitive::String.fixed_wire_size(), None);
    assert_eq!(Primitive::Int32.tag_format(), Some(TagFormat::F4));
    assert_eq!(Primitive::VarUInt62.tag_format(), None);
    assert!(Primitive::AnyClass.is_class_type());
    assert_eq!(Primitive::VarUInt62.type_string(), "varuint62");
    assert_eq!(
        SupportedEncodings::all().intersect(&SupportedEncodings::only(Encoding::Slice1)),
        ONLY1
    );
}

fn class_chain_ast() -> (Ast, usize) {
    let mut ast = Ast::new();
    let mut root = entity("Root", EntityKind::Class, vec![member("a", DataType::Primitive(Primitive::Int32), false)], None);
    root.compact_id = Some(7);
    let r = ast.add(root);
    let mid = ast.add(entity("Mid", EntityKind::Class, vec![], Some(r)));
    let leaf = ast.add(entity(
        "Leaf",
        EntityKind::Class,
        vec![member("b", DataType::Primitive(Primitive::Bool), true), member("c", DataType::Primitive(Primitive::Int64), false)],
        Some(mid),
    ));
    (ast, leaf)
}

#[test]
fn slices_round_trip_with_an_empty_level() {
    let (ast, leaf) = class_chain_ast();
    let levels = vec![vec![Value::Bool(true), Value::Int(-5)], vec![], vec![Value::Int(42)]];
    let items = encode_class(&ast, leaf, &levels);
    assert_eq!(items.len(), (2 + 2) + 2 + (1 + 2));
    assert_eq!(
        items[0],
        SliceItem::StartSlice { type_id: "Leaf".to_owned(), compact_id: None, is_last: false }
    );
    assert_eq!(items[1], SliceItem::Member(Value::Bool(true)));
    assert_eq!(items[3], SliceItem::EndSlice);
    assert_eq!(items[4], SliceItem::StartSlice { type_id: "Mid".to_owned(), compact_id: None, is_last: false });
    assert_eq!(items[6], SliceItem::StartSlice { type_id: "Root".to_owned(), compact_id: Some(7), is_last: true });
    assert_eq!(decode_class(&ast, leaf, &items), Some(levels));
}

#[test]
fn decoding_rejects_altered_slices() {
    let (ast, leaf) = class_chain_ast();
    let levels = vec![vec![Value::Bool(true), Value::Int(-5)], vec![], vec![Value::Int(42)]];
    let mut items = encode_class(&ast, leaf, &levels);
    items.pop();
    assert_eq!(decode_class(&ast, leaf, &items), None);
    let mut items = encode_class(&ast, leaf, &levels);
    items[4] = SliceItem::StartSlice { type_id: "Other".to_owned(), compact_id: None, is_last: false };
    assert_eq!(decode_class(&ast, leaf, &items), None);
    let mut items = encode_class(&ast, leaf, &levels);
    items.push(SliceItem::EndSlice);
    assert_eq!(decode_class(&ast, leaf, &items), None);
}

#[test]
fn support_compact_type_id() {
    let mut ast = Ast::new();
    let mut c = entity("C", EntityKind::Class, vec![], None);
    c.compact_id = Some(42);
    let c = ast.add(c);
    let items = encode_class(&ast, c, &vec![vec![]]);
    assert_eq!(items[0], SliceItem::StartSlice { type_id: "C".to_owned(), compact_id: Some(42), is_last: true });
    assert_eq!(ast.entities[c].compact_id, Some(42));
}

#[test]
fn constructors_follow_default_initializers() {
    let (ast, leaf) = class_chain_ast();
    let ctors = primary_constructors(&ast, leaf);
    assert_eq!(ctors.len(), 2);
    let all = vec![MemberRef { entity: 0, member: 0 }, MemberRef { entity: 2, member: 0 }, MemberRef { entity: 2, member: 1 }];
    assert_eq!(ctors[0].parameters, all);
    assert_eq!(ctors[0].base_arguments, vec![MemberRef { entity: 0, member: 0 }]);
    assert_eq!(ctors[0].assignments, vec![MemberRef { entity: 2, member: 0 }, MemberRef { entity: 2, member: 1 }]);
    assert_eq!(ctors[1].parameters, vec![MemberRef { entity: 0, member: 0 }, MemberRef { entity: 2, member: 1 }]);
    assert_eq!(ctors[1].assignments, vec![MemberRef { entity: 2, member: 1 }]);
    let root_ctors = primary_constructors(&ast, 0);
    assert_eq!(root_ctors.len(), 1);
}

#[test]
fn class_without_members_gets_one_parameterless_constructor() {
    let mut ast = Ast::new();
    let c = ast.add(entity("C", EntityKind::Class, vec![], None));
    let ctors = primary_constructors(&ast, c);
    assert_eq!(ctors.len(), 1);
    assert!(ctors[0].parameters.is_empty());
    let mut visitor = ClassVisitor::new();
    visitor.visit_class_start(&ast, c);
    assert_eq!(visitor.code_map.len(), 1);
    assert!(visitor.code_map[0].slice.is_last);
}

#[test]
fn visitor_records_slice_code() {
    let (ast, leaf) = class_chain_ast();
    let mut visitor = ClassVisitor::new();
    visitor.visit_class_start(&ast, leaf);
    visitor.visit_class_start(&ast, 0);
    let code = &visitor.code_map[0];
    assert_eq!(code.base, Some(1));
    assert!(!code.slice.is_last);
    assert_eq!(code.decode_initialized, vec![MemberRef { entity: 2, member: 1 }]);
    assert_eq!(visitor.code_map[1].slice.compact_id, Some(7));
}

fn ret(name: &str, t: DataType) -> Parameter {
    Parameter {
        identifier: name.to_owned(),
        scoped_identifier: format!("Test::I::op::{name}"),
        data_type: TypeRef { definition: t, is_optional: false },
        tag: None,
        is_streamed: false,
        span: span(4),
    }
}

fn encoded_op(returns: Vec<Parameter>) -> Operation {
    Operation {
        identifier: "op".to_owned(),
        scoped_identifier: "Test::I::op".to_owned(),
        parameters: Vec::new(),
        return_members: returns,
        returns_tuple: false,
        exception_specification: Vec::new(),
        encoding: Encoding::Slice2,
        comment: None,
        has_encoded_result: true,
        span: span(1),
    }
}

#[test]
fn encoded_result_uses_the_operation_encoding() {
    let ast = Ast::new();
    let op = encoded_op(vec![ret("returnValue", DataType::Primitive(Primitive::String))]);
    let r = encoded_result_struct(&op, &ast).unwrap();
    assert_eq!(r.struct_name, "opEncodedReturnValue");
    assert!(r.single_return);
    assert_eq!(r.encoding, Encoding::Slice2);
    assert_eq!(r.dispatch_parameter.as_deref(), Some("dispatch"));
}

#[test]
fn encoded_result_with_classes_forces_slice1() {
    let mut ast = Ast::new();
    let c = ast.add(entity("C", EntityKind::Class, vec![], None));
    let s = ast.add(entity("S", EntityKind::Struct, vec![member("c", DataType::Entity(c), false)], None));
    let op = encoded_op(vec![ret("a", DataType::Primitive(Primitive::Int32)), ret("b", DataType::Entity(s))]);
    let r = encoded_result_struct(&op, &ast).unwrap();
    assert!(!r.single_return);
    assert_eq!(r.encoding, Encoding::Slice1);
    assert_eq!(r.dispatch_parameter, None);
}

#[test]
fn encoded_result_escapes_dispatch_name() {
    let ast = Ast::new();
    let returns = vec![ret("dispatch", DataType::Primitive(Primitive::Int32)), ret("b", DataType::Primitive(Primitive::Bool))];
    assert_eq!(escape_parameter_name(&returns, "dispatch"), "dispatch_");
    assert_eq!(escape_parameter_name(&returns, "other"), "other");
    let op = encoded_op(returns);
    let r = encoded_result_struct(&op, &ast).unwrap();
    assert_eq!(r.dispatch_parameter.as_deref(), Some("dispatch_"));
    let mut plain = encoded_op(vec![]);
    plain.has_encoded_result = false;
    assert!(encoded_result_struct(&plain, &ast).is_none());
}
