use slicec::diagnostics::{Diagnostic, DiagnosticKind, Diagnostics, Error, Lint, Location, Span};
use slicec::encoding::Encoding;
use slicec::grammar::{
    Ast, DataType, DocComment, Entity, EntityKind, ExceptionRef, Operation, ParamTag, Parameter, Primitive,
    ReturnsTag, ThrowsTag, TypeRef,
};
use slicec::members::validate_parameters;
use slicec::operations::validate_operation;
use slicec::validators::{validate, CompilationMode};

fn span(n: usize) -> Span {
    Span::new(Location { row: n, col: 1 }, Location { row: n, col: 10 }, "test.slice")
}

fn prim(p: Primitive) -> TypeRef {
    TypeRef { definition: DataType::Primitive(p), is_optional: false }
}

fn param(name: &str, p: Primitive, streamed: bool, line: usize) -> Parameter {
    Parameter {
        identifier: name.to_owned(),
        scoped_identifier: format!("Test::I::op::{name}"),
        data_type: prim(p),
        tag: None,
        is_streamed: streamed,
        span: span(line),
    }
}

fn op(parameters: Vec<Parameter>, returns: Vec<Parameter>, returns_tuple: bool) -> Operation {
    Operation {
        identifier: "op".to_owned(),
        scoped_identifier: "Test::I::op".to_owned(),
        parameters,
        return_members: returns,
        returns_tuple,
        exception_specification: Vec::new(),
        encoding: Encoding::Slice2,
        comment: None,
        has_encoded_result: false,
        span: span(1),
    }
}

fn exception(name: &str, base: Option<usize>) -> Entity {
    Entity {
        identifier: name.to_owned(),
        kind: EntityKind::Exception,
        members: Vec::new(),
        base,
        compact_id: None,
        span: span(2),
    }
}

fn comment(params: Vec<ParamTag>, returns: Vec<ReturnsTag>, throws: Vec<ThrowsTag>) -> DocComment {
    DocComment { overview: String::new(), params, returns, throws }
}

fn parameter_diagnostics(operation: &Operation) -> Vec<Diagnostic> {
    let mut diagnostics = Diagnostics::new();
    validate_parameters(operation, &mut diagnostics);
    diagnostics.into_inner()
}

fn operation_diagnostics(operation: &Operation, ast: &Ast) -> Vec<Diagnostic> {
    let mut diagnostics = Diagnostics::new();
    validate_operation(operation, ast, &mut diagnostics);
    diagnostics.into_inner()
}

fn note_messages(d: &Diagnostic) -> Vec<&str> {
    d.notes.iter().map(|n| n.message.as_str()).collect()
}

#[test]
fn cannot_redefine_parameters() {
    let operation = op(vec![param("a", Primitive::Bool, false, 3), param("a", Primitive::Int32, false, 4)], vec![], false);
    let diagnostics = parameter_diagnostics(&operation);
    assert_eq!(diagnostics.len(), 1);
    assert_eq!(diagnostics[0].kind, DiagnosticKind::Error(Error::Redefinition { identifier: "a".to_string() }));
    assert_eq!(note_messages(&diagnostics[0]), vec!["'a' was previously defined here"]);
    assert_eq!(diagnostics[0].notes[0].span, Some(span(3)));
    assert_eq!(diagnostics[0].span, Some(span(4)));
}

#[test]
fn cannot_redefine_return_members() {
    let operation = op(vec![], vec![param("a", Primitive::String, false, 3), param("a", Primitive::Int8, false, 4)], true);
    let diagnostics = parameter_diagnostics(&operation);
    assert_eq!(diagnostics.len(), 1);
    assert_eq!(diagnostics[0].kind, DiagnosticKind::Error(Error::Redefinition { identifier: "a".to_string() }));
    assert_eq!(note_messages(&diagnostics[0]), vec!["'a' was previously defined here"]);
    assert_eq!(diagnostics[0].notes[0].span, Some(span(3)));
}

#[test]
fn redefinition_notes_point_at_the_first_declaration() {
    let operation = op(
        vec![
            param("a", Primitive::Bool, false, 3),
            param("b", Primitive::Bool, false, 4),
            param("a", Primitive::Bool, false, 5),
            param("a", Primitive::Bool, false, 6),
        ],
        vec![],
        false,
    );
    let diagnostics = parameter_diagnostics(&operation);
    assert_eq!(diagnostics.len(), 2);
    assert_eq!(diagnostics[0].notes[0].span, Some(span(3)));
    assert_eq!(diagnostics[1].notes[0].span, Some(span(3)));
    assert_eq!(diagnostics[1].span, Some(span(6)));
}

#[test]
fn return_tuple_with_zero_elements_is_rejected() {
    let operation = op(vec![], vec![], true);
    let diagnostics = parameter_diagnostics(&operation);
    assert_eq!(diagnostics.len(), 1);
    assert_eq!(diagnostics[0].kind, DiagnosticKind::Error(Error::ReturnTuplesMustContainAtLeastTwoElements));
}

#[test]
fn return_tuple_with_one_element_is_rejected() {
    let operation = op(vec![], vec![param("b", Primitive::Bool, false, 3)], true);
    let diagnostics = parameter_diagnostics(&operation);
    assert_eq!(diagnostics.len(), 1);
    assert_eq!(diagnostics[0].kind, DiagnosticKind::Error(Error::ReturnTuplesMustContainAtLeastTwoElements));
}

#[test]
fn single_return_and_no_return_are_accepted() {
    assert!(parameter_diagnostics(&op(vec![], vec![param("returnValue", Primitive::String, false, 3)], false)).is_empty());
    assert!(parameter_diagnostics(&op(vec![], vec![], false)).is_empty());
    let tuple = op(vec![], vec![param("r1", Primitive::String, false, 3), param("r2", Primitive::Bool, false, 4)], true);
    assert!(parameter_diagnostics(&tuple).is_empty());
}

#[test]
fn can_have_streamed_parameter_and_return() {
    let operation = op(vec![param("a", Primitive::UInt32, true, 3)], vec![param("returnValue", Primitive::UInt32, true, 4)], false);
    assert!(parameter_diagnostics(&operation).is_empty());
    assert!(operation.parameters[0].is_streamed);
    assert!(operation.return_members[0].is_streamed);
}

#[test]
fn can_contain_tags() {
    let mut a = param("a", Primitive::Int32, false, 3);
    a.tag = Some(1);
    let operation = op(vec![a], vec![], false);
    assert!(parameter_diagnostics(&operation).is_empty());
    assert_eq!(operation.parameters[0].tag, Some(1));
}

#[test]
fn parameter_and_return_can_have_the_same_tag() {
    let mut a = param("a", Primitive::Int32, false, 3);
    a.tag = Some(1);
    let mut r = param("returnValue", Primitive::String, false, 4);
    r.tag = Some(1);
    let operation = op(vec![a], vec![r], false);
    assert!(parameter_diagnostics(&operation).is_empty());
    assert_eq!(operation.parameters[0].tag, Some(1));
    assert_eq!(operation.return_members[0].tag, Some(1));
}

#[test]
fn operation_can_have_at_most_one_streamed_parameter() {
    let operation = op(vec![param("s", Primitive::VarUInt62, true, 3), param("s2", Primitive::String, true, 4)], vec![], false);
    let diagnostics = parameter_diagnostics(&operation);
    assert_eq!(diagnostics.len(), 2);
    assert_eq!(
        diagnostics[0].kind,
        DiagnosticKind::Error(Error::StreamedMembersMustBeLast { parameter_identifier: "s".to_owned() })
    );
    assert_eq!(diagnostics[1].kind, DiagnosticKind::Error(Error::MultipleStreamedMembers));
}

#[test]
fn stream_parameter_must_be_last() {
    let operation = op(vec![param("s", Primitive::VarUInt62, true, 3), param("i", Primitive::Int32, false, 4)], vec![], false);
    let diagnostics = parameter_diagnostics(&operation);
    assert_eq!(diagnostics.len(), 1);
    assert_eq!(
        diagnostics[0].kind,
        DiagnosticKind::Error(Error::StreamedMembersMustBeLast { parameter_identifier: "s".to_owned() })
    );
    assert_eq!(diagnostics[0].span, Some(span(3)));
}

#[test]
fn streamed_return_members_are_checked_too() {
    let operation = op(vec![], vec![param("a", Primitive::Bool, true, 3), param("b", Primitive::Bool, false, 4)], true);
    let diagnostics = parameter_diagnostics(&operation);
    assert_eq!(diagnostics.len(), 1);
    assert_eq!(
        diagnostics[0].kind,
        DiagnosticKind::Error(Error::StreamedMembersMustBeLast { parameter_identifier: "a".to_owned() })
    );
}

#[test]
fn exception_specifications_are_not_supported() {
    let mut ast = Ast::new();
    let e = ast.add(exception("E", None));
    let mut operation = op(vec![], vec![], false);
    operation.exception_specification = vec![ExceptionRef { definition: e, span: span(5) }];
    let diagnostics = operation_diagnostics(&operation, &ast);
    assert_eq!(diagnostics.len(), 1);
    assert_eq!(diagnostics[0].kind, DiagnosticKind::Error(Error::ExceptionSpecificationNotSupported));
    assert_eq!(diagnostics[0].scope.as_deref(), Some("Test::I::op"));
}

#[test]
fn exception_specification_span_covers_the_whole_clause() {
    let mut ast = Ast::new();
    let e1 = ast.add(exception("E1", None));
    let e2 = ast.add(exception("E2", None));
    let mut operation = op(vec![], vec![], false);
    operation.exception_specification =
        vec![ExceptionRef { definition: e1, span: span(5) }, ExceptionRef { definition: e2, span: span(7) }];
    let diagnostics = operation_diagnostics(&operation, &ast);
    assert_eq!(diagnostics.len(), 1);
    let expected = Span::new(Location { row: 5, col: 1 }, Location { row: 7, col: 10 }, "test.slice");
    assert_eq!(diagnostics[0].span, Some(expected));
}

#[test]
fn operations_can_throw_multiple_exceptions() {
    let mut ast = Ast::new();
    let e1 = ast.add(exception("E1", None));
    let e2 = ast.add(exception("E2", None));
    let mut operation = op(vec![], vec![], false);
    operation.encoding = Encoding::Slice1;
    operation.exception_specification =
        vec![ExceptionRef { definition: e1, span: span(5) }, ExceptionRef { definition: e2, span: span(6) }];
    assert!(operation_diagnostics(&operation, &ast).is_empty());
    assert_eq!(ast.entities[operation.exception_specification[0].definition].identifier, "E1");
    assert_eq!(ast.entities[operation.exception_specification[1].definition].identifier, "E2");
}

#[test]
fn operations_can_omit_throws_clause() {
    let mut ast = Ast::new();
    ast.add(exception("E1", None));
    let mut operation = op(vec![], vec![], false);
    operation.encoding = Encoding::Slice1;
    assert!(operation_diagnostics(&operation, &ast).is_empty());
    assert!(operation.exception_specification.is_empty());
}

fn throws_tag(documented: usize) -> ThrowsTag {
    ThrowsTag { thrown_type: Some(documented), span: span(9), message_span: span(10) }
}

fn slice1_op_throwing(thrown: usize, tags: Vec<ThrowsTag>) -> Operation {
    let mut operation = op(vec![], vec![], false);
    operation.encoding = Encoding::Slice1;
    operation.exception_specification = vec![ExceptionRef { definition: thrown, span: span(5) }];
    operation.comment = Some(comment(vec![], vec![], tags));
    operation
}

#[test]
fn throws_tag_for_unrelated_exception_is_a_lint() {
    let mut ast = Ast::new();
    let e1 = ast.add(exception("E1", None));
    let e2 = ast.add(exception("E2", None));
    let operation = slice1_op_throwing(e1, vec![throws_tag(e2)]);
    let diagnostics = operation_diagnostics(&operation, &ast);
    assert_eq!(diagnostics.len(), 1);
    assert_eq!(
        diagnostics[0].kind,
        DiagnosticKind::Lint(Lint::IncorrectDocComment {
            message: "comment has a 'throws' tag for 'E2', but operation 'op' doesn't throw this exception".to_owned()
        })
    );
    assert!(!diagnostics[0].is_error());
}

#[test]
fn throws_tag_for_thrown_exception_or_derived_one_is_accepted() {
    let mut ast = Ast::new();
    let e1 = ast.add(exception("E1", None));
    let d1 = ast.add(exception("D1", Some(e1)));
    let d2 = ast.add(exception("D2", Some(d1)));
    let operation = slice1_op_throwing(e1, vec![throws_tag(e1), throws_tag(d1), throws_tag(d2)]);
    assert!(operation_diagnostics(&operation, &ast).is_empty());
}

#[test]
fn throws_tag_for_a_base_of_the_thrown_exception_is_a_lint() {
    let mut ast = Ast::new();
    let e1 = ast.add(exception("E1", None));
    let d1 = ast.add(exception("D1", Some(e1)));
    let operation = slice1_op_throwing(d1, vec![throws_tag(e1)]);
    assert_eq!(operation_diagnostics(&operation, &ast).len(), 1);
}

#[test]
fn throws_tag_without_throws_clause_is_a_lint() {
    let mut ast = Ast::new();
    let e1 = ast.add(exception("E1", None));
    let mut operation = op(vec![], vec![], false);
    operation.comment = Some(comment(vec![], vec![], vec![throws_tag(e1)]));
    let diagnostics = operation_diagnostics(&operation, &ast);
    assert_eq!(diagnostics.len(), 1);
    assert_eq!(
        diagnostics[0].kind,
        DiagnosticKind::Lint(Lint::IncorrectDocComment {
            message: "comment has a 'throws' tag, but operation 'op' does not throw anything".to_owned()
        })
    );
    let joined = Span::new(Location { row: 9, col: 1 }, Location { row: 10, col: 10 }, "test.slice");
    assert_eq!(diagnostics[0].span, Some(joined));
}

#[test]
fn param_tag_must_name_a_parameter() {
    let ast = Ast::new();
    let mut operation = op(vec![param("a", Primitive::Bool, false, 3)], vec![], false);
    operation.comment = Some(comment(
        vec![ParamTag { identifier: "a".to_owned(), span: span(8) }, ParamTag { identifier: "x".to_owned(), span: span(9) }],
        vec![],
        vec![],
    ));
    let diagnostics = operation_diagnostics(&operation, &ast);
    assert_eq!(diagnostics.len(), 1);
    assert_eq!(
        diagnostics[0].kind,
        DiagnosticKind::Lint(Lint::IncorrectDocComment {
            message: "comment has a 'param' tag for 'x', but operation 'op' has no parameter with that name".to_owned()
        })
    );
    assert_eq!(diagnostics[0].span, Some(span(9)));
}

fn returns_tag(identifier: Option<&str>) -> ReturnsTag {
    ReturnsTag { identifier: identifier.map(|s| s.to_owned()), span: span(8), message_span: span(9) }
}

#[test]
fn returns_tag_without_return_type_is_a_lint() {
    let ast = Ast::new();
    let mut operation = op(vec![], vec![], false);
    operation.comment = Some(comment(vec![], vec![returns_tag(None)], vec![]));
    let diagnostics = operation_diagnostics(&operation, &ast);
    assert_eq!(diagnostics.len(), 1);
    assert_eq!(
        diagnostics[0].kind,
        DiagnosticKind::Lint(Lint::IncorrectDocComment {
            message: "comment has a 'returns' tag, but operation 'op' does not return anything".to_owned()
        })
    );
}

#[test]
fn returns_tag_with_identifier_on_single_return_has_two_notes() {
    let ast = Ast::new();
    let mut operation = op(vec![], vec![param("returnValue", Primitive::String, false, 3)], false);
    operation.comment = Some(comment(vec![], vec![returns_tag(Some("r")), returns_tag(None)], vec![]));
    let diagnostics = operation_diagnostics(&operation, &ast);
    assert_eq!(diagnostics.len(), 1);
    assert_eq!(
        diagnostics[0].kind,
        DiagnosticKind::Lint(Lint::IncorrectDocComment {
            message: "comment has a 'returns' tag for 'r', but operation 'op' doesn't return anything with that name"
                .to_owned()
        })
    );
    assert_eq!(
        note_messages(&diagnostics[0]),
        vec!["operation 'op' returns a single unnamed type", "try removing the identifier from your comment: \"@returns: ...\""]
    );
    assert_eq!(diagnostics[0].notes[0].span, Some(span(1)));
}

#[test]
fn returns_tag_must_name_a_tuple_member() {
    let ast = Ast::new();
    let mut operation = op(vec![], vec![param("r1", Primitive::String, false, 3), param("r2", Primitive::Bool, false, 4)], true);
    operation.comment = Some(comment(vec![], vec![returns_tag(Some("r1")), returns_tag(Some("r3")), returns_tag(None)], vec![]));
    let diagnostics = operation_diagnostics(&operation, &ast);
    assert_eq!(diagnostics.len(), 1);
    assert_eq!(
        diagnostics[0].kind,
        DiagnosticKind::Lint(Lint::IncorrectDocComment {
            message: "comment has a 'returns' tag for 'r3', but operation 'op' doesn't return anything with that name"
                .to_owned()
        })
    );
}

#[test]
fn validation_run_twice_gives_the_same_diagnostics() {
    let mut ast = Ast::new();
    let e1 = ast.add(exception("E1", None));
    let e2 = ast.add(exception("E2", None));
    ast.resolve_encodings();
    let mut first = slice1_op_throwing(e1, vec![throws_tag(e2)]);
    first.parameters = vec![param("a", Primitive::Bool, true, 3), param("a", Primitive::Bool, false, 4)];
    let operations = vec![first];
    let mode = CompilationMode { encoding: Encoding::Slice1, declaration: Some(span(1)) };
    let mut diagnostics = Diagnostics::new();
    validate(&ast, &mode, &operations, &mut diagnostics);
    let once = diagnostics.len();
    validate(&ast, &mode, &operations, &mut diagnostics);
    let all = diagnostics.into_inner();
    assert_eq!(once, 3);
    assert_eq!(all.len(), 2 * once);
    assert_eq!(all[..once], all[once..]);
}
