use oryn::ast::{BinOp, Expression, Spanned, Statement, StringPart, TypeAnnotation};
use oryn::errors::OrynError;
use oryn::lexer::lex;
use oryn::parser::parse;

/// Lex and parse `source`, asserting that neither step reports an error.
fn parse_ok(source: &str) -> Vec<Spanned<Statement>> {
    let (tokens, lex_errors) = lex(source);
    assert!(lex_errors.is_empty());
    let (stmts, parse_errors) = parse(tokens);
    assert!(parse_errors.is_empty(), "parse errors: {parse_errors:?}");
    stmts
}

/// Lex and parse `source`, returning the parse errors.
fn parse_errors(source: &str) -> Vec<OrynError> {
    let (tokens, _lex_errors) = lex(source);
    let (_stmts, errors) = parse(tokens);
    errors
}

/// Lex and parse `source`, asserting that lexing succeeds and parsing fails.
fn parse_err(source: &str) -> Vec<OrynError> {
    let (tokens, lex_errors) = lex(source);
    assert!(lex_errors.is_empty(), "unexpected lex errors: {lex_errors:?}");
    let (_, parse_errors) = parse(tokens);
    assert!(!parse_errors.is_empty(), "expected parse errors for: {source}");
    parse_errors
}

#[test]
fn parser_builds_ast_from_tokens() {
    let stmts = parse_ok("let x = 5");
    assert_eq!(stmts.len(), 1);
    assert!(matches!(&stmts[0].node, Statement::Let { name, .. } if name == "x"));
}

#[test]
fn parser_reports_parse_errors() {
    let (tokens, _) = lex("let = 5");
    let (_, errors) = parse(tokens);
    assert!(!errors.is_empty());
}

#[test]
fn tests_builds_ast_from_tokens() {
    let stmts = parse_ok("let x = 5");
    assert_eq!(stmts.len(), 1);
    assert!(matches!(&stmts[0].node, Statement::Let { name, .. } if name == "x"));
}

#[test]
fn tests_reports_parse_errors() {
    let (tokens, _) = lex("let = 5");
    let (_, errors) = parse(tokens);
    assert!(!errors.is_empty());
}

#[test]
fn expressions_carry_spans() {
    let stmts = parse_ok("5 + 10");
    assert_eq!(stmts.len(), 1);
    assert_eq!(stmts[0].span.start, 0);
}

#[test]
fn parses_range_expression() {
    let stmts = parse_ok("0..10");
    assert!(matches!(
        &stmts[0].node,
        Statement::Expression(Spanned { node: Expression::Range { inclusive: false, .. }, .. })
    ));
}

#[test]
fn parses_inclusive_range_expression() {
    let stmts = parse_ok("0..=10");
    assert!(matches!(
        &stmts[0].node,
        Statement::Expression(Spanned { node: Expression::Range { inclusive: true, .. }, .. })
    ));
}

#[test]
fn parses_for_statement() {
    let stmts = parse_ok("for i in 0..3 { print(i) }");
    assert!(matches!(&stmts[0].node, Statement::For { name, .. } if name == "i"));
}

#[test]
fn parses_nillable_type_annotation() {
    let stmts = parse_ok("let x: int? = 5");
    assert!(matches!(
        &stmts[0].node,
        Statement::Let { type_ann: Some(TypeAnnotation::Nillable(inner)), .. }
            if matches!(inner.as_ref(), TypeAnnotation::Named(segments) if segments == &["int"])
    ));
}

#[test]
fn parses_error_union_type_annotation() {
    let stmts = parse_ok("let x: !int = 5");
    assert!(matches!(
        &stmts[0].node,
        Statement::Let { type_ann: Some(TypeAnnotation::ErrorUnion(inner)), .. }
            if matches!(inner.as_ref(), TypeAnnotation::Named(segments) if segments == &["int"])
    ));
}

#[test]
fn parses_bare_named_type_annotation() {
    let stmts = parse_ok("let x: int = 5");
    assert!(matches!(
        &stmts[0].node,
        Statement::Let { type_ann: Some(TypeAnnotation::Named(segments)), .. }
            if segments == &["int"]
    ));
}

#[test]
fn parses_dotted_named_type_annotation() {
    let stmts = parse_ok("let x: math.Vec2 = 5");
    assert!(matches!(
        &stmts[0].node,
        Statement::Let { type_ann: Some(TypeAnnotation::Named(segments)), .. }
            if segments == &["math", "Vec2"]
    ));
}

#[test]
fn parses_parenthesized_error_union_of_nillable() {
    let stmts = parse_ok("let x: !(int?) = 5");
    match &stmts[0].node {
        Statement::Let { type_ann: Some(TypeAnnotation::ErrorUnion(inner)), .. } => {
            assert!(matches!(inner.as_ref(), TypeAnnotation::Nillable(inner2)
                if matches!(inner2.as_ref(), TypeAnnotation::Named(s) if s == &["int"])));
        }
        other => panic!("expected ErrorUnion(Nillable(Named)), got {other:?}"),
    }
}

#[test]
fn parses_parenthesized_nillable_of_error_union() {
    let stmts = parse_ok("let x: (!int)? = 5");
    match &stmts[0].node {
        Statement::Let { type_ann: Some(TypeAnnotation::Nillable(inner)), .. } => {
            assert!(matches!(inner.as_ref(), TypeAnnotation::ErrorUnion(inner2)
                if matches!(inner2.as_ref(), TypeAnnotation::Named(s) if s == &["int"])));
        }
        other => panic!("expected Nillable(ErrorUnion(Named)), got {other:?}"),
    }
}

#[test]
fn rejects_ambiguous_bang_t_question() {
    parse_err("let x: !int? = 5");
}

#[test]
fn parses_nillable_return_type() {
    let stmts = parse_ok("fn foo() -> int? { 5 }");
    assert!(matches!(
        &stmts[0].node,
        Statement::Function { return_type: Some(TypeAnnotation::Nillable(_)), .. }
    ));
}

#[test]
fn parses_error_union_return_type() {
    let stmts = parse_ok("fn foo() -> !int { 5 }");
    assert!(matches!(
        &stmts[0].node,
        Statement::Function { return_type: Some(TypeAnnotation::ErrorUnion(_)), .. }
    ));
}

#[test]
fn parses_nillable_param_type() {
    let stmts = parse_ok("fn foo(x: int?) { x }");
    match &stmts[0].node {
        Statement::Function { params, .. } => {
            assert!(matches!(&params[0].type_ann, Some(TypeAnnotation::Nillable(_))));
        }
        other => panic!("expected Function, got {other:?}"),
    }
}

#[test]
fn parses_nil_literal() {
    let stmts = parse_ok("nil");
    assert!(matches!(
        &stmts[0].node,
        Statement::Expression(Spanned { node: Expression::Nil, .. })
    ));
}

#[test]
fn parses_nil_in_let_binding() {
    let stmts = parse_ok("let x: int? = nil");
    match &stmts[0].node {
        Statement::Let { value, .. } => assert!(matches!(value.node, Expression::Nil)),
        other => panic!("expected Let, got {other:?}"),
    }
}

#[test]
fn parses_try_expression() {
    let stmts = parse_ok("try foo()");
    match &stmts[0].node {
        Statement::Expression(Spanned { node: Expression::Try(inner), .. }) => {
            assert!(matches!(inner.node, Expression::Call { .. }));
        }
        other => panic!("expected Try(Call), got {other:?}"),
    }
}

#[test]
fn parses_nested_try() {
    let stmts = parse_ok("try try foo()");
    match &stmts[0].node {
        Statement::Expression(Spanned { node: Expression::Try(inner), .. }) => {
            assert!(matches!(inner.node, Expression::Try(_)));
        }
        other => panic!("expected Try(Try(_)), got {other:?}"),
    }
}

#[test]
fn parses_unwrap_error_expression() {
    let stmts = parse_ok("!foo()");
    match &stmts[0].node {
        Statement::Expression(Spanned { node: Expression::UnwrapError(inner), .. }) => {
            assert!(matches!(inner.node, Expression::Call { .. }));
        }
        other => panic!("expected UnwrapError(Call), got {other:?}"),
    }
}

#[test]
fn parses_unwrap_error_on_ident() {
    let stmts = parse_ok("!x");
    assert!(matches!(
        &stmts[0].node,
        Statement::Expression(Spanned { node: Expression::UnwrapError(_), .. })
    ));
}

#[test]
fn parses_coalesce_expression() {
    let stmts = parse_ok("a orelse b");
    match &stmts[0].node {
        Statement::Expression(Spanned { node: Expression::Coalesce { left, right }, .. }) => {
            assert!(matches!(left.node, Expression::Ident(_)));
            assert!(matches!(right.node, Expression::Ident(_)));
        }
        other => panic!("expected Coalesce, got {other:?}"),
    }
}

#[test]
fn coalesce_is_left_associative() {
    let stmts = parse_ok("a orelse b orelse c");
    match &stmts[0].node {
        Statement::Expression(Spanned { node: Expression::Coalesce { left, right }, .. }) => {
            assert!(matches!(left.node, Expression::Coalesce { .. }));
            assert!(matches!(right.node, Expression::Ident(_)));
        }
        other => panic!("expected Coalesce(Coalesce, Ident), got {other:?}"),
    }
}

#[test]
fn coalesce_is_looser_than_or() {
    let stmts = parse_ok("a or b orelse c");
    match &stmts[0].node {
        Statement::Expression(Spanned { node: Expression::Coalesce { left, right }, .. }) => {
            assert!(matches!(left.node, Expression::BinaryOp { op: BinOp::Or, .. }));
            assert!(matches!(right.node, Expression::Ident(_)));
        }
        other => panic!("expected Coalesce(Or(..), Ident), got {other:?}"),
    }
}

#[test]
fn coalesce_is_looser_than_comparison() {
    let stmts = parse_ok("a == b orelse c");
    match &stmts[0].node {
        Statement::Expression(Spanned { node: Expression::Coalesce { left, .. }, .. }) => {
            assert!(matches!(left.node, Expression::BinaryOp { op: BinOp::Equals, .. }));
        }
        other => panic!("expected Coalesce with Equals on left, got {other:?}"),
    }
}

#[test]
fn coalesce_with_arithmetic() {
    let stmts = parse_ok("a + 1 orelse b * 2");
    match &stmts[0].node {
        Statement::Expression(Spanned { node: Expression::Coalesce { left, right }, .. }) => {
            assert!(matches!(left.node, Expression::BinaryOp { op: BinOp::Add, .. }));
            assert!(matches!(right.node, Expression::BinaryOp { op: BinOp::Mul, .. }));
        }
        other => panic!("expected Coalesce(Add, Mul), got {other:?}"),
    }
}

#[test]
fn parses_if_let_statement() {
    let stmts = parse_ok("if let x = maybe { print(x) }");
    assert!(matches!(
        &stmts[0].node,
        Statement::IfLet { name, else_body: None, .. } if name == "x"
    ));
}

#[test]
fn parses_if_let_with_else() {
    let stmts = parse_ok("if let x = maybe { print(x) } else { print(0) }");
    match &stmts[0].node {
        Statement::IfLet { name, else_body: Some(_), .. } => assert_eq!(name, "x"),
        other => panic!("expected IfLet with else, got {other:?}"),
    }
}

#[test]
fn if_let_does_not_break_regular_if() {
    let stmts = parse_ok("if x { print(1) }");
    assert!(matches!(&stmts[0].node, Statement::If { .. }));
}

#[test]
fn if_let_does_not_break_if_else() {
    let stmts = parse_ok("if x { print(1) } else { print(2) }");
    assert!(matches!(&stmts[0].node, Statement::If { else_body: Some(_), .. }));
}

#[test]
fn if_let_does_not_break_elif() {
    let stmts = parse_ok("if x { 1 } elif y { 2 } else { 3 }");
    assert!(matches!(&stmts[0].node, Statement::If { .. }));
}

#[test]
fn parses_unless_statement() {
    let stmts = parse_ok("unless ready { print(0) }");
    assert!(matches!(&stmts[0].node, Statement::Unless { else_body: None, .. }));
}

#[test]
fn parses_unless_with_else() {
    let stmts = parse_ok("unless ready { print(0) } else { print(1) }");
    assert!(matches!(&stmts[0].node, Statement::Unless { else_body: Some(_), .. }));
}

#[test]
fn parses_test_statement() {
    let stmts = parse_ok("test \"addition works\" { assert(1 == 1) }");
    match &stmts[0].node {
        Statement::Test { name, .. } => assert_eq!(name, "addition works"),
        other => panic!("expected Statement::Test, got {other:?}"),
    }
}

#[test]
fn parses_assert_statement() {
    let stmts = parse_ok("assert(1 == 1)");
    assert!(matches!(&stmts[0].node, Statement::Assert { .. }));
}

#[test]
fn test_block_contains_assert() {
    let stmts = parse_ok("test \"ok\" { assert(true) }");
    let body = match &stmts[0].node {
        Statement::Test { body, .. } => body,
        other => panic!("expected Statement::Test, got {other:?}"),
    };
    let inner = match &body.node {
        Expression::Block(inner) => inner,
        other => panic!("expected block body, got {other:?}"),
    };
    assert!(matches!(&inner[0].node, Statement::Assert { .. }));
}

#[test]
fn test_requires_string_name() {
    let errors = parse_errors("test oops { assert(true) }");
    assert!(!errors.is_empty());
}

#[test]
fn assert_requires_parentheses() {
    let errors = parse_errors("assert true");
    assert!(!errors.is_empty());
}

#[test]
fn try_binds_tighter_than_coalesce() {
    let stmts = parse_ok("try a orelse b");
    match &stmts[0].node {
        Statement::Expression(Spanned { node: Expression::Coalesce { left, .. }, .. }) => {
            assert!(matches!(left.node, Expression::Try(_)));
        }
        other => panic!("expected Coalesce(Try, _), got {other:?}"),
    }
}

#[test]
fn bang_binds_tighter_than_coalesce() {
    let stmts = parse_ok("!a orelse b");
    match &stmts[0].node {
        Statement::Expression(Spanned { node: Expression::Coalesce { left, .. }, .. }) => {
            assert!(matches!(left.node, Expression::UnwrapError(_)));
        }
        other => panic!("expected Coalesce(UnwrapError, _), got {other:?}"),
    }
}

#[test]
fn not_equals_still_works() {
    let stmts = parse_ok("a != b");
    assert!(matches!(
        &stmts[0].node,
        Statement::Expression(Spanned { node: Expression::BinaryOp { op: BinOp::NotEquals, .. }, .. })
    ));
}

#[test]
fn try_on_method_call() {
    let stmts = parse_ok("try o.method()");
    match &stmts[0].node {
        Statement::Expression(Spanned { node: Expression::Try(inner), .. }) => {
            assert!(matches!(inner.node, Expression::MethodCall { .. }));
        }
        other => panic!("expected Try(MethodCall), got {other:?}"),
    }
}

#[test]
fn unwrap_error_on_method_call() {
    let stmts = parse_ok("!o.method()");
    match &stmts[0].node {
        Statement::Expression(Spanned { node: Expression::UnwrapError(inner), .. }) => {
            assert!(matches!(inner.node, Expression::MethodCall { .. }));
        }
        other => panic!("expected UnwrapError(MethodCall), got {other:?}"),
    }
}

#[test]
fn if_let_with_call_expression() {
    let stmts = parse_ok("if let v = get_thing() { print(v) }");
    match &stmts[0].node {
        Statement::IfLet { name, value, .. } => {
            assert_eq!(name, "v");
            assert!(matches!(value.node, Expression::Call { .. }));
        }
        other => panic!("expected IfLet with call value, got {other:?}"),
    }
}

#[test]
fn if_let_with_coalesce_in_value() {
    let stmts = parse_ok("if let x = a orelse b { print(x) }");
    match &stmts[0].node {
        Statement::IfLet { value, .. } => assert!(matches!(value.node, Expression::Coalesce { .. })),
        other => panic!("expected IfLet with Coalesce value, got {other:?}"),
    }
}

#[test]
fn parses_list_type_annotation() {
    let stmts = parse_ok("let xs: [int] = [1, 2, 3]");
    match &stmts[0].node {
        Statement::Let { type_ann: Some(TypeAnnotation::List(inner)), .. } => {
            assert!(matches!(inner.as_ref(), TypeAnnotation::Named(s) if s == &["int"]));
        }
        other => panic!("expected Let with List type, got {other:?}"),
    }
}

#[test]
fn parses_nested_list_type_annotation() {
    let stmts = parse_ok("let xs: [[int]] = [[1], [2, 3]]");
    match &stmts[0].node {
        Statement::Let { type_ann: Some(TypeAnnotation::List(inner)), .. } => {
            assert!(matches!(inner.as_ref(), TypeAnnotation::List(_)));
        }
        other => panic!("expected Let with nested List type, got {other:?}"),
    }
}

#[test]
fn parses_nillable_list_type() {
    let stmts = parse_ok("let xs: [int]? = nil");
    match &stmts[0].node {
        Statement::Let { type_ann: Some(TypeAnnotation::Nillable(inner)), .. } => {
            assert!(matches!(inner.as_ref(), TypeAnnotation::List(_)));
        }
        other => panic!("expected Let with Nillable(List), got {other:?}"),
    }
}

#[test]
fn parses_list_literal_expression() {
    let stmts = parse_ok("[1, 2, 3]");
    match &stmts[0].node {
        Statement::Expression(Spanned { node: Expression::ListLiteral(elements), .. }) => {
            assert_eq!(elements.len(), 3);
        }
        other => panic!("expected ListLiteral expression, got {other:?}"),
    }
}

#[test]
fn parses_empty_list_literal() {
    let stmts = parse_ok("let xs: [int] = []");
    match &stmts[0].node {
        Statement::Let { value, .. } => {
            assert!(matches!(value.node, Expression::ListLiteral(ref v) if v.is_empty()));
        }
        other => panic!("expected Let with empty ListLiteral, got {other:?}"),
    }
}

#[test]
fn parses_list_literal_with_trailing_comma() {
    let stmts = parse_ok("[1, 2, 3,]");
    assert!(matches!(
        &stmts[0].node,
        Statement::Expression(Spanned { node: Expression::ListLiteral(v), .. }) if v.len() == 3
    ));
}

#[test]
fn parses_multiline_list_literal() {
    let stmts = parse_ok("let xs: [int] = [\n1,\n2,\n3,\n]");
    match &stmts[0].node {
        Statement::Let { value, .. } => {
            assert!(matches!(value.node, Expression::ListLiteral(ref v) if v.len() == 3));
        }
        other => panic!("expected Let with multiline ListLiteral, got {other:?}"),
    }
}

#[test]
fn parses_index_expression() {
    let stmts = parse_ok("let xs: [int] = [1, 2, 3]\nxs[0]");
    assert_eq!(stmts.len(), 2);
    match &stmts[1].node {
        Statement::Expression(Spanned { node: Expression::Index { .. }, .. }) => {}
        other => panic!("expected Index expression, got {other:?}"),
    }
}

#[test]
fn parses_chained_index_expression() {
    let stmts = parse_ok("let xs: [[int]] = [[1], [2]]\nxs[0][0]");
    match &stmts[1].node {
        Statement::Expression(Spanned { node: Expression::Index { object, .. }, .. }) => {
            assert!(matches!(object.node, Expression::Index { .. }));
        }
        other => panic!("expected chained Index expression, got {other:?}"),
    }
}

#[test]
fn parses_index_assignment() {
    let stmts = parse_ok("let xs: [int] = [1, 2, 3]\nxs[0] = 42");
    match &stmts[1].node {
        Statement::IndexAssignment { .. } => {}
        other => panic!("expected IndexAssignment, got {other:?}"),
    }
}

#[test]
fn parses_field_index_assignment() {
    let stmts = parse_ok("box.xs[0] = 42");
    match &stmts[0].node {
        Statement::IndexAssignment { object, .. } => {
            assert!(matches!(object.node, Expression::FieldAccess { .. }));
        }
        other => panic!("expected IndexAssignment with field object, got {other:?}"),
    }
}

#[test]
fn parses_index_field_assignment() {
    let stmts = parse_ok("xs[0].value = 42");
    match &stmts[0].node {
        Statement::FieldAssignment { object, field, .. } => {
            assert_eq!(field, "value");
            assert!(matches!(object.node, Expression::Index { .. }));
        }
        other => panic!("expected FieldAssignment with index object, got {other:?}"),
    }
}

#[test]
fn parses_list_method_calls() {
    let stmts = parse_ok("let xs: [int] = [1]\nxs.push(2)\nxs.len()\nxs.pop()");
    assert_eq!(stmts.len(), 4);
}

#[test]
fn parses_map_type_annotation() {
    let stmts = parse_ok(r#"let stats: {String: int} = {"hp": 10}"#);
    match &stmts[0].node {
        Statement::Let { type_ann: Some(TypeAnnotation::MapOf(key, value)), .. } => {
            assert!(matches!(key.as_ref(), TypeAnnotation::Named(s) if s == &["String"]));
            assert!(matches!(value.as_ref(), TypeAnnotation::Named(s) if s == &["int"]));
        }
        other => panic!("expected Let with Map type, got {other:?}"),
    }
}

#[test]
fn parses_map_literal_expression() {
    let stmts = parse_ok(r#"{"hp": 10, "mp": 4}"#);
    match &stmts[0].node {
        Statement::Expression(Spanned { node: Expression::MapLiteral(entries), .. }) => {
            assert_eq!(entries.len(), 2)
        }
        other => panic!("expected MapLiteral expression, got {other:?}"),
    }
}

#[test]
fn parses_empty_map_literal() {
    let stmts = parse_ok("let stats: {String: int} = {}");
    match &stmts[0].node {
        Statement::Let { value, .. } => {
            assert!(matches!(value.node, Expression::MapLiteral(ref v) if v.is_empty()));
        }
        other => panic!("expected Let with empty MapLiteral, got {other:?}"),
    }
}

#[test]
fn parses_nested_field_assignment() {
    let stmts = parse_ok("holder.counter.count = 5");
    match &stmts[0].node {
        Statement::FieldAssignment { object, field, .. } => {
            assert_eq!(field, "count");
            assert!(matches!(object.node, Expression::FieldAccess { .. }));
        }
        other => panic!("expected nested FieldAssignment, got {other:?}"),
    }
}

// ---------------------------------------------------------------------------
// Further cases.
// ---------------------------------------------------------------------------

#[test]
fn parse_error_points_at_the_stopping_token() {
    let errors = parse_err("let x = 1\nlet = 2");
    assert_eq!(errors.len(), 1);
    match &errors[0] {
        OrynError::Parser { span, message } => {
            assert_eq!(span.start, 10);
            assert_eq!(span.end, 13);
            assert_eq!(message, "unexpected 'let'");
        }
        other => panic!("expected a parser error, got {other:?}"),
    }
}

#[test]
fn failed_parse_returns_no_statements() {
    let (tokens, _) = lex("let x = 1\nlet = 2");
    let (stmts, errors) = parse(tokens);
    assert!(stmts.is_empty());
    assert_eq!(errors.len(), 1);
}

#[test]
fn empty_and_blank_programs_parse_to_nothing() {
    assert!(parse_ok("").is_empty());
    assert!(parse_ok("\n\n").is_empty());
}

#[test]
fn statements_need_newlines_between_them_at_top_level() {
    parse_err("let x = 1 let y = 2");
    assert_eq!(parse_ok("let x = 1\n\nlet y = 2\n").len(), 2);
}

#[test]
fn block_statements_may_share_a_line() {
    let stmts = parse_ok("{ print(1) print(2) }");
    match &stmts[0].node {
        Statement::Expression(Spanned { node: Expression::Block(inner), .. }) => {
            assert_eq!(inner.len(), 2)
        }
        other => panic!("expected a block, got {other:?}"),
    }
}

#[test]
fn precedence_of_arithmetic_and_comparison() {
    let stmts = parse_ok("1 + 2 * 3 < 10 and not done");
    match &stmts[0].node {
        Statement::Expression(Spanned { node: Expression::BinaryOp { op: BinOp::And, left, .. }, span }) => {
            assert_eq!((span.start, span.end), (0, 27));
            match &left.node {
                Expression::BinaryOp { op: BinOp::LessThan, left, .. } => {
                    assert!(matches!(&left.node, Expression::BinaryOp { op: BinOp::Add, right, .. }
                        if matches!(right.node, Expression::BinaryOp { op: BinOp::Mul, .. })));
                }
                other => panic!("expected a comparison, got {other:?}"),
            }
        }
        other => panic!("expected an `and`, got {other:?}"),
    }
}

#[test]
fn negation_keeps_the_span_of_its_operand() {
    let stmts = parse_ok("-x");
    match &stmts[0].node {
        Statement::Expression(e) => {
            assert!(matches!(e.node, Expression::UnaryOp { .. }));
            assert_eq!((e.span.start, e.span.end), (1, 2));
            assert_eq!((stmts[0].span.start, stmts[0].span.end), (0, 2));
        }
        other => panic!("expected an expression, got {other:?}"),
    }
}

#[test]
fn parses_obj_definition_with_fields_methods_and_uses() {
    let stmts = parse_ok("pub obj Guard {\n    use combat.Health\n    pub hp: int,\n    fn heal(mut self, n: int) -> int { n }\n}");
    match &stmts[0].node {
        Statement::ObjDef { name, fields, methods, uses, is_pub } => {
            assert_eq!(name, "Guard");
            assert!(*is_pub);
            assert_eq!(fields.len(), 1);
            assert_eq!(fields[0].name, "hp");
            assert!(fields[0].is_pub);
            assert_eq!(methods.len(), 1);
            assert_eq!(methods[0].params.len(), 2);
            assert!(methods[0].is_mut());
            assert!(methods[0].body.is_some());
            assert_eq!(uses.len(), 1);
            assert_eq!(uses[0], vec!["combat".to_string(), "Health".to_string()]);
        }
        other => panic!("expected ObjDef, got {other:?}"),
    }
}

#[test]
fn method_signature_without_body() {
    let stmts = parse_ok("obj Shape { fn area(self) -> int }");
    match &stmts[0].node {
        Statement::ObjDef { methods, .. } => {
            assert!(methods[0].body.is_none());
            assert!(!methods[0].is_mut());
        }
        other => panic!("expected ObjDef, got {other:?}"),
    }
}

#[test]
fn obj_literals_and_calls() {
    let stmts = parse_ok("let p = Vec2 { x: 1, y: 2 }\nlet q = math.Vec2 { x: 3, y: 4 }\nf(1, 2)");
    match &stmts[0].node {
        Statement::Let { value, .. } => {
            assert!(matches!(&value.node, Expression::ObjLiteral { type_path, fields }
                if type_path == &["Vec2"] && fields.len() == 2));
        }
        other => panic!("expected Let, got {other:?}"),
    }
    match &stmts[1].node {
        Statement::Let { value, .. } => {
            assert!(matches!(&value.node, Expression::ObjLiteral { type_path, .. }
                if type_path == &["math", "Vec2"]));
        }
        other => panic!("expected Let, got {other:?}"),
    }
    assert!(matches!(
        &stmts[2].node,
        Statement::Expression(Spanned { node: Expression::Call { name, args }, .. })
            if name == "f" && args.len() == 2
    ));
}

#[test]
fn import_return_break_continue_and_while() {
    let stmts = parse_ok("import math.vec\nwhile x { break }\nfn f() { rn }\nfn g() { rn 1 }\nwhile y { continue }");
    assert!(matches!(&stmts[0].node, Statement::Import { path } if path == &["math", "vec"]));
    assert!(matches!(&stmts[1].node, Statement::While { .. }));
    match &stmts[2].node {
        Statement::Function { body, .. } => match &body.node {
            Expression::Block(inner) => assert!(matches!(inner[0].node, Statement::Return(None))),
            other => panic!("expected a block, got {other:?}"),
        },
        other => panic!("expected Function, got {other:?}"),
    }
    match &stmts[3].node {
        Statement::Function { body, .. } => match &body.node {
            Expression::Block(inner) => assert!(matches!(inner[0].node, Statement::Return(Some(_)))),
            other => panic!("expected a block, got {other:?}"),
        },
        other => panic!("expected Function, got {other:?}"),
    }
}

#[test]
fn val_and_pub_bindings() {
    let stmts = parse_ok("pub val limit: int = 3\nval y = 1");
    assert!(matches!(&stmts[0].node, Statement::Val { name, is_pub: true, .. } if name == "limit"));
    assert!(matches!(&stmts[1].node, Statement::Val { is_pub: false, .. }));
}

#[test]
fn string_interpolation_is_parsed() {
    let stmts = parse_ok("\"a {x + 1} b\"");
    match &stmts[0].node {
        Statement::Expression(Spanned { node: Expression::StringInterp(parts), .. }) => {
            assert_eq!(parts.len(), 3);
            assert!(matches!(&parts[0], StringPart::Literal(s) if s == "a "));
            match &parts[1] {
                StringPart::Interp(e) => {
                    assert!(matches!(e.node, Expression::BinaryOp { op: BinOp::Add, .. }));
                    assert_eq!((e.span.start, e.span.end), (4, 9));
                }
                other => panic!("expected an interpolation, got {other:?}"),
            }
            assert!(matches!(&parts[2], StringPart::Literal(s) if s == " b"));
        }
        other => panic!("expected StringInterp, got {other:?}"),
    }
}

#[test]
fn plain_and_escaped_strings() {
    let stmts = parse_ok("\"hello\"\n\"a \\{b\\} c\"\n\"{\"");
    assert!(matches!(&stmts[0].node,
        Statement::Expression(Spanned { node: Expression::String(s), .. }) if s == "hello"));
    assert!(matches!(&stmts[1].node,
        Statement::Expression(Spanned { node: Expression::String(s), .. }) if s == "a {b} c"));
    assert!(matches!(&stmts[2].node,
        Statement::Expression(Spanned { node: Expression::String(s), .. }) if s == "{"));
}

#[test]
fn interpolation_that_does_not_parse_stays_in_the_text() {
    let stmts = parse_ok("\"x {let} y\"");
    match &stmts[0].node {
        Statement::Expression(Spanned { node: Expression::StringInterp(parts), .. }) => {
            assert_eq!(parts.len(), 2);
            assert!(matches!(&parts[0], StringPart::Literal(s) if s == "x "));
            assert!(matches!(&parts[1], StringPart::Literal(s) if s == "{let} y"));
        }
        other => panic!("expected two literal pieces, got {other:?}"),
    }
}

#[test]
fn float_literals_keep_their_text() {
    let stmts = parse_ok("1.25");
    assert!(matches!(&stmts[0].node,
        Statement::Expression(Spanned { node: Expression::Float(t), .. }) if t == "1.25"));
}

#[test]
fn statements_follow_one_another_within_the_source() {
    let source = "let a = [1, 2]\nb.c = a[0] orelse 3\nprint(a.len())";
    let stmts = parse_ok(source);
    assert_eq!(stmts.len(), 3);
    let mut last_end = 0;
    for s in &stmts {
        assert!(last_end <= s.span.start);
        assert!(s.span.start < s.span.end);
        assert!(s.span.end <= source.len());
        last_end = s.span.end;
    }
}
