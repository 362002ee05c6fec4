use oryn::ast::Spanned;
use oryn::compiler::{compile, try_fold_expr, Folded};
use oryn::errors::{OrynError, RuntimeError};
use oryn::lexer::lex;
use oryn::parser::parse;
use oryn::vm::{Action, Chunk, Instruction, VM};

fn run_lines(chunk: &Chunk) -> Result<Vec<String>, RuntimeError> {
    let mut vm = VM::new();
    vm.start();
    let mut out = Vec::new();
    loop {
        assert!(!vm.would_panic(chunk));
        match vm.step(chunk)? {
            Action::Continue => {}
            Action::Write(line) => out.push(line),
            Action::Finish => return Ok(out),
        }
    }
}

fn output_of(source: &str) -> Vec<String> {
    let chunk = Chunk::compile(source).unwrap();
    run_lines(&chunk).unwrap()
}

fn compile_errors(source: &str) -> Vec<String> {
    match Chunk::compile(source) {
        Ok(_) => panic!("expected errors"),
        Err(errors) => errors
            .iter()
            .map(|e| match e {
                OrynError::Compiler { message, .. } => message.clone(),
                other => panic!("not a compile error: {other:?}"),
            })
            .collect(),
    }
}

#[test]
fn compiles_and_runs_a_binding_and_print() {
    assert_eq!(output_of("let x = 5\nprint(x)"), vec!["5"]);
}

#[test]
fn constant_expressions_are_folded() {
    let chunk = Chunk::compile("let x = 1 + 2").unwrap();
    assert_eq!(chunk.instructions, vec![Instruction::PushInt(3), Instruction::SetLocal(0)]);
    assert_eq!(chunk.spans.len(), chunk.instructions.len());
    let chunk = Chunk::compile("print(not (1 < 2) or 3 == 3)").unwrap();
    assert_eq!(chunk.instructions[0], Instruction::PushBool(true));
}

#[test]
fn overflowing_or_dividing_constants_are_not_folded() {
    let chunk = Chunk::compile("let x = 2147483647 + 1").unwrap();
    assert_eq!(
        chunk.instructions,
        vec![Instruction::PushInt(2147483647), Instruction::PushInt(1), Instruction::Add, Instruction::SetLocal(0)]
    );
    let chunk = Chunk::compile("let y = 7 / 0").unwrap();
    assert!(chunk.instructions.contains(&Instruction::Div));
    let chunk = Chunk::compile("let z = -7 / 2").unwrap();
    assert_eq!(chunk.instructions[0], Instruction::PushInt(-3));
}

#[test]
fn invalid_source_reports_lexer_and_parser_errors() {
    let errors = Chunk::compile("let = @").unwrap_err();
    assert!(!errors.is_empty());
    assert!(matches!(errors[0], OrynError::Lexer { .. }));
}

#[test]
fn disassembly_of_compiled_code_names_its_instructions() {
    let chunk = Chunk::compile("let x = 5\nprint(x)").unwrap();
    let output = chunk.disassemble();
    assert!(output.contains("SetLocal"));
    assert!(output.contains("CallBuiltin"));
}

#[test]
fn undefined_names_are_compile_errors() {
    assert_eq!(compile_errors("print(y)"), vec!["undefined variable `y`"]);
    assert_eq!(compile_errors("nope(1)"), vec!["undefined function `nope`"]);
    assert_eq!(compile_errors("z = 1"), vec!["undefined variable `z`"]);
}

#[test]
fn val_bindings_cannot_be_reassigned() {
    assert_eq!(compile_errors("val x = 1\nx = 2"), vec!["cannot reassign val binding `x`"]);
    assert_eq!(output_of("let x = 1\nx = x + 1\nprint(x)"), vec!["2"]);
}

#[test]
fn functions_recursion_and_return() {
    let source = "fn fib(n) {\n  if n < 2 {\n    rn n\n  }\n  rn fib(n - 1) + fib(n - 2)\n}\nprint(fib(10))";
    assert_eq!(output_of(source), vec!["55"]);
    let chunk = Chunk::compile(source).unwrap();
    assert_eq!(chunk.functions.len(), 1);
    assert_eq!(chunk.functions[0].name, "fib");
    assert_eq!(chunk.functions[0].arity, 1);
    assert_eq!(chunk.functions[0].instructions[0], Instruction::SetLocal(0));
}

#[test]
fn parameters_arrive_in_order() {
    assert_eq!(output_of("fn sub(a, b) {\n  rn a - b\n}\nprint(sub(10, 3))"), vec!["7"]);
}

#[test]
fn branches_and_loops() {
    assert_eq!(output_of("let x = 3\nif x > 2 {\n  print(1)\n} else {\n  print(2)\n}"), vec!["1"]);
    assert_eq!(output_of("let x = 1\nif x > 2 {\n  print(1)\n} elif x == 1 {\n  print(3)\n}"), vec!["3"]);
    assert_eq!(
        output_of("let i = 0\nwhile i < 3 {\n  print(i)\n  i = i + 1\n}"),
        vec!["0", "1", "2"]
    );
}

#[test]
fn block_locals_do_not_leak() {
    assert_eq!(compile_errors("if true {\n  let inner = 1\n}\nprint(inner)"), vec!["undefined variable `inner`"]);
}

#[test]
fn unsupported_constructs_are_reported() {
    assert_eq!(
        compile_errors("let s = \"text\""),
        vec!["this expression is not supported by the virtual machine"]
    );
    assert_eq!(
        compile_errors("import math"),
        vec!["this statement is not supported by the virtual machine"]
    );
}

#[test]
fn compile_reports_spans_per_instruction() {
    let (tokens, _) = lex("print(1)\nprint(2)");
    let (statements, _) = parse(tokens);
    let out = compile(statements);
    assert!(out.errors.is_empty());
    assert_eq!(out.instructions.len(), out.spans.len());
    assert_eq!(out.spans[0], 6..7);
}

#[test]
fn folding_gives_up_on_non_constants() {
    let (tokens, _) = lex("x + 1");
    let (statements, _) = parse(tokens);
    let e: &Spanned<oryn::ast::Expression> = match &statements[0].node {
        oryn::ast::Statement::Expression(e) => e,
        _ => panic!(),
    };
    assert!(try_fold_expr(e).is_none());
    let (tokens, _) = lex("(2 * 3) - 10");
    let (statements, _) = parse(tokens);
    match &statements[0].node {
        oryn::ast::Statement::Expression(e) => assert!(matches!(try_fold_expr(e), Some(Folded::Int(-4)))),
        _ => panic!(),
    }
}

#[test]
fn folded_and_computed_values_agree() {
    let folded = output_of("print(7 / -2, 6 * 7, 3 < 4, true == false)");
    let computed = output_of(
        "let a = 7\nlet b = -2\nlet c = 6\nlet d = 3\nlet t = true\nprint(a / b, c * 7, d < 4, t == false)",
    );
    assert_eq!(folded, vec!["-3, 42, true, false"]);
    assert_eq!(folded, computed);
}

#[test]
fn unless_runs_its_body_when_the_condition_is_false() {
    assert_eq!(output_of("unless 1 > 2 {\n  print(1)\n} else {\n  print(2)\n}"), vec!["1"]);
    assert_eq!(output_of("let x = 5\nunless x > 2 {\n  print(1)\n}\nprint(x)"), vec!["5"]);
}

#[test]
fn break_and_continue_in_loops() {
    let source = "let i = 0\nwhile true {\n  i = i + 1\n  if i == 2 {\n    continue\n  }\n  if i > 4 {\n    break\n  }\n  print(i)\n}\nprint(99)";
    assert_eq!(output_of(source), vec!["1", "3", "4", "99"]);
    assert_eq!(compile_errors("break"), vec!["break outside of loop"]);
    assert_eq!(compile_errors("continue"), vec!["continue outside of loop"]);
}

fn spanned<T>(node: T) -> Spanned<T> {
    Spanned { node, span: 0..0 }
}

#[test]
fn flattens_ast_to_instructions() {
    let stmts = vec![spanned(oryn::ast::Statement::Expression(spanned(oryn::ast::Expression::BinaryOp {
        op: oryn::ast::BinOp::Add,
        left: Box::new(spanned(oryn::ast::Expression::Int(1))),
        right: Box::new(spanned(oryn::ast::Expression::Int(2))),
    })))];
    let output = compile(stmts);
    assert_eq!(output.instructions, vec![Instruction::PushInt(3), Instruction::Pop,]);
    assert_eq!(output.instructions.len(), output.spans.len());
}

#[test]
fn expression_statements_are_popped() {
    let stmts = vec![spanned(oryn::ast::Statement::Expression(spanned(oryn::ast::Expression::Int(1))))];
    let output = compile(stmts);
    assert_eq!(output.instructions.last(), Some(&Instruction::Pop));
}

#[test]
fn builtin_calls_are_lowered_to_typed_builtins() {
    let stmts = vec![spanned(oryn::ast::Statement::Expression(spanned(oryn::ast::Expression::Call {
        name: "print".to_string(),
        args: vec![spanned(oryn::ast::Expression::Int(1))],
    })))];
    let output = compile(stmts);
    assert_eq!(
        output.instructions,
        vec![Instruction::PushInt(1), Instruction::CallBuiltin("print".to_string(), 1), Instruction::Pop,]
    );
}

#[test]
fn assert_rejects_non_bool_condition() {
    let errors = Chunk::compile("assert(5)").unwrap_err();
    assert!(errors.iter().any(|e| e.message().contains("assert") || e.message().contains("type")));
    assert_eq!(compile_errors("assert(5)")[0], "assert condition type mismatch: expected `bool`, got `int`");
}

#[test]
fn unknown_list_method_is_compile_error() {
    let errors = Chunk::compile("let xs: [int] = [1]\nxs.frobnicate()").unwrap_err();
    assert!(errors.iter().any(|e| e.message().contains("unknown list method `frobnicate`")));
}

#[test]
fn empty_list_without_annotation_is_error() {
    let errors = Chunk::compile("let xs = []").unwrap_err();
    assert!(errors.iter().any(|e| e.message().contains("empty list literal")));
}

#[test]
fn compile_expr_returns_the_type() {
    let mut c = oryn::compiler::Compiler::new();
    let e = spanned(oryn::ast::Expression::BinaryOp {
        op: oryn::ast::BinOp::Add,
        left: Box::new(spanned(oryn::ast::Expression::Int(2147483647))),
        right: Box::new(spanned(oryn::ast::Expression::Int(1))),
    });
    let t = c.compile_expr(&e);
    assert_eq!(t.display_name(), "int");
    let e = spanned(oryn::ast::Expression::BinaryOp {
        op: oryn::ast::BinOp::LessThan,
        left: Box::new(spanned(oryn::ast::Expression::Int(1))),
        right: Box::new(spanned(oryn::ast::Expression::Int(2))),
    });
    assert_eq!(c.compile_expr(&e).display_name(), "bool");
}

#[test]
fn type_mismatches_are_reported() {
    assert_eq!(compile_errors("let x: int = true"), vec!["type mismatch: expected `int`, got `bool`"]);
    assert_eq!(
        compile_errors("let x = 1\nx = false"),
        vec!["assignment type mismatch: expected `int`, got `bool`"]
    );
    assert_eq!(compile_errors("if 3 {\n  print(1)\n}"), vec!["if condition type mismatch: expected `bool`, got `int`"]);
    assert_eq!(compile_errors("print(1 and true)"), vec!["logical operand must be `bool`: expected `bool`, got `int`"]);
    assert_eq!(compile_errors("let y: Point = 1"), vec!["undefined type `Point`"]);
}

#[test]
fn logic_short_circuits() {
    let chunk = Chunk::compile("let x = true\nprint(x and false, x or false)").unwrap();
    assert!(!chunk.instructions.contains(&Instruction::And));
    assert!(!chunk.instructions.contains(&Instruction::Or));
    assert_eq!(run_lines(&chunk).unwrap(), vec!["false, true"]);
    assert_eq!(output_of("fn boom() {\n  print(0)\n  rn true\n}\nlet f = false\nprint(f and boom())"), vec!["false"]);
}

#[test]
fn obj_with_fields_compiles_to_no_code() {
    let chunk = Chunk::compile("obj Point {\n    x: int,\n    y: int\n}\nprint(1)").unwrap();
    assert_eq!(run_lines(&chunk).unwrap(), vec!["1".to_string()]);
}

#[test]
fn obj_fields_follow_use_clauses_then_own() {
    let errors = compile_errors("obj A {\n    x: int\n}\nobj B {\n    y: int\n}\nobj C {\n    use A\n    use B\n    x: int\n}");
    assert_eq!(
        errors,
        vec!["field `x` conflicts with field inherited from `use A`; fields cannot be overridden".to_string()]
    );
}

#[test]
fn use_clauses_that_share_a_field_conflict() {
    let errors = compile_errors("obj A {\n    x: int\n}\nobj B {\n    x: bool\n}\nobj C {\n    use A\n    use B\n}");
    assert_eq!(errors, vec!["field `x` conflicts in `use B`".to_string()]);
}

#[test]
fn use_of_an_undefined_type_is_an_error() {
    let errors = compile_errors("obj C {\n    use Missing\n    use geo.Shape\n}");
    assert_eq!(
        errors,
        vec![
            "undefined type `Missing` in use declaration".to_string(),
            "undefined type `geo.Shape` in use declaration".to_string(),
        ]
    );
}

#[test]
fn duplicate_own_fields_and_bad_field_types_are_errors() {
    let errors = compile_errors("obj P {\n    x: int,\n    x: int,\n    y: Nope\n}");
    assert_eq!(
        errors,
        vec!["duplicate field `x`".to_string(), "field `y`: undefined type `Nope`".to_string()]
    );
}

#[test]
fn object_types_resolve_in_annotations() {
    let errors = compile_errors("obj P {\n    x: int\n}\nobj Line {\n    a: P,\n    b: Q\n}");
    assert_eq!(errors, vec!["field `b`: undefined type `Q`".to_string()]);
}

#[test]
fn methods_are_refused_at_their_span() {
    let errors = compile_errors("obj P {\n    x: int\n    fn get(self) -> int { 1 }\n    fn req(self) -> int\n}");
    assert_eq!(errors, vec!["this method is not supported by the virtual machine".to_string()]);
}

#[test]
fn object_literal_fields_are_checked_against_the_type() {
    let errors = compile_errors("obj P {\n    x: int,\n    y: int\n}\nlet p = P { x: 1, x: 2, z: 3 }");
    assert_eq!(
        errors,
        vec![
            "duplicate field `x` in `P` literal".to_string(),
            "unknown field `z` on type `P`".to_string(),
            "missing field `y` in `P` literal".to_string(),
            "this expression is not supported by the virtual machine".to_string(),
        ]
    );
}

#[test]
fn object_literal_of_unknown_type_is_an_error() {
    let errors = compile_errors("let p = Q { x: 1 }\nlet q = math.Vec2 { x: 3 }");
    assert_eq!(
        errors,
        vec!["undefined type `Q`".to_string(), "undefined module `math`".to_string()]
    );
}
