use oryn::errors::{RuntimeError, ValueType};
use oryn::types::CompiledFunction;
use oryn::vm::{Action, Chunk, Instruction, VM};

fn chunk(instructions: Vec<Instruction>) -> Chunk {
    let len = instructions.len();
    Chunk { instructions, spans: vec![0..0; len], functions: vec![] }
}

/// Runs `chunk` to the end, collecting the lines `print` writes.
fn run(vm: &mut VM, chunk: &Chunk) -> Result<Vec<String>, RuntimeError> {
    vm.start();
    let mut out = Vec::new();
    loop {
        assert!(!vm.would_panic(chunk));
        match vm.step(chunk)? {
            Action::Continue => {}
            Action::Write(line) => out.push(line),
            Action::Finish => return Ok(out),
        }
    }
}

fn function(name: &str, arity: usize, num_locals: usize, instructions: Vec<Instruction>) -> CompiledFunction {
    let len = instructions.len();
    CompiledFunction {
        name: name.to_string(),
        arity,
        params: (0..arity).map(|i| format!("p{i}")).collect(),
        param_types: vec![],
        return_type: None,
        num_locals,
        instructions,
        spans: vec![0..0; len],
        is_pub: false,
    }
}

#[test]
fn executes_instructions_on_stack() {
    let c = chunk(vec![
        Instruction::PushInt(10),
        Instruction::PushInt(3),
        Instruction::Add,
        Instruction::SetLocal(0),
        Instruction::GetLocal(0),
        Instruction::Pop,
    ]);
    let mut vm = VM::new();
    run(&mut vm, &c).unwrap();
}

#[test]
fn undefined_function_is_runtime_error() {
    let c = chunk(vec![
        Instruction::PushInt(1),
        Instruction::CallBuiltin("nope".into(), 1),
        Instruction::Pop,
    ]);
    let mut vm = VM::new();
    let err = run(&mut vm, &c).unwrap_err();
    assert!(matches!(err, RuntimeError::UndefinedFunction { ref name, .. } if name == "nope"));
}

#[test]
fn print_writes_arguments_joined_by_commas() {
    let c = chunk(vec![
        Instruction::PushInt(1),
        Instruction::PushInt(2),
        Instruction::Add,
        Instruction::PushBool(true),
        Instruction::PushInt(-7),
        Instruction::CallBuiltin("print".into(), 3),
        Instruction::Pop,
    ]);
    let mut vm = VM::new();
    assert_eq!(run(&mut vm, &c).unwrap(), vec!["3, true, -7".to_string()]);
}

#[test]
fn division_truncates_toward_zero() {
    let c = chunk(vec![
        Instruction::PushInt(-7),
        Instruction::PushInt(2),
        Instruction::Div,
        Instruction::PushInt(7),
        Instruction::PushInt(-2),
        Instruction::Div,
        Instruction::CallBuiltin("print".into(), 2),
    ]);
    let mut vm = VM::new();
    assert_eq!(run(&mut vm, &c).unwrap(), vec!["-3, -3".to_string()]);
}

#[test]
fn comparisons_order_booleans_below_integers() {
    let c = chunk(vec![
        Instruction::PushBool(true),
        Instruction::PushInt(0),
        Instruction::LessThan,
        Instruction::PushBool(false),
        Instruction::PushBool(true),
        Instruction::GreaterThanEquals,
        Instruction::PushInt(3),
        Instruction::PushInt(3),
        Instruction::Equal,
        Instruction::CallBuiltin("print".into(), 3),
    ]);
    let mut vm = VM::new();
    assert_eq!(run(&mut vm, &c).unwrap(), vec!["true, false, true".to_string()]);
}

#[test]
fn jump_if_false_skips_and_loops_run() {
    // x = 3; while x > 0 { print(x); x = x - 1 }
    let c = chunk(vec![
        Instruction::PushInt(3),
        Instruction::SetLocal(0),
        Instruction::GetLocal(0),
        Instruction::PushInt(0),
        Instruction::GreaterThan,
        Instruction::JumpIfFalse(14),
        Instruction::GetLocal(0),
        Instruction::CallBuiltin("print".into(), 1),
        Instruction::Pop,
        Instruction::GetLocal(0),
        Instruction::PushInt(1),
        Instruction::Sub,
        Instruction::SetLocal(0),
        Instruction::Jump(2),
    ]);
    let mut vm = VM::new();
    assert_eq!(run(&mut vm, &c).unwrap(), vec!["3".to_string(), "2".to_string(), "1".to_string()]);
}

#[test]
fn calls_run_in_their_own_frame_and_return() {
    let double = function(
        "double",
        1,
        1,
        vec![
            Instruction::SetLocal(0),
            Instruction::GetLocal(0),
            Instruction::GetLocal(0),
            Instruction::Add,
            Instruction::Return,
        ],
    );
    let mut c = chunk(vec![
        Instruction::PushInt(21),
        Instruction::Call(0, 1),
        Instruction::CallBuiltin("print".into(), 1),
    ]);
    c.functions.push(double);
    let mut vm = VM::new();
    assert_eq!(run(&mut vm, &c).unwrap(), vec!["42".to_string()]);
}

#[test]
fn arity_mismatch_is_reported_with_span() {
    let mut c = chunk(vec![Instruction::Call(0, 2)]);
    c.spans = vec![4..9];
    c.functions.push(function("f", 1, 0, vec![]));
    let mut vm = VM::new();
    match run(&mut vm, &c).unwrap_err() {
        RuntimeError::ArityMismatch { name, expected, actual, span } => {
            assert_eq!(name, "f");
            assert_eq!(expected, 1);
            assert_eq!(actual, 2);
            assert_eq!(span, Some(4..9));
        }
        other => panic!("expected an arity mismatch, got {other:?}"),
    }
}

#[test]
fn non_boolean_condition_is_a_type_error() {
    let mut c = chunk(vec![Instruction::PushInt(1), Instruction::JumpIfFalse(0)]);
    c.spans = vec![0..1, 2..5];
    let mut vm = VM::new();
    match run(&mut vm, &c).unwrap_err() {
        RuntimeError::TypeError { expected, actual, span } => {
            assert_eq!(expected, ValueType::Bool);
            assert_eq!(actual, ValueType::Int);
            assert_eq!(span, Some(2..5));
        }
        other => panic!("expected a type error, got {other:?}"),
    }
}

#[test]
fn missing_operands_underflow() {
    let c = chunk(vec![Instruction::PushInt(1), Instruction::Add]);
    let mut vm = VM::new();
    assert!(matches!(run(&mut vm, &c).unwrap_err(), RuntimeError::StackUnderflow));
    let c = chunk(vec![Instruction::PushInt(1), Instruction::PushBool(true), Instruction::And]);
    assert!(matches!(run(&mut vm, &c).unwrap_err(), RuntimeError::StackUnderflow));
}

#[test]
fn overflow_and_division_by_zero_are_flagged_before_the_step() {
    let mut vm = VM::new();
    let c = chunk(vec![Instruction::PushInt(i32::MAX), Instruction::PushInt(1), Instruction::Add]);
    vm.start();
    vm.step(&c).unwrap();
    vm.step(&c).unwrap();
    assert!(vm.would_panic(&c));
    let c = chunk(vec![Instruction::PushInt(1), Instruction::PushInt(0), Instruction::Div]);
    vm.start();
    vm.step(&c).unwrap();
    vm.step(&c).unwrap();
    assert!(vm.would_panic(&c));
}

#[test]
fn a_machine_runs_several_chunks() {
    let greet = chunk(vec![Instruction::PushInt(1), Instruction::CallBuiltin("print".into(), 1)]);
    let add = chunk(vec![
        Instruction::PushInt(2),
        Instruction::PushInt(3),
        Instruction::Add,
        Instruction::CallBuiltin("print".into(), 1),
    ]);
    let mut vm = VM::new();
    assert_eq!(run(&mut vm, &greet).unwrap(), vec!["1".to_string()]);
    assert_eq!(run(&mut vm, &add).unwrap(), vec!["5".to_string()]);
}

#[test]
fn disassembly_lists_every_instruction() {
    let mut c = chunk(vec![
        Instruction::PushInt(5),
        Instruction::SetLocal(0),
        Instruction::GetLocal(0),
        Instruction::CallBuiltin("print".into(), 1),
        Instruction::JumpIfFalse(12),
    ]);
    c.functions.push(function("add", 2, 2, vec![Instruction::Call(0, 2), Instruction::Return]));
    let text = c.disassemble();
    assert_eq!(
        text,
        "== <main> ==\n0000  PushInt 5\n0001  SetLocal 0\n0002  GetLocal 0\n0003  CallBuiltin \"print\" (1 arg)\n0004  JumpIfFalse -> 0012\n\n== add(p0, p1) ==\n0000  Call fn#0 (2 args)\n0001  Return\n"
    );
    assert!(text.contains("SetLocal"));
    assert!(text.contains("CallBuiltin"));
}

#[test]
fn check_reports_lexer_then_parser_errors() {
    assert!(Chunk::check("let x = 5").is_empty());
    assert!(!Chunk::check("let = @").is_empty());
    let errors = Chunk::check("let = @");
    assert_eq!(errors.len(), 2);
    assert!(matches!(&errors[0], oryn::errors::OrynError::Lexer { span } if *span == (6..7)));
    assert!(matches!(&errors[1], oryn::errors::OrynError::Parser { span, .. } if *span == (0..3)));
}
