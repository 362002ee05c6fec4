//! The bytecode, compiled chunks, and the stack-based virtual machine
//! that runs them.
//!
//! The machine is driven one instruction at a time by [`VM::step`]; the
//! caller performs the writes that `print` asks for (see [`Action`]).

use std::ops::Range;
use vstd::prelude::*;

use crate::errors::{RuntimeError, ValueType};
use crate::text::{
    decimal, join_with, pad4, push_decimal, push_joined, push_pad4, push_signed, push_str,
    signed_decimal, str_eq,
};
use crate::errors::OrynError;
use crate::grammar::{lemma_tok_text, program, program_stop, tok_text, tokens_of, toks_v};
use crate::lexer::{errors_match, lex, lexemes};
use crate::parser::{fuel_for, lemma_tokens_of, parse};
use vstd::utf8::encode_utf8;
use crate::types::CompiledFunction;

verus! {

/// Flat bytecode executed by the [`VM`]. Operand order matters: left
/// operands are pushed before right ones.
#[derive(Debug, Clone, PartialEq)]
pub enum Instruction {
    PushBool(bool),
    PushInt(i32),
    GetLocal(usize),
    SetLocal(usize),
    Return,
    Equal,
    NotEqual,
    LessThan,
    GreaterThan,
    LessThanEquals,
    GreaterThanEquals,
    And,
    Or,
    Not,
    Add,
    Sub,
    Mul,
    Div,
    /// Call a user-defined function by index, with an arity.
    Call(usize, usize),
    /// Call a builtin by name, with an arity.
    CallBuiltin(String, usize),
    Pop,
    JumpIfFalse(usize),
    Jump(usize),
}

/// A runtime value.
#[derive(Debug, Clone, Copy, PartialEq, Eq, Structural)]
pub enum Value {
    Bool(bool),
    Int(i32),
}

impl ValueType {
    pub open spec fn spec_of(v: Value) -> ValueType {
        match v {
            Value::Bool(_) => ValueType::Bool,
            Value::Int(_) => ValueType::Int,
        }
    }
}

impl From<&Value> for ValueType {
    fn from(value: &Value) -> (r: ValueType) {
        match value {
            Value::Bool(_) => ValueType::Bool,
            Value::Int(_) => ValueType::Int,
        }
    }
}

impl vstd::std_specs::convert::FromSpecImpl<&Value> for ValueType {
    open spec fn obeys_from_spec() -> bool {
        true
    }

    open spec fn from_spec(v: &Value) -> ValueType {
        ValueType::spec_of(*v)
    }
}

/// Order of values: `false < true`, integers by value, and every boolean
/// below every integer.
pub open spec fn value_lt(a: Value, b: Value) -> bool {
    match (a, b) {
        (Value::Bool(x), Value::Bool(y)) => !x && y,
        (Value::Int(x), Value::Int(y)) => x < y,
        (Value::Bool(_), Value::Int(_)) => true,
        (Value::Int(_), Value::Bool(_)) => false,
    }
}

fn less(a: Value, b: Value) -> (r: bool)
    ensures
        r == value_lt(a, b),
{
    match (a, b) {
        (Value::Bool(x), Value::Bool(y)) => !x && y,
        (Value::Int(x), Value::Int(y)) => x < y,
        (Value::Bool(_), Value::Int(_)) => true,
        (Value::Int(_), Value::Bool(_)) => false,
    }
}

/// How `print` shows a value.
pub open spec fn show(v: Value) -> Seq<char> {
    match v {
        Value::Bool(b) => if b { "true"@ } else { "false"@ },
        Value::Int(n) => signed_decimal(n as int),
    }
}

/// The line `print` writes for its arguments: their renderings joined
/// with `, ` (the newline is written separately).
pub open spec fn print_line(args: Seq<Value>) -> Seq<char>
    decreases args.len(),
{
    if args.len() == 0 {
        seq![]
    } else if args.len() == 1 {
        show(args[0])
    } else {
        print_line(args.drop_last()) + ", "@ + show(args.last())
    }
}

/// Compiled bytecode ready to be run by a [`VM`].
#[derive(Debug)]
pub struct Chunk {
    pub instructions: Vec<Instruction>,
    pub spans: Vec<Range<usize>>,
    pub functions: Vec<CompiledFunction>,
}

/// A call frame: which code it runs (`None` for the top level), where
/// it is, and its local slots.
#[derive(Debug)]
pub struct CallFrame {
    pub function_idx: Option<usize>,
    pub ip: usize,
    pub locals: Vec<Value>,
}

/// The mathematical value of a call frame.
pub struct FrameView {
    pub function_idx: Option<usize>,
    pub ip: usize,
    pub locals: Seq<Value>,
}

/// The mathematical state of the machine.
pub struct MachineState {
    pub stack: Seq<Value>,
    pub frames: Seq<FrameView>,
}

/// What the caller does after a step.
#[derive(Debug)]
pub enum Action {
    /// Nothing; step again.
    Continue,
    /// Write this text and then a newline, then step again.
    Write(String),
    /// The run is over.
    Finish,
}

/// Stack-based virtual machine that executes compiled [`Chunk`]s.
#[derive(Debug)]
pub struct VM {
    pub stack: Vec<Value>,
    pub frames: Vec<CallFrame>,
}

pub open spec fn frame_view(f: CallFrame) -> FrameView {
    FrameView { function_idx: f.function_idx, ip: f.ip, locals: f.locals@ }
}

impl VM {
    pub open spec fn state(&self) -> MachineState {
        MachineState { stack: self.stack@, frames: self.frames@.map_values(|f: CallFrame| frame_view(f)) }
    }
}

/// The code a frame runs.
pub open spec fn frame_code(chunk: &Chunk, f: FrameView) -> Seq<Instruction> {
    match f.function_idx {
        None => chunk.instructions@,
        Some(i) => chunk.functions@[i as int].instructions@,
    }
}

/// The span table of the code a frame runs.
pub open spec fn frame_spans(chunk: &Chunk, f: FrameView) -> Seq<Range<usize>> {
    match f.function_idx {
        None => chunk.spans@,
        Some(i) => chunk.functions@[i as int].spans@,
    }
}

/// Every frame runs an existing function of the chunk.
pub open spec fn frames_valid(s: MachineState, chunk: &Chunk) -> bool {
    forall|k: int|
        0 <= k < s.frames.len() ==> match (#[trigger] s.frames[k]).function_idx {
            Some(i) => i < chunk.functions@.len(),
            None => true,
        }
}

/// The state at the start of a run: an empty stack and one top-level
/// frame at the first instruction, with no locals.
pub open spec fn fresh_run(s: MachineState) -> bool {
    &&& s.stack.len() == 0
    &&& s.frames.len() == 1
    &&& s.frames[0].function_idx is None
    &&& s.frames[0].ip == 0
    &&& s.frames[0].locals.len() == 0
}

/// The source span of the instruction the top frame is at, if recorded.
pub open spec fn current_span(s: MachineState, chunk: &Chunk) -> Option<(int, int)> {
    if s.frames.len() == 0 {
        None
    } else {
        let f = s.frames.last();
        let spans = frame_spans(chunk, f);
        if f.ip < spans.len() {
            Some((spans[f.ip as int].start as int, spans[f.ip as int].end as int))
        } else {
            None
        }
    }
}

/// A failed step.
#[allow(inconsistent_fields)]
pub enum Fault {
    Underflow,
    NotBool { actual: ValueType, span: Option<(int, int)> },
    UnknownBuiltin { name: Seq<char>, span: Option<(int, int)> },
    Arity { name: Seq<char>, expected: usize, actual: usize, span: Option<(int, int)> },
}

/// What one step does to the machine.
pub enum StepView {
    Continue(MachineState),
    Write(MachineState, Seq<char>),
    Finish,
    Fails(Fault),
}

/// The top frame moved to instruction `ip`, with the stack `stack`.
pub open spec fn goto(s: MachineState, stack: Seq<Value>, ip: int) -> MachineState {
    let f = s.frames.last();
    MachineState {
        stack,
        frames: s.frames.update(
            s.frames.len() - 1,
            FrameView { function_idx: f.function_idx, ip: ip as usize, locals: f.locals },
        ),
    }
}

/// The top frame moved to its next instruction, with the stack `stack`.
pub open spec fn next(s: MachineState, stack: Seq<Value>) -> MachineState {
    goto(s, stack, s.frames.last().ip + 1)
}

/// Pops two values and pushes `op(left, right)`.
pub open spec fn compare(s: MachineState, op: spec_fn(Value, Value) -> bool) -> StepView {
    let st = s.stack;
    if st.len() < 2 {
        StepView::Fails(Fault::Underflow)
    } else {
        let right = st.last();
        let left = st[st.len() - 2];
        StepView::Continue(next(s, st.take(st.len() - 2).push(Value::Bool(op(left, right)))))
    }
}

/// Pops two booleans and pushes `op(left, right)`; a missing or
/// non-boolean operand is reported as an underflow.
pub open spec fn logic(s: MachineState, op: spec_fn(bool, bool) -> bool) -> StepView {
    let st = s.stack;
    if st.len() < 1 || !(st.last() is Bool) || st.len() < 2 || !(st[st.len() - 2] is Bool) {
        StepView::Fails(Fault::Underflow)
    } else {
        StepView::Continue(
            next(s, st.take(st.len() - 2).push(Value::Bool(op(st[st.len() - 2]->Bool_0, st.last()->Bool_0)))),
        )
    }
}

/// Pops two integers and pushes `op(left, right)`; a missing or
/// non-integer operand is reported as an underflow.
pub open spec fn arith(s: MachineState, op: spec_fn(int, int) -> int) -> StepView {
    let st = s.stack;
    if st.len() < 1 || !(st.last() is Int) || st.len() < 2 || !(st[st.len() - 2] is Int) {
        StepView::Fails(Fault::Underflow)
    } else {
        StepView::Continue(
            next(
                s,
                st.take(st.len() - 2).push(
                    Value::Int(op(st[st.len() - 2]->Int_0 as int, st.last()->Int_0 as int) as i32),
                ),
            ),
        )
    }
}

/// Truncating integer division, as Rust's `/` on `i32`.
pub open spec fn div_trunc(a: int, b: int) -> int {
    let q = (if a >= 0 { a } else { -a }) / (if b >= 0 { b } else { -b });
    if (a >= 0) == (b >= 0) { q } else { -q }
}

/// Whether an arithmetic instruction overflows `i32` or divides by zero
/// on these operands.
pub open spec fn arith_panics(i: Instruction, left: int, right: int) -> bool {
    match i {
        Instruction::Add => left + right < i32::MIN || left + right > i32::MAX,
        Instruction::Sub => left - right < i32::MIN || left - right > i32::MAX,
        Instruction::Mul => left * right < i32::MIN || left * right > i32::MAX,
        Instruction::Div => right == 0 || (left == i32::MIN && right == -1),
        _ => false,
    }
}

/// The inputs on which a step panics: a local slot out of range, a call
/// of a function that does not exist, `print` of more arguments than the
/// stack holds, a slot index at the top of `usize`, or integer overflow
/// or division by zero.
pub open spec fn step_panics(s: MachineState, chunk: &Chunk) -> bool {
    if s.frames.len() == 0 {
        false
    } else {
        let f = s.frames.last();
        let code = frame_code(chunk, f);
        if f.ip >= code.len() {
            false
        } else {
            let st = s.stack;
            match code[f.ip as int] {
                Instruction::GetLocal(slot) => slot >= f.locals.len(),
                Instruction::SetLocal(slot) => st.len() > 0 && slot >= f.locals.len() && slot
                    == usize::MAX,
                Instruction::Call(idx, _) => idx >= chunk.functions@.len(),
                Instruction::CallBuiltin(name, arity) => name@ == "print"@ && arity > st.len(),
                Instruction::Add | Instruction::Sub | Instruction::Mul | Instruction::Div => {
                    st.len() >= 2 && st.last() is Int && st[st.len() - 2] is Int && arith_panics(
                        code[f.ip as int],
                        st[st.len() - 2]->Int_0 as int,
                        st.last()->Int_0 as int,
                    )
                },
                _ => false,
            }
        }
    }
}

/// One step of the machine.
pub open spec fn step_spec(s: MachineState, chunk: &Chunk) -> StepView {
    if s.frames.len() == 0 {
        StepView::Finish
    } else {
        let f = s.frames.last();
        let code = frame_code(chunk, f);
        let st = s.stack;
        if f.ip >= code.len() {
            if f.function_idx is None {
                StepView::Finish
            } else {
                StepView::Continue(MachineState { stack: st.push(Value::Int(0)), frames: s.frames.drop_last() })
            }
        } else {
            match code[f.ip as int] {
                Instruction::PushBool(b) => StepView::Continue(next(s, st.push(Value::Bool(b)))),
                Instruction::PushInt(n) => StepView::Continue(next(s, st.push(Value::Int(n)))),
                Instruction::GetLocal(slot) => StepView::Continue(
                    next(s, st.push(f.locals[slot as int])),
                ),
                Instruction::SetLocal(slot) => if st.len() == 0 {
                    StepView::Fails(Fault::Underflow)
                } else {
                    let grown = if slot < f.locals.len() {
                        f.locals
                    } else {
                        f.locals + Seq::new((slot + 1 - f.locals.len()) as nat, |k: int| Value::Int(0))
                    };
                    StepView::Continue(
                        MachineState {
                            stack: st.drop_last(),
                            frames: s.frames.update(
                                s.frames.len() - 1,
                                FrameView {
                                    function_idx: f.function_idx,
                                    ip: (f.ip + 1) as usize,
                                    locals: grown.update(slot as int, st.last()),
                                },
                            ),
                        },
                    )
                },
                Instruction::Return => StepView::Continue(
                    MachineState { stack: st, frames: s.frames.drop_last() },
                ),
                Instruction::Equal => compare(s, |a: Value, b: Value| a == b),
                Instruction::NotEqual => compare(s, |a: Value, b: Value| a != b),
                Instruction::LessThan => compare(s, |a: Value, b: Value| value_lt(a, b)),
                Instruction::GreaterThan => compare(s, |a: Value, b: Value| value_lt(b, a)),
                Instruction::LessThanEquals => compare(
                    s,
                    |a: Value, b: Value| value_lt(a, b) || a == b,
                ),
                Instruction::GreaterThanEquals => compare(
                    s,
                    |a: Value, b: Value| value_lt(b, a) || a == b,
                ),
                Instruction::And => logic(s, |a: bool, b: bool| a && b),
                Instruction::Or => logic(s, |a: bool, b: bool| a || b),
                Instruction::Not => if st.len() == 0 {
                    StepView::Fails(Fault::Underflow)
                } else {
                    StepView::Continue(
                        next(s, st.drop_last().push(Value::Bool(st.last() != Value::Bool(true)))),
                    )
                },
                Instruction::Add => arith(s, |a: int, b: int| a + b),
                Instruction::Sub => arith(s, |a: int, b: int| a - b),
                Instruction::Mul => arith(s, |a: int, b: int| a * b),
                Instruction::Div => arith(s, |a: int, b: int| div_trunc(a, b)),
                Instruction::CallBuiltin(name, arity) => if name@ == "print"@ {
                    let args = st.subrange(st.len() - arity, st.len() as int);
                    StepView::Write(
                        next(s, st.take(st.len() - arity).push(Value::Int(0))),
                        print_line(args),
                    )
                } else {
                    StepView::Fails(Fault::UnknownBuiltin { name: name@, span: current_span(s, chunk) })
                },
                Instruction::Call(idx, arity) => {
                    let func = chunk.functions@[idx as int];
                    if arity != func.arity {
                        StepView::Fails(
                            Fault::Arity {
                                name: func.name@,
                                expected: func.arity,
                                actual: arity,
                                span: current_span(s, chunk),
                            },
                        )
                    } else {
                        let caller = next(s, st);
                        StepView::Continue(
                            MachineState {
                                stack: st,
                                frames: caller.frames.push(
                                    FrameView {
                                        function_idx: Some(idx),
                                        ip: 0,
                                        locals: Seq::new(func.num_locals as nat, |k: int| Value::Int(0)),
                                    },
                                ),
                            },
                        )
                    }
                },
                Instruction::Pop => StepView::Continue(
                    next(s, if st.len() == 0 { st } else { st.drop_last() }),
                ),
                Instruction::JumpIfFalse(target) => if st.len() == 0 {
                    StepView::Fails(Fault::Underflow)
                } else if !(st.last() is Bool) {
                    StepView::Fails(
                        Fault::NotBool { actual: ValueType::spec_of(st.last()), span: current_span(s, chunk) },
                    )
                } else if !(st.last()->Bool_0) {
                    StepView::Continue(goto(s, st.drop_last(), target as int))
                } else {
                    StepView::Continue(next(s, st.drop_last()))
                },
                Instruction::Jump(target) => StepView::Continue(goto(s, st, target as int)),
            }
        }
    }
}

/// The span of a fault, as an optional range.
pub open spec fn span_is(span: Option<Range<usize>>, expected: Option<(int, int)>) -> bool {
    match expected {
        None => span is None,
        Some((a, b)) => span matches Some(r) && r.start == a && r.end == b,
    }
}

/// The runtime error that reports a fault.
pub open spec fn reports(e: RuntimeError, fault: Fault) -> bool {
    match fault {
        Fault::Underflow => e is StackUnderflow,
        Fault::NotBool { actual, span } => e matches RuntimeError::TypeError {
            expected,
            actual: a,
            span: sp,
        } && expected == ValueType::Bool && a == actual && span_is(sp, span),
        Fault::UnknownBuiltin { name, span } => e matches RuntimeError::UndefinedFunction {
            name: n,
            span: sp,
        } && n@ == name && span_is(sp, span),
        Fault::Arity { name, expected, actual, span } => e matches RuntimeError::ArityMismatch {
            name: n,
            expected: x,
            actual: a,
            span: sp,
        } && n@ == name && x == expected && a == actual && span_is(sp, span),
    }
}

} // verus!

verus! {

/// The outcome of a step matches its specification.
pub open spec fn step_matches(
    r: Result<Action, RuntimeError>,
    after: MachineState,
    before: MachineState,
    chunk: &Chunk,
) -> bool {
    match step_spec(before, chunk) {
        StepView::Continue(s2) => r matches Ok(Action::Continue) && after == s2,
        StepView::Write(s2, text) => r matches Ok(Action::Write(t)) && t@ == text && after == s2,
        StepView::Finish => r matches Ok(Action::Finish) && after == before,
        StepView::Fails(fault) => r matches Err(e) && reports(e, fault),
    }
}

fn show_value(s: &mut String, v: Value)
    ensures
        final(s)@ == old(s)@ + show(v),
{
    match v {
        Value::Bool(b) => {
            if b {
                push_str(s, "true");
            } else {
                push_str(s, "false");
            }
        },
        Value::Int(n) => {
            push_signed(s, n as i64);
        },
    }
}

impl VM {
    /// A machine with an empty stack and no frames.
    pub fn new() -> (r: VM)
        ensures
            r.state().stack.len() == 0,
            r.state().frames.len() == 0,
    {
        let r = VM { stack: Vec::new(), frames: Vec::new() };
        assert(r.state().frames =~= Seq::<FrameView>::empty());
        r
    }

    /// Resets the machine to the start of a run: an empty stack and one
    /// top-level frame at the first instruction, with no locals.
    pub fn start(&mut self)
        ensures
            fresh_run(final(self).state()),
    {
        self.stack.clear();
        self.frames.clear();
        self.frames.push(CallFrame { function_idx: None, ip: 0, locals: Vec::new() });
    }

    fn set_ip(&mut self, ip: usize)
        requires
            old(self).frames@.len() > 0,
        ensures
            final(self).state() == goto(old(self).state(), old(self).stack@, ip as int),
            final(self).frames@.len() == old(self).frames@.len(),
            forall|k: int| 0 <= k < final(self).frames@.len() ==> #[trigger] final(self).frames@[k].function_idx == old(self).frames@[k].function_idx,
    {
        let mut f = self.frames.pop().unwrap();
        f.ip = ip;
        self.frames.push(f);
        proof {
            let g = goto(old(self).state(), old(self).stack@, ip as int);
            assert(self.state().frames =~= g.frames);
        }
    }

    /// The span of the instruction the top frame is at, if recorded.
    fn current_span(&self, chunk: &Chunk) -> (r: Option<Range<usize>>)
        requires
            frames_valid(self.state(), chunk),
        ensures
            span_is(r, current_span(self.state(), chunk)),
    {
        let n = self.frames.len();
        if n == 0 {
            return None;
        }
        let ip = self.frames[n - 1].ip;
        let spans = match self.frames[n - 1].function_idx {
            None => &chunk.spans,
            Some(i) => {
                proof {
                    assert(self.state().frames[n - 1] == frame_view(self.frames@[n - 1]));
                }
                &chunk.functions[i].spans
            },
        };
        proof {
            assert(self.state().frames.last() == frame_view(self.frames@[n - 1]));
        }
        if ip < spans.len() {
            Some(Range { start: spans[ip].start, end: spans[ip].end })
        } else {
            None
        }
    }
}


/// Renders the arguments of `print` as one line.
fn render_line(args: &Vec<Value>) -> (r: String)
    ensures
        r@ == print_line(args@),
{
    let mut out = String::new();
    let mut i: usize = 0;
    while i < args.len()
        invariant
            i <= args@.len(),
            out@ == print_line(args@.take(i as int)),
        decreases args@.len() - i,
    {
        if i > 0 {
            push_str(&mut out, ", ");
        }
        show_value(&mut out, args[i]);
        proof {
            assert(args@.take(i as int + 1).drop_last() =~= args@.take(i as int));
        }
        i += 1;
    }
    proof {
        assert(args@.take(args@.len() as int) =~= args@);
    }
    out
}

/// `n` zero integers.
fn zeros(n: usize) -> (r: Vec<Value>)
    ensures
        r@ == Seq::new(n as nat, |k: int| Value::Int(0)),
{
    let mut v: Vec<Value> = Vec::new();
    let mut k: usize = 0;
    while k < n
        invariant
            k <= n,
            v@ == Seq::new(k as nat, |j: int| Value::Int(0)),
        decreases n - k,
    {
        v.push(Value::Int(0));
        k += 1;
        proof {
            assert(v@ =~= Seq::new(k as nat, |j: int| Value::Int(0)));
        }
    }
    v
}

impl VM {
    /// Moves the top frame to its next instruction.
    fn advance(&mut self)
        requires
            old(self).frames@.len() > 0,
            old(self).frames@.last().ip < usize::MAX,
        ensures
            final(self).state() == next(old(self).state(), old(self).stack@),
            final(self).frames@.len() == old(self).frames@.len(),
            forall|k: int| 0 <= k < final(self).frames@.len() ==> #[trigger] final(self).frames@[k].function_idx == old(self).frames@[k].function_idx,
    {
        let n = self.frames.len();
        let ip = self.frames[n - 1].ip;
        proof {
            assert(old(self).state().frames.last() == frame_view(old(self).frames@[n - 1]));
        }
        self.set_ip(ip + 1);
    }

    /// Pushes `v` and moves the top frame to its next instruction.
    fn push_next(&mut self, v: Value)
        requires
            old(self).frames@.len() > 0,
            old(self).frames@.last().ip < usize::MAX,
        ensures
            final(self).state() == next(old(self).state(), old(self).stack@.push(v)),
            final(self).frames@.len() == old(self).frames@.len(),
            forall|k: int| 0 <= k < final(self).frames@.len() ==> #[trigger] final(self).frames@[k].function_idx == old(self).frames@[k].function_idx,
    {
        self.stack.push(v);
        self.advance();
    }

    /// Pops the two top values, the left operand below the right one.
    fn pop_pair(&mut self) -> (r: Option<(Value, Value)>)
        ensures
            final(self).frames == old(self).frames,
            old(self).stack@.len() < 2 ==> r is None,
            old(self).stack@.len() >= 2 ==> {
                let st = old(self).stack@;
                &&& r == Some((st[st.len() - 2], st.last()))
                &&& final(self).stack@ == st.take(st.len() - 2)
            },
    {
        if self.stack.len() < 2 {
            return None;
        }
        let right = self.stack.pop().unwrap();
        let left = self.stack.pop().unwrap();
        proof {
            let st = old(self).stack@;
            assert(self.stack@ =~= st.take(st.len() - 2));
        }
        Some((left, right))
    }
}


/// Code is held in a `Vec`, so its length fits in `usize`.
proof fn lemma_code_len(chunk: &Chunk, f: FrameView)
    requires
        f.function_idx matches Some(i) ==> i < chunk.functions@.len(),
    ensures
        frame_code(chunk, f).len() <= usize::MAX,
{
    match f.function_idx {
        None => assert(chunk.instructions@.len() == chunk.instructions.len()),
        Some(i) => {
            let g = chunk.functions@[i as int];
            assert(g.instructions@.len() == g.instructions.len());
        },
    }
}

/// The top frame is at instruction `i`.
pub open spec fn at(s: MachineState, chunk: &Chunk, i: Instruction) -> bool {
    &&& s.frames.len() > 0
    &&& s.frames.last().ip < frame_code(chunk, s.frames.last()).len()
    &&& frame_code(chunk, s.frames.last())[s.frames.last().ip as int] == i
}

impl VM {
    /// Runs a comparison, logic or arithmetic instruction.
    fn exec_binary(&mut self, chunk: &Chunk, instr: &Instruction) -> (r: Result<Action, RuntimeError>)
        requires
            at(old(self).state(), chunk, *instr),
            frames_valid(old(self).state(), chunk),
            !step_panics(old(self).state(), chunk),
            match *instr {
                Instruction::Equal | Instruction::NotEqual | Instruction::LessThan
                | Instruction::GreaterThan | Instruction::LessThanEquals
                | Instruction::GreaterThanEquals | Instruction::And | Instruction::Or
                | Instruction::Add | Instruction::Sub | Instruction::Mul | Instruction::Div => true,
                _ => false,
            },
        ensures
            step_matches(r, final(self).state(), old(self).state(), chunk),
            frames_valid(final(self).state(), chunk),
    {
        let ghost s = old(self).state();
        proof {
            assert(s.frames.last() == frame_view(old(self).frames@.last()));
            lemma_code_len(chunk, s.frames.last());
        }
        let (left, right) = match self.pop_pair() {
            Some(p) => p,
            None => {
                return Err(RuntimeError::StackUnderflow);
            },
        };
        let v = match instr {
            Instruction::Equal => Value::Bool(left == right),
            Instruction::NotEqual => Value::Bool(left != right),
            Instruction::LessThan => Value::Bool(less(left, right)),
            Instruction::GreaterThan => Value::Bool(less(right, left)),
            Instruction::LessThanEquals => Value::Bool(less(left, right) || left == right),
            Instruction::GreaterThanEquals => Value::Bool(less(right, left) || left == right),
            Instruction::And | Instruction::Or => {
                let (a, b) = match (left, right) {
                    (Value::Bool(a), Value::Bool(b)) => (a, b),
                    _ => {
                        return Err(RuntimeError::StackUnderflow);
                    },
                };
                match instr {
                    Instruction::And => Value::Bool(a && b),
                    _ => Value::Bool(a || b),
                }
            },
            _ => {
                let (a, b) = match (left, right) {
                    (Value::Int(a), Value::Int(b)) => (a, b),
                    _ => {
                        return Err(RuntimeError::StackUnderflow);
                    },
                };
                match instr {
                    Instruction::Add => Value::Int(a + b),
                    Instruction::Sub => Value::Int(a - b),
                    Instruction::Mul => Value::Int(a * b),
                    _ => Value::Int(divide(a, b)),
                }
            },
        };
        self.push_next(v);
        Ok(Action::Continue)
    }
}

/// Rust's truncating division on `i32`, by magnitudes.
pub(crate) fn divide(a: i32, b: i32) -> (r: i32)
    requires
        b != 0,
        !(a == i32::MIN && b == -1),
    ensures
        r == div_trunc(a as int, b as int),
{
    let ma: u64 = if a >= 0 { a as u64 } else { (-(a as i64)) as u64 };
    let mb: u64 = if b >= 0 { b as u64 } else { (-(b as i64)) as u64 };
    let q: u64 = ma / mb;
    assert(q <= ma) by (nonlinear_arith)
        requires
            mb >= 1,
            q == ma / mb,
    ;
    if (a >= 0) == (b >= 0) {
        assert(q <= i32::MAX) by (nonlinear_arith)
            requires
                mb >= 1,
                q == ma / mb,
                ma <= 0x8000_0000,
                ma == 0x8000_0000 ==> mb >= 2,
        ;
        q as i32
    } else {
        (-(q as i64)) as i32
    }
}


} // verus!

verus! {

impl VM {
    /// Runs an instruction that moves values between the stack, the
    /// locals and the instruction pointer.
    fn exec_local(&mut self, chunk: &Chunk, instr: &Instruction) -> (r: Result<Action, RuntimeError>)
        requires
            at(old(self).state(), chunk, *instr),
            frames_valid(old(self).state(), chunk),
            !step_panics(old(self).state(), chunk),
            match *instr {
                Instruction::PushBool(_) | Instruction::PushInt(_) | Instruction::GetLocal(_)
                | Instruction::SetLocal(_) | Instruction::Return | Instruction::Not
                | Instruction::Pop | Instruction::JumpIfFalse(_) | Instruction::Jump(_) => true,
                _ => false,
            },
        ensures
            step_matches(r, final(self).state(), old(self).state(), chunk),
            frames_valid(final(self).state(), chunk),
    {
        let ghost s = old(self).state();
        let n = self.frames.len();
        proof {
            assert(s.frames.last() == frame_view(old(self).frames@[n - 1]));
            lemma_code_len(chunk, s.frames.last());
        }
        match instr {
            Instruction::PushBool(b) => {
                self.push_next(Value::Bool(*b));
            },
            Instruction::PushInt(v) => {
                self.push_next(Value::Int(*v));
            },
            Instruction::GetLocal(slot) => {
                let v = self.frames[n - 1].locals[*slot];
                self.push_next(v);
            },
            Instruction::SetLocal(slot) => {
                let slot = *slot;
                if self.stack.len() == 0 {
                    return Err(RuntimeError::StackUnderflow);
                }
                let v = self.stack.pop().unwrap();
                let mut f = self.frames.pop().unwrap();
                let ghost old_locals = f.locals@;
                let ghost f0 = f;
                while f.locals.len() <= slot
                    invariant
                        f.ip == f0.ip,
                        f.function_idx == f0.function_idx,
                        old_locals.len() <= slot ==> slot < usize::MAX,
                        old_locals.len() <= f.locals@.len(),
                        f.locals@.len() <= old_locals.len() || f.locals@.len() <= slot + 1,
                        f.locals@ == old_locals + Seq::new(
                            (f.locals@.len() - old_locals.len()) as nat,
                            |k: int| Value::Int(0),
                        ),
                    decreases slot + 1 - f.locals@.len(),
                {
                    f.locals.push(Value::Int(0));
                    proof {
                        assert(f.locals@ =~= old_locals + Seq::new(
                            (f.locals@.len() - old_locals.len()) as nat,
                            |k: int| Value::Int(0),
                        ));
                    }
                }
                proof {
                    if old_locals.len() > slot {
                        assert(f.locals@ =~= old_locals);
                    }
                }
                let ghost grown_exec = f.locals@;
                f.locals.set(slot, v);
                f.ip = f.ip + 1;
                self.frames.push(f);
                proof {
                    let st = s.stack;
                    let g = s.frames.last();
                    let grown = if slot < g.locals.len() {
                        g.locals
                    } else {
                        g.locals + Seq::new((slot + 1 - g.locals.len()) as nat, |k: int| Value::Int(0))
                    };
                    assert(g.locals == old_locals);
                    assert(grown =~= grown_exec);
                    assert(self.stack@ =~= st.drop_last());
                    assert(self.state().frames =~= s.frames.update(
                        s.frames.len() - 1,
                        FrameView {
                            function_idx: g.function_idx,
                            ip: (g.ip + 1) as usize,
                            locals: grown.update(slot as int, st.last()),
                        },
                    ));
                }
            },
            Instruction::Return => {
                self.frames.pop();
                proof {
                    assert(self.state().frames =~= s.frames.drop_last());
                }
            },
            Instruction::Not => {
                if self.stack.len() == 0 {
                    return Err(RuntimeError::StackUnderflow);
                }
                let v = self.stack.pop().unwrap();
                let b = match v {
                    Value::Bool(true) => false,
                    _ => true,
                };
                self.push_next(Value::Bool(b));
            },
            Instruction::Pop => {
                if self.stack.len() > 0 {
                    self.stack.pop();
                }
                self.advance();
            },
            Instruction::JumpIfFalse(target) => {
                if self.stack.len() == 0 {
                    return Err(RuntimeError::StackUnderflow);
                }
                let v = self.stack.pop().unwrap();
                match v {
                    Value::Bool(c) => {
                        if !c {
                            self.set_ip(*target);
                        } else {
                            self.advance();
                        }
                    },
                    Value::Int(_) => {
                        return Err(
                            RuntimeError::TypeError {
                                expected: ValueType::Bool,
                                actual: ValueType::from(&v),
                                span: self.current_span(chunk),
                            },
                        );
                    },
                }
            },
            _ => {
                let target = match instr {
                    Instruction::Jump(t) => *t,
                    _ => 0,
                };
                self.set_ip(target);
            },
        }
        Ok(Action::Continue)
    }
}


impl VM {
    /// Runs a call of a compiled function or of a builtin.
    fn exec_call(&mut self, chunk: &Chunk, instr: &Instruction) -> (r: Result<Action, RuntimeError>)
        requires
            at(old(self).state(), chunk, *instr),
            frames_valid(old(self).state(), chunk),
            !step_panics(old(self).state(), chunk),
            instr is Call || instr is CallBuiltin,
        ensures
            step_matches(r, final(self).state(), old(self).state(), chunk),
            frames_valid(final(self).state(), chunk),
    {
        let ghost s = old(self).state();
        let n = self.frames.len();
        proof {
            assert(s.frames.last() == frame_view(old(self).frames@[n - 1]));
            lemma_code_len(chunk, s.frames.last());
        }
        match instr {
            Instruction::CallBuiltin(name, arity) => {
                if str_eq(name.as_str(), "print") {
                    let split = self.stack.len() - *arity;
                    let args = self.stack.split_off(split);
                    let line = render_line(&args);
                    self.push_next(Value::Int(0));
                    proof {
                        assert(args@ =~= s.stack.subrange(s.stack.len() - *arity, s.stack.len() as int));
                        assert(old(self).stack@.subrange(0, split as int) =~= s.stack.take(s.stack.len() - *arity));
                    }
                    Ok(Action::Write(line))
                } else {
                    Err(RuntimeError::UndefinedFunction { name: name.clone(), span: self.current_span(chunk) })
                }
            },
            Instruction::Call(idx, arity) => {
                let idx = *idx;
                let arity = *arity;
                let func = &chunk.functions[idx];
                if arity != func.arity {
                    return Err(
                        RuntimeError::ArityMismatch {
                            name: func.name.clone(),
                            expected: func.arity,
                            actual: arity,
                            span: self.current_span(chunk),
                        },
                    );
                }
                self.advance();
                let ghost caller = self.state();
                let locals = zeros(func.num_locals);
                self.frames.push(CallFrame { function_idx: Some(idx), ip: 0, locals });
                proof {
                    assert(self.state().frames =~= caller.frames.push(
                        FrameView {
                            function_idx: Some(idx),
                            ip: 0,
                            locals: Seq::new(func.num_locals as nat, |k: int| Value::Int(0)),
                        },
                    ));
                }
                Ok(Action::Continue)
            },
            _ => Ok(Action::Continue),
        }
    }

    /// Runs one instruction of `chunk`, or finishes the run.
    ///
    /// A `print` is handed back as [`Action::Write`]: the caller writes the
    /// line and a newline. The run is over at [`Action::Finish`] or at
    /// the first error.
    pub fn step(&mut self, chunk: &Chunk) -> (r: Result<Action, RuntimeError>)
        requires
            frames_valid(old(self).state(), chunk),
            !step_panics(old(self).state(), chunk),
        ensures
            step_matches(r, final(self).state(), old(self).state(), chunk),
            frames_valid(final(self).state(), chunk),
    {
        let ghost s = old(self).state();
        let n = self.frames.len();
        if n == 0 {
            return Ok(Action::Finish);
        }
        let ip = self.frames[n - 1].ip;
        let function_idx = self.frames[n - 1].function_idx;
        proof {
            assert(s.frames.last() == frame_view(old(self).frames@[n - 1]));
        }
        let code = match function_idx {
            None => &chunk.instructions,
            Some(i) => &chunk.functions[i].instructions,
        };
        if ip >= code.len() {
            if function_idx.is_none() {
                return Ok(Action::Finish);
            }
            self.stack.push(Value::Int(0));
            self.frames.pop();
            proof {
                assert(self.state().frames =~= s.frames.drop_last());
            }
            return Ok(Action::Continue);
        }
        let instr = &code[ip];
        match instr {
            Instruction::Call(..) | Instruction::CallBuiltin(..) => self.exec_call(chunk, instr),
            Instruction::PushBool(_) | Instruction::PushInt(_) | Instruction::GetLocal(_)
            | Instruction::SetLocal(_) | Instruction::Return | Instruction::Not | Instruction::Pop
            | Instruction::JumpIfFalse(_) | Instruction::Jump(_) => self.exec_local(chunk, instr),
            _ => self.exec_binary(chunk, instr),
        }
    }
}


/// Whether an arithmetic instruction overflows or divides by zero.
fn arith_would_panic(instr: &Instruction, left: i32, right: i32) -> (r: bool)
    ensures
        r == arith_panics(*instr, left as int, right as int),
{
    let a = left as i64;
    let b = right as i64;
    match instr {
        Instruction::Add => a + b < i32::MIN as i64 || a + b > i32::MAX as i64,
        Instruction::Sub => a - b < i32::MIN as i64 || a - b > i32::MAX as i64,
        Instruction::Mul => {
            assert(-0x8000_0000 * 0x8000_0000 <= a * b <= 0x8000_0000 * 0x8000_0000) by (nonlinear_arith)
                requires
                    -0x8000_0000 <= a <= 0x7fff_ffff,
                    -0x8000_0000 <= b <= 0x7fff_ffff,
            ;
            a * b < i32::MIN as i64 || a * b > i32::MAX as i64
        },
        Instruction::Div => right == 0 || (left == i32::MIN && right == -1),
        _ => false,
    }
}

impl VM {
    /// Whether the next [`VM::step`] on `chunk` would panic: a local slot
    /// out of range, a call of a function that does not exist, `print` of
    /// more arguments than the stack holds, or integer overflow or
    /// division by zero.
    pub fn would_panic(&self, chunk: &Chunk) -> (r: bool)
        requires
            frames_valid(self.state(), chunk),
        ensures
            r == step_panics(self.state(), chunk),
    {
        let ghost s = self.state();
        let n = self.frames.len();
        if n == 0 {
            return false;
        }
        let f = &self.frames[n - 1];
        proof {
            assert(s.frames.last() == frame_view(self.frames@[n - 1]));
        }
        let code = match f.function_idx {
            None => &chunk.instructions,
            Some(i) => &chunk.functions[i].instructions,
        };
        if f.ip >= code.len() {
            return false;
        }
        let len = self.stack.len();
        match &code[f.ip] {
            Instruction::GetLocal(slot) => *slot >= f.locals.len(),
            Instruction::SetLocal(slot) => len > 0 && *slot >= f.locals.len() && *slot == usize::MAX,
            Instruction::Call(idx, _) => *idx >= chunk.functions.len(),
            Instruction::CallBuiltin(name, arity) => str_eq(name.as_str(), "print") && *arity > len,
            Instruction::Add | Instruction::Sub | Instruction::Mul | Instruction::Div => {
                if len < 2 {
                    false
                } else {
                    match (self.stack[len - 2], self.stack[len - 1]) {
                        (Value::Int(a), Value::Int(b)) => arith_would_panic(&code[f.ip], a, b),
                        _ => false,
                    }
                }
            },
            _ => false,
        }
    }
}


/// `arg` for one argument, `args` otherwise.
pub open spec fn args_word(arity: usize) -> Seq<char> {
    if arity == 1 {
        "arg"@
    } else {
        "args"@
    }
}

/// How the disassembler shows one instruction.
pub open spec fn instruction_text(i: Instruction) -> Seq<char> {
    match i {
        Instruction::PushBool(b) => "PushBool "@ + if b { "true"@ } else { "false"@ },
        Instruction::PushInt(n) => "PushInt "@ + signed_decimal(n as int),
        Instruction::GetLocal(slot) => "GetLocal "@ + decimal(slot as nat),
        Instruction::SetLocal(slot) => "SetLocal "@ + decimal(slot as nat),
        Instruction::Return => "Return"@,
        Instruction::Equal => "Equal"@,
        Instruction::NotEqual => "NotEqual"@,
        Instruction::LessThan => "LessThan"@,
        Instruction::GreaterThan => "GreaterThan"@,
        Instruction::LessThanEquals => "LessThanEquals"@,
        Instruction::GreaterThanEquals => "GreaterThanEquals"@,
        Instruction::And => "And"@,
        Instruction::Or => "Or"@,
        Instruction::Not => "Not"@,
        Instruction::Add => "Add"@,
        Instruction::Sub => "Sub"@,
        Instruction::Mul => "Mul"@,
        Instruction::Div => "Div"@,
        Instruction::Call(idx, arity) => "Call fn#"@ + decimal(idx as nat) + " ("@ + decimal(
            arity as nat,
        ) + " "@ + args_word(arity) + ")"@,
        Instruction::CallBuiltin(name, arity) => "CallBuiltin \""@ + name@ + "\" ("@ + decimal(
            arity as nat,
        ) + " "@ + args_word(arity) + ")"@,
        Instruction::Pop => "Pop"@,
        Instruction::JumpIfFalse(target) => "JumpIfFalse -> "@ + pad4(target as nat),
        Instruction::Jump(target) => "Jump -> "@ + pad4(target as nat),
    }
}

/// One line per instruction: its index padded to four digits, two
/// spaces, and the instruction.
pub open spec fn listing(code: Seq<Instruction>) -> Seq<char>
    decreases code.len(),
{
    if code.len() == 0 {
        seq![]
    } else {
        listing(code.drop_last()) + pad4((code.len() - 1) as nat) + "  "@ + instruction_text(
            code.last(),
        ) + "\n"@
    }
}

/// The header and listing of one compiled function.
pub open spec fn function_listing(f: CompiledFunction) -> Seq<char> {
    "\n== "@ + f.name@ + "("@ + join_with(f.params@.map_values(|x: String| x@), ", "@) + ") ==\n"@
        + listing(f.instructions@)
}

/// The listings of a sequence of functions, one after the other.
pub open spec fn functions_listing(fs: Seq<CompiledFunction>) -> Seq<char>
    decreases fs.len(),
{
    if fs.len() == 0 {
        seq![]
    } else {
        functions_listing(fs.drop_last()) + function_listing(fs.last())
    }
}

/// The whole disassembly of a chunk: the top-level code, then each
/// function.
pub open spec fn disassembly(chunk: &Chunk) -> Seq<char> {
    "== <main> ==\n"@ + listing(chunk.instructions@) + functions_listing(chunk.functions@)
}

fn push_args_word(s: &mut String, arity: usize)
    ensures
        final(s)@ == old(s)@ + args_word(arity),
{
    if arity == 1 {
        push_str(s, "arg");
    } else {
        push_str(s, "args");
    }
}

/// Appends the text of one instruction.
fn push_instruction(s: &mut String, instr: &Instruction)
    ensures
        final(s)@ == old(s)@ + instruction_text(*instr),
{
    let ghost start = s@;
    match instr {
        Instruction::PushBool(b) => {
            push_str(s, "PushBool ");
            if *b {
                push_str(s, "true");
            } else {
                push_str(s, "false");
            }
        },
        Instruction::PushInt(n) => {
            push_str(s, "PushInt ");
            push_signed(s, *n as i64);
        },
        Instruction::GetLocal(slot) => {
            push_str(s, "GetLocal ");
            push_decimal(s, *slot as u64);
        },
        Instruction::SetLocal(slot) => {
            push_str(s, "SetLocal ");
            push_decimal(s, *slot as u64);
        },
        Instruction::Return => push_str(s, "Return"),
        Instruction::Equal => push_str(s, "Equal"),
        Instruction::NotEqual => push_str(s, "NotEqual"),
        Instruction::LessThan => push_str(s, "LessThan"),
        Instruction::GreaterThan => push_str(s, "GreaterThan"),
        Instruction::LessThanEquals => push_str(s, "LessThanEquals"),
        Instruction::GreaterThanEquals => push_str(s, "GreaterThanEquals"),
        Instruction::And => push_str(s, "And"),
        Instruction::Or => push_str(s, "Or"),
        Instruction::Not => push_str(s, "Not"),
        Instruction::Add => push_str(s, "Add"),
        Instruction::Sub => push_str(s, "Sub"),
        Instruction::Mul => push_str(s, "Mul"),
        Instruction::Div => push_str(s, "Div"),
        Instruction::Call(idx, arity) => {
            push_str(s, "Call fn#");
            push_decimal(s, *idx as u64);
            push_str(s, " (");
            push_decimal(s, *arity as u64);
            push_str(s, " ");
            push_args_word(s, *arity);
            push_str(s, ")");
        },
        Instruction::CallBuiltin(name, arity) => {
            push_str(s, "CallBuiltin \"");
            push_str(s, name.as_str());
            push_str(s, "\" (");
            push_decimal(s, *arity as u64);
            push_str(s, " ");
            push_args_word(s, *arity);
            push_str(s, ")");
        },
        Instruction::Pop => push_str(s, "Pop"),
        Instruction::JumpIfFalse(target) => {
            push_str(s, "JumpIfFalse -> ");
            push_pad4(s, *target);
        },
        Instruction::Jump(target) => {
            push_str(s, "Jump -> ");
            push_pad4(s, *target);
        },
    }
    assert(s@ =~= start + instruction_text(*instr));
}

/// Appends the listing of `code`.
fn push_listing(s: &mut String, code: &Vec<Instruction>)
    ensures
        final(s)@ == old(s)@ + listing(code@),
{
    let mut i: usize = 0;
    while i < code.len()
        invariant
            i <= code@.len(),
            s@ == old(s)@ + listing(code@.take(i as int)),
        decreases code@.len() - i,
    {
        push_pad4(s, i);
        push_str(s, "  ");
        push_instruction(s, &code[i]);
        push_str(s, "\n");
        proof {
            assert(code@.take(i as int + 1).drop_last() =~= code@.take(i as int));
            assert(s@ =~= old(s)@ + listing(code@.take(i as int + 1)));
        }
        i += 1;
    }
    proof {
        assert(code@.take(code@.len() as int) =~= code@);
    }
}

impl Chunk {
    /// A human-readable disassembly of the compiled bytecode: the
    /// top-level code under `== <main> ==`, then each function under a
    /// header with its name and parameters.
    pub fn disassemble(&self) -> (r: String)
        ensures
            r@ == disassembly(self),
    {
        let mut out = String::new();
        push_str(&mut out, "== <main> ==\n");
        push_listing(&mut out, &self.instructions);
        let mut k: usize = 0;
        while k < self.functions.len()
            invariant
                k <= self.functions@.len(),
                out@ == "== <main> ==\n"@ + listing(self.instructions@) + functions_listing(
                    self.functions@.take(k as int),
                ),
            decreases self.functions@.len() - k,
        {
            let func = &self.functions[k];
            push_str(&mut out, "\n== ");
            push_str(&mut out, func.name.as_str());
            push_str(&mut out, "(");
            push_joined(&mut out, &func.params, ", ");
            push_str(&mut out, ") ==\n");
            push_listing(&mut out, &func.instructions);
            proof {
                assert(self.functions@.take(k as int + 1).drop_last() =~= self.functions@.take(k as int));
                assert(out@ =~= "== <main> ==\n"@ + listing(self.instructions@) + functions_listing(
                    self.functions@.take(k as int + 1),
                ));
            }
            k += 1;
        }
        proof {
            assert(self.functions@.take(self.functions@.len() as int) =~= self.functions@);
        }
        out
    }
}


/// The errors [`Chunk::check`] reports for a source: the lexer's, then,
/// when the tokens do not form a program, one parser error at the token
/// where the top-level statements stop.
pub open spec fn check_errors_match(source: Seq<char>, r: Seq<OrynError>) -> bool {
    let b = encode_utf8(source);
    let lex_errs = lexemes(b, 0).1;
    let t = tokens_of(source, 0);
    let n = lex_errs.len() as int;
    &&& errors_match(r.take(n), lex_errs)
    &&& match program(t, fuel_for(t)) {
        Some(_) => r.len() == n,
        None => {
            let stop = program_stop(t, fuel_for(t));
            &&& r.len() == n + 1
            &&& 0 <= stop < t.len()
            &&& r[n] matches OrynError::Parser { span, message } && span.start == t[stop].1
                && span.end == t[stop].2 && message@ == "unexpected '"@ + tok_text(t[stop].0)
                + "'"@
        },
    }
}

impl Chunk {
    /// All lexer and parser errors of `source`, without compiling; an
    /// empty vector means the source is valid.
    pub fn check(source: &str) -> (r: Vec<OrynError>)
        ensures
            check_errors_match(source@, r@),
    {
        let (tokens, lex_errors) = lex(source);
        proof {
            lemma_tokens_of(source@, 0, tokens@, tokens@);
        }
        let ghost toks = tokens@;
        let (_, parse_errors) = parse(tokens);
        proof {
            let t = toks_v(toks);
            if program(t, fuel_for(t)) is None {
                let stop = program_stop(t, fuel_for(t));
                lemma_tok_text(toks[stop].0);
            }
        }
        let mut errors = lex_errors;
        let mut parse_errors = parse_errors;
        errors.append(&mut parse_errors);
        proof {
            assert(errors@.take(lex_errors@.len() as int) =~= lex_errors@);
        }
        errors
    }
}


impl Default for VM {
    fn default() -> (r: VM)
        ensures
            r.state().stack.len() == 0,
            r.state().frames.len() == 0,
    {
        VM::new()
    }
}


/// A run does not depend on what the machine held before it: every
/// state a run starts from is the same.
pub proof fn runs_start_afresh(a: MachineState, b: MachineState)
    requires
        fresh_run(a),
        fresh_run(b),
    ensures
        a == b,
{
    assert(a.stack =~= b.stack);
    assert(a.frames[0].locals =~= b.frames[0].locals);
    assert(a.frames[0] == b.frames[0]);
    assert(a.frames =~= b.frames);
}

/// [`Chunk::check`] reports no error exactly when the source lexes
/// without error and its tokens form a program.
pub proof fn check_is_empty_exactly_for_valid_sources(source: Seq<char>, r: Seq<OrynError>)
    requires
        check_errors_match(source, r),
    ensures
        r.len() == 0 <==> (lexemes(encode_utf8(source), 0).1.len() == 0 && program(
            tokens_of(source, 0),
            fuel_for(tokens_of(source, 0)),
        ) is Some),
{
    let n = lexemes(encode_utf8(source), 0).1.len();
    assert(r.take(n as int).len() == n);
}

} // verus!
