//! Errors from every phase of the pipeline: lexing, parsing, module
//! loading and running.

use std::ops::Range;
use vstd::prelude::*;

use crate::text::{decimal, push_decimal, push_str};

verus! {

/// `std::io::Error`, carried opaquely by [`RuntimeError::IoError`].
#[verifier::external_type_specification]
#[verifier::external_body]
pub struct ExIoError(std::io::Error);

/// An error from any phase of the pipeline: lexing, parsing, module
/// loading, or runtime. `Lexer` and `Parser` carry byte-offset spans.
#[derive(Debug)]
pub enum OrynError {
    Lexer { span: Range<usize> },
    Parser { span: Range<usize>, message: String },
    /// A program that parses but cannot be compiled: an undefined name,
    /// a reassigned `val`, a construct the machine does not run.
    Compiler { span: Range<usize>, message: String },
    Module { path: String, message: String },
    Runtime(RuntimeError),
}

/// A runtime error from the VM. Each variant that points back at the
/// source carries an optional byte-offset span of the failing instruction.
#[derive(Debug)]
#[allow(inconsistent_fields)]
pub enum RuntimeError {
    UndefinedVariable { name: String, span: Option<Range<usize>> },
    UndefinedFunction { name: String, span: Option<Range<usize>> },
    StackUnderflow,
    IoError(std::io::Error),
    TypeError { expected: ValueType, actual: ValueType, span: Option<Range<usize>> },
    ArityMismatch { name: String, expected: usize, actual: usize, span: Option<Range<usize>> },
}

/// The type of a runtime value, as named in type errors.
#[derive(Debug, Clone, Copy, PartialEq, Eq, Structural)]
pub enum ValueType {
    Bool,
    Int,
    String,
}

impl ValueType {
    /// The name shown to users: `bool`, `int` or `string`.
    pub open spec fn spec_name(self) -> Seq<char> {
        match self {
            ValueType::Bool => "bool"@,
            ValueType::Int => "int"@,
            ValueType::String => "string"@,
        }
    }

    /// The name shown to users: `bool`, `int` or `string`.
    pub fn name(&self) -> (r: &'static str)
        ensures
            r@ == self.spec_name(),
    {
        match self {
            ValueType::Bool => "bool",
            ValueType::Int => "int",
            ValueType::String => "string",
        }
    }
}

/// `Display` of an I/O error: what the operating system reports.
#[verifier::external_body]
fn io_error_text(e: &std::io::Error) -> String {
    format!("{e}")
}

impl RuntimeError {
    /// The source span associated with this error, if any.
    pub fn span(&self) -> (r: Option<&Range<usize>>)
        ensures
            r == match self {
                RuntimeError::UndefinedVariable { span, .. } => match span {
                    Some(s) => Some(s),
                    None => None::<&Range<usize>>,
                },
                RuntimeError::UndefinedFunction { span, .. } => match span {
                    Some(s) => Some(s),
                    None => None::<&Range<usize>>,
                },
                RuntimeError::TypeError { span, .. } => match span {
                    Some(s) => Some(s),
                    None => None::<&Range<usize>>,
                },
                RuntimeError::ArityMismatch { span, .. } => match span {
                    Some(s) => Some(s),
                    None => None::<&Range<usize>>,
                },
                _ => None::<&Range<usize>>,
            },
    {
        match self {
            RuntimeError::UndefinedVariable { span, .. } => span.as_ref(),
            RuntimeError::UndefinedFunction { span, .. } => span.as_ref(),
            RuntimeError::StackUnderflow => None,
            RuntimeError::IoError(_) => None,
            RuntimeError::TypeError { span, .. } => span.as_ref(),
            RuntimeError::ArityMismatch { span, .. } => span.as_ref(),
        }
    }

    /// The user-facing message. Every variant but `IoError` is fully
    /// determined here; an I/O error reads as the operating system
    /// reports it.
    pub fn message(&self) -> (r: String)
        ensures
            match self {
                RuntimeError::UndefinedVariable { name, .. } => r@ == "undefined variable: "@ + name@,
                RuntimeError::UndefinedFunction { name, .. } => r@ == "undefined function: "@ + name@,
                RuntimeError::StackUnderflow => r@ == "stack underflow"@,
                RuntimeError::IoError(_) => true,
                RuntimeError::TypeError { expected, actual, .. } => r@ == "type error: expected "@
                    + expected.spec_name() + ", got "@ + actual.spec_name(),
                RuntimeError::ArityMismatch { name, expected, actual, .. } => r@ == name@
                    + " expects "@ + decimal(*expected as nat) + " argument(s), got "@ + decimal(
                    *actual as nat,
                ),
            },
    {
        let mut s = String::new();
        match self {
            RuntimeError::UndefinedVariable { name, .. } => {
                push_str(&mut s, "undefined variable: ");
                push_str(&mut s, name.as_str());
            },
            RuntimeError::UndefinedFunction { name, .. } => {
                push_str(&mut s, "undefined function: ");
                push_str(&mut s, name.as_str());
            },
            RuntimeError::StackUnderflow => {
                push_str(&mut s, "stack underflow");
            },
            RuntimeError::IoError(e) => {
                return io_error_text(e);
            },
            RuntimeError::TypeError { expected, actual, .. } => {
                push_str(&mut s, "type error: expected ");
                push_str(&mut s, expected.name());
                push_str(&mut s, ", got ");
                push_str(&mut s, actual.name());
            },
            RuntimeError::ArityMismatch { name, expected, actual, .. } => {
                push_str(&mut s, name.as_str());
                push_str(&mut s, " expects ");
                push_decimal(&mut s, *expected as u64);
                push_str(&mut s, " argument(s), got ");
                push_decimal(&mut s, *actual as u64);
            },
        }
        s
    }
}

impl OrynError {
    /// The user-facing message of this error.
    pub fn message(&self) -> (r: String)
        ensures
            match self {
                OrynError::Lexer { span } => r@ == "unexpected character at "@ + decimal(
                    span.start as nat,
                ) + ".."@ + decimal(span.end as nat),
                OrynError::Parser { message, .. } => r@ == message@,
                OrynError::Compiler { message, .. } => r@ == message@,
                OrynError::Module { path, message } => r@ == path@ + ": "@ + message@,
                OrynError::Runtime(e) => match e {
                    RuntimeError::IoError(_) => true,
                    _ => r@ == e.message_spec(),
                },
            },
    {
        match self {
            OrynError::Lexer { span } => {
                let mut s = String::new();
                push_str(&mut s, "unexpected character at ");
                push_decimal(&mut s, span.start as u64);
                push_str(&mut s, "..");
                push_decimal(&mut s, span.end as u64);
                s
            },
            OrynError::Parser { message, .. } => message.clone(),
            OrynError::Compiler { message, .. } => message.clone(),
            OrynError::Module { path, message } => {
                let mut s = String::new();
                push_str(&mut s, path.as_str());
                push_str(&mut s, ": ");
                push_str(&mut s, message.as_str());
                s
            },
            OrynError::Runtime(e) => e.message(),
        }
    }
}

impl RuntimeError {
    /// The message of every variant but `IoError` (see [`RuntimeError::message`]).
    pub open spec fn message_spec(&self) -> Seq<char> {
        match self {
            RuntimeError::UndefinedVariable { name, .. } => "undefined variable: "@ + name@,
            RuntimeError::UndefinedFunction { name, .. } => "undefined function: "@ + name@,
            RuntimeError::StackUnderflow => "stack underflow"@,
            RuntimeError::IoError(_) => Seq::empty(),
            RuntimeError::TypeError { expected, actual, .. } => "type error: expected "@
                + expected.spec_name() + ", got "@ + actual.spec_name(),
            RuntimeError::ArityMismatch { name, expected, actual, .. } => name@ + " expects "@
                + decimal(*expected as nat) + " argument(s), got "@ + decimal(*actual as nat),
        }
    }
}

impl From<RuntimeError> for OrynError {
    fn from(e: RuntimeError) -> (r: OrynError) {
        OrynError::Runtime(e)
    }
}

impl vstd::std_specs::convert::FromSpecImpl<RuntimeError> for OrynError {
    open spec fn obeys_from_spec() -> bool {
        true
    }

    open spec fn from_spec(e: RuntimeError) -> OrynError {
        OrynError::Runtime(e)
    }
}

} // verus!
