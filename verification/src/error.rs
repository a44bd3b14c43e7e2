//! Errors of every stage of the pipeline, each with a code per phase.

use vstd::prelude::*;

use crate::ast::Span;
use crate::text::{decimal, push_decimal, push_str};

verus! {

#[derive(Debug, Clone, Copy, PartialEq, Eq, Structural)]
pub enum ParseErrorCode {
    /// Syntax error.
    P0001,
    /// Invalid integer literal.
    P0002,
    /// Invalid float literal.
    P0003,
}

#[derive(Debug, Clone, Copy, PartialEq, Eq, Structural)]
pub enum TypeErrorCode {
    /// Type mismatch.
    T0001,
    /// Annotation required.
    T0002,
    /// Undefined name.
    T0003,
    /// Arity mismatch.
    T0004,
    /// Invalid operand types.
    T0005,
    /// Assignment to immutable binding.
    T0006,
    /// Invalid cast.
    T0007,
    /// Non-exhaustive match.
    T0008,
    /// Visibility violation: the item is not public in its module.
    T0009,
    /// A public function lacks an explicit type annotation.
    T0010,
    /// Import conflict: one local name bound by two imports.
    T0011,
}

#[derive(Debug, Clone, Copy, PartialEq, Eq, Structural)]
pub enum RuntimeErrorCode {
    /// No `main` function defined.
    R0001,
    /// `main` is not a valid entry point.
    R0002,
    /// Undefined variable at runtime.
    R0003,
    /// Index out of bounds.
    R0004,
    /// Tuple index out of bounds.
    R0005,
    /// Non-exhaustive match at runtime.
    R0006,
    /// Arithmetic error (division or remainder by zero).
    R0007,
    /// Field not found.
    R0008,
    /// Method not found.
    R0009,
    /// Call on non-callable value.
    R0010,
    /// Invalid for-in iterator.
    R0011,
    /// Error propagation on non-Result value.
    R0012,
    /// Assertion failed.
    R0013,
}

#[derive(Debug, Clone, Copy, PartialEq, Eq, Structural)]
pub enum InternalErrorCode {
    /// Internal interpreter error (interpreter bug — should never happen).
    I0001,
    /// Not implemented (feature not yet supported in this version).
    I0002,
}

/// All errors that can be produced at any stage of the pipeline.
#[derive(Debug)]
#[allow(inconsistent_fields)]
pub enum GustError {
    ParseError {
        code: ParseErrorCode,
        message: String,
        start: usize,
        end: usize,
        filename: String,
        line: u32,
        col: u32,
        /// Source line text, if available.
        source_line: Option<String>,
    },
    TypeError {
        code: TypeErrorCode,
        message: String,
        start: usize,
        end: usize,
        filename: String,
        line: u32,
        col: u32,
    },
    RuntimePanic {
        code: RuntimeErrorCode,
        message: String,
        start: usize,
        end: usize,
        filename: String,
        line: u32,
        col: u32,
    },
    /// A bug in the interpreter or an unimplemented feature — never caused by user input.
    Internal { code: InternalErrorCode, message: String },
}

/// `e` is an internal interpreter error (code `I0001`) carrying message `msg`.
pub open spec fn is_internal(e: GustError, msg: Seq<char>) -> bool {
    e matches GustError::Internal { code, message } && code == InternalErrorCode::I0001 && message@ == msg
}

/// `e` is a type error with code `c` at `span`, carrying message `msg`.
pub open spec fn is_type_error(e: GustError, c: TypeErrorCode, msg: Seq<char>, span: Span) -> bool {
    e matches GustError::TypeError { code, message, start, end, filename, line, col } && code == c
        && message@ == msg && start == span.start && end == span.end && filename@ == span.filename@
        && line == span.line && col == span.col
}

/// `e` is a runtime panic with code `c` at `span`, carrying message `msg`.
pub open spec fn is_runtime_panic(e: GustError, c: RuntimeErrorCode, msg: Seq<char>, span: Span) -> bool {
    e matches GustError::RuntimePanic { code, message, start, end, filename, line, col } && code == c
        && message@ == msg && start == span.start && end == span.end && filename@ == span.filename@
        && line == span.line && col == span.col
}

impl GustError {
    /// A parse error at `span`, without the source line.
    pub fn parse(code: ParseErrorCode, msg: String, span: &Span) -> (e: Self)
        ensures
            e matches GustError::ParseError { code: c, message, start, end, filename, line, col, source_line }
                && c == code && message@ == msg@ && start == span.start && end == span.end
                && filename@ == span.filename@ && line == span.line && col == span.col
                && source_line is None,
    {
        GustError::ParseError {
            code,
            message: msg,
            start: span.start,
            end: span.end,
            filename: span.filename.clone(),
            line: span.line,
            col: span.col,
            source_line: None,
        }
    }

    /// A type error at `span`.
    pub fn type_error(code: TypeErrorCode, msg: String, span: &Span) -> (e: Self)
        ensures
            e matches GustError::TypeError { code: c, message, start, end, filename, line, col }
                && c == code && message@ == msg@ && start == span.start && end == span.end
                && filename@ == span.filename@ && line == span.line && col == span.col,
    {
        GustError::TypeError {
            code,
            message: msg,
            start: span.start,
            end: span.end,
            filename: span.filename.clone(),
            line: span.line,
            col: span.col,
        }
    }

    /// A runtime panic at `span`.
    pub fn panic(code: RuntimeErrorCode, msg: String, span: &Span) -> (e: Self)
        ensures
            e matches GustError::RuntimePanic { code: c, message, start, end, filename, line, col }
                && c == code && message@ == msg@ && start == span.start && end == span.end
                && filename@ == span.filename@ && line == span.line && col == span.col,
    {
        GustError::RuntimePanic {
            code,
            message: msg,
            start: span.start,
            end: span.end,
            filename: span.filename.clone(),
            line: span.line,
            col: span.col,
        }
    }

    /// Interpreter bug — the typechecker should have prevented this state.
    pub fn internal(msg: String) -> (e: Self)
        ensures
            e matches GustError::Internal { code, message } && code == InternalErrorCode::I0001
                && message@ == msg@,
    {
        GustError::Internal { code: InternalErrorCode::I0001, message: msg }
    }

    /// Feature not yet implemented in this version of the interpreter.
    pub fn not_implemented(msg: String) -> (e: Self)
        ensures
            e matches GustError::Internal { code, message } && code == InternalErrorCode::I0002
                && message@ == msg@,
    {
        GustError::Internal { code: InternalErrorCode::I0002, message: msg }
    }
}

// ── Rendering ────────────────────────────────────────────────────────────────

/// The name of a parse error code, as written in messages.
pub open spec fn parse_code_text(c: ParseErrorCode) -> Seq<char> {
    match c {
        ParseErrorCode::P0001 => "P0001"@,
        ParseErrorCode::P0002 => "P0002"@,
        ParseErrorCode::P0003 => "P0003"@,
    }
}

/// The name of a type error code, as written in messages.
pub open spec fn type_code_text(c: TypeErrorCode) -> Seq<char> {
    match c {
        TypeErrorCode::T0001 => "T0001"@,
        TypeErrorCode::T0002 => "T0002"@,
        TypeErrorCode::T0003 => "T0003"@,
        TypeErrorCode::T0004 => "T0004"@,
        TypeErrorCode::T0005 => "T0005"@,
        TypeErrorCode::T0006 => "T0006"@,
        TypeErrorCode::T0007 => "T0007"@,
        TypeErrorCode::T0008 => "T0008"@,
        TypeErrorCode::T0009 => "T0009"@,
        TypeErrorCode::T0010 => "T0010"@,
        TypeErrorCode::T0011 => "T0011"@,
    }
}

/// The name of a runtime error code, as written in messages.
pub open spec fn runtime_code_text(c: RuntimeErrorCode) -> Seq<char> {
    match c {
        RuntimeErrorCode::R0001 => "R0001"@,
        RuntimeErrorCode::R0002 => "R0002"@,
        RuntimeErrorCode::R0003 => "R0003"@,
        RuntimeErrorCode::R0004 => "R0004"@,
        RuntimeErrorCode::R0005 => "R0005"@,
        RuntimeErrorCode::R0006 => "R0006"@,
        RuntimeErrorCode::R0007 => "R0007"@,
        RuntimeErrorCode::R0008 => "R0008"@,
        RuntimeErrorCode::R0009 => "R0009"@,
        RuntimeErrorCode::R0010 => "R0010"@,
        RuntimeErrorCode::R0011 => "R0011"@,
        RuntimeErrorCode::R0012 => "R0012"@,
        RuntimeErrorCode::R0013 => "R0013"@,
    }
}

/// The name of an internal error code, as written in messages.
pub open spec fn internal_code_text(c: InternalErrorCode) -> Seq<char> {
    match c {
        InternalErrorCode::I0001 => "I0001"@,
        InternalErrorCode::I0002 => "I0002"@,
    }
}

/// `file:line:col`.
pub open spec fn place_text(filename: Seq<char>, line: u32, col: u32) -> Seq<char> {
    filename + ":"@ + decimal(line as nat) + ":"@ + decimal(col as nat)
}

/// How an error is shown to the user: its code in brackets, the phase, the
/// place (and, for a parse error, the source line when known) and the message.
pub open spec fn error_text(e: GustError) -> Seq<char> {
    match e {
        GustError::ParseError { code, message, filename, line, col, source_line, .. } => match source_line {
            None => "["@ + parse_code_text(code) + "] parse error in "@ + place_text(filename@, line, col) + ": "@ + message@,
            Some(src) => "["@ + parse_code_text(code) + "] parse error in "@ + place_text(filename@, line, col) + " (`"@
                + src@ + "`)"@ + ": "@ + message@,
        },
        GustError::TypeError { code, message, filename, line, col, .. } => "["@ + type_code_text(code) + "] type error in "@
            + place_text(filename@, line, col) + ": "@ + message@,
        GustError::RuntimePanic { code, message, filename, line, col, .. } => "["@ + runtime_code_text(code)
            + "] runtime error in "@ + place_text(filename@, line, col) + ": "@ + message@,
        GustError::Internal { code, message } => "["@ + internal_code_text(code) + "] internal error: "@ + message@,
    }
}

fn parse_code_str(c: ParseErrorCode) -> (s: &'static str)
    ensures
        s@ == parse_code_text(c),
{
    match c {
        ParseErrorCode::P0001 => "P0001",
        ParseErrorCode::P0002 => "P0002",
        ParseErrorCode::P0003 => "P0003",
    }
}

fn type_code_str(c: TypeErrorCode) -> (s: &'static str)
    ensures
        s@ == type_code_text(c),
{
    match c {
        TypeErrorCode::T0001 => "T0001",
        TypeErrorCode::T0002 => "T0002",
        TypeErrorCode::T0003 => "T0003",
        TypeErrorCode::T0004 => "T0004",
        TypeErrorCode::T0005 => "T0005",
        TypeErrorCode::T0006 => "T0006",
        TypeErrorCode::T0007 => "T0007",
        TypeErrorCode::T0008 => "T0008",
        TypeErrorCode::T0009 => "T0009",
        TypeErrorCode::T0010 => "T0010",
        TypeErrorCode::T0011 => "T0011",
    }
}

fn runtime_code_str(c: RuntimeErrorCode) -> (s: &'static str)
    ensures
        s@ == runtime_code_text(c),
{
    match c {
        RuntimeErrorCode::R0001 => "R0001",
        RuntimeErrorCode::R0002 => "R0002",
        RuntimeErrorCode::R0003 => "R0003",
        RuntimeErrorCode::R0004 => "R0004",
        RuntimeErrorCode::R0005 => "R0005",
        RuntimeErrorCode::R0006 => "R0006",
        RuntimeErrorCode::R0007 => "R0007",
        RuntimeErrorCode::R0008 => "R0008",
        RuntimeErrorCode::R0009 => "R0009",
        RuntimeErrorCode::R0010 => "R0010",
        RuntimeErrorCode::R0011 => "R0011",
        RuntimeErrorCode::R0012 => "R0012",
        RuntimeErrorCode::R0013 => "R0013",
    }
}

fn internal_code_str(c: InternalErrorCode) -> (s: &'static str)
    ensures
        s@ == internal_code_text(c),
{
    match c {
        InternalErrorCode::I0001 => "I0001",
        InternalErrorCode::I0002 => "I0002",
    }
}

fn push_place(out: &mut String, filename: &String, line: u32, col: u32)
    ensures
        final(out)@ == old(out)@ + place_text(filename@, line, col),
{
    push_str(out, filename.as_str());
    push_str(out, ":");
    push_decimal(out, line as u64);
    push_str(out, ":");
    push_decimal(out, col as u64);
}

impl GustError {
    /// The error as shown to the user (see [`error_text`]).
    pub fn to_display_string(&self) -> (s: String)
        ensures
            s@ == error_text(*self),
    {
        let mut out = String::new();
        match self {
            GustError::ParseError { code, message, filename, line, col, source_line, .. } => {
                push_str(&mut out, "[");
                push_str(&mut out, parse_code_str(*code));
                push_str(&mut out, "] parse error in ");
                push_place(&mut out, filename, *line, *col);
                match source_line {
                    Some(src) => {
                        push_str(&mut out, " (`");
                        push_str(&mut out, src.as_str());
                        push_str(&mut out, "`)");
                    },
                    None => {},
                }
                push_str(&mut out, ": ");
                push_str(&mut out, message.as_str());
            },
            GustError::TypeError { code, message, filename, line, col, .. } => {
                push_str(&mut out, "[");
                push_str(&mut out, type_code_str(*code));
                push_str(&mut out, "] type error in ");
                push_place(&mut out, filename, *line, *col);
                push_str(&mut out, ": ");
                push_str(&mut out, message.as_str());
            },
            GustError::RuntimePanic { code, message, filename, line, col, .. } => {
                push_str(&mut out, "[");
                push_str(&mut out, runtime_code_str(*code));
                push_str(&mut out, "] runtime error in ");
                push_place(&mut out, filename, *line, *col);
                push_str(&mut out, ": ");
                push_str(&mut out, message.as_str());
            },
            GustError::Internal { code, message } => {
                push_str(&mut out, "[");
                push_str(&mut out, internal_code_str(*code));
                push_str(&mut out, "] internal error: ");
                push_str(&mut out, message.as_str());
            },
        }
        proof {
            reveal_strlit("[");
            reveal_strlit("] parse error in ");
            reveal_strlit(" (`");
            reveal_strlit("`)");
            reveal_strlit(": ");
            reveal_strlit("] type error in ");
            reveal_strlit("] runtime error in ");
            reveal_strlit("] internal error: ");
        }
        assert(out@ =~= error_text(*self));
        out
    }
}

} // verus!
