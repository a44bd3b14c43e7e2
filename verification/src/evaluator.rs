//! Pieces of evaluation: the keys under which the methods of impl blocks
//! are stored, binary operations and compound assignments on integer,
//! boolean and string values, the pure built-in functions, and the scoped
//! run-time environment.

use vstd::prelude::*;

use crate::ast::{AssignOp, BinOp, Literal, Pattern, Span, TypeExpr, TypeExprView};
use crate::error::{GustError, RuntimeErrorCode, is_internal, is_runtime_panic};
use crate::strmap::StrMap;
use crate::text::{debug_str, decimal, push_decimal, push_signed, push_str, signed_decimal, str_debug, str_eq};
use crate::typeinference::context::{find_scoped, lemma_find_scoped_prefix};

verus! {

broadcast use vstd::string::group_string_axioms;

/// The key of method `method` of an impl for `owner`: `Owner::method`,
/// except that `from` of an `impl From<Src>` is keyed `Owner::From<Src>::from`,
/// so that several `From` impls for one type can coexist.
pub open spec fn impl_method_key_spec(
    owner: Seq<char>,
    method: Seq<char>,
    aspect: Option<Seq<char>>,
    aspect_args: Seq<TypeExprView>,
) -> Seq<char> {
    if aspect == Some("From"@) && method == "from"@ && aspect_args.len() > 0 && aspect_args[0] is Named {
        owner + "::From<"@ + aspect_args[0]->Named_0 + ">::from"@
    } else {
        owner + "::"@ + method
    }
}

/// The key of an impl method (see [`impl_method_key_spec`]); the impl is
/// given by its aspect's name and type arguments.
pub fn impl_method_key(
    owner_name: &str,
    method_name: &str,
    aspect_name: &Option<String>,
    aspect_type_args: &Vec<TypeExpr>,
) -> (r: String)
    ensures
        r@ == impl_method_key_spec(
            owner_name@,
            method_name@,
            match aspect_name {
                Some(a) => Some(a@),
                None => None,
            },
            crate::ast::type_exprs_model(aspect_type_args@),
        ),
{
    proof {
        crate::ast::lemma_type_exprs_model(aspect_type_args@);
    }
    let is_from = match aspect_name {
        Some(a) => str_eq(a.as_str(), "From"),
        None => false,
    };
    if is_from && str_eq(method_name, "from") && aspect_type_args.len() > 0 {
        if let TypeExpr::Named(src, _) = &aspect_type_args[0] {
            let mut out = String::new();
            push_str(&mut out, owner_name);
            push_str(&mut out, "::From<");
            push_str(&mut out, src.as_str());
            push_str(&mut out, ">::from");
            return out;
        }
    }
    let mut out = String::new();
    push_str(&mut out, owner_name);
    push_str(&mut out, "::");
    push_str(&mut out, method_name);
    out
}

// ── Binary operations on scalar values ───────────────────────────────────────

/// A run-time value of a scalar type, as binary operations read it.
/// Floating-point values are not among them.
#[derive(Debug)]
pub enum ScalarValue {
    Int(i64),
    Bool(bool),
    Str(String),
}

/// The value of a binary operation on scalars: an integer, a boolean, or a
/// range (`Range`, or `RangeInclusive` when `inclusive`) from `start` to `end`.
#[derive(Debug, PartialEq, Eq, Structural)]
pub enum BinopValue {
    Int(i64),
    Bool(bool),
    Range { inclusive: bool, start: i64, end: i64 },
}

/// What a binary operation on scalars comes to.
pub enum BinopOutcome {
    Value(BinopValue),
    DivisionByZero,
    RemainderByZero,
    Unsupported,
}

/// Integer division rounding toward zero.
pub open spec fn trunc_div(x: int, d: int) -> int {
    let q = abs_int(x) / abs_int(d);
    if (x < 0) != (d < 0) { -q } else { q }
}

/// The remainder of [`trunc_div`]: it takes the sign of the dividend.
pub open spec fn trunc_rem(x: int, d: int) -> int {
    let r = abs_int(x) % abs_int(d);
    if x < 0 { -r } else { r }
}

pub open spec fn abs_int(x: int) -> int {
    if x < 0 { -x } else { x }
}

/// The result of `op` on two scalars, for inputs on which no arithmetic
/// overflows: integer arithmetic (division by zero is an error, and
/// division and remainder round toward zero), integer comparisons, `==`
/// and `!=` on booleans and on strings, and integer ranges. Every other
/// combination is unsupported.
pub open spec fn binop_outcome(op: BinOp, l: ScalarValue, r: ScalarValue) -> BinopOutcome {
    match (l, r) {
        (ScalarValue::Int(a), ScalarValue::Int(b)) => match op {
            BinOp::Add => BinopOutcome::Value(BinopValue::Int((a + b) as i64)),
            BinOp::Sub => BinopOutcome::Value(BinopValue::Int((a - b) as i64)),
            BinOp::Mul => BinopOutcome::Value(BinopValue::Int((a * b) as i64)),
            BinOp::Div => if b == 0 {
                BinopOutcome::DivisionByZero
            } else {
                BinopOutcome::Value(BinopValue::Int(trunc_div(a as int, b as int) as i64))
            },
            BinOp::Rem => if b == 0 {
                BinopOutcome::RemainderByZero
            } else {
                BinopOutcome::Value(BinopValue::Int(trunc_rem(a as int, b as int) as i64))
            },
            BinOp::Eq => BinopOutcome::Value(BinopValue::Bool(a == b)),
            BinOp::Ne => BinopOutcome::Value(BinopValue::Bool(a != b)),
            BinOp::Lt => BinopOutcome::Value(BinopValue::Bool(a < b)),
            BinOp::Le => BinopOutcome::Value(BinopValue::Bool(a <= b)),
            BinOp::Gt => BinopOutcome::Value(BinopValue::Bool(a > b)),
            BinOp::Ge => BinopOutcome::Value(BinopValue::Bool(a >= b)),
            BinOp::Range => BinopOutcome::Value(BinopValue::Range { inclusive: false, start: a, end: b }),
            BinOp::RangeInclusive => BinopOutcome::Value(BinopValue::Range { inclusive: true, start: a, end: b }),
            _ => BinopOutcome::Unsupported,
        },
        (ScalarValue::Bool(a), ScalarValue::Bool(b)) => match op {
            BinOp::Eq => BinopOutcome::Value(BinopValue::Bool(a == b)),
            BinOp::Ne => BinopOutcome::Value(BinopValue::Bool(a != b)),
            _ => BinopOutcome::Unsupported,
        },
        (ScalarValue::Str(a), ScalarValue::Str(b)) => match op {
            BinOp::Eq => BinopOutcome::Value(BinopValue::Bool(a@ == b@)),
            BinOp::Ne => BinopOutcome::Value(BinopValue::Bool(a@ != b@)),
            _ => BinopOutcome::Unsupported,
        },
        _ => BinopOutcome::Unsupported,
    }
}

/// The integer operations of `op` on `l` and `r` stay within `i64`.
pub open spec fn binop_in_range(op: BinOp, l: ScalarValue, r: ScalarValue) -> bool {
    match (l, r) {
        (ScalarValue::Int(a), ScalarValue::Int(b)) => match op {
            BinOp::Add => i64::MIN <= a + b <= i64::MAX,
            BinOp::Sub => i64::MIN <= a - b <= i64::MAX,
            BinOp::Mul => i64::MIN <= a * b <= i64::MAX,
            BinOp::Div | BinOp::Rem => !(a == i64::MIN && b == -1),
            _ => true,
        },
        _ => true,
    }
}

/// How a scalar is written in diagnostics (its `Debug` form).
pub open spec fn scalar_debug(v: ScalarValue) -> Seq<char> {
    match v {
        ScalarValue::Int(n) => "Int("@ + signed_decimal(n as int) + ")"@,
        ScalarValue::Bool(b) => if b { "Bool(true)"@ } else { "Bool(false)"@ },
        ScalarValue::Str(s) => "Str("@ + str_debug(s@) + ")"@,
    }
}

/// The message of the internal error for operands no operation accepts.
pub open spec fn unsupported_text(l: ScalarValue, r: ScalarValue) -> Seq<char> {
    "binop: unsupported operand types ("@ + scalar_debug(l) + ", "@ + scalar_debug(r)
        + ") (typechecker should have caught this)"@
}

/// `r` is what `op` on `l` and `r` evaluates to (see [`binop_outcome`]):
/// its value, `R0007` at `span` for a zero divisor, or an internal error
/// naming both operands.
pub open spec fn binop_result_is(
    res: Result<BinopValue, GustError>,
    op: BinOp,
    l: ScalarValue,
    r: ScalarValue,
    span: Span,
) -> bool {
    match binop_outcome(op, l, r) {
        BinopOutcome::Value(v) => res == Ok::<BinopValue, GustError>(v),
        BinopOutcome::DivisionByZero => res matches Err(e) && is_runtime_panic(
            e,
            RuntimeErrorCode::R0007,
            "division by zero"@,
            span,
        ),
        BinopOutcome::RemainderByZero => res matches Err(e) && is_runtime_panic(
            e,
            RuntimeErrorCode::R0007,
            "remainder by zero"@,
            span,
        ),
        BinopOutcome::Unsupported => res matches Err(e) && is_internal(e, unsupported_text(l, r)),
    }
}

fn write_scalar(v: &ScalarValue, out: &mut String)
    ensures
        final(out)@ == old(out)@ + scalar_debug(*v),
{
    match v {
        ScalarValue::Int(n) => {
            push_str(out, "Int(");
            push_signed(out, *n);
            push_str(out, ")");
        },
        ScalarValue::Bool(b) => {
            if *b {
                push_str(out, "Bool(true)");
            } else {
                push_str(out, "Bool(false)");
            }
        },
        ScalarValue::Str(s) => {
            push_str(out, "Str(");
            let d = debug_str(s.as_str());
            push_str(out, d.as_str());
            push_str(out, ")");
        },
    }
    assert(final(out)@ =~= old(out)@ + scalar_debug(*v));
}

fn unsupported(lv: &ScalarValue, rv: &ScalarValue) -> (e: GustError)
    ensures
        is_internal(e, unsupported_text(*lv, *rv)),
{
    let mut msg = String::new();
    push_str(&mut msg, "binop: unsupported operand types (");
    write_scalar(lv, &mut msg);
    push_str(&mut msg, ", ");
    write_scalar(rv, &mut msg);
    push_str(&mut msg, ") (typechecker should have caught this)");
    assert(msg@ =~= unsupported_text(*lv, *rv));
    GustError::internal(msg)
}

proof fn lemma_div_bounds(n: int, m: int)
    requires
        n >= 0,
        m >= 1,
    ensures
        0 <= n / m <= n,
        0 <= n % m < m,
        m >= 2 ==> 2 * (n / m) <= n,
        n == 0 ==> n / m == 0 && n % m == 0,
{
    assert(0 <= n / m <= n) by (nonlinear_arith)
        requires n >= 0, m >= 1;
    assert(0 <= n % m < m) by (nonlinear_arith)
        requires n >= 0, m >= 1;
    assert(m >= 2 ==> 2 * (n / m) <= n) by (nonlinear_arith)
        requires n >= 0, m >= 1;
    assert(n == 0 ==> n / m == 0 && n % m == 0) by (nonlinear_arith)
        requires n >= 0, m >= 1;
}

/// std's checked division and remainder of `i64` round toward zero, and
/// fail only for a zero divisor or the one overflowing quotient.
proof fn lemma_trunc_div(a: i64, b: i64)
    requires
        b != 0,
        !(a == i64::MIN && b == -1),
    ensures
        a.checked_div(b) == Some(trunc_div(a as int, b as int) as i64),
        a.checked_rem(b) == Some(trunc_rem(a as int, b as int) as i64),
        i64::MIN <= trunc_div(a as int, b as int) <= i64::MAX,
        i64::MIN <= trunc_rem(a as int, b as int) <= i64::MAX,
{
    let x = a as int;
    let d = b as int;
    lemma_div_bounds(abs_int(x), abs_int(d));
    if x < 0 {
        assert(x * -1 == abs_int(x));
    }
    if d < 0 {
        assert(d * -1 == abs_int(d));
    }
}

/// Evaluate `op` on two scalar operands (see [`binop_result_is`]).
pub fn eval_binop(op: &BinOp, lv: ScalarValue, rv: ScalarValue, span: &Span) -> (r: Result<BinopValue, GustError>)
    requires
        binop_in_range(*op, lv, rv),
    ensures
        binop_result_is(r, *op, lv, rv, *span),
{
    match (&lv, &rv) {
        (ScalarValue::Int(a), ScalarValue::Int(b)) => {
            let (a, b) = (*a, *b);
            match op {
                BinOp::Add => Ok(BinopValue::Int(a + b)),
                BinOp::Sub => Ok(BinopValue::Int(a - b)),
                BinOp::Mul => Ok(BinopValue::Int(a * b)),
                BinOp::Div => {
                    if b == 0 {
                        return Err(GustError::panic(RuntimeErrorCode::R0007, "division by zero".to_string(), span));
                    }
                    proof { lemma_trunc_div(a, b); }
                    Ok(BinopValue::Int(a.checked_div(b).unwrap()))
                },
                BinOp::Rem => {
                    if b == 0 {
                        return Err(GustError::panic(RuntimeErrorCode::R0007, "remainder by zero".to_string(), span));
                    }
                    proof { lemma_trunc_div(a, b); }
                    Ok(BinopValue::Int(a.checked_rem(b).unwrap()))
                },
                BinOp::Eq => Ok(BinopValue::Bool(a == b)),
                BinOp::Ne => Ok(BinopValue::Bool(a != b)),
                BinOp::Lt => Ok(BinopValue::Bool(a < b)),
                BinOp::Le => Ok(BinopValue::Bool(a <= b)),
                BinOp::Gt => Ok(BinopValue::Bool(a > b)),
                BinOp::Ge => Ok(BinopValue::Bool(a >= b)),
                BinOp::Range => Ok(BinopValue::Range { inclusive: false, start: a, end: b }),
                BinOp::RangeInclusive => Ok(BinopValue::Range { inclusive: true, start: a, end: b }),
                _ => Err(unsupported(&lv, &rv)),
            }
        },
        (ScalarValue::Bool(a), ScalarValue::Bool(b)) => match op {
            BinOp::Eq => Ok(BinopValue::Bool(*a == *b)),
            BinOp::Ne => Ok(BinopValue::Bool(*a != *b)),
            _ => Err(unsupported(&lv, &rv)),
        },
        (ScalarValue::Str(a), ScalarValue::Str(b)) => match op {
            BinOp::Eq => Ok(BinopValue::Bool(str_eq(a.as_str(), b.as_str()))),
            BinOp::Ne => Ok(BinopValue::Bool(!str_eq(a.as_str(), b.as_str()))),
            _ => Err(unsupported(&lv, &rv)),
        },
        _ => Err(unsupported(&lv, &rv)),
    }
}

/// The operation a compound assignment applies.
pub open spec fn assign_binop(op: AssignOp) -> BinOp {
    match op {
        AssignOp::AddAssign => BinOp::Add,
        AssignOp::SubAssign => BinOp::Sub,
        AssignOp::MulAssign => BinOp::Mul,
        AssignOp::DivAssign => BinOp::Div,
        _ => BinOp::Rem,
    }
}

/// The new value of a compound assignment `cur op= rhs`: the value of the
/// matching binary operation (see [`assign_binop`]). A plain assignment is
/// not a compound one.
pub fn apply_assign_op(op: &AssignOp, cur: ScalarValue, rhs: ScalarValue, span: &Span) -> (r: Result<BinopValue, GustError>)
    requires
        *op != AssignOp::Assign,
        binop_in_range(assign_binop(*op), cur, rhs),
    ensures
        binop_result_is(r, assign_binop(*op), cur, rhs, *span),
{
    let bin = match op {
        AssignOp::AddAssign => BinOp::Add,
        AssignOp::SubAssign => BinOp::Sub,
        AssignOp::MulAssign => BinOp::Mul,
        AssignOp::DivAssign => BinOp::Div,
        _ => BinOp::Rem,
    };
    eval_binop(&bin, cur, rhs, span)
}

/// How `print` shows a scalar: an integer in decimal, a boolean as `true`
/// or `false`, a string as its text.
pub open spec fn display_text(v: ScalarValue) -> Seq<char> {
    match v {
        ScalarValue::Int(n) => signed_decimal(n as int),
        ScalarValue::Bool(b) => if b { "true"@ } else { "false"@ },
        ScalarValue::Str(s) => s@,
    }
}

/// How a scalar is shown in a rendered value: as [`display_text`], except
/// that a string is quoted and escaped as `Debug` writes it.
pub open spec fn format_text(v: ScalarValue) -> Seq<char> {
    match v {
        ScalarValue::Str(s) => str_debug(s@),
        _ => display_text(v),
    }
}

/// The text `print` shows for a scalar (see [`display_text`]).
pub fn value_to_display_string(v: &ScalarValue) -> (r: String)
    ensures
        r@ == display_text(*v),
{
    let mut out = String::new();
    match v {
        ScalarValue::Int(n) => push_signed(&mut out, *n),
        ScalarValue::Bool(b) => push_str(&mut out, if *b { "true" } else { "false" }),
        ScalarValue::Str(s) => push_str(&mut out, s.as_str()),
    }
    assert(out@ =~= display_text(*v));
    out
}

/// The rendering of a scalar inside a value (see [`format_text`]).
pub fn format_value(v: &ScalarValue) -> (r: String)
    ensures
        r@ == format_text(*v),
{
    match v {
        ScalarValue::Str(s) => debug_str(s.as_str()),
        _ => value_to_display_string(v),
    }
}

// ── Pure built-in functions ──────────────────────────────────────────────────

/// A run-time value as the pure built-in functions and the steps of
/// evaluation below read it: the integers, booleans, strings and unit of the
/// language, its tuples, arrays and integer ranges (up to `end`, or through
/// it when `inclusive`), `Perhaps` and `Result` values, values of user
/// enums (a variant with its named fields), and (as `Other`) every value
/// that none of them looks into, floating-point numbers among them.
#[derive(Debug)]
pub enum RtValue {
    Int(i64),
    Bool(bool),
    Str(String),
    Unit,
    Tuple(Vec<RtValue>),
    Array(Vec<RtValue>),
    Range { inclusive: bool, start: i64, end: i64 },
    Perhaps(Option<Box<RtValue>>),
    ResultOk(Box<RtValue>),
    ResultErr(Box<RtValue>),
    Enum { name: String, variant: String, fields: Vec<(String, RtValue)> },
    Other,
}

/// `string_len(s)`: the number of characters of `s`.
pub fn builtin_string_len(args: &Vec<RtValue>) -> (r: Result<RtValue, GustError>)
    ensures
        match if args.len() > 0 { Some(args@[0]) } else { None } {
            Some(RtValue::Str(s)) => r matches Ok(RtValue::Int(n)) && n == s@.len() as i64,
            _ => r matches Err(e) && is_internal(e, "string_len: expected String argument"@),
        },
{
    if args.len() > 0 {
        if let RtValue::Str(s) = &args[0] {
            let n = s.as_str().unicode_len();
            return Ok(RtValue::Int(n as i64));
        }
    }
    Err(GustError::internal(String::from_str("string_len: expected String argument")))
}

/// `string_concat(a, b)`: `a` followed by `b`.
pub fn builtin_string_concat(args: &Vec<RtValue>) -> (r: Result<RtValue, GustError>)
    ensures
        (args.len() > 1 && args@[0] is Str && args@[1] is Str) ==> (r matches Ok(RtValue::Str(c))
            && c@ == args@[0]->Str_0@ + args@[1]->Str_0@),
        !(args.len() > 1 && args@[0] is Str && args@[1] is Str) ==> (r matches Err(e) && is_internal(
            e,
            "string_concat: expected two String arguments"@,
        )),
{
    if args.len() > 1 {
        if let RtValue::Str(a) = &args[0] {
            if let RtValue::Str(b) = &args[1] {
                let mut c = String::new();
                push_str(&mut c, a.as_str());
                push_str(&mut c, b.as_str());
                return Ok(RtValue::Str(c));
            }
        }
    }
    Err(GustError::internal(String::from_str("string_concat: expected two String arguments")))
}

/// `array_len(a)`: the number of elements of `a`.
pub fn builtin_array_len(args: &Vec<RtValue>) -> (r: Result<RtValue, GustError>)
    ensures
        match if args.len() > 0 { Some(args@[0]) } else { None } {
            Some(RtValue::Array(a)) => r matches Ok(RtValue::Int(n)) && n == a.len() as i64,
            _ => r matches Err(e) && is_internal(e, "array_len: expected Array argument"@),
        },
{
    if args.len() > 0 {
        if let RtValue::Array(a) = &args[0] {
            return Ok(RtValue::Int(a.len() as i64));
        }
    }
    Err(GustError::internal(String::from_str("array_len: expected Array argument")))
}

/// `array_push(a, v)`: unit, with `a` grown by `v` (returned as the array's
/// new contents, which the caller stores back where `a` lives). Arguments
/// past the second are ignored.
pub fn builtin_array_push(args: Vec<RtValue>) -> (r: Result<(RtValue, Vec<RtValue>), GustError>)
    ensures
        args.len() > 1 && args@[0] is Array ==> (r matches Ok((u, a)) && u is Unit
            && a@ == args@[0]->Array_0@.push(args@[1])),
        args.len() > 0 && args@[0] is Array && args.len() < 2 ==> (r matches Err(e) && is_internal(
            e,
            "array_push: missing value argument"@,
        )),
        !(args.len() > 0 && args@[0] is Array) ==> (r matches Err(e) && is_internal(
            e,
            "array_push: expected Array as first argument"@,
        )),
{
    let mut args = args;
    if args.len() == 0 || !matches!(args[0], RtValue::Array(_)) {
        return Err(GustError::internal(String::from_str("array_push: expected Array as first argument")));
    }
    if args.len() < 2 {
        return Err(GustError::internal(String::from_str("array_push: missing value argument")));
    }
    let v = args.remove(1);
    let first = args.remove(0);
    match first {
        RtValue::Array(mut a) => {
            a.push(v);
            Ok((RtValue::Unit, a))
        },
        _ => Err(GustError::internal(String::from_str("array_push: expected Array as first argument"))),
    }
}

/// `assert(c)`: unit when `c` holds; a run-time panic `R0013` ("assertion
/// failed") when it does not.
pub fn builtin_assert(args: &Vec<RtValue>, span: &Span) -> (r: Result<RtValue, GustError>)
    ensures
        match if args.len() > 0 { Some(args@[0]) } else { None } {
            Some(RtValue::Bool(true)) => r matches Ok(RtValue::Unit),
            Some(RtValue::Bool(false)) => r matches Err(e) && is_runtime_panic(
                e,
                RuntimeErrorCode::R0013,
                "assertion failed"@,
                *span,
            ),
            _ => r matches Err(e) && is_internal(e, "assert: expected Bool argument"@),
        },
{
    if args.len() > 0 {
        match &args[0] {
            RtValue::Bool(true) => return Ok(RtValue::Unit),
            RtValue::Bool(false) => {
                return Err(GustError::panic(RuntimeErrorCode::R0013, String::from_str("assertion failed"), span));
            },
            _ => {},
        }
    }
    Err(GustError::internal(String::from_str("assert: expected Bool argument")))
}

/// `assert_msg(c, m)`: unit when `c` holds; when it does not, a run-time
/// panic `R0013` with message `m` (or "assertion failed" when `m` is not a
/// string).
pub fn builtin_assert_msg(args: &Vec<RtValue>, span: &Span) -> (r: Result<RtValue, GustError>)
    ensures
        match if args.len() > 0 { Some(args@[0]) } else { None } {
            Some(RtValue::Bool(true)) => r matches Ok(RtValue::Unit),
            Some(RtValue::Bool(false)) => r matches Err(e) && is_runtime_panic(
                e,
                RuntimeErrorCode::R0013,
                if args.len() > 1 && args@[1] is Str { args@[1]->Str_0@ } else { "assertion failed"@ },
                *span,
            ),
            _ => r matches Err(e) && is_internal(e, "assert_msg: expected (Bool, String) arguments"@),
        },
{
    if args.len() > 0 {
        match &args[0] {
            RtValue::Bool(true) => return Ok(RtValue::Unit),
            RtValue::Bool(false) => {
                if args.len() > 1 {
                    if let RtValue::Str(m) = &args[1] {
                        let mut msg = String::new();
                        push_str(&mut msg, m.as_str());
                        return Err(GustError::panic(RuntimeErrorCode::R0013, msg, span));
                    }
                }
                return Err(GustError::panic(RuntimeErrorCode::R0013, String::from_str("assertion failed"), span));
            },
            _ => {},
        }
    }
    Err(GustError::internal(String::from_str("assert_msg: expected (Bool, String) arguments")))
}

// ── Steps of evaluation on plain values ──────────────────────────────────────

/// The message of an array index out of bounds.
pub open spec fn index_text(i: i64, len: int) -> Seq<char> {
    "index "@ + signed_decimal(i as int) + " out of bounds (len "@ + signed_decimal(len) + ")"@
}

/// `arr[idx]`: the element at `idx` of an array; a run-time panic `R0004` at
/// `span` for an index outside it, and an internal error for anything but
/// an array indexed by an integer.
pub fn eval_index<'a>(arr: &'a RtValue, idx: &RtValue, span: &Span) -> (r: Result<&'a RtValue, GustError>)
    requires
        *arr matches RtValue::Array(a) ==> a.len() <= i64::MAX,
    ensures
        match (*arr, *idx) {
            (RtValue::Array(a), RtValue::Int(i)) => if 0 <= i < a.len() {
                r matches Ok(v) && *v == a@[i as int]
            } else {
                r matches Err(e) && is_runtime_panic(e, RuntimeErrorCode::R0004, index_text(i, a.len() as i64 as int), *span)
            },
            _ => r matches Err(e) && is_internal(e, "index: expected Array[Int]"@),
        },
{
    match (arr, idx) {
        (RtValue::Array(a), RtValue::Int(i)) => {
            let len = a.len() as i64;
            if *i < 0 || *i >= len {
                let mut msg = String::new();
                push_str(&mut msg, "index ");
                push_signed(&mut msg, *i);
                push_str(&mut msg, " out of bounds (len ");
                push_signed(&mut msg, len);
                push_str(&mut msg, ")");
                assert(msg@ =~= index_text(*i, len as int));
                Err(GustError::panic(RuntimeErrorCode::R0004, msg, span))
            } else {
                Ok(&a[*i as usize])
            }
        },
        _ => Err(GustError::internal(String::from_str("index: expected Array[Int]"))),
    }
}

/// The message of a tuple index out of bounds.
pub open spec fn tuple_index_text(index: usize) -> Seq<char> {
    "tuple index "@ + decimal(index as nat) + " out of bounds"@
}

/// `t.index`: the element at `index` of a tuple; a run-time panic `R0005`
/// at `span` past its end, and an internal error for anything but a tuple.
pub fn eval_tuple_access<'a>(v: &'a RtValue, index: usize, span: &Span) -> (r: Result<&'a RtValue, GustError>)
    ensures
        match *v {
            RtValue::Tuple(elems) => if index < elems.len() {
                r matches Ok(x) && *x == elems@[index as int]
            } else {
                r matches Err(e) && is_runtime_panic(e, RuntimeErrorCode::R0005, tuple_index_text(index), *span)
            },
            _ => r matches Err(e) && is_internal(e, "tuple access on non-tuple"@),
        },
{
    match v {
        RtValue::Tuple(elems) => {
            if index < elems.len() {
                Ok(&elems[index])
            } else {
                let mut msg = String::new();
                push_str(&mut msg, "tuple index ");
                push_decimal(&mut msg, index as u64);
                push_str(&mut msg, " out of bounds");
                assert(msg@ =~= tuple_index_text(index));
                Err(GustError::panic(RuntimeErrorCode::R0005, msg, span))
            }
        },
        _ => Err(GustError::internal(String::from_str("tuple access on non-tuple"))),
    }
}

/// The integers a range runs over, in order: from `start` up to `end`, and
/// `end` too when `inclusive`.
pub open spec fn range_ints(inclusive: bool, start: int, end: int) -> Seq<int> {
    let stop = if inclusive { end + 1 } else { end };
    Seq::new(if stop > start { (stop - start) as nat } else { 0 }, |k: int| start + k)
}

/// The items a `for`-in loop runs over: the elements of an array, or the
/// integers of a range (see [`range_ints`]); a run-time panic `R0011` at
/// `span` for any other value.
pub fn for_in_items(v: RtValue, span: &Span) -> (r: Result<Vec<RtValue>, GustError>)
    requires
        v matches RtValue::Range { inclusive, start, end } ==> range_ints(inclusive, start as int, end as int).len()
            <= usize::MAX,
    ensures
        match v {
            RtValue::Array(a) => r matches Ok(items) && items@ == a@,
            RtValue::Range { inclusive, start, end } => r matches Ok(items) && items.len() == range_ints(
                inclusive,
                start as int,
                end as int,
            ).len() && forall|k: int| 0 <= k < items.len() ==> #[trigger] items@[k] == RtValue::Int(
                range_ints(inclusive, start as int, end as int)[k] as i64,
            ),
            _ => r matches Err(e) && is_runtime_panic(e, RuntimeErrorCode::R0011, "for-in: expected Array or Range"@, *span),
        },
{
    match v {
        RtValue::Array(a) => Ok(a),
        RtValue::Range { inclusive, start, end } => {
            let ghost ints = range_ints(inclusive, start as int, end as int);
            let stop: i128 = if inclusive { end as i128 + 1 } else { end as i128 };
            let mut items: Vec<RtValue> = Vec::new();
            let mut k: i128 = start as i128;
            while k < stop
                invariant
                    start <= k,
                    k < stop ==> k <= end,
                    stop == if inclusive { end + 1 } else { end as int },
                    ints == range_ints(inclusive, start as int, end as int),
                    ints.len() <= usize::MAX,
                    items.len() == k - start,
                    k <= stop || k == start,
                    forall|j: int| 0 <= j < items.len() ==> #[trigger] items@[j] == RtValue::Int((start + j) as i64),
                decreases stop - k,
            {
                items.push(RtValue::Int(k as i64));
                k = k + 1;
            }
            assert(items.len() == ints.len());
            Ok(items)
        },
        _ => Err(GustError::panic(RuntimeErrorCode::R0011, String::from_str("for-in: expected Array or Range"), span)),
    }
}

// ── Control flow ─────────────────────────────────────────────────────────────

/// What evaluating an expression, a statement or a block signals: a value,
/// or one of the non-local exits (`return`, `break` with its value,
/// `continue`, and the error value that `?` propagates).
#[derive(Debug)]
pub enum Signal {
    Value(RtValue),
    Return(RtValue),
    Break(RtValue),
    Continue,
    PropagateErr(RtValue),
}

/// The loops of the language, as they end on `break`: a `loop` expression
/// takes the break's value, every other loop gives unit.
#[derive(Debug, PartialEq, Eq, Structural)]
pub enum LoopKind {
    LoopExpr,
    While,
    For,
    ForIn,
}

/// What a loop does after its body signals: run again, or finish with a
/// signal.
#[derive(Debug)]
pub enum LoopStep {
    Again,
    Finish(Signal),
}

/// What a loop does after its body signals `sig`: a value or `continue`
/// runs it again; `break` ends it (with the break's value for a `loop`
/// expression, with unit for the others); `return` and a propagated error
/// leave it as they are.
pub fn loop_body_step(kind: LoopKind, sig: Signal) -> (r: LoopStep)
    ensures
        match sig {
            Signal::Value(_) | Signal::Continue => r is Again,
            Signal::Break(v) => r matches LoopStep::Finish(Signal::Value(x)) && (if kind == LoopKind::LoopExpr {
                x == v
            } else {
                x is Unit
            }),
            Signal::Return(v) => r matches LoopStep::Finish(Signal::Return(x)) && x == v,
            Signal::PropagateErr(v) => r matches LoopStep::Finish(Signal::PropagateErr(x)) && x == v,
        },
{
    match sig {
        Signal::Value(_) | Signal::Continue => LoopStep::Again,
        Signal::Break(v) => match kind {
            LoopKind::LoopExpr => LoopStep::Finish(Signal::Value(v)),
            _ => LoopStep::Finish(Signal::Value(RtValue::Unit)),
        },
        Signal::Return(v) => LoopStep::Finish(Signal::Return(v)),
        Signal::PropagateErr(v) => LoopStep::Finish(Signal::PropagateErr(v)),
    }
}

/// `e?` on the value `v` of `e`: an `Ok` gives its payload, an `Err` leaves
/// the function with its error value, and anything else is a run-time
/// panic `R0012` at `span`.
pub fn propagate_step(v: RtValue, span: &Span) -> (r: Result<Signal, GustError>)
    ensures
        match v {
            RtValue::ResultOk(x) => r matches Ok(Signal::Value(y)) && y == *x,
            RtValue::ResultErr(x) => r matches Ok(Signal::PropagateErr(y)) && y == *x,
            _ => r matches Err(e) && is_runtime_panic(e, RuntimeErrorCode::R0012, "?: expected a Result value"@, *span),
        },
{
    match v {
        RtValue::ResultOk(x) => Ok(Signal::Value(*x)),
        RtValue::ResultErr(x) => Ok(Signal::PropagateErr(*x)),
        _ => Err(GustError::panic(RuntimeErrorCode::R0012, String::from_str("?: expected a Result value"), span)),
    }
}

/// Where a condition sends evaluation.
#[derive(Debug)]
pub enum Branch {
    /// The condition held.
    Taken,
    /// The condition failed.
    NotTaken,
    /// The condition itself exited (by `return`, `break`, `continue` or `?`).
    Exit(Signal),
}

/// The message of a condition that is not a boolean, in the construct `what`.
pub open spec fn condition_text(what: Seq<char>) -> Seq<char> {
    what + ": expected Bool condition"@
}

/// What the condition of an `if`, `while` or `for` (named by `what`) decides
/// when its evaluation signals `sig`: `true` and `false` take and skip the
/// branch, another value is an internal error, and a non-local exit leaves
/// the construct as it is.
pub fn condition_step(what: &str, sig: Signal) -> (r: Result<Branch, GustError>)
    ensures
        match sig {
            Signal::Value(RtValue::Bool(true)) => r matches Ok(Branch::Taken),
            Signal::Value(RtValue::Bool(false)) => r matches Ok(Branch::NotTaken),
            Signal::Value(_) => r matches Err(e) && is_internal(e, condition_text(what@)),
            _ => r matches Ok(Branch::Exit(x)) && x == sig,
        },
{
    match sig {
        Signal::Value(RtValue::Bool(b)) => if b {
            Ok(Branch::Taken)
        } else {
            Ok(Branch::NotTaken)
        },
        Signal::Value(_) => {
            let mut msg = String::new();
            push_str(&mut msg, what);
            push_str(&mut msg, ": expected Bool condition");
            Err(GustError::internal(msg))
        },
        other => Ok(Branch::Exit(other)),
    }
}

// ── Matching values against patterns ────────────────────────────────────────

/// A literal pattern matches a value: an equal integer, boolean or string,
/// unit, or `nope` against an empty `Perhaps`. (A floating-point literal
/// matches none of the values modelled here.)
pub open spec fn literal_matches(lit: Literal, v: RtValue) -> bool {
    match (lit, v) {
        (Literal::Int(a), RtValue::Int(b)) => a == b,
        (Literal::Bool(a), RtValue::Bool(b)) => a == b,
        (Literal::Str(a), RtValue::Str(b)) => a@ == b@,
        (Literal::Unit, RtValue::Unit) => true,
        (Literal::Nope, RtValue::Perhaps(None)) => true,
        _ => false,
    }
}

/// The index of the first field named `k`.
pub open spec fn first_entry(fs: Seq<(String, RtValue)>, k: Seq<char>) -> Option<int>
    decreases fs.len(),
{
    if fs.len() == 0 {
        None
    } else {
        match first_entry(fs.drop_last(), k) {
            Some(i) => Some(i),
            None => if fs.last().0@ == k { Some(fs.len() - 1) } else { None },
        }
    }
}

/// Each of `names`, in order, bound to the enum field of that name; `None`
/// when a name is not a field.
pub open spec fn field_bindings(names: Seq<String>, fs: Seq<(String, RtValue)>) -> Option<Seq<(Seq<char>, RtValue)>>
    decreases names.len(),
{
    if names.len() == 0 {
        Some(Seq::empty())
    } else {
        match (field_bindings(names.drop_last(), fs), first_entry(fs, names.last()@)) {
            (Some(bs), Some(i)) => Some(bs.push((names.last()@, fs[i].1))),
            _ => None,
        }
    }
}

/// The bindings of a payload pattern: its first field name, if any, bound
/// to the payload.
pub open spec fn payload_binding(fields: Seq<String>, x: RtValue) -> Seq<(Seq<char>, RtValue)> {
    if fields.len() > 0 { seq![(fields[0]@, x)] } else { Seq::empty() }
}

/// What matching value `v` against pattern `p` gives: the names it binds,
/// in order, with their values, or `None` when `v` does not match. `_`
/// matches anything, a name binds the value, `nope` matches an empty
/// `Perhaps`, a literal an equal value (see [`literal_matches`]), a tuple
/// pattern a tuple of as many elements matching element by element. A
/// variant pattern `T::V { .. }` matches `Perhaps::Some`, `Perhaps::None`,
/// `Result::Ok` and `Result::Err` values (binding the payload to its first
/// field name), and a user enum value of variant `V`, binding each field
/// name to that field (failing when the value has no such field).
pub open spec fn match_spec(p: Pattern, v: RtValue) -> Option<Seq<(Seq<char>, RtValue)>>
    decreases p, 0nat,
{
    match p {
        Pattern::Wildcard(_) => Some(Seq::empty()),
        Pattern::Nope(_) => if v matches RtValue::Perhaps(None) { Some(Seq::empty()) } else { None },
        Pattern::Literal(lit, _) => if literal_matches(lit, v) { Some(Seq::empty()) } else { None },
        Pattern::Binding(name, _) => Some(seq![(name@, v)]),
        Pattern::Tuple(ps, _) => match v {
            RtValue::Tuple(es) => if es.len() == ps.len() { match_seq(ps@, es@) } else { None },
            _ => None,
        },
        Pattern::EnumVariant { path, fields, .. } => {
            let t = if path.len() >= 2 { path@[path.len() - 2]@ } else { ""@ };
            let vn = if path.len() > 0 { path@[path.len() - 1]@ } else { ""@ };
            match v {
                RtValue::Perhaps(Some(x)) => if t == "Perhaps"@ && vn == "Some"@ {
                    Some(payload_binding(fields@, *x))
                } else {
                    None
                },
                RtValue::Perhaps(None) => if t == "Perhaps"@ && vn == "None"@ { Some(Seq::empty()) } else { None },
                RtValue::ResultOk(x) => if t == "Result"@ && vn == "Ok"@ { Some(payload_binding(fields@, *x)) } else { None },
                RtValue::ResultErr(x) => if t == "Result"@ && vn == "Err"@ {
                    Some(payload_binding(fields@, *x))
                } else {
                    None
                },
                RtValue::Enum { variant, fields: efs, .. } => if variant@ == vn {
                    field_bindings(fields@, efs@)
                } else {
                    None
                },
                _ => None,
            }
        },
    }
}

/// [`match_spec`] element by element, the bindings in order.
pub open spec fn match_seq(ps: Seq<Pattern>, es: Seq<RtValue>) -> Option<Seq<(Seq<char>, RtValue)>>
    decreases ps, 1nat,
{
    if ps.len() == 0 || es.len() < ps.len() {
        Some(Seq::empty())
    } else {
        match (match_seq(ps.drop_last(), es.take(ps.len() - 1)), match_spec(ps.last(), es[ps.len() - 1])) {
            (Some(a), Some(b)) => Some(a + b),
            _ => None,
        }
    }
}

/// The bindings a match produced, by name and value.
pub open spec fn bound(out: Seq<(String, &RtValue)>) -> Seq<(Seq<char>, RtValue)> {
    out.map_values(|b: (String, &RtValue)| (b.0@, *b.1))
}

/// Match `value` against `pattern` (see [`match_spec`]): the names bound, in
/// order, each with the part of `value` it names; `None` when it does not
/// match.
pub fn match_pattern<'a>(pattern: &Pattern, value: &'a RtValue) -> (r: Option<Vec<(String, &'a RtValue)>>)
    ensures
        match match_spec(*pattern, *value) {
            Some(bs) => r matches Some(out) && bound(out@) == bs,
            None => r is None,
        },
    decreases pattern, 0nat,
{
    match pattern {
        Pattern::Wildcard(_) => {
            let out: Vec<(String, &'a RtValue)> = Vec::new();
            assert(bound(out@) =~= Seq::<(Seq<char>, RtValue)>::empty());
            Some(out)
        },
        Pattern::Nope(_) => {
            if let RtValue::Perhaps(None) = value {
                let out: Vec<(String, &'a RtValue)> = Vec::new();
                assert(bound(out@) =~= Seq::<(Seq<char>, RtValue)>::empty());
                Some(out)
            } else {
                None
            }
        },
        Pattern::Literal(lit, _) => {
            let ok = match (lit, value) {
                (Literal::Int(a), RtValue::Int(b)) => *a == *b,
                (Literal::Bool(a), RtValue::Bool(b)) => *a == *b,
                (Literal::Str(a), RtValue::Str(b)) => str_eq(a.as_str(), b.as_str()),
                (Literal::Unit, RtValue::Unit) => true,
                (Literal::Nope, RtValue::Perhaps(None)) => true,
                _ => false,
            };
            if ok {
                let out: Vec<(String, &'a RtValue)> = Vec::new();
                assert(bound(out@) =~= Seq::<(Seq<char>, RtValue)>::empty());
                Some(out)
            } else {
                None
            }
        },
        Pattern::Binding(name, _) => {
            let mut out: Vec<(String, &'a RtValue)> = Vec::new();
            let mut n = String::new();
            push_str(&mut n, name.as_str());
            out.push((n, value));
            assert(bound(out@) =~= seq![(name@, *value)]);
            Some(out)
        },
        Pattern::Tuple(ps, _) => match value {
            RtValue::Tuple(es) => if es.len() == ps.len() {
                match_elements(ps, es)
            } else {
                None
            },
            _ => None,
        },
        Pattern::EnumVariant { path, fields, .. } => {
            let t: &str = if path.len() >= 2 { path[path.len() - 2].as_str() } else { "" };
            let vn: &str = if path.len() > 0 { path[path.len() - 1].as_str() } else { "" };
            proof {
                reveal_strlit("");
                reveal_strlit("Perhaps");
                reveal_strlit("Some");
                reveal_strlit("None");
                reveal_strlit("Result");
                reveal_strlit("Ok");
                reveal_strlit("Err");
            }
            match value {
                RtValue::Perhaps(Some(x)) => if str_eq(t, "Perhaps") && str_eq(vn, "Some") {
                    Some(payload(fields, &**x))
                } else {
                    None
                },
                RtValue::Perhaps(None) => if str_eq(t, "Perhaps") && str_eq(vn, "None") {
                    let out: Vec<(String, &'a RtValue)> = Vec::new();
                    assert(bound(out@) =~= Seq::<(Seq<char>, RtValue)>::empty());
                    Some(out)
                } else {
                    None
                },
                RtValue::ResultOk(x) => if str_eq(t, "Result") && str_eq(vn, "Ok") {
                    Some(payload(fields, &**x))
                } else {
                    None
                },
                RtValue::ResultErr(x) => if str_eq(t, "Result") && str_eq(vn, "Err") {
                    Some(payload(fields, &**x))
                } else {
                    None
                },
                RtValue::Enum { variant, fields: efs, .. } => if str_eq(variant.as_str(), vn) {
                    bind_enum_fields(fields, efs)
                } else {
                    None
                },
                _ => None,
            }
        },
    }
}

fn payload<'a>(fields: &Vec<String>, x: &'a RtValue) -> (r: Vec<(String, &'a RtValue)>)
    ensures
        bound(r@) == payload_binding(fields@, *x),
{
    let mut out: Vec<(String, &'a RtValue)> = Vec::new();
    if fields.len() > 0 {
        let mut n = String::new();
        push_str(&mut n, fields[0].as_str());
        out.push((n, x));
        assert(bound(out@) =~= seq![(fields@[0]@, *x)]);
    } else {
        assert(bound(out@) =~= Seq::<(Seq<char>, RtValue)>::empty());
    }
    out
}

fn find_entry(fs: &Vec<(String, RtValue)>, k: &str) -> (r: Option<usize>)
    ensures
        match first_entry(fs@, k@) {
            Some(i) => r matches Some(u) && u == i,
            None => r is None,
        },
        r matches Some(u) ==> u < fs.len(),
{
    let mut i: usize = 0;
    while i < fs.len()
        invariant
            i <= fs.len(),
            first_entry(fs@.take(i as int), k@) is None,
        decreases fs.len() - i,
    {
        proof { assert(fs@.take(i + 1).drop_last() =~= fs@.take(i as int)); }
        if str_eq(fs[i].0.as_str(), k) {
            proof { lemma_first_entry_prefix(fs@, k@, i + 1); }
            return Some(i);
        }
        i += 1;
    }
    proof { assert(fs@.take(fs.len() as int) =~= fs@); }
    None
}

proof fn lemma_first_entry_prefix(fs: Seq<(String, RtValue)>, k: Seq<char>, n: int)
    requires
        0 <= n <= fs.len(),
        first_entry(fs.take(n), k) is Some,
    ensures
        first_entry(fs, k) == first_entry(fs.take(n), k),
    decreases fs.len(),
{
    if n < fs.len() {
        assert(fs.drop_last().take(n) =~= fs.take(n));
        lemma_first_entry_prefix(fs.drop_last(), k, n);
    } else {
        assert(fs.take(n) =~= fs);
    }
}

fn bind_enum_fields<'a>(names: &Vec<String>, efs: &'a Vec<(String, RtValue)>) -> (r: Option<Vec<(String, &'a RtValue)>>)
    ensures
        match field_bindings(names@, efs@) {
            Some(bs) => r matches Some(out) && bound(out@) == bs,
            None => r is None,
        },
{
    let mut out: Vec<(String, &'a RtValue)> = Vec::new();
    let mut i: usize = 0;
    assert(bound(out@) =~= Seq::<(Seq<char>, RtValue)>::empty());
    assert(names@.take(0) =~= Seq::<String>::empty());
    while i < names.len()
        invariant
            i <= names.len(),
            field_bindings(names@.take(i as int), efs@) == Some(bound(out@)),
        decreases names.len() - i,
    {
        proof {
            assert(names@.take(i + 1).drop_last() =~= names@.take(i as int));
            assert(names@.take(i + 1).last() == names@[i as int]);
        }
        match find_entry(efs, names[i].as_str()) {
            Some(j) => {
                let mut n = String::new();
                push_str(&mut n, names[i].as_str());
                let ghost before = bound(out@);
                out.push((n, &efs[j].1));
                assert(bound(out@) =~= before.push((names@[i as int]@, efs@[j as int].1)));
            },
            None => {
                proof { lemma_field_bindings_none(names@, efs@, i + 1); }
                return None;
            },
        }
        i += 1;
    }
    assert(names@.take(names.len() as int) =~= names@);
    Some(out)
}

proof fn lemma_field_bindings_none(names: Seq<String>, fs: Seq<(String, RtValue)>, n: int)
    requires
        0 <= n <= names.len(),
        field_bindings(names.take(n), fs) is None,
    ensures
        field_bindings(names, fs) is None,
    decreases names.len(),
{
    if n < names.len() {
        assert(names.drop_last().take(n) =~= names.take(n));
        lemma_field_bindings_none(names.drop_last(), fs, n);
    } else {
        assert(names.take(n) =~= names);
    }
}

fn match_elements<'a>(ps: &Vec<Pattern>, es: &'a Vec<RtValue>) -> (r: Option<Vec<(String, &'a RtValue)>>)
    requires
        ps.len() == es.len(),
    ensures
        match match_seq(ps@, es@) {
            Some(bs) => r matches Some(out) && bound(out@) == bs,
            None => r is None,
        },
    decreases ps, 1nat,
{
    let mut out: Vec<(String, &'a RtValue)> = Vec::new();
    let mut i: usize = 0;
    assert(bound(out@) =~= Seq::<(Seq<char>, RtValue)>::empty());
    assert(ps@.take(0) =~= Seq::<Pattern>::empty());
    while i < ps.len()
        invariant
            i <= ps.len(),
            ps.len() == es.len(),
            match_seq(ps@.take(i as int), es@.take(i as int)) == Some(bound(out@)),
        decreases ps.len() - i,
    {
        proof {
            assert(ps@.take(i + 1).drop_last() =~= ps@.take(i as int));
            assert(es@.take(i + 1).take(i as int) =~= es@.take(i as int));
            assert(ps@.take(i + 1).last() == ps@[i as int]);
        }
        match match_pattern(&ps[i], &es[i]) {
            Some(sub) => {
                let ghost before = bound(out@);
                let mut k: usize = 0;
                while k < sub.len()
                    invariant
                        k <= sub.len(),
                        bound(out@) == before + bound(sub@).take(k as int),
                    decreases sub.len() - k,
                {
                    let mut n = String::new();
                    push_str(&mut n, sub[k].0.as_str());
                    let ghost b0 = bound(out@);
                    out.push((n, sub[k].1));
                    assert(bound(out@) =~= b0.push((sub@[k as int].0@, *sub@[k as int].1)));
                    assert(bound(sub@).take(k + 1) =~= bound(sub@).take(k as int).push(bound(sub@)[k as int]));
                    k += 1;
                }
                assert(bound(sub@).take(sub.len() as int) =~= bound(sub@));
            },
            None => {
                proof { lemma_match_seq_none(ps@, es@, i + 1); }
                return None;
            },
        }
        i += 1;
    }
    assert(ps@.take(ps.len() as int) =~= ps@);
    assert(es@.take(es.len() as int) =~= es@);
    Some(out)
}

proof fn lemma_match_seq_none(ps: Seq<Pattern>, es: Seq<RtValue>, n: int)
    requires
        0 <= n <= ps.len(),
        ps.len() == es.len(),
        match_seq(ps.take(n), es.take(n)) is None,
    ensures
        match_seq(ps, es) is None,
    decreases ps.len(),
{
    if n < ps.len() {
        assert(ps.drop_last().take(n) =~= ps.take(n));
        assert(es.take(ps.len() - 1).take(n) =~= es.take(n));
        lemma_match_seq_none(ps.drop_last(), es.take(ps.len() - 1), n);
    } else {
        assert(ps.take(n) =~= ps);
        assert(es.take(n) =~= es);
    }
}

// ── Run-time environment ─────────────────────────────────────────────────────

/// The index of the innermost scope of `scopes` that binds `k`.
pub open spec fn innermost_binding<V>(scopes: Seq<Map<Seq<char>, V>>, k: Seq<char>) -> Option<int>
    decreases scopes.len(),
{
    if scopes.len() == 0 {
        None
    } else if scopes.last().contains_key(k) {
        Some(scopes.len() - 1)
    } else {
        innermost_binding(scopes.drop_last(), k)
    }
}

proof fn lemma_innermost_binding<V>(scopes: Seq<Map<Seq<char>, V>>, k: Seq<char>)
    ensures
        match innermost_binding(scopes, k) {
            Some(i) => 0 <= i < scopes.len() && scopes[i].contains_key(k) && find_scoped(scopes, k) == Some(scopes[i][k])
                && forall|j: int| i < j < scopes.len() ==> !(#[trigger] scopes[j]).contains_key(k),
            None => find_scoped(scopes, k) is None && forall|j: int| 0 <= j < scopes.len() ==> !(#[trigger] scopes[j]).contains_key(k),
        },
    decreases scopes.len(),
{
    if scopes.len() > 0 {
        lemma_innermost_binding(scopes.drop_last(), k);
        if !scopes.last().contains_key(k) {
            assert forall|j: int| 0 <= j < scopes.len() - 1 implies scopes[j] == scopes.drop_last()[j] by {}
        }
    }
}

/// Lexically scoped run-time bindings: a stack of scopes, innermost last.
/// Each binding holds its own value: defining or assigning a value stores
/// it, and no two bindings share one.
#[derive(Debug)]
pub struct Environment<V> {
    scopes: Vec<StrMap<V>>,
}

impl<V> Environment<V> {
    /// The scopes' bindings, innermost last.
    pub closed spec fn scope_maps(&self) -> Seq<Map<Seq<char>, V>> {
        self.scopes@.map_values(|m: StrMap<V>| m.view())
    }

    /// Every scope is a well-formed map.
    pub closed spec fn wf(&self) -> bool {
        forall|i: int| 0 <= i < self.scopes@.len() ==> (#[trigger] self.scopes@[i]).wf()
    }

    /// An environment with one, empty, scope.
    pub fn new() -> (e: Self)
        ensures
            e.wf(),
            e.scope_maps() == seq![Map::<Seq<char>, V>::empty()],
    {
        let mut scopes: Vec<StrMap<V>> = Vec::new();
        scopes.push(StrMap::new());
        let e = Environment { scopes };
        assert(e.scope_maps() =~= seq![Map::<Seq<char>, V>::empty()]);
        e
    }

    /// Enter a new, empty, scope.
    pub fn push_scope(&mut self)
        requires
            old(self).wf(),
        ensures
            final(self).wf(),
            final(self).scope_maps() == old(self).scope_maps().push(Map::empty()),
    {
        self.scopes.push(StrMap::new());
        assert(self.scope_maps() =~= old(self).scope_maps().push(Map::empty()));
    }

    /// Leave the innermost scope, forgetting its bindings (nothing happens
    /// when there is no scope left).
    pub fn pop_scope(&mut self)
        requires
            old(self).wf(),
        ensures
            final(self).wf(),
            final(self).scope_maps() == if old(self).scope_maps().len() > 0 {
                old(self).scope_maps().drop_last()
            } else {
                old(self).scope_maps()
            },
    {
        let _ = self.scopes.pop();
        assert(self.scope_maps() =~= if old(self).scope_maps().len() > 0 {
            old(self).scope_maps().drop_last()
        } else {
            old(self).scope_maps()
        });
    }

    /// Bind `name` to `value` in the innermost scope, replacing a binding of
    /// the same name there.
    pub fn define(&mut self, name: &str, value: V)
        requires
            old(self).wf(),
            old(self).scope_maps().len() > 0,
        ensures
            final(self).wf(),
            final(self).scope_maps() == old(self).scope_maps().update(
                old(self).scope_maps().len() - 1,
                old(self).scope_maps().last().insert(name@, value),
            ),
    {
        let mut scope = self.scopes.pop().unwrap();
        scope.insert(String::from_str(name), value);
        self.scopes.push(scope);
        assert(self.scope_maps() =~= old(self).scope_maps().update(
            old(self).scope_maps().len() - 1,
            old(self).scope_maps().last().insert(name@, value),
        ));
    }

    /// The value of the innermost binding of `name`.
    pub fn get(&self, name: &str) -> (r: Option<&V>)
        requires
            self.wf(),
        ensures
            match find_scoped(self.scope_maps(), name@) {
                Some(v) => r matches Some(x) && *x == v,
                None => r is None,
            },
    {
        let ghost sm = self.scope_maps();
        proof { lemma_innermost_binding(sm, name@); }
        let mut i: usize = self.scopes.len();
        while i > 0
            invariant
                i <= self.scopes@.len(),
                sm == self.scope_maps(),
                self.wf(),
                forall|j: int| i <= j < sm.len() ==> !(#[trigger] sm[j]).contains_key(name@),
            decreases i,
        {
            i = i - 1;
            assert(sm[i as int] == self.scopes@[i as int].view());
            if let Some(v) = self.scopes[i].get(name) {
                proof {
                    lemma_innermost_binding(sm, name@);
                    assert(sm[i as int].contains_key(name@));
                    match innermost_binding(sm, name@) {
                        Some(j) => {
                            if j < i {
                                assert(!sm[i as int].contains_key(name@));
                            } else if j > i {
                                assert(!sm[j].contains_key(name@));
                            }
                            assert(j == i);
                        },
                        None => {
                            assert(!sm[i as int].contains_key(name@));
                        },
                    }
                    assert(innermost_binding(sm, name@) == Some(i as int));
                }
                return Some(v);
            }
        }
        proof {
            match innermost_binding(sm, name@) {
                Some(j) => {
                    assert(sm[j].contains_key(name@));
                },
                None => {},
            }
        }
        None
    }

    /// Assign `value` to the innermost binding of `name`, wherever it is;
    /// `false`, with nothing changed, when `name` is not bound.
    pub fn set(&mut self, name: &str, value: V) -> (r: bool)
        requires
            old(self).wf(),
        ensures
            final(self).wf(),
            match innermost_binding(old(self).scope_maps(), name@) {
                Some(i) => r && final(self).scope_maps() == old(self).scope_maps().update(
                    i,
                    old(self).scope_maps()[i].insert(name@, value),
                ),
                None => !r && final(self).scope_maps() == old(self).scope_maps(),
            },
    {
        let ghost sm = self.scope_maps();
        proof { lemma_innermost_binding(sm, name@); }
        let mut i: usize = self.scopes.len();
        while i > 0
            invariant
                i <= self.scopes@.len(),
                sm == self.scope_maps(),
                sm == old(self).scope_maps(),
                self.scopes@.len() == sm.len(),
                self.wf(),
                forall|j: int| i <= j < sm.len() ==> !(#[trigger] sm[j]).contains_key(name@),
            decreases i,
        {
            i = i - 1;
            assert(sm[i as int] == self.scopes@[i as int].view());
            if self.scopes[i].contains_key(name) {
                proof {
                    lemma_innermost_binding(sm, name@);
                    assert(sm[i as int].contains_key(name@));
                    match innermost_binding(sm, name@) {
                        Some(j) => {
                            if j < i {
                                assert(!sm[i as int].contains_key(name@));
                            } else if j > i {
                                assert(!sm[j].contains_key(name@));
                            }
                            assert(j == i);
                        },
                        None => {
                            assert(!sm[i as int].contains_key(name@));
                        },
                    }
                    assert(innermost_binding(sm, name@) == Some(i as int));
                }
                let mut scope = self.scopes.remove(i);
                scope.insert(String::from_str(name), value);
                self.scopes.insert(i, scope);
                assert(self.scope_maps() =~= sm.update(i as int, sm[i as int].insert(name@, value)));
                return true;
            }
        }
        proof {
            match innermost_binding(sm, name@) {
                Some(j) => {
                    assert(sm[j].contains_key(name@));
                },
                None => {},
            }
        }
        false
    }
}

/// Reading a name after assigning to it gives the assigned value: the
/// assignment lands in the innermost scope that binds the name, which is
/// where the read finds it.
pub proof fn law_env_assign_then_read<V>(scopes: Seq<Map<Seq<char>, V>>, k: Seq<char>, v: V)
    requires
        innermost_binding(scopes, k) is Some,
    ensures
        ({
            let i = innermost_binding(scopes, k).unwrap();
            find_scoped(scopes.update(i, scopes[i].insert(k, v)), k) == Some(v)
        }),
{
    lemma_innermost_binding(scopes, k);
    let i = innermost_binding(scopes, k).unwrap();
    let after = scopes.update(i, scopes[i].insert(k, v));
    assert forall|j: int| i + 1 <= j < after.len() implies !(#[trigger] after[j]).contains_key(k) by {
        assert(after[j] == scopes[j]);
    }
    lemma_find_scoped_prefix(after, k, i + 1);
    assert(after.take(i + 1).last() == after[i]);
}

} // verus!
