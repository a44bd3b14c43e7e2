//! Rules of the first pass for single expression and statement forms,
//! applied to the types already inferred for their parts: the constraints
//! each form records, the fresh variables it draws, the type it gives, and
//! the type errors it reports.

use vstd::prelude::*;

use crate::ast::{AssignOp, Param, Span, TypeExpr};
use super::conversions::{te_to_infer, type_expr_to_infer};
use crate::error::{GustError, TypeErrorCode, is_type_error};
use crate::text::{decimal, push_decimal, push_str};
use crate::types::TypeView;
use crate::typeinference::model::{InferTypeView, apply_spec, lemma_apply_idempotent, subst1};
use crate::pathmap::{join_path, join_spec, pv};
use std::collections::HashSet;

use crate::typeinference::model::fv;
use crate::typeinference::{
    InferContext, InferType, TypeScheme, clone_infer, generalize, mentions, sorted_strict, infer_text, infers_model, lemma_infers_model, lemma_infers_model_push,
    solve_error, solve_spec, write_infer,
};
use crate::typeinference::context::{ScopedBinding, find_binding};
use crate::typeinference::inst_map;
use crate::typeinference::model::terminates;
use super::inference::{mono_view, appended, elem_vars, find_variant, first_variant, lemma_first_variant, named_type_name, named_type_name_spec};

verus! {

broadcast use vstd::string::group_string_axioms;

/// `new` differs from `old` at most in its constraints and its next variable.
pub open spec fn same_frame(old: InferContext, new: InferContext) -> bool {
    &&& new.mono_scopes() == old.mono_scopes()
    &&& new.poly_scopes() == old.poly_scopes()
    &&& new.return_type() == old.return_type()
    &&& new.break_type() == old.break_type()
    &&& new.reg() == old.reg()
    &&& new.wf() == old.wf()
}

/// The message of a call with the wrong number of arguments.
pub open spec fn arity_text(params: nat, args: nat) -> Seq<char> {
    "expected "@ + decimal(params) + " argument(s), got "@ + decimal(args)
}

/// A call of a callee of type `callee_ty` with arguments of types
/// `arg_tys`: when the callee is known to be a function of another arity,
/// a `T0004` error at `span` and nothing recorded; otherwise a fresh result
/// variable, with the callee required to be a function from the arguments'
/// types to it.
pub fn infer_call(callee_ty: InferType, arg_tys: Vec<InferType>, span: &Span, ctx: &mut InferContext) -> (r: Result<InferType, GustError>)
    requires
        old(ctx).next_var() < u32::MAX,
    ensures
        same_frame(*old(ctx), *final(ctx)),
        match callee_ty@ {
            InferTypeView::Fun(ps, _) if ps.len() != arg_tys.len() => r matches Err(e) && is_type_error(
                e,
                TypeErrorCode::T0004,
                arity_text(ps.len(), arg_tys.len() as nat),
                *span,
            ) && final(ctx).constraint_list() == old(ctx).constraint_list() && final(ctx).next_var() == old(ctx).next_var(),
            _ => r matches Ok(t) && t@ == InferTypeView::Var(old(ctx).next_var()) && final(ctx).next_var() == old(
                ctx,
            ).next_var() + 1 && appended(
                old(ctx).constraint_list(),
                final(ctx).constraint_list(),
                seq![(callee_ty@, InferTypeView::Fun(infers_model(arg_tys@), Box::new(InferTypeView::Var(old(ctx).next_var()))))],
                *span,
            ),
        },
{
    proof { lemma_infers_model(arg_tys@); }
    if let InferType::Fun(params, _) = &callee_ty {
        proof { lemma_infers_model(params@); }
        if params.len() != arg_tys.len() {
            let mut msg = String::new();
            push_str(&mut msg, "expected ");
            push_decimal(&mut msg, params.len() as u64);
            push_str(&mut msg, " argument(s), got ");
            push_decimal(&mut msg, arg_tys.len() as u64);
            assert(msg@ =~= arity_text(params.len() as nat, arg_tys.len() as nat));
            return Err(GustError::type_error(TypeErrorCode::T0004, msg, span));
        }
    }
    let ghost before = ctx.constraint_list();
    let ret = ctx.fresh_var();
    ctx.add_constraint(callee_ty, InferType::Fun(arg_tys, Box::new(clone_infer(&ret))), span.clone());
    assert(ctx.constraint_list().take(before.len() as int) =~= ctx.constraint_list().drop_last());
    Ok(ret)
}

/// An index expression on an object of type `obj_ty` with an index of type
/// `idx_ty`: the index must be `Int` and the object an array of a fresh
/// element variable, which is the expression's type.
pub fn infer_index(obj_ty: InferType, idx_ty: InferType, span: &Span, ctx: &mut InferContext) -> (t: InferType)
    requires
        old(ctx).next_var() < u32::MAX,
    ensures
        same_frame(*old(ctx), *final(ctx)),
        t@ == InferTypeView::Var(old(ctx).next_var()),
        final(ctx).next_var() == old(ctx).next_var() + 1,
        appended(
            old(ctx).constraint_list(),
            final(ctx).constraint_list(),
            seq![
                (idx_ty@, InferTypeView::Concrete(TypeView::Int)),
                (obj_ty@, InferTypeView::Array(Box::new(InferTypeView::Var(old(ctx).next_var())))),
            ],
            *span,
        ),
{
    let ghost before = ctx.constraint_list();
    ctx.add_constraint(idx_ty, InferType::integer(), span.clone());
    let elem = ctx.fresh_var();
    ctx.add_constraint(obj_ty, InferType::Array(Box::new(clone_infer(&elem))), span.clone());
    assert(ctx.constraint_list().take(before.len() as int) =~= ctx.constraint_list().drop_last().drop_last());
    assert(ctx.constraint_list()[before.len() as int] == ctx.constraint_list().drop_last().last());
    elem
}

/// An assignment of a value of type `value_ty` to a target of type
/// `target_ty`: plain `=` requires the two to be equal; a compound
/// assignment requires both to equal a fresh variable. Its type is unit.
pub fn infer_assign_op(target_ty: InferType, op: &AssignOp, value_ty: InferType, span: &Span, ctx: &mut InferContext) -> (t: InferType)
    requires
        *op != AssignOp::Assign ==> old(ctx).next_var() < u32::MAX,
    ensures
        same_frame(*old(ctx), *final(ctx)),
        t@ == InferTypeView::Concrete(TypeView::Unit),
        *op == AssignOp::Assign ==> final(ctx).next_var() == old(ctx).next_var() && appended(
            old(ctx).constraint_list(),
            final(ctx).constraint_list(),
            seq![(target_ty@, value_ty@)],
            *span,
        ),
        *op != AssignOp::Assign ==> final(ctx).next_var() == old(ctx).next_var() + 1 && appended(
            old(ctx).constraint_list(),
            final(ctx).constraint_list(),
            seq![
                (target_ty@, InferTypeView::Var(old(ctx).next_var())),
                (value_ty@, InferTypeView::Var(old(ctx).next_var())),
            ],
            *span,
        ),
{
    let ghost before = ctx.constraint_list();
    match op {
        AssignOp::Assign => {
            ctx.add_constraint(target_ty, value_ty, span.clone());
            assert(ctx.constraint_list().take(before.len() as int) =~= ctx.constraint_list().drop_last());
        },
        _ => {
            let result = ctx.fresh_var();
            ctx.add_constraint(target_ty, clone_infer(&result), span.clone());
            ctx.add_constraint(value_ty, result, span.clone());
            assert(ctx.constraint_list().take(before.len() as int) =~= ctx.constraint_list().drop_last().drop_last());
            assert(ctx.constraint_list()[before.len() as int] == ctx.constraint_list().drop_last().last());
        },
    }
    InferType::unit()
}

/// A `return` of a value of type `value_ty`: inside a function the value
/// must have its return type. Its type is `Never`.
pub fn infer_return(value_ty: InferType, span: &Span, ctx: &mut InferContext) -> (t: InferType)
    ensures
        same_frame(*old(ctx), *final(ctx)),
        t@ == InferTypeView::Never,
        final(ctx).next_var() == old(ctx).next_var(),
        match old(ctx).return_type() {
            Some(expected) => appended(old(ctx).constraint_list(), final(ctx).constraint_list(), seq![(value_ty@, expected@)], *span),
            None => final(ctx).constraint_list() == old(ctx).constraint_list(),
        },
{
    let ghost before = ctx.constraint_list();
    if let Some(expected) = ctx.current_return_type() {
        let e = clone_infer(expected);
        ctx.add_constraint(value_ty, e, span.clone());
        assert(ctx.constraint_list().take(before.len() as int) =~= ctx.constraint_list().drop_last());
    }
    InferType::never()
}

/// A `break` with a value of type `value_ty`: inside a `loop` expression the
/// value must have the loop's type. Its type is `Never`.
pub fn infer_break(value_ty: InferType, span: &Span, ctx: &mut InferContext) -> (t: InferType)
    ensures
        same_frame(*old(ctx), *final(ctx)),
        t@ == InferTypeView::Never,
        final(ctx).next_var() == old(ctx).next_var(),
        match old(ctx).break_type() {
            Some(expected) => appended(old(ctx).constraint_list(), final(ctx).constraint_list(), seq![(value_ty@, expected@)], *span),
            None => final(ctx).constraint_list() == old(ctx).constraint_list(),
        },
{
    let ghost before = ctx.constraint_list();
    if let Some(expected) = ctx.current_break_type() {
        let e = clone_infer(expected);
        ctx.add_constraint(value_ty, e, span.clone());
        assert(ctx.constraint_list().take(before.len() as int) =~= ctx.constraint_list().drop_last());
    }
    InferType::never()
}

/// `Result` of two types.
pub open spec fn result_of(ok: InferTypeView, err: InferTypeView) -> InferTypeView {
    InferTypeView::Named("Result"@, seq![ok, err])
}

fn result_type(ok: InferType, err: InferType) -> (t: InferType)
    ensures
        t@ == result_of(ok@, err@),
{
    let mut args: Vec<InferType> = Vec::new();
    args.push(ok);
    args.push(err);
    proof {
        lemma_infers_model(args@);
    }
    assert(infers_model(args@) =~= seq![args@[0]@, args@[1]@]);
    InferType::Named(String::from_str("Result"), args)
}

/// `e?` on an operand of type `inner_ty`: the operand must be a `Result` of
/// a fresh ok variable `n` and a fresh error variable `n + 1`; inside a
/// function its return type must be a `Result` of a further fresh variable
/// and the same error type. Its type is the ok variable.
pub fn infer_propagate(inner_ty: InferType, span: &Span, ctx: &mut InferContext) -> (t: InferType)
    requires
        old(ctx).next_var() + 3 <= u32::MAX,
    ensures
        same_frame(*old(ctx), *final(ctx)),
        ({
            let n = old(ctx).next_var();
            let ok = InferTypeView::Var(n);
            let err = InferTypeView::Var((n + 1) as u32);
            &&& t@ == ok
            &&& match old(ctx).return_type() {
                Some(fn_ret) => final(ctx).next_var() == n + 3 && appended(
                    old(ctx).constraint_list(),
                    final(ctx).constraint_list(),
                    seq![(inner_ty@, result_of(ok, err)), (fn_ret@, result_of(InferTypeView::Var((n + 2) as u32), err))],
                    *span,
                ),
                None => final(ctx).next_var() == n + 2 && appended(
                    old(ctx).constraint_list(),
                    final(ctx).constraint_list(),
                    seq![(inner_ty@, result_of(ok, err))],
                    *span,
                ),
            }
        }),
{
    let ghost before = ctx.constraint_list();
    let ok = ctx.fresh_var();
    let err = ctx.fresh_var();
    ctx.add_constraint(inner_ty, result_type(clone_infer(&ok), clone_infer(&err)), span.clone());
    let ret = match ctx.current_return_type() {
        Some(r) => Some(clone_infer(r)),
        None => None,
    };
    match ret {
        Some(fn_ret) => {
            let fn_ok = ctx.fresh_var();
            ctx.add_constraint(fn_ret, result_type(fn_ok, err), span.clone());
            assert(ctx.constraint_list().take(before.len() as int) =~= ctx.constraint_list().drop_last().drop_last());
            assert(ctx.constraint_list()[before.len() as int] == ctx.constraint_list().drop_last().last());
        },
        None => {
            assert(ctx.constraint_list().take(before.len() as int) =~= ctx.constraint_list().drop_last());
        },
    }
    ok
}

/// The message of a tuple index past the tuple's end.
pub open spec fn tuple_bounds_text(index: nat, len: nat) -> Seq<char> {
    "tuple index "@ + decimal(index) + " out of bounds (tuple has "@ + decimal(len) + " elements)"@
}

/// The solution of the constraints recorded so far, applied to `t`.
pub open spec fn resolved(ctx: InferContext, t: InferTypeView) -> InferTypeView {
    subst1(solve_spec(ctx.constraint_list())->Ok_0, t)
}

/// `e.index` on an object of type `obj_ty`: the constraints so far are
/// solved (their error, if any, is the result) and the object's type
/// resolved; a tuple gives its element at `index` (`T0003` past its end),
/// anything else is `T0002` (the type is not known to be a tuple). Nothing
/// is recorded.
pub fn infer_tuple_access(obj_ty: &InferType, index: usize, span: &Span, ctx: &InferContext) -> (r: Result<InferType, GustError>)
    ensures
        match solve_spec(ctx.constraint_list()) {
            Err(f) => r matches Err(e) && solve_error(e, ctx.constraint_list(), f),
            Ok(_) => match resolved(*ctx, obj_ty@) {
                InferTypeView::Tuple(elems) => if index < elems.len() {
                    r matches Ok(t) && t@ == elems[index as int]
                } else {
                    r matches Err(e) && is_type_error(e, TypeErrorCode::T0003, tuple_bounds_text(index as nat, elems.len()), *span)
                },
                _ => r matches Err(e) && is_type_error(
                    e,
                    TypeErrorCode::T0002,
                    "cannot infer tuple type for index access; add a type annotation"@,
                    *span,
                ),
            },
        },
{
    let s = ctx.solve()?;
    proof { lemma_apply_idempotent(s@, obj_ty@); }
    let t = s.apply(obj_ty);
    match &t {
        InferType::Tuple(elems) => {
            proof { lemma_infers_model(elems@); }
            if index < elems.len() {
                Ok(clone_infer(&elems[index]))
            } else {
                let mut msg = String::new();
                push_str(&mut msg, "tuple index ");
                push_decimal(&mut msg, index as u64);
                push_str(&mut msg, " out of bounds (tuple has ");
                push_decimal(&mut msg, elems.len() as u64);
                push_str(&mut msg, " elements)");
                assert(msg@ =~= tuple_bounds_text(index as nat, elems.len() as nat));
                Err(GustError::type_error(TypeErrorCode::T0003, msg, span))
            }
        },
        _ => Err(GustError::type_error(
            TypeErrorCode::T0002,
            String::from_str("cannot infer tuple type for index access; add a type annotation"),
            span,
        )),
    }
}

/// The casts the language allows: `Int` to `Float`, and `Int` and `Float`
/// to themselves.
pub open spec fn cast_allowed(from: InferTypeView, to: InferTypeView) -> bool {
    match (from, to) {
        (InferTypeView::Concrete(TypeView::Int), InferTypeView::Concrete(TypeView::Float)) => true,
        (InferTypeView::Concrete(TypeView::Int), InferTypeView::Concrete(TypeView::Int)) => true,
        (InferTypeView::Concrete(TypeView::Float), InferTypeView::Concrete(TypeView::Float)) => true,
        _ => false,
    }
}

/// The message of a cast the language does not allow.
pub open spec fn cast_text(from: InferTypeView, to: InferTypeView) -> Seq<char> {
    "cannot cast `"@ + infer_text(from) + "` to `"@ + infer_text(to)
        + "` — only `Int as Float` and identity casts are supported"@
}

/// `e as T` on an operand of type `source_ty` with `T` read as `target_ty`:
/// the constraints so far are solved (their error, if any, is the result);
/// the resolved types must make an allowed cast (else `T0007`), and the
/// expression has the target type. Nothing is recorded.
pub fn infer_cast(source_ty: &InferType, target_ty: InferType, span: &Span, ctx: &InferContext) -> (r: Result<InferType, GustError>)
    ensures
        match solve_spec(ctx.constraint_list()) {
            Err(f) => r matches Err(e) && solve_error(e, ctx.constraint_list(), f),
            Ok(_) => if cast_allowed(resolved(*ctx, source_ty@), resolved(*ctx, target_ty@)) {
                r matches Ok(t) && t@ == target_ty@
            } else {
                r matches Err(e) && is_type_error(
                    e,
                    TypeErrorCode::T0007,
                    cast_text(resolved(*ctx, source_ty@), resolved(*ctx, target_ty@)),
                    *span,
                )
            },
        },
{
    let s = ctx.solve()?;
    proof {
        lemma_apply_idempotent(s@, source_ty@);
        lemma_apply_idempotent(s@, target_ty@);
    }
    let from = s.apply(source_ty);
    let to = s.apply(&target_ty);
    let ok = match (&from, &to) {
        (InferType::Concrete(a), InferType::Concrete(b)) => match (a, b) {
            (crate::types::Type::Int, crate::types::Type::Float) => true,
            (crate::types::Type::Int, crate::types::Type::Int) => true,
            (crate::types::Type::Float, crate::types::Type::Float) => true,
            _ => false,
        },
        _ => false,
    };
    if ok {
        Ok(target_ty)
    } else {
        let mut msg = String::new();
        push_str(&mut msg, "cannot cast `");
        write_infer(&from, &mut msg);
        push_str(&mut msg, "` to `");
        write_infer(&to, &mut msg);
        push_str(&mut msg, "` — only `Int as Float` and identity casts are supported");
        assert(msg@ =~= cast_text(from@, to@));
        Err(GustError::type_error(TypeErrorCode::T0007, msg, span))
    }
}

/// The message of a `for`-in over something that is neither an array nor a
/// range.
pub open spec fn for_in_text(t: InferTypeView) -> Seq<char> {
    "expected array or range in for-in, got `"@ + infer_text(t) + "`"@
}

/// The loop variable's type of `for x in e` with `e` of type `iter_ty`: a
/// fresh element variable `n` (and a second fresh variable, `n + 1`, which
/// nothing uses); the constraints so far are solved (their error, if any,
/// is the result) and `e`'s type resolved: the element variable must equal
/// an array's element type, or `Int` for a range of one type argument; a
/// type still unknown is required to be an array of the element variable;
/// anything else is `T0001`.
pub fn infer_for_in(iter_ty: InferType, span: &Span, ctx: &mut InferContext) -> (r: Result<InferType, GustError>)
    requires
        old(ctx).next_var() + 2 <= u32::MAX,
    ensures
        same_frame(*old(ctx), *final(ctx)),
        final(ctx).next_var() == old(ctx).next_var() + 2,
        ({
            let elem = InferTypeView::Var(old(ctx).next_var());
            match solve_spec(old(ctx).constraint_list()) {
                Err(f) => r matches Err(e) && solve_error(e, old(ctx).constraint_list(), f)
                    && final(ctx).constraint_list() == old(ctx).constraint_list(),
                Ok(_) => match resolved(*old(ctx), iter_ty@) {
                    InferTypeView::Array(el) => r matches Ok(t) && t@ == elem && appended(
                        old(ctx).constraint_list(),
                        final(ctx).constraint_list(),
                        seq![(elem, *el)],
                        *span,
                    ),
                    InferTypeView::Named(n, args) if n == "Range"@ && args.len() == 1 => r matches Ok(t) && t@ == elem
                        && appended(
                        old(ctx).constraint_list(),
                        final(ctx).constraint_list(),
                        seq![(elem, InferTypeView::Concrete(TypeView::Int))],
                        *span,
                    ),
                    InferTypeView::Var(_) => r matches Ok(t) && t@ == elem && appended(
                        old(ctx).constraint_list(),
                        final(ctx).constraint_list(),
                        seq![(iter_ty@, InferTypeView::Array(Box::new(elem)))],
                        *span,
                    ),
                    other => r matches Err(e) && is_type_error(e, TypeErrorCode::T0001, for_in_text(other), *span)
                        && final(ctx).constraint_list() == old(ctx).constraint_list(),
                },
            }
        }),
{
    let ghost before = ctx.constraint_list();
    let elem = ctx.fresh_var();
    let _unused = ctx.fresh_var();
    let s = ctx.solve()?;
    proof { lemma_apply_idempotent(s@, iter_ty@); }
    let t = s.apply(&iter_ty);
    match &t {
        InferType::Array(el) => {
            ctx.add_constraint(clone_infer(&elem), clone_infer(el), span.clone());
        },
        InferType::Named(n, args) => {
            proof { lemma_infers_model(args@); reveal_strlit("Range"); }
            if crate::text::str_eq(n.as_str(), "Range") && args.len() == 1 {
                ctx.add_constraint(clone_infer(&elem), InferType::integer(), span.clone());
            } else {
                let mut msg = String::new();
                push_str(&mut msg, "expected array or range in for-in, got `");
                write_infer(&t, &mut msg);
                push_str(&mut msg, "`");
                assert(msg@ =~= for_in_text(t@));
                return Err(GustError::type_error(TypeErrorCode::T0001, msg, span));
            }
        },
        InferType::Var(_) => {
            ctx.add_constraint(iter_ty, InferType::Array(Box::new(clone_infer(&elem))), span.clone());
        },
        _ => {
            let mut msg = String::new();
            push_str(&mut msg, "expected array or range in for-in, got `");
            write_infer(&t, &mut msg);
            push_str(&mut msg, "`");
            assert(msg@ =~= for_in_text(t@));
            return Err(GustError::type_error(TypeErrorCode::T0001, msg, span));
        },
    }
    assert(ctx.constraint_list().take(before.len() as int) =~= ctx.constraint_list().drop_last());
    Ok(elem)
}

/// What a path `T::m` in expression position names: a method of `T` (its
/// function type), or a variant of the enum `T` without fields (the enum
/// applied to a fresh variable per type parameter); `None` for anything else.
pub open spec fn path_member(ctx: InferContext, t: Seq<char>, m: Seq<char>) -> Option<InferTypeView> {
    match ctx.reg().method(t, m) {
        Some(f) => Some(f@),
        None => if ctx.reg().enums().contains_key(t) && first_variant(ctx.reg().enums()[t].variants@, m) is Some
            && ctx.reg().enums()[t].variants@[first_variant(ctx.reg().enums()[t].variants@, m)->Some_0].fields.len() == 0 {
            Some(InferTypeView::Named(t, elem_vars(ctx.next_var() as nat, ctx.reg().enums()[t].type_params.len() as nat)))
        } else {
            None
        },
    }
}

/// A path `segments` in expression position: of exactly a type and a member
/// it names what [`path_member`] gives (drawing the enum's fresh variables
/// for a variant); anything else is `T0003`. Nothing is recorded.
pub fn infer_path(segments: &Vec<String>, span: &Span, ctx: &mut InferContext) -> (r: Result<InferType, GustError>)
    requires
        old(ctx).wf(),
        segments.len() == 2 && old(ctx).reg().enums().contains_key(segments@[0]@) ==> old(ctx).next_var()
            + old(ctx).reg().enums()[segments@[0]@].type_params.len() <= u32::MAX,
    ensures
        same_frame(*old(ctx), *final(ctx)),
        final(ctx).constraint_list() == old(ctx).constraint_list(),
        segments.len() != 2 ==> (r matches Err(e) && is_type_error(
            e,
            TypeErrorCode::T0003,
            "unresolved path `"@ + join_spec(pv(*segments), "::"@) + "`"@,
            *span,
        ) && final(ctx).next_var() == old(ctx).next_var()),
        segments.len() == 2 ==> match path_member(*old(ctx), segments@[0]@, segments@[1]@) {
            Some(t) => r matches Ok(x) && x@ == t && final(ctx).next_var() == old(ctx).next_var() + match t {
                InferTypeView::Named(_, args) if old(ctx).reg().method(segments@[0]@, segments@[1]@) is None => args.len(),
                _ => 0,
            },
            None => r matches Err(e) && is_type_error(
                e,
                TypeErrorCode::T0003,
                "no member `"@ + segments@[1]@ + "` on type `"@ + segments@[0]@ + "`"@,
                *span,
            ) && final(ctx).next_var() == old(ctx).next_var(),
        },
{
    if segments.len() != 2 {
        let joined = join_path(segments, "::");
        let mut msg = String::new();
        push_str(&mut msg, "unresolved path `");
        push_str(&mut msg, joined.as_str());
        push_str(&mut msg, "`");
        return Err(GustError::type_error(TypeErrorCode::T0003, msg, span));
    }
    let owner = &segments[0];
    let member = &segments[1];
    if let Some(f) = ctx.get_method_type(owner.as_str(), member.as_str()) {
        return Ok(clone_infer(f));
    }
    let found = match ctx.get_enum(owner.as_str()) {
        Some(info) => {
            proof { lemma_first_variant(info.variants@, member@); }
            match find_variant(&info.variants, member.as_str()) {
                Some(i) => if info.variants[i].fields.len() == 0 {
                    Some(info.type_params.len())
                } else {
                    None
                },
                None => None,
            }
        },
        None => None,
    };
    match found {
        Some(n) => {
            let ghost start = ctx.next_var() as nat;
            let mut args: Vec<InferType> = Vec::new();
            let mut k: usize = 0;
            while k < n
                invariant
                    k <= n,
                    ctx.next_var() == start + k,
                    start + n <= u32::MAX,
                    same_frame(*old(ctx), *ctx),
                    ctx.constraint_list() == old(ctx).constraint_list(),
                    infers_model(args@) =~= elem_vars(start, k as nat),
                decreases n - k,
            {
                let v = ctx.fresh_var();
                proof { lemma_infers_model_push(args@, v); }
                args.push(v);
                k += 1;
            }
            let mut name = String::new();
            push_str(&mut name, owner.as_str());
            Ok(InferType::Named(name, args))
        },
        None => {
            let mut msg = String::new();
            push_str(&mut msg, "no member `");
            push_str(&mut msg, member.as_str());
            push_str(&mut msg, "` on type `");
            push_str(&mut msg, owner.as_str());
            push_str(&mut msg, "`");
            Err(GustError::type_error(TypeErrorCode::T0003, msg, span))
        },
    }
}

/// The method a call `recv.method(...)` reaches, for a receiver of type
/// `recv_ty`: the constraints so far are solved (their error, if any, is the
/// result) and the receiver's type resolved; the type it is known by must
/// be found (else `T0002`) and must have the method (else `T0003`). Gives
/// the resolved receiver type and the method's type. Nothing is recorded.
pub fn infer_method_target(recv_ty: &InferType, method: &str, span: &Span, ctx: &InferContext) -> (r: Result<
    (InferType, InferType),
    GustError,
>)
    requires
        ctx.wf(),
    ensures
        match solve_spec(ctx.constraint_list()) {
            Err(f) => r matches Err(e) && solve_error(e, ctx.constraint_list(), f),
            Ok(_) => match named_type_name_spec(resolved(*ctx, recv_ty@)) {
                None => r matches Err(e) && is_type_error(
                    e,
                    TypeErrorCode::T0002,
                    "cannot infer receiver type for method call; add a type annotation"@,
                    *span,
                ),
                Some(n) => match ctx.reg().method(n, method@) {
                    Some(m) => r matches Ok((recv, mt)) && recv@ == resolved(*ctx, recv_ty@) && mt@ == m@,
                    None => r matches Err(e) && is_type_error(
                        e,
                        TypeErrorCode::T0003,
                        "no method `"@ + method@ + "` on `"@ + n + "`"@,
                        *span,
                    ),
                },
            },
        },
{
    let s = ctx.solve()?;
    proof { lemma_apply_idempotent(s@, recv_ty@); }
    let recv = s.apply(recv_ty);
    let name = match named_type_name(&recv) {
        Some(n) => n,
        None => {
            return Err(GustError::type_error(
                TypeErrorCode::T0002,
                String::from_str("cannot infer receiver type for method call; add a type annotation"),
                span,
            ));
        },
    };
    match ctx.get_method_type(name.as_str(), method) {
        Some(m) => {
            let mt = clone_infer(m);
            Ok((recv, mt))
        },
        None => {
            let mut msg = String::new();
            push_str(&mut msg, "no method `");
            push_str(&mut msg, method);
            push_str(&mut msg, "` on `");
            push_str(&mut msg, name.as_str());
            push_str(&mut msg, "`");
            Err(GustError::type_error(TypeErrorCode::T0003, msg, span))
        },
    }
}

/// A method call once its method's type `method_ty`, the resolved receiver
/// type `recv` and the arguments' types `arg_tys` are known: a fresh result
/// variable, with the method required to be a function from the receiver
/// and the arguments to it.
pub fn infer_method_call(method_ty: InferType, recv: InferType, arg_tys: Vec<InferType>, span: &Span, ctx: &mut InferContext) -> (t: InferType)
    requires
        old(ctx).next_var() < u32::MAX,
    ensures
        same_frame(*old(ctx), *final(ctx)),
        t@ == InferTypeView::Var(old(ctx).next_var()),
        final(ctx).next_var() == old(ctx).next_var() + 1,
        appended(
            old(ctx).constraint_list(),
            final(ctx).constraint_list(),
            seq![(method_ty@, InferTypeView::Fun(seq![recv@] + infers_model(arg_tys@), Box::new(InferTypeView::Var(old(ctx).next_var()))))],
            *span,
        ),
{
    let ghost before = ctx.constraint_list();
    let ret = ctx.fresh_var();
    let ghost rv = recv@;
    let mut params: Vec<InferType> = Vec::new();
    params.push(recv);
    proof { lemma_infers_model(params@); lemma_infers_model(arg_tys@); }
    let mut i: usize = 0;
    while i < arg_tys.len()
        invariant
            i <= arg_tys.len(),
            infers_model(params@) =~= seq![rv] + infers_model(arg_tys@).take(i as int),
            params@.len() >= 1,
            infers_model(arg_tys@).len() == arg_tys.len(),
            forall|j: int| 0 <= j < arg_tys.len() ==> #[trigger] infers_model(arg_tys@)[j] == arg_tys@[j]@,
        decreases arg_tys.len() - i,
    {
        let a = clone_infer(&arg_tys[i]);
        proof { lemma_infers_model_push(params@, a); }
        params.push(a);
        assert(infers_model(arg_tys@).take(i + 1) =~= infers_model(arg_tys@).take(i as int).push(arg_tys@[i as int]@));
        i += 1;
    }
    assert(infers_model(arg_tys@).take(arg_tys.len() as int) =~= infers_model(arg_tys@));
    ctx.add_constraint(method_ty, InferType::Fun(params, Box::new(clone_infer(&ret))), span.clone());
    assert(ctx.constraint_list().take(before.len() as int) =~= ctx.constraint_list().drop_last());
    ret
}

/// A function (or closure-valued `let`) whose type was generalized during
/// the first pass: its name, its inferred type, and the variables of the
/// environment it was generalized against.
#[derive(Debug)]
pub struct FunGeneralization {
    pub name: String,
    pub fun_ty: InferType,
    pub env_fvs: HashSet<u32>,
}

/// Some variable of `t` is not among `env`.
pub open spec fn has_unbound_var(t: InferTypeView, env: Set<u32>) -> bool {
    exists|v: u32| #[trigger] fv(t).contains(v) && !env.contains(v)
}

/// `sc` generalizes `t` against `env`: it quantifies exactly the variables
/// of `t` not among `env`, in increasing order.
pub open spec fn generalizes(sc: TypeScheme, t: InferTypeView, env: Set<u32>) -> bool {
    &&& sc.ty@ == t
    &&& sorted_strict(sc.quantified_vars@)
    &&& forall|v: u32| #[trigger] mentions(sc.quantified_vars@, v) <==> (fv(t).contains(v) && !env.contains(v))
}

/// A `let` binding of `name` once its value was inferred as `val_ty`, with
/// `env_fvs` the environment's variables taken before the value was
/// inferred: an annotation `ann` must equal the value's type. An
/// unannotated closure is generalized (let-polymorphism): the constraints so
/// far are solved (their error, if any, is the result), and when its
/// resolved type has variables outside the environment, `name` is bound to
/// the scheme quantifying them and the generalization is recorded. Every
/// other binding is monomorphic and immutable. The binding's type is unit.
pub fn infer_let_binding(
    name: String,
    val_ty: InferType,
    ann: Option<InferType>,
    value_is_closure: bool,
    env_fvs: HashSet<u32>,
    span: &Span,
    ctx: &mut InferContext,
    gens: &mut Vec<FunGeneralization>,
) -> (r: Result<InferType, GustError>)
    requires
        old(ctx).wf(),
    ensures
        final(ctx).wf(),
        final(ctx).next_var() == old(ctx).next_var(),
        final(ctx).return_type() == old(ctx).return_type(),
        final(ctx).break_type() == old(ctx).break_type(),
        final(ctx).reg() == old(ctx).reg(),
        r matches Ok(t) ==> t@ == InferTypeView::Concrete(TypeView::Unit),
        match ann {
            Some(a) => appended(old(ctx).constraint_list(), final(ctx).constraint_list(), seq![(val_ty@, a@)], *span),
            None => final(ctx).constraint_list() == old(ctx).constraint_list(),
        },
        ({
            let cs = old(ctx).constraint_list();
            let last = old(ctx).mono_scopes().len() - 1;
            let mono = final(ctx).mono_scopes() == old(ctx).mono_scopes().update(
                last,
                old(ctx).mono_scopes().last().insert(name@, (val_ty, false)),
            ) && final(ctx).poly_scopes() == old(ctx).poly_scopes() && final(gens)@ == old(gens)@ && r is Ok;
            if ann is None && value_is_closure {
                match solve_spec(cs) {
                    Err(f) => r matches Err(e) && solve_error(e, cs, f) && final(ctx).mono_scopes() == old(
                        ctx,
                    ).mono_scopes() && final(ctx).poly_scopes() == old(ctx).poly_scopes() && final(gens)@ == old(gens)@,
                    Ok(m) => {
                        let t = subst1(m, val_ty@);
                        if has_unbound_var(t, env_fvs@) {
                            let sc = final(ctx).poly_scopes().last()[name@];
                            &&& r is Ok
                            &&& generalizes(sc, t, env_fvs@)
                            &&& final(ctx).poly_scopes() == old(ctx).poly_scopes().update(
                                old(ctx).poly_scopes().len() - 1,
                                old(ctx).poly_scopes().last().insert(name@, sc),
                            )
                            &&& final(ctx).mono_scopes() == old(ctx).mono_scopes()
                            &&& final(gens)@.len() == old(gens)@.len() + 1
                            &&& final(gens)@.drop_last() == old(gens)@
                            &&& final(gens)@.last().name@ == name@
                            &&& final(gens)@.last().fun_ty@ == t
                            &&& final(gens)@.last().env_fvs@ == env_fvs@
                        } else {
                            mono
                        }
                    },
                }
            } else {
                mono
            }
        }),
{
    let ghost before = ctx.constraint_list();
    let mut annotated = false;
    if let Some(a) = ann {
        ctx.add_constraint(clone_infer(&val_ty), a, span.clone());
        assert(ctx.constraint_list().take(before.len() as int) =~= ctx.constraint_list().drop_last());
        annotated = true;
    }
    if value_is_closure && !annotated {
        let s = ctx.solve()?;
        proof { lemma_apply_idempotent(s@, val_ty@); }
        let resolved = s.apply(&val_ty);
        let scheme = generalize(clone_infer(&resolved), &env_fvs);
        if scheme.quantified_vars.len() > 0 {
            proof {
                let q = scheme.quantified_vars@[0];
                assert(mentions(scheme.quantified_vars@, q.0));
                assert(fv(resolved@).contains(q.0) && !env_fvs@.contains(q.0));
                assert(has_unbound_var(resolved@, env_fvs@));
                ctx.lemma_wf_scopes();
            }
            let ghost sc = scheme;
            let ghost p0 = ctx.poly_scopes();
            ctx.bind_poly(clone_string(&name), scheme);
            assert(ctx.poly_scopes().last() == p0.last().insert(name@, sc));
            assert(ctx.poly_scopes().last()[name@] == sc);
            gens.push(FunGeneralization { name, fun_ty: resolved, env_fvs });
            assert(gens@.drop_last() =~= old(gens)@);
            return Ok(InferType::unit());
        } else {
            proof {
                assert forall|v: u32| #[trigger] fv(resolved@).contains(v) implies env_fvs@.contains(v) by {
                    if !env_fvs@.contains(v) {
                        assert(mentions(scheme.quantified_vars@, v));
                    }
                }
            }
        }
    }
    ctx.bind_mono(name, val_ty, false);
    Ok(InferType::unit())
}

fn clone_string(s: &String) -> (r: String)
    ensures
        r@ == s@,
{
    let mut r = String::new();
    push_str(&mut r, s.as_str());
    r
}

/// What looking `name` up in `ctx` gives (see [`InferContext::lookup`]).
pub open spec fn lookup_result(ctx: InferContext, name: Seq<char>) -> Option<InferTypeView> {
    match find_binding(ctx.poly_scopes(), ctx.mono_scopes(), name) {
        Some(ScopedBinding::Poly(sc)) => Some(apply_spec(inst_map(sc.quantified_vars@, ctx.next_var() as nat), sc.ty@)),
        Some(ScopedBinding::Mono(t)) => Some(t@),
        None => None,
    }
}

/// The variables looking `name` up in `ctx` draws.
pub open spec fn lookup_draws(ctx: InferContext, name: Seq<char>) -> nat {
    match find_binding(ctx.poly_scopes(), ctx.mono_scopes(), name) {
        Some(ScopedBinding::Poly(sc)) => sc.quantified_vars.len() as nat,
        _ => 0,
    }
}

/// The end of a function declaration `name`, once its body was inferred
/// and its scope left, with `fun_ty` its function type and `env_fvs` the
/// environment's variables taken before its parameters were bound: a
/// binding of `name` made beforehand (its hoisted variable) must equal
/// `fun_ty`; the constraints so far are then solved (their error, if any,
/// is the result), and `name` is bound to `fun_ty`'s resolved type
/// generalized against `env_fvs`, the generalization being recorded.
pub fn infer_fun_generalize(
    name: String,
    fun_ty: InferType,
    env_fvs: HashSet<u32>,
    span: &Span,
    ctx: &mut InferContext,
    gens: &mut Vec<FunGeneralization>,
) -> (r: Result<(), GustError>)
    requires
        old(ctx).wf(),
        match find_binding(old(ctx).poly_scopes(), old(ctx).mono_scopes(), name@) {
            Some(ScopedBinding::Poly(sc)) => old(ctx).next_var() + sc.quantified_vars.len() <= u32::MAX
                && terminates(inst_map(sc.quantified_vars@, old(ctx).next_var() as nat), sc.ty@),
            _ => true,
        },
    ensures
        final(ctx).wf(),
        final(ctx).next_var() == old(ctx).next_var() + lookup_draws(*old(ctx), name@),
        final(ctx).mono_scopes() == old(ctx).mono_scopes(),
        final(ctx).return_type() == old(ctx).return_type(),
        final(ctx).break_type() == old(ctx).break_type(),
        final(ctx).reg() == old(ctx).reg(),
        appended(
            old(ctx).constraint_list(),
            final(ctx).constraint_list(),
            match lookup_result(*old(ctx), name@) {
                Some(pre) => seq![(pre, fun_ty@)],
                None => Seq::empty(),
            },
            *span,
        ),
        match solve_spec(final(ctx).constraint_list()) {
            Err(f) => r matches Err(e) && solve_error(e, final(ctx).constraint_list(), f) && final(ctx).poly_scopes()
                == old(ctx).poly_scopes() && final(gens)@ == old(gens)@,
            Ok(m) => {
                let sc = final(ctx).poly_scopes().last()[name@];
                &&& r is Ok
                &&& generalizes(sc, subst1(m, fun_ty@), env_fvs@)
                &&& final(ctx).poly_scopes() == old(ctx).poly_scopes().update(
                    old(ctx).poly_scopes().len() - 1,
                    old(ctx).poly_scopes().last().insert(name@, sc),
                )
                &&& final(gens)@.len() == old(gens)@.len() + 1
                &&& final(gens)@.drop_last() == old(gens)@
                &&& final(gens)@.last().name@ == name@
                &&& final(gens)@.last().fun_ty@ == fun_ty@
                &&& final(gens)@.last().env_fvs@ == env_fvs@
            },
        },
{
    let ghost before = ctx.constraint_list();
    match ctx.lookup(name.as_str()) {
        Some(pre) => {
            ctx.add_constraint(pre, clone_infer(&fun_ty), span.clone());
            assert(ctx.constraint_list().take(before.len() as int) =~= ctx.constraint_list().drop_last());
        },
        None => {
            assert(ctx.constraint_list().take(before.len() as int) =~= ctx.constraint_list());
        },
    }
    let s = ctx.solve()?;
    proof { lemma_apply_idempotent(s@, fun_ty@); }
    let resolved = s.apply(&fun_ty);
    let scheme = generalize(resolved, &env_fvs);
    let ghost sc = scheme;
    let ghost p0 = ctx.poly_scopes();
    proof { ctx.lemma_wf_scopes(); }
    ctx.bind_poly(clone_string(&name), scheme);
    assert(ctx.poly_scopes().last() == p0.last().insert(name@, sc));
    gens.push(FunGeneralization { name, fun_ty, env_fvs });
    assert(gens@.drop_last() =~= old(gens)@);
    Ok(())
}

/// The types of parameters `params`, in order, with `next` the next fresh
/// variable: an annotated parameter has its annotation's type, each other
/// one the next fresh variable; and the next fresh variable afterwards.
pub open spec fn param_types(params: Seq<Param>, next: nat) -> (Seq<InferTypeView>, nat)
    decreases params.len(),
{
    if params.len() == 0 {
        (Seq::empty(), next)
    } else {
        let (ts, n) = param_types(params.drop_last(), next);
        match params.last().type_ann {
            Some(te) => (ts.push(te_to_infer(te@, Map::empty())), n),
            None => (ts.push(InferTypeView::Var(n as u32)), n + 1),
        }
    }
}

/// The scope binding each of `params` to its type in `tys` (a later
/// parameter of the same name winning), mutable as the parameter says.
pub open spec fn param_scope(params: Seq<Param>, tys: Seq<InferTypeView>) -> Map<Seq<char>, (InferTypeView, bool)>
    decreases params.len(),
{
    if params.len() == 0 || tys.len() < params.len() {
        Map::empty()
    } else {
        param_scope(params.drop_last(), tys.take(params.len() - 1)).insert(
            params.last().name@,
            (tys[params.len() - 1], params.last().mutable),
        )
    }
}

/// Entering a closure: its parameter types (see [`param_types`]) and its
/// return type (the annotation's, else a fresh variable after those of the
/// parameters); a new scope binding the parameters, and the return type
/// as the expected type of `return`. Gives the parameter types, the return
/// type and the enclosing function's return type, to restore on leaving.
pub fn infer_closure_enter(params: &Vec<Param>, return_type: &Option<TypeExpr>, ctx: &mut InferContext) -> (r: (
    Vec<InferType>,
    InferType,
    Option<InferType>,
))
    requires
        old(ctx).wf(),
        param_types(params@, old(ctx).next_var() as nat).1 + 1 <= u32::MAX,
    ensures
        final(ctx).wf(),
        infers_model(r.0@) == param_types(params@, old(ctx).next_var() as nat).0,
        ({
            let n1 = param_types(params@, old(ctx).next_var() as nat).1;
            match return_type {
                Some(te) => r.1@ == te_to_infer(te@, Map::empty()) && final(ctx).next_var() == n1,
                None => r.1@ == InferTypeView::Var(n1 as u32) && final(ctx).next_var() == n1 + 1,
            }
        }),
        r.2 == old(ctx).return_type(),
        final(ctx).return_type() matches Some(t) && t@ == r.1@,
        final(ctx).mono_scopes().len() == old(ctx).mono_scopes().len() + 1,
        final(ctx).mono_scopes().drop_last() == old(ctx).mono_scopes(),
        mono_view(final(ctx).mono_scopes().last()) == param_scope(params@, infers_model(r.0@)),
        final(ctx).poly_scopes() == old(ctx).poly_scopes().push(Map::empty()),
        final(ctx).constraint_list() == old(ctx).constraint_list(),
        final(ctx).break_type() == old(ctx).break_type(),
        final(ctx).reg() == old(ctx).reg(),
{
    let ghost n0 = old(ctx).next_var() as nat;
    let mut tys: Vec<InferType> = Vec::new();
    let mut i: usize = 0;
    proof { lemma_infers_model(tys@); }
    while i < params.len()
        invariant
            i <= params.len(),
            ctx.wf(),
            ctx.same_envs(old(ctx)),
            param_types(params@, n0).1 + 1 <= u32::MAX,
            infers_model(tys@) == param_types(params@.take(i as int), n0).0,
            ctx.next_var() == param_types(params@.take(i as int), n0).1,
            tys@.len() == i,
        decreases params.len() - i,
    {
        proof {
            assert(params@.take(i + 1).drop_last() =~= params@.take(i as int));
            lemma_param_types_mono(params@, n0, i + 1);
        }
        let t = match &params[i].type_ann {
            Some(te) => type_expr_to_infer(te),
            None => ctx.fresh_var(),
        };
        proof { lemma_infers_model_push(tys@, t); }
        tys.push(t);
        i += 1;
    }
    assert(params@.take(params.len() as int) =~= params@);
    let ret = match return_type {
        Some(te) => type_expr_to_infer(te),
        None => ctx.fresh_var(),
    };
    ctx.push_scope();
    let ghost m0 = ctx.mono_scopes();
    proof {
        lemma_infers_model(tys@);
        assert(mono_view(m0.last()) =~= param_scope(params@.take(0), infers_model(tys@).take(0)));
    }
    let mut j: usize = 0;
    while j < params.len()
        invariant
            j <= params.len(),
            tys@.len() == params.len(),
            ctx.wf(),
            m0.len() >= 1,
            ctx.mono_scopes().len() == m0.len(),
            ctx.mono_scopes().drop_last() == m0.drop_last(),
            mono_view(ctx.mono_scopes().last()) == param_scope(params@.take(j as int), infers_model(tys@).take(j as int)),
            infers_model(tys@).len() == tys@.len(),
            forall|k: int| 0 <= k < tys@.len() ==> #[trigger] infers_model(tys@)[k] == tys@[k]@,
            ctx.poly_scopes() == old(ctx).poly_scopes().push(Map::empty()),
            ctx.next_var() == final_next(old(ctx).next_var() as nat, params@, *return_type),
            ctx.constraint_list() == old(ctx).constraint_list(),
            ctx.return_type() == old(ctx).return_type(),
            ctx.break_type() == old(ctx).break_type(),
            ctx.reg() == old(ctx).reg(),
            m0.drop_last() == old(ctx).mono_scopes(),
        decreases params.len() - j,
    {
        let t = clone_infer(&tys[j]);
        let ghost prev = ctx.mono_scopes();
        proof {
            assert(params@.take(j + 1).drop_last() =~= params@.take(j as int));
            assert(infers_model(tys@).take(j + 1).take(j as int) =~= infers_model(tys@).take(j as int));
            lemma_infers_model(tys@);
        }
        ctx.bind_mono(clone_string(&params[j].name), t, params[j].mutable);
        proof {
            assert(ctx.mono_scopes().drop_last() =~= prev.drop_last());
            assert(mono_view(ctx.mono_scopes().last()) =~= mono_view(prev.last()).insert(
                params@[j as int].name@,
                (tys@[j as int]@, params@[j as int].mutable),
            ));
            assert(params@.take(j + 1).last() == params@[j as int]);
            assert(infers_model(tys@).take(j + 1)[j as int] == tys@[j as int]@);
        }
        j += 1;
    }
    assert(params@.take(params.len() as int) =~= params@);
    assert(infers_model(tys@).take(params.len() as int) =~= infers_model(tys@));
    let saved = ctx.push_return_type(clone_infer(&ret));
    (tys, ret, saved)
}

pub open spec fn final_next(n0: nat, params: Seq<Param>, return_type: Option<TypeExpr>) -> nat {
    param_types(params, n0).1 + if return_type is None { 1nat } else { 0nat }
}

proof fn lemma_param_types_mono(params: Seq<Param>, n0: nat, k: int)
    requires
        0 <= k <= params.len(),
    ensures
        param_types(params.take(k), n0).1 <= param_types(params, n0).1,
        param_types(params.take(k), n0).1 >= n0,
    decreases params.len(),
{
    if k == params.len() {
        assert(params.take(k) =~= params);
        lemma_param_types_ge(params, n0);
    } else {
        assert(params.drop_last().take(k) =~= params.take(k));
        lemma_param_types_mono(params.drop_last(), n0, k);
    }
}

proof fn lemma_param_types_ge(params: Seq<Param>, n0: nat)
    ensures
        param_types(params, n0).1 >= n0,
        param_types(params, n0).0.len() == params.len(),
    decreases params.len(),
{
    if params.len() > 0 {
        lemma_param_types_ge(params.drop_last(), n0);
    }
}

/// Leaving a closure whose body was inferred as `body_ty`: the body must
/// have the return type `ret` (a constraint at `body_span`), the enclosing
/// return type `saved` is restored and the closure's scope left. Its type
/// is the function from `param_tys` to `ret`.
pub fn infer_closure_exit(
    param_tys: Vec<InferType>,
    ret: InferType,
    body_ty: InferType,
    body_span: &Span,
    saved: Option<InferType>,
    ctx: &mut InferContext,
) -> (t: InferType)
    requires
        old(ctx).wf(),
        old(ctx).mono_scopes().len() > 1,
    ensures
        final(ctx).wf(),
        t@ == InferTypeView::Fun(infers_model(param_tys@), Box::new(ret@)),
        appended(old(ctx).constraint_list(), final(ctx).constraint_list(), seq![(body_ty@, ret@)], *body_span),
        final(ctx).return_type() == saved,
        final(ctx).mono_scopes() == old(ctx).mono_scopes().drop_last(),
        final(ctx).poly_scopes() == old(ctx).poly_scopes().drop_last(),
        final(ctx).next_var() == old(ctx).next_var(),
        final(ctx).break_type() == old(ctx).break_type(),
        final(ctx).reg() == old(ctx).reg(),
{
    let ghost before = ctx.constraint_list();
    ctx.add_constraint(body_ty, clone_infer(&ret), body_span.clone());
    assert(ctx.constraint_list().take(before.len() as int) =~= ctx.constraint_list().drop_last());
    ctx.pop_return_type(saved);
    ctx.pop_scope();
    InferType::Fun(param_tys, Box::new(ret))
}

} // verus!
