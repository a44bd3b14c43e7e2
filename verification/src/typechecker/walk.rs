//! The first pass of the type checker: the walk over expressions,
//! statements, blocks and declarations that records the constraints of a
//! program, applying at each node the rule of its form.
//!
//! What the walk does is stated as a relation between the state before and
//! after a node (the inference context and the generalizations recorded so
//! far) and the node's result. A record [`Dv`] of one node holds the two
//! states, the result and the records of the nodes it walked, in order;
//! [`ex_d`], [`stmt_d`], [`decl_d`], [`blk_d`] and their companions say
//! when a record is one of the given node: each case runs the node's parts
//! in order and then the rule of its form, and the first error stops the
//! walk. [`ex_rel`], [`stmt_rel`] and [`program_rel`] state the public
//! functions' contracts over them. [`ex_safe`] and its companions state what
//! the walk needs of the state to take no step outside its domain: room in
//! the variable counter before each fresh variable, and a terminating
//! instantiation at each polymorphic use.

use vstd::prelude::*;

use crate::ast::{BinOp, Literal, Span, UnaryOp};
use crate::error::{GustError, TypeErrorCode, is_type_error};
use crate::syntax::Expr;
use crate::text::{push_str, str_eq};
use crate::error::is_internal;
use super::inference::{find_field, find_variant, first_field, first_variant, lemma_first_field, lemma_first_variant, pattern_field_type, pattern_type_args};
use crate::typeinference::Substitution;
use crate::typeinference::model::lemma_apply_idempotent;
use crate::syntax::ImplDecl;
use crate::typeinference::context::{ScopedBinding, find_binding};
use crate::typeinference::model::{InferTypeView, apply_spec, terminates};
use crate::typeinference::{InferContext, InferType, clone_infer, infers_model, inst_map, lemma_infers_model, lemma_infers_model_push};
use super::inference::{
    appended, binop_constraints, binop_result, infer_binop, infer_literal, infer_unaryop, is_arith, literal_infer_type,
};
use super::rules::{
    FunGeneralization, arity_text, cast_allowed, cast_text, infer_assign_op, infer_call, infer_cast, infer_index,
    infer_method_call, infer_method_target, infer_path, infer_propagate, infer_tuple_access, path_member, resolved,
    result_of, same_frame, tuple_bounds_text,
};
use super::conversions::{te_to_infer, type_expr_to_infer};
use super::inference::{
    field_assign_ends, field_assign_outcome, field_outcome, infer_field_access_type, infer_field_assign_type,
    named_type_name_spec,
};
use crate::ast::{AssignOp, TypeExpr};
use crate::pathmap::{join_spec, pv};
use crate::typeinference::{solve_error, solve_spec};
use crate::typeinference::model::subst1;
use crate::syntax::{AssignTarget, BindDecl, Block, Decl, ForInit, FunDecl, MatchArm, Program, Stmt};
use super::inference::{ctx_state, infer_pattern, pat_effect, pat_vars};
use crate::ast::Pattern;
use crate::typeinference::context::{mono_bound, scope_popped, scope_pushed, var_drawn};
use super::registry::generic_map;
use super::rules::{infer_fun_generalize, lookup_draws, lookup_result};
use super::conversions::type_expr_to_infer_with_generics;
use crate::ast::Param;
use std::collections::HashSet;
use crate::typeinference::registry::TypeRegistry;
use crate::typeinference::registry::names_of;
use super::registry::{EnumView, enum_view, field_defs_view, field_entries, variant_entries, variants_view};
use super::conversions::generic_ids;
use crate::strmap::StrMap;
use crate::typeinference::{EnumInfo, TypeVar};
use super::inference::fields_view;
use super::rules::{generalizes, has_unbound_var, infer_closure_enter, infer_closure_exit, infer_for_in, infer_let_binding, infer_return, infer_break, for_in_text, param_types, param_scope, final_next};
use super::inference::mono_view;
use crate::types::TypeView;

verus! {

/// The state the walk threads: the inference context and the
/// generalizations recorded so far.
pub struct St {
    pub ctx: InferContext,
    pub gens: Seq<FunGeneralization>,
}

pub open spec fn st(ctx: InferContext, gens: Seq<FunGeneralization>) -> St {
    St { ctx, gens }
}

/// `c1` differs from `c0` at most in its constraints and its next variable.
pub open spec fn fr(c0: InferContext, c1: InferContext) -> bool {
    &&& c1.mono_scopes() == c0.mono_scopes()
    &&& c1.poly_scopes() == c0.poly_scopes()
    &&& c1.return_type() == c0.return_type()
    &&& c1.break_type() == c0.break_type()
    &&& c1.reg() == c0.reg()
    &&& c1.wf() == c0.wf()
}

// ── Steps ────────────────────────────────────────────────────────────────────

/// A literal's type (see [`infer_literal`]).
pub open spec fn lit_step(lit: Literal, c0: InferContext, t: InferType, c1: InferContext) -> bool {
    &&& t@ == literal_infer_type(lit, c0.next_var())
    &&& c1.next_var() == c0.next_var() + if lit is Nope { 1int } else { 0int }
    &&& c1.same_envs(&c0)
    &&& c1.wf() == c0.wf()
}

/// Looking a name up (see [`InferContext::lookup`]).
pub open spec fn lookup_step(c0: InferContext, name: Seq<char>, o: Option<InferType>, c1: InferContext) -> bool {
    &&& c1.wf() == c0.wf()
    &&& c1.same_envs(&c0)
    &&& match find_binding(c0.poly_scopes(), c0.mono_scopes(), name) {
        Some(ScopedBinding::Poly(sc)) => o matches Some(t) && t@ == apply_spec(
            inst_map(sc.quantified_vars@, c0.next_var() as nat),
            sc.ty@,
        ) && c1.next_var() == c0.next_var() + sc.quantified_vars.len(),
        Some(ScopedBinding::Mono(ty)) => o matches Some(t) && t@ == ty@ && c1.next_var() == c0.next_var(),
        None => o is None && c1.next_var() == c0.next_var(),
    }
}

/// What looking a name up needs: room for the fresh variables of a
/// polymorphic binding, and an instantiation that terminates.
pub open spec fn lookup_pre(c0: InferContext, name: Seq<char>) -> bool {
    match find_binding(c0.poly_scopes(), c0.mono_scopes(), name) {
        Some(ScopedBinding::Poly(sc)) => c0.next_var() + sc.quantified_vars.len() <= u32::MAX && terminates(
            inst_map(sc.quantified_vars@, c0.next_var() as nat),
            sc.ty@,
        ),
        _ => true,
    }
}

/// A binary operation's rule (see [`infer_binop`]).
pub open spec fn binop_step(l: InferType, op: BinOp, r: InferType, span: Span, c0: InferContext, t: InferType, c1: InferContext) -> bool {
    &&& t@ == binop_result(op, c0.next_var())
    &&& appended(c0.constraint_list(), c1.constraint_list(), binop_constraints(op, l@, r@, c0.next_var()), span)
    &&& c1.next_var() == c0.next_var() + if is_arith(op) { 1int } else { 0int }
    &&& fr(c0, c1)
}

/// A unary operation's rule (see [`infer_unaryop`]).
pub open spec fn unary_step(op: UnaryOp, ty: InferType, span: Span, c0: InferContext, t: InferType, c1: InferContext) -> bool {
    &&& op == UnaryOp::Neg ==> t@ == ty@ && c1.constraint_list() == c0.constraint_list()
    &&& op == UnaryOp::Not ==> t@ == InferTypeView::Concrete(TypeView::Bool) && appended(
        c0.constraint_list(),
        c1.constraint_list(),
        seq![(ty@, InferTypeView::Concrete(TypeView::Bool))],
        span,
    )
    &&& c1.next_var() == c0.next_var()
    &&& fr(c0, c1)
}

/// A call's rule (see [`infer_call`]).
pub open spec fn call_step(callee: InferType, args: Seq<InferType>, span: Span, c0: InferContext, r: Result<InferType, GustError>, c1: InferContext) -> bool {
    &&& fr(c0, c1)
    &&& match callee@ {
        InferTypeView::Fun(ps, _) if ps.len() != args.len() => r matches Err(e) && is_type_error(
            e,
            TypeErrorCode::T0004,
            arity_text(ps.len(), args.len()),
            span,
        ) && c1.constraint_list() == c0.constraint_list() && c1.next_var() == c0.next_var(),
        _ => r matches Ok(t) && t@ == InferTypeView::Var(c0.next_var()) && c1.next_var() == c0.next_var() + 1
            && appended(
            c0.constraint_list(),
            c1.constraint_list(),
            seq![(callee@, InferTypeView::Fun(infers_model(args), Box::new(InferTypeView::Var(c0.next_var()))))],
            span,
        ),
    }
}

/// Recording that `lhs` must equal `rhs` at `span`.
pub open spec fn add_step(c0: InferContext, lhs: InferTypeView, rhs: InferTypeView, span: Span, c1: InferContext) -> bool {
    &&& appended(c0.constraint_list(), c1.constraint_list(), seq![(lhs, rhs)], span)
    &&& c1.next_var() == c0.next_var()
    &&& fr(c0, c1)
}

/// An index on an object of type `obj` with an index of type `idx` (see
/// [`infer_index`]).
pub open spec fn index_step(obj: InferType, idx: InferType, span: Span, c0: InferContext, t: InferType, c1: InferContext) -> bool {
    &&& same_frame(c0, c1)
    &&& t@ == InferTypeView::Var(c0.next_var())
    &&& c1.next_var() == c0.next_var() + 1
    &&& appended(
        c0.constraint_list(),
        c1.constraint_list(),
        seq![
            (idx@, InferTypeView::Concrete(TypeView::Int)),
            (obj@, InferTypeView::Array(Box::new(InferTypeView::Var(c0.next_var())))),
        ],
        span,
    )
}

/// A cast of a value of type `src` to the type `target` (see [`infer_cast`]).
pub open spec fn cast_step(src: InferType, target: InferTypeView, span: Span, c: InferContext, r: Result<InferType, GustError>) -> bool {
    match solve_spec(c.constraint_list()) {
        Err(f) => r matches Err(e) && solve_error(e, c.constraint_list(), f),
        Ok(_) => if cast_allowed(resolved(c, src@), resolved(c, target)) {
            r matches Ok(t) && t@ == target
        } else {
            r matches Err(e) && is_type_error(
                e,
                TypeErrorCode::T0007,
                cast_text(resolved(c, src@), resolved(c, target)),
                span,
            )
        },
    }
}

/// `e.index` on an object of type `obj` (see [`infer_tuple_access`]).
pub open spec fn tuple_access_step(obj: InferType, index: nat, span: Span, c: InferContext, r: Result<InferType, GustError>) -> bool {
    match solve_spec(c.constraint_list()) {
        Err(f) => r matches Err(e) && solve_error(e, c.constraint_list(), f),
        Ok(_) => match resolved(c, obj@) {
            InferTypeView::Tuple(elems) => if index < elems.len() {
                r matches Ok(t) && t@ == elems[index as int]
            } else {
                r matches Err(e) && is_type_error(e, TypeErrorCode::T0003, tuple_bounds_text(index, elems.len()), span)
            },
            _ => r matches Err(e) && is_type_error(
                e,
                TypeErrorCode::T0002,
                "cannot infer tuple type for index access; add a type annotation"@,
                span,
            ),
        },
    }
}

/// A path `T::m` (see [`infer_path`]).
pub open spec fn path_step(segments: Vec<String>, span: Span, c0: InferContext, r: Result<InferType, GustError>, c1: InferContext) -> bool {
    &&& same_frame(c0, c1)
    &&& c1.constraint_list() == c0.constraint_list()
    &&& segments@.len() != 2 ==> (r matches Err(e) && is_type_error(
        e,
        TypeErrorCode::T0003,
        "unresolved path `"@ + join_spec(pv(segments), "::"@) + "`"@,
        span,
    ) && c1.next_var() == c0.next_var())
    &&& segments@.len() == 2 ==> match path_member(c0, segments@[0]@, segments@[1]@) {
        Some(t) => r matches Ok(x) && x@ == t && c1.next_var() == c0.next_var() + match t {
            InferTypeView::Named(_, args) if c0.reg().method(segments@[0]@, segments@[1]@) is None => args.len(),
            _ => 0,
        },
        None => r matches Err(e) && is_type_error(
            e,
            TypeErrorCode::T0003,
            "no member `"@ + segments@[1]@ + "` on type `"@ + segments@[0]@ + "`"@,
            span,
        ) && c1.next_var() == c0.next_var(),
    }
}

/// What a path needs: room for the fresh arguments of an enum's type.
pub open spec fn path_pre(segments: Vec<String>, c0: InferContext) -> bool {
    segments@.len() == 2 && c0.reg().enums().contains_key(segments@[0]@) ==> c0.next_var()
        + c0.reg().enums()[segments@[0]@].type_params.len() <= u32::MAX
}

/// `e?` on an operand of type `inner` (see [`infer_propagate`]).
pub open spec fn propagate_step(inner: InferType, span: Span, c0: InferContext, t: InferType, c1: InferContext) -> bool {
    let n = c0.next_var();
    let ok = InferTypeView::Var(n);
    let err = InferTypeView::Var((n + 1) as u32);
    &&& same_frame(c0, c1)
    &&& t@ == ok
    &&& match c0.return_type() {
        Some(fn_ret) => c1.next_var() == n + 3 && appended(
            c0.constraint_list(),
            c1.constraint_list(),
            seq![(inner@, result_of(ok, err)), (fn_ret@, result_of(InferTypeView::Var((n + 2) as u32), err))],
            span,
        ),
        None => c1.next_var() == n + 2 && appended(
            c0.constraint_list(),
            c1.constraint_list(),
            seq![(inner@, result_of(ok, err))],
            span,
        ),
    }
}

/// Reading field `field` of an object of type `obj` (see
/// [`infer_field_access_type`]).
pub open spec fn field_step(obj: InferType, field: Seq<char>, span: Span, c: InferContext, r: Result<InferType, GustError>) -> bool {
    match solve_spec(c.constraint_list()) {
        Err(f) => r matches Err(e) && solve_error(e, c.constraint_list(), f),
        Ok(s) => match field_outcome(subst1(s, obj@), field, c.reg(), "access"@) {
            Ok(t) => r matches Ok(x) && x@ == t,
            Err(k) => r matches Err(e) && is_type_error(e, k.0, k.1, span),
        },
    }
}

/// Writing field `field` of an object of type `obj` (see
/// [`infer_field_assign_type`]).
pub open spec fn field_write_step(obj: InferType, field: Seq<char>, span: Span, c: InferContext, r: Result<InferType, GustError>) -> bool {
    match solve_spec(c.constraint_list()) {
        Err(f) => r matches Err(e) && solve_error(e, c.constraint_list(), f),
        Ok(s) => match field_assign_outcome(subst1(s, obj@), field, c.reg()) {
            Ok(t) => r matches Ok(x) && x@ == t,
            Err(k) => r matches Err(e) && is_type_error(e, k.0, k.1, span),
        },
    }
}

/// What reading or writing a field of an object of type `obj` needs.
pub open spec fn field_pre(obj: InferType, field: Seq<char>, c: InferContext) -> bool {
    solve_spec(c.constraint_list()) matches Ok(s) ==> field_assign_ends(subst1(s, obj@), field, c.reg())
}

/// Finding method `method` for a receiver of type `recv` (see
/// [`infer_method_target`]): the resolved receiver and the method's type.
pub open spec fn target_step(recv: InferType, method: Seq<char>, span: Span, c: InferContext, r: Result<(InferType, InferType), GustError>) -> bool {
    match solve_spec(c.constraint_list()) {
        Err(f) => r matches Err(e) && solve_error(e, c.constraint_list(), f),
        Ok(_) => match named_type_name_spec(resolved(c, recv@)) {
            None => r matches Err(e) && is_type_error(
                e,
                TypeErrorCode::T0002,
                "cannot infer receiver type for method call; add a type annotation"@,
                span,
            ),
            Some(n) => match c.reg().method(n, method) {
                Some(m) => r matches Ok((rv, mt)) && rv@ == resolved(c, recv@) && mt@ == m@,
                None => r matches Err(e) && is_type_error(
                    e,
                    TypeErrorCode::T0003,
                    "no method `"@ + method + "` on `"@ + n + "`"@,
                    span,
                ),
            },
        },
    }
}

/// A method call (see [`infer_method_call`]).
pub open spec fn method_step(mt: InferType, recv: InferType, args: Seq<InferType>, span: Span, c0: InferContext, t: InferType, c1: InferContext) -> bool {
    &&& same_frame(c0, c1)
    &&& t@ == InferTypeView::Var(c0.next_var())
    &&& c1.next_var() == c0.next_var() + 1
    &&& appended(
        c0.constraint_list(),
        c1.constraint_list(),
        seq![(mt@, InferTypeView::Fun(seq![recv@] + infers_model(args), Box::new(InferTypeView::Var(c0.next_var()))))],
        span,
    )
}

/// The type of a variable written to (see [`InferContext::lookup_for_write`]).
pub open spec fn write_step(c: InferContext, name: Seq<char>, span: Span, r: Result<InferType, GustError>) -> bool {
    match crate::typeinference::context::find_scoped(c.mono_scopes(), name) {
        None => r matches Err(e) && is_type_error(
            e,
            TypeErrorCode::T0003,
            "use of undeclared variable `"@ + name + "`"@,
            span,
        ),
        Some(entry) => if entry.1 {
            r matches Ok(t) && t@ == entry.0@
        } else {
            r matches Err(e) && is_type_error(
                e,
                TypeErrorCode::T0006,
                "cannot assign to immutable binding `"@ + name + "`"@,
                span,
            )
        },
    }
}

/// An assignment's rule (see [`infer_assign_op`]).
pub open spec fn assign_step(target: InferType, op: AssignOp, value: InferType, span: Span, c0: InferContext, t: InferType, c1: InferContext) -> bool {
    &&& same_frame(c0, c1)
    &&& t@ == InferTypeView::Concrete(TypeView::Unit)
    &&& op == AssignOp::Assign ==> c1.next_var() == c0.next_var() && appended(
        c0.constraint_list(),
        c1.constraint_list(),
        seq![(target@, value@)],
        span,
    )
    &&& op != AssignOp::Assign ==> c1.next_var() == c0.next_var() + 1 && appended(
        c0.constraint_list(),
        c1.constraint_list(),
        seq![(target@, InferTypeView::Var(c0.next_var())), (value@, InferTypeView::Var(c0.next_var()))],
        span,
    )
}

// ── Steps of blocks, declarations and statements ────────────────────────────

/// The registry's aspects, struct type parameters and methods are the same.
pub open spec fn reg_rest(r0: TypeRegistry, r1: TypeRegistry) -> bool {
    &&& r1.same_aspects(&r0)
    &&& r1.struct_params() == r0.struct_params()
    &&& forall|t: Seq<char>, m: Seq<char>| #[trigger] r1.method(t, m) == r0.method(t, m)
}

/// Opening a lexical scope: one more scope of each kind.
pub open spec fn push_step(c0: InferContext, c1: InferContext) -> bool {
    scope_pushed(c0, c1)
}

/// Closing a lexical scope: the innermost scope of each kind is dropped.
pub open spec fn pop_step(c0: InferContext, c1: InferContext) -> bool {
    scope_popped(c0, c1)
}

/// Entering a block: a lexical scope and a struct scope are opened.
pub open spec fn enter_step(c0: InferContext, c1: InferContext) -> bool {
    &&& c1.wf()
    &&& c1.mono_scopes() == c0.mono_scopes().push(Map::empty())
    &&& c1.poly_scopes() == c0.poly_scopes().push(Map::empty())
    &&& c1.next_var() == c0.next_var()
    &&& c1.constraint_list() == c0.constraint_list()
    &&& c1.return_type() == c0.return_type()
    &&& c1.break_type() == c0.break_type()
    &&& reg_rest(c0.reg(), c1.reg())
    &&& c1.reg().enums() == c0.reg().enums()
    &&& c1.reg().structs() == c0.reg().structs()
    &&& c1.reg().scopes() == c0.reg().scopes().push(Seq::empty())
}

/// Leaving a block: its struct scope and its lexical scope are closed; the
/// structs registered in the struct scope are forgotten.
pub open spec fn exit_step(c0: InferContext, c1: InferContext) -> bool {
    &&& c1.wf()
    &&& c1.mono_scopes() == c0.mono_scopes().drop_last()
    &&& c1.poly_scopes() == c0.poly_scopes().drop_last()
    &&& c1.next_var() == c0.next_var()
    &&& c1.constraint_list() == c0.constraint_list()
    &&& c1.return_type() == c0.return_type()
    &&& c1.break_type() == c0.break_type()
    &&& reg_rest(c0.reg(), c1.reg())
    &&& c1.reg().enums() == c0.reg().enums()
    &&& if c0.reg().scopes().len() > 0 {
        &&& c1.reg().scopes() == c0.reg().scopes().drop_last()
        &&& c1.reg().structs() == c0.reg().structs().remove_keys(names_of(c0.reg().scopes().last()))
    } else {
        &&& c1.reg().scopes() == c0.reg().scopes()
        &&& c1.reg().structs() == c0.reg().structs()
    }
}

/// Registering a block's own struct or enum declaration `decl` (anything
/// else registers nothing).
pub open spec fn reg1(c0: InferContext, decl: Decl, c1: InferContext) -> bool {
    match decl {
        Decl::Struct(sd) => {
            &&& c1.wf()
            &&& c1.same_but_registry(&c0)
            &&& reg_rest(c0.reg(), c1.reg())
            &&& c1.reg().enums() == c0.reg().enums()
            &&& c1.reg().structs() == c0.reg().structs().insert(sd.name@, c1.reg().structs()[sd.name@])
            &&& fields_view(c1.reg().structs()[sd.name@]@) == field_defs_view(sd.fields@, Map::empty())
            &&& c0.reg().scopes().len() == 0 ==> c1.reg().scopes() == c0.reg().scopes()
            &&& c0.reg().scopes().len() > 0 ==> c1.reg().scopes() == c0.reg().scopes().update(
                c0.reg().scopes().len() - 1,
                c0.reg().scopes().last().push(sd.name),
            )
        },
        Decl::Enum(ed) => {
            &&& c1.wf()
            &&& c1.same_but_registry(&c0)
            &&& reg_rest(c0.reg(), c1.reg())
            &&& c1.reg().structs() == c0.reg().structs()
            &&& c1.reg().scopes() == c0.reg().scopes()
            &&& c1.reg().enums() == c0.reg().enums().insert(ed.name@, c1.reg().enums()[ed.name@])
            &&& enum_view(c1.reg().enums()[ed.name@]) == (EnumView {
                type_params: Seq::empty(),
                variants: variants_view(ed.variants@, Map::empty()),
            })
        },
        _ => c1 == c0,
    }
}

/// A declaration that is hoisted: a function without generic parameters.
pub open spec fn hoists_d(d: Decl) -> bool {
    d matches Decl::Fun(fd) && fd.generics.len() == 0
}

/// How many of `decls` are hoisted.
pub open spec fn hoist_n(decls: Seq<Decl>) -> nat
    decreases decls.len(),
{
    if decls.len() == 0 {
        0
    } else {
        hoist_n(decls.drop_last()) + if hoists_d(decls.last()) { 1nat } else { 0nat }
    }
}

/// The innermost scope after hoisting `decls` into `scope`: each hoisted
/// function is bound, immutably, to the next fresh variable from `start`.
pub open spec fn hoist_map(scope: Map<Seq<char>, (InferType, bool)>, decls: Seq<Decl>, start: nat) -> Map<
    Seq<char>,
    (InferType, bool),
>
    decreases decls.len(),
{
    if decls.len() == 0 {
        scope
    } else {
        let prev = hoist_map(scope, decls.drop_last(), start);
        if hoists_d(decls.last()) {
            prev.insert(
                decls.last()->Fun_0.name@,
                (InferType::Var(crate::typeinference::TypeVar((start + hoist_n(decls.drop_last())) as u32)), false),
            )
        } else {
            prev
        }
    }
}

/// Hoisting a block's functions (see [`hoist_map`]).
pub open spec fn hoist_step(c0: InferContext, decls: Seq<Decl>, c1: InferContext) -> bool {
    &&& c1.wf()
    &&& c1.mono_scopes() == c0.mono_scopes().update(
        c0.mono_scopes().len() - 1,
        hoist_map(c0.mono_scopes().last(), decls, c0.next_var() as nat),
    )
    &&& c1.next_var() == c0.next_var() + hoist_n(decls)
    &&& c1.poly_scopes() == c0.poly_scopes()
    &&& c1.constraint_list() == c0.constraint_list()
    &&& c1.return_type() == c0.return_type()
    &&& c1.break_type() == c0.break_type()
    &&& c1.reg() == c0.reg()
}

/// Binding `name` to `t` in the innermost scope.
pub open spec fn bind_step(c0: InferContext, name: Seq<char>, t: InferType, mutable: bool, c1: InferContext) -> bool {
    mono_bound(c0, name, t, mutable, c1)
}

/// The variables free in the monomorphic environment.
pub open spec fn env_vars(c: InferContext) -> Set<u32> {
    Set::new(
        |v: u32|
            exists|i: int, k: Seq<char>|
                0 <= i < c.mono_scopes().len() && #[trigger] c.mono_scopes()[i].contains_key(k) && crate::typeinference::model::fv(
                    c.mono_scopes()[i][k].0@,
                ).contains(v),
    )
}

/// The annotation of a binding, as a type.
pub open spec fn ann_of(bd: BindDecl) -> Option<InferTypeView> {
    match bd.type_ann {
        Some(a) => Some(te_to_infer(a@, Map::empty())),
        None => None,
    }
}

/// A `let` binding's rule (see [`infer_let_binding`]), for a value of type
/// `val_ty` and the environment's variables `env` before the value.
pub open spec fn let_step(bd: BindDecl, val_ty: InferType, env: Set<u32>, c0: InferContext, g0: Seq<FunGeneralization>, r: Result<InferType, GustError>, c1: InferContext, g1: Seq<FunGeneralization>) -> bool {
    let name = bd.name@;
    let span = bd.span;
    let ann = ann_of(bd);
    let value_is_closure = bd.value is Closure;
    &&& c1.wf()
    &&& c1.next_var() == c0.next_var()
    &&& c1.return_type() == c0.return_type()
    &&& c1.break_type() == c0.break_type()
    &&& c1.reg() == c0.reg()
    &&& r matches Ok(t) ==> t@ == InferTypeView::Concrete(TypeView::Unit)
    &&& match ann {
        Some(a) => appended(c0.constraint_list(), c1.constraint_list(), seq![(val_ty@, a)], span),
        None => c1.constraint_list() == c0.constraint_list(),
    }
    &&& ({
        let cs = c0.constraint_list();
        let last = c0.mono_scopes().len() - 1;
        let mono = c1.mono_scopes() == c0.mono_scopes().update(last, c0.mono_scopes().last().insert(name, (val_ty, false)))
            && c1.poly_scopes() == c0.poly_scopes() && g1 == g0 && r is Ok;
        if ann is None && value_is_closure {
            match solve_spec(cs) {
                Err(f) => r matches Err(e) && solve_error(e, cs, f) && c1.mono_scopes() == c0.mono_scopes()
                    && c1.poly_scopes() == c0.poly_scopes() && g1 == g0,
                Ok(m) => {
                    let t = subst1(m, val_ty@);
                    if has_unbound_var(t, env) {
                        let sc = c1.poly_scopes().last()[name];
                        &&& r is Ok
                        &&& generalizes(sc, t, env)
                        &&& c1.poly_scopes() == c0.poly_scopes().update(
                            c0.poly_scopes().len() - 1,
                            c0.poly_scopes().last().insert(name, sc),
                        )
                        &&& c1.mono_scopes() == c0.mono_scopes()
                        &&& g1.len() == g0.len() + 1
                        &&& g1.drop_last() == g0
                        &&& g1.last().name@ == name
                        &&& g1.last().fun_ty@ == t
                        &&& g1.last().env_fvs@ == env
                    } else {
                        mono
                    }
                },
            }
        } else {
            mono
        }
    })
}

/// A `return`'s rule (see [`infer_return`]).
pub open spec fn ret_step(value: InferTypeView, span: Span, c0: InferContext, c1: InferContext) -> bool {
    &&& same_frame(c0, c1)
    &&& c1.next_var() == c0.next_var()
    &&& match c0.return_type() {
        Some(expected) => appended(c0.constraint_list(), c1.constraint_list(), seq![(value, expected@)], span),
        None => c1.constraint_list() == c0.constraint_list(),
    }
}

/// A `break`'s rule (see [`infer_break`]).
pub open spec fn brk_step(value: InferTypeView, span: Span, c0: InferContext, c1: InferContext) -> bool {
    &&& same_frame(c0, c1)
    &&& c1.next_var() == c0.next_var()
    &&& match c0.break_type() {
        Some(expected) => appended(c0.constraint_list(), c1.constraint_list(), seq![(value, expected@)], span),
        None => c1.constraint_list() == c0.constraint_list(),
    }
}

/// A `for … in`'s rule on an iterable of type `iter` (see [`infer_for_in`]).
pub open spec fn for_in_step(iter: InferType, span: Span, c0: InferContext, r: Result<InferType, GustError>, c1: InferContext) -> bool {
    &&& same_frame(c0, c1)
    &&& c1.next_var() == c0.next_var() + 2
    &&& ({
        let elem = InferTypeView::Var(c0.next_var());
        match solve_spec(c0.constraint_list()) {
            Err(f) => r matches Err(e) && solve_error(e, c0.constraint_list(), f) && c1.constraint_list()
                == c0.constraint_list(),
            Ok(_) => match resolved(c0, iter@) {
                InferTypeView::Array(el) => r matches Ok(t) && t@ == elem && appended(
                    c0.constraint_list(),
                    c1.constraint_list(),
                    seq![(elem, *el)],
                    span,
                ),
                InferTypeView::Named(n, args) if n == "Range"@ && args.len() == 1 => r matches Ok(t) && t@ == elem
                    && appended(
                    c0.constraint_list(),
                    c1.constraint_list(),
                    seq![(elem, InferTypeView::Concrete(TypeView::Int))],
                    span,
                ),
                InferTypeView::Var(_) => r matches Ok(t) && t@ == elem && appended(
                    c0.constraint_list(),
                    c1.constraint_list(),
                    seq![(iter@, InferTypeView::Array(Box::new(elem)))],
                    span,
                ),
                other => r matches Err(e) && is_type_error(e, TypeErrorCode::T0001, for_in_text(other), span)
                    && c1.constraint_list() == c0.constraint_list(),
            },
        }
    })
}

/// Entering a closure (see [`infer_closure_enter`]): the parameters' types
/// `ps`, the return type `ret`, and the return type saved.
pub open spec fn closure_enter_step(params: Seq<crate::ast::Param>, return_type: Option<TypeExpr>, c0: InferContext, ps: Seq<InferType>, ret: InferType, saved: Option<InferType>, c1: InferContext) -> bool {
    &&& c1.wf()
    &&& infers_model(ps) == param_types(params, c0.next_var() as nat).0
    &&& ({
        let n1 = param_types(params, c0.next_var() as nat).1;
        match return_type {
            Some(te) => ret@ == te_to_infer(te@, Map::empty()) && c1.next_var() == n1,
            None => ret@ == InferTypeView::Var(n1 as u32) && c1.next_var() == n1 + 1,
        }
    })
    &&& saved == c0.return_type()
    &&& c1.return_type() matches Some(t) && t@ == ret@
    &&& c1.mono_scopes().len() == c0.mono_scopes().len() + 1
    &&& c1.mono_scopes().drop_last() == c0.mono_scopes()
    &&& mono_view(c1.mono_scopes().last()) == param_scope(params, infers_model(ps))
    &&& c1.poly_scopes() == c0.poly_scopes().push(Map::empty())
    &&& c1.constraint_list() == c0.constraint_list()
    &&& c1.break_type() == c0.break_type()
    &&& c1.reg() == c0.reg()
}

/// Leaving a closure (see [`infer_closure_exit`]).
pub open spec fn closure_exit_step(ps: Seq<InferType>, ret: InferType, body: InferType, body_span: Span, saved: Option<InferType>, c0: InferContext, t: InferType, c1: InferContext) -> bool {
    &&& c1.wf()
    &&& t@ == InferTypeView::Fun(infers_model(ps), Box::new(ret@))
    &&& appended(c0.constraint_list(), c1.constraint_list(), seq![(body@, ret@)], body_span)
    &&& c1.return_type() == saved
    &&& c1.mono_scopes() == c0.mono_scopes().drop_last()
    &&& c1.poly_scopes() == c0.poly_scopes().drop_last()
    &&& c1.next_var() == c0.next_var()
    &&& c1.break_type() == c0.break_type()
    &&& c1.reg() == c0.reg()
}

/// Entering a `loop`: a fresh variable `bv` becomes the break type.
pub open spec fn loop_enter_step(c0: InferContext, bv: InferType, c1: InferContext) -> bool {
    &&& bv@ == InferTypeView::Var(c0.next_var())
    &&& c1.next_var() == c0.next_var() + 1
    &&& c1.break_type() matches Some(b) && b@ == bv@
    &&& c1.mono_scopes() == c0.mono_scopes()
    &&& c1.poly_scopes() == c0.poly_scopes()
    &&& c1.constraint_list() == c0.constraint_list()
    &&& c1.return_type() == c0.return_type()
    &&& c1.reg() == c0.reg()
    &&& c1.wf() == c0.wf()
}

/// Leaving a `loop`: the break type is `prev` again.
pub open spec fn loop_exit_step(c0: InferContext, prev: Option<InferType>, c1: InferContext) -> bool {
    &&& c1.break_type() == prev
    &&& c1.mono_scopes() == c0.mono_scopes()
    &&& c1.poly_scopes() == c0.poly_scopes()
    &&& c1.next_var() == c0.next_var()
    &&& c1.constraint_list() == c0.constraint_list()
    &&& c1.return_type() == c0.return_type()
    &&& c1.reg() == c0.reg()
    &&& c1.wf() == c0.wf()
}

pub open spec fn is_unit(r: Result<Val, GustError>) -> bool {
    r matches Ok(Val::One(t)) && t@ == InferTypeView::Concrete(TypeView::Unit)
}

pub open spec fn is_never(r: Result<Val, GustError>) -> bool {
    r matches Ok(Val::One(t)) && t@ == InferTypeView::Never
}

/// `d` records one step that gives nothing and leaves the state as it was.
pub open spec fn idle(d: Dv) -> bool {
    d.r == Ok::<Val, GustError>(Val::Many(Seq::empty())) && d.s1 == d.s0
}

/// `d` records one step that gives nothing and leaves the generalizations.
pub open spec fn quiet(d: Dv) -> bool {
    d.r == Ok::<Val, GustError>(Val::Many(Seq::empty())) && d.s1.gens == d.s0.gens
}

/// `d` records requiring `lhs` to equal `rhs` at `span`.
pub open spec fn add_rec(d: Dv, lhs: InferTypeView, rhs: InferTypeView, span: Span) -> bool {
    quiet(d) && add_step(d.s0.ctx, lhs, rhs, span, d.s1.ctx)
}

/// `d` records opening a lexical scope.
pub open spec fn push_rec(d: Dv) -> bool {
    quiet(d) && push_step(d.s0.ctx, d.s1.ctx)
}

/// `d` records binding `name` to `t` in the innermost scope.
pub open spec fn bind_rec(d: Dv, name: Seq<char>, t: InferType, mutable: bool) -> bool {
    quiet(d) && bind_step(d.s0.ctx, name, t, mutable, d.s1.ctx)
}

/// `d` records entering a block.
pub open spec fn enter_rec(d: Dv) -> bool {
    quiet(d) && enter_step(d.s0.ctx, d.s1.ctx)
}

/// `d` records hoisting the functions of `decls`.
pub open spec fn hoist_rec(d: Dv, decls: Seq<Decl>) -> bool {
    quiet(d) && hoist_step(d.s0.ctx, decls, d.s1.ctx)
}

/// `d` records entering a `loop`: its result is the fresh break type.
pub open spec fn loop_rec(d: Dv) -> bool {
    d.r matches Ok(Val::One(bv)) && d.s1.gens == d.s0.gens && loop_enter_step(d.s0.ctx, bv, d.s1.ctx)
}

/// `d` records entering a closure: its result is the parameters' types
/// followed by the return type.
pub open spec fn closure_rec(d: Dv, params: Seq<crate::ast::Param>, return_type: Option<TypeExpr>) -> bool {
    d.r matches Ok(Val::Many(m)) && m.len() >= 1 && d.s1.gens == d.s0.gens && closure_enter_step(
        params,
        return_type,
        d.s0.ctx,
        m.drop_last(),
        m.last(),
        d.s0.ctx.return_type(),
        d.s1.ctx,
    )
}

/// `d` records the rule of `for … in` on an iterable of type `iter`.
pub open spec fn for_in_rec(d: Dv, iter: InferType, span: Span) -> bool {
    &&& !(d.r matches Ok(Val::Many(_)))
    &&& d.s1.gens == d.s0.gens
    &&& for_in_step(iter, span, d.s0.ctx, unone(d.r), d.s1.ctx)
}

/// `d` records registering the struct and enum declarations of `decls`.
pub open spec fn regs_d(d: Dv, decls: Seq<Decl>) -> bool
    decreases decls.len(),
{
    if decls.len() == 0 {
        idle(d)
    } else {
        &&& d.kids.len() >= 1
        &&& regs_d(d.kids[0], decls.drop_last())
        &&& d.kids[0].s0 == d.s0
        &&& quiet(d)
        &&& d.s1.gens == d.kids[0].s1.gens
        &&& reg1(d.kids[0].s1.ctx, decls.last(), d.s1.ctx)
    }
}

/// `d` records entering block `b`: its scopes opened, its types registered
/// and its functions hoisted.
pub open spec fn head(d: Dv, b: Block) -> bool {
    &&& d.kids.len() >= 3
    &&& enter_rec(d.kids[0])
    &&& d.kids[0].s0 == d.s0
    &&& regs_d(d.kids[1], b.stmts@)
    &&& d.kids[1].s0 == d.kids[0].s1
    &&& hoist_rec(d.kids[2], b.stmts@)
    &&& d.kids[2].s0 == d.kids[1].s1
    &&& d.s1 == d.kids[2].s1
    &&& d.r == Ok::<Val, GustError>(Val::Many(Seq::empty()))
}

/// The types of a function's parameters, read with its generic parameters
/// `g`: an annotation's type, else the next fresh variable from `next`; and
/// the next variable after them.
pub open spec fn fun_param_types(params: Seq<Param>, g: Map<Seq<char>, u32>, next: nat) -> (Seq<InferTypeView>, nat)
    decreases params.len(),
{
    if params.len() == 0 {
        (Seq::empty(), next)
    } else {
        let (ts, n) = fun_param_types(params.drop_last(), g, next);
        match params.last().type_ann {
            Some(te) => (ts.push(te_to_infer(te@, g)), n),
            None => (ts.push(InferTypeView::Var(n as u32)), n + 1),
        }
    }
}

/// The scope binding each of a function's parameters, immutably, to its
/// type in `tys` (a later parameter of the same name winning).
pub open spec fn fun_scope(params: Seq<Param>, tys: Seq<InferTypeView>) -> Map<Seq<char>, (InferTypeView, bool)>
    decreases params.len(),
{
    if params.len() == 0 || tys.len() < params.len() {
        Map::empty()
    } else {
        fun_scope(params.drop_last(), tys.take(params.len() - 1)).insert(params.last().name@, (tys[params.len() - 1], false))
    }
}

/// The next variable after entering function `fd` from `n0`: one per
/// generic parameter, one per unannotated parameter, and one for an
/// unannotated return type.
pub open spec fn fun_next(fd: FunDecl, n0: nat) -> nat {
    fun_param_types(fd.params@, generic_map(fd.generics@, n0), (n0 + fd.generics.len()) as nat).1 + if fd.return_type is None {
        1nat
    } else {
        0nat
    }
}

/// Entering function `fd`: a fresh variable for each generic parameter,
/// the parameters' types `ps` and the return type `ret`; a new scope binding
/// the parameters, and `ret` as the expected type of `return`.
pub open spec fn fun_enter_step(fd: FunDecl, c0: InferContext, ps: Seq<InferType>, ret: InferType, c1: InferContext) -> bool {
    let n0 = c0.next_var() as nat;
    let g = generic_map(fd.generics@, n0);
    let (tys, n2) = fun_param_types(fd.params@, g, (n0 + fd.generics.len()) as nat);
    &&& c1.wf()
    &&& infers_model(ps) == tys
    &&& match fd.return_type {
        Some(te) => ret@ == te_to_infer(te@, g) && c1.next_var() == n2,
        None => ret@ == InferTypeView::Var(n2 as u32) && c1.next_var() == n2 + 1,
    }
    &&& c1.return_type() matches Some(t) && t@ == ret@
    &&& c1.mono_scopes().len() == c0.mono_scopes().len() + 1
    &&& c1.mono_scopes().drop_last() == c0.mono_scopes()
    &&& mono_view(c1.mono_scopes().last()) == fun_scope(fd.params@, tys)
    &&& c1.poly_scopes() == c0.poly_scopes().push(Map::empty())
    &&& c1.constraint_list() == c0.constraint_list()
    &&& c1.break_type() == c0.break_type()
    &&& c1.reg() == c0.reg()
}

/// `d` records entering function `fd`: its result is the parameters' types
/// followed by the return type.
pub open spec fn fun_rec(d: Dv, fd: FunDecl) -> bool {
    d.r matches Ok(Val::Many(m)) && m.len() >= 1 && d.s1.gens == d.s0.gens && fun_enter_step(
        fd,
        d.s0.ctx,
        m.drop_last(),
        m.last(),
        d.s1.ctx,
    )
}

/// `d` records leaving a function or closure body of type `body`: its result
/// is the function's type.
pub open spec fn exit_rec(d: Dv, ps: Seq<InferType>, ret: InferType, body: InferType, body_span: Span, saved: Option<InferType>) -> bool {
    d.r matches Ok(Val::One(t)) && d.s1.gens == d.s0.gens && closure_exit_step(ps, ret, body, body_span, saved, d.s0.ctx, t, d.s1.ctx)
}

/// Solving and generalizing function `name` of type `fun_ty` (see
/// [`infer_fun_generalize`]).
pub open spec fn gen_step(name: Seq<char>, fun_ty: InferTypeView, env: Set<u32>, span: Span, c0: InferContext, g0: Seq<FunGeneralization>, r: Result<(), GustError>, c1: InferContext, g1: Seq<FunGeneralization>) -> bool {
    &&& c1.wf()
    &&& c1.next_var() == c0.next_var() + lookup_draws(c0, name)
    &&& c1.mono_scopes() == c0.mono_scopes()
    &&& c1.return_type() == c0.return_type()
    &&& c1.break_type() == c0.break_type()
    &&& c1.reg() == c0.reg()
    &&& appended(
        c0.constraint_list(),
        c1.constraint_list(),
        match lookup_result(c0, name) {
            Some(pre) => seq![(pre, fun_ty)],
            None => Seq::empty(),
        },
        span,
    )
    &&& match solve_spec(c1.constraint_list()) {
        Err(f) => r matches Err(e) && solve_error(e, c1.constraint_list(), f) && c1.poly_scopes() == c0.poly_scopes()
            && g1 == g0,
        Ok(m) => {
            let sc = c1.poly_scopes().last()[name];
            &&& r is Ok
            &&& generalizes(sc, subst1(m, fun_ty), env)
            &&& c1.poly_scopes() == c0.poly_scopes().update(c0.poly_scopes().len() - 1, c0.poly_scopes().last().insert(name, sc))
            &&& g1.len() == g0.len() + 1
            &&& g1.drop_last() == g0
            &&& g1.last().name@ == name
            &&& g1.last().fun_ty@ == fun_ty
            &&& g1.last().env_fvs@ == env
        },
    }
}

/// The outcome of a step that gives nothing but may fail.
pub open spec fn unit_r(r: Result<Val, GustError>) -> Result<(), GustError> {
    match r {
        Ok(_) => Ok(()),
        Err(x) => Err(x),
    }
}

/// Checking pattern `pat` against a scrutinee of type `scrut` (see
/// [`infer_pattern`]).
pub open spec fn pat_step(pat: Pattern, scrut: InferType, c0: InferContext, r: Result<(), GustError>, c1: InferContext) -> bool {
    &&& c1.wf()
    &&& c1.reg() == c0.reg()
    &&& c1.poly_scopes() == c0.poly_scopes()
    &&& c1.return_type() == c0.return_type()
    &&& c1.break_type() == c0.break_type()
    &&& c1.mono_scopes().len() == c0.mono_scopes().len()
    &&& c1.mono_scopes().drop_last() == c0.mono_scopes().drop_last()
    &&& ctx_state(c1) == pat_effect(pat, scrut@, ctx_state(c0), c0.reg().enums()).0
    &&& match pat_effect(pat, scrut@, ctx_state(c0), c0.reg().enums()).1 {
        None => r is Ok && c1.next_var() == c0.next_var() + pat_vars(pat, c0.reg().enums()),
        Some(e) => r matches Err(x) && is_type_error(x, TypeErrorCode::T0003, e.msg, e.span),
    }
}

/// `d` records checking pattern `pat` against a scrutinee of type `scrut`.
pub open spec fn pat_rec(d: Dv, pat: Pattern, scrut: InferType) -> bool {
    &&& (d.r is Ok ==> d.r == Ok::<Val, GustError>(Val::Many(Seq::empty())))
    &&& d.s1.gens == d.s0.gens
    &&& pat_step(pat, scrut, d.s0.ctx, unit_r(d.r), d.s1.ctx)
}

/// A result that carries nothing, as a record's result.
pub open spec fn unit_val(r: Result<(), GustError>) -> Result<Val, GustError> {
    match r {
        Ok(_) => Ok(Val::Many(Seq::empty())),
        Err(x) => Err(x),
    }
}

/// `d` records drawing a fresh variable, its result.
pub open spec fn drew(d: Dv) -> bool {
    d.r matches Ok(Val::One(t)) && d.s1.gens == d.s0.gens && var_drawn(d.s0.ctx, t, d.s1.ctx)
}

/// What a struct or variant literal's path names in the registry.
pub enum LitShape {
    /// The path is empty.
    Empty,
    /// The path names nothing known: the message of the `T0003` error.
    Unknown(Seq<char>),
    /// The type `name` with type parameters `qs`, whose literal declares
    /// the fields `decl`; `owner` names it in messages, and `all` says
    /// whether every declared field must be given.
    Found { name: Seq<char>, qs: Seq<TypeVar>, decl: Seq<(Seq<char>, InferTypeView)>, owner: Seq<char>, all: bool },
}

/// What the literal with path `path` builds: a variant `E::V` of an enum
/// for a path of two segments, else the struct named by the last segment.
pub open spec fn lit_shape(c: InferContext, path: Seq<String>) -> LitShape {
    if path.len() == 2 {
        let e = path[0]@;
        let v = path[1]@;
        if !c.reg().enums().contains_key(e) {
            LitShape::Unknown("unknown enum `"@ + e + "`"@)
        } else {
            let info = c.reg().enums()[e];
            match first_variant(info.variants@, v) {
                None => LitShape::Unknown("no variant `"@ + v + "` on enum `"@ + e + "`"@),
                Some(i) => LitShape::Found {
                    name: e,
                    qs: info.type_params@,
                    decl: fields_view(info.variants@[i].fields@),
                    owner: e + "::"@ + v,
                    all: false,
                },
            }
        }
    } else if path.len() == 0 {
        LitShape::Empty
    } else {
        let n = path.last()@;
        if !c.reg().structs().contains_key(n) {
            LitShape::Unknown("unknown struct `"@ + n + "`"@)
        } else {
            LitShape::Found {
                name: n,
                qs: if c.reg().struct_params().contains_key(n) {
                    c.reg().struct_params()[n]@
                } else {
                    Seq::empty()
                },
                decl: fields_view(c.reg().structs()[n]@),
                owner: n,
                all: true,
            }
        }
    }
}

/// `d` records drawing a fresh variable for each of the type parameters
/// `qs`: its result is the type arguments they give.
pub open spec fn remap_rec(d: Dv, qs: Seq<TypeVar>) -> bool {
    &&& d.r matches Ok(Val::Many(ta)) && infers_model(ta) == pattern_type_args(qs, inst_map(qs, d.s0.ctx.next_var() as nat))
    &&& d.s1.ctx.next_var() == d.s0.ctx.next_var() + qs.len()
    &&& d.s1.ctx.same_envs(&d.s0.ctx)
    &&& d.s1.ctx.wf() == d.s0.ctx.wf()
    &&& d.s1.gens == d.s0.gens
}

/// Some of `given` is named `n`.
pub open spec fn has_name(given: Seq<(String, Expr)>, n: Seq<char>) -> bool {
    exists|i: int| 0 <= i < given.len() && #[trigger] given[i].0@ == n
}

/// The first of the declared fields `decl` that `given` does not name.
pub open spec fn first_unset(decl: Seq<(Seq<char>, InferTypeView)>, given: Seq<(String, Expr)>) -> Option<int>
    decreases decl.len(),
{
    if decl.len() == 0 {
        None
    } else if !has_name(given, decl[0].0) {
        Some(0)
    } else {
        match first_unset(decl.drop_first(), given) {
            Some(j) => Some(j + 1),
            None => None,
        }
    }
}

/// The types of a method's parameters: `self` is the impl's type
/// `self_ty`; otherwise as for a function (see [`fun_param_types`]).
pub open spec fn method_param_types(params: Seq<Param>, g: Map<Seq<char>, u32>, self_ty: InferTypeView, next: nat) -> (Seq<InferTypeView>, nat)
    decreases params.len(),
{
    if params.len() == 0 {
        (Seq::empty(), next)
    } else {
        let (ts, n) = method_param_types(params.drop_last(), g, self_ty, next);
        if params.last().name@ == "self"@ {
            (ts.push(self_ty), n)
        } else {
            match params.last().type_ann {
                Some(te) => (ts.push(te_to_infer(te@, g)), n),
                None => (ts.push(InferTypeView::Var(n as u32)), n + 1),
            }
        }
    }
}

/// The type an impl's methods belong to.
pub open spec fn self_of(target: Seq<char>) -> InferTypeView {
    InferTypeView::Named(target, Seq::empty())
}

/// The next variable after entering method `m` from `n0`.
pub open spec fn method_next(m: FunDecl, target: Seq<char>, n0: nat) -> nat {
    method_param_types(m.params@, generic_map(m.generics@, n0), self_of(target), (n0 + m.generics.len()) as nat).1
}

/// Entering method `m` of type `target`: a fresh variable for each generic
/// parameter, the parameters' types `ps` and the return type `ret` (unit
/// when not annotated); a new scope binding the parameters, and `ret` as
/// the expected type of `return`.
pub open spec fn method_enter_step(m: FunDecl, target: Seq<char>, c0: InferContext, ps: Seq<InferType>, ret: InferType, c1: InferContext) -> bool {
    let n0 = c0.next_var() as nat;
    let g = generic_map(m.generics@, n0);
    let (tys, n2) = method_param_types(m.params@, g, self_of(target), (n0 + m.generics.len()) as nat);
    &&& c1.wf()
    &&& infers_model(ps) == tys
    &&& c1.next_var() == n2
    &&& ret@ == match m.return_type {
        Some(te) => te_to_infer(te@, g),
        None => InferTypeView::Concrete(TypeView::Unit),
    }
    &&& c1.return_type() matches Some(t) && t@ == ret@
    &&& c1.mono_scopes().len() == c0.mono_scopes().len() + 1
    &&& c1.mono_scopes().drop_last() == c0.mono_scopes()
    &&& mono_view(c1.mono_scopes().last()) == param_scope(m.params@, tys)
    &&& c1.poly_scopes() == c0.poly_scopes().push(Map::empty())
    &&& c1.constraint_list() == c0.constraint_list()
    &&& c1.break_type() == c0.break_type()
    &&& c1.reg() == c0.reg()
}

/// `d` records entering method `m` of `target`: its result is the
/// parameters' types followed by the return type.
pub open spec fn method_rec(d: Dv, m: FunDecl, target: Seq<char>) -> bool {
    d.r matches Ok(Val::Many(x)) && x.len() >= 1 && d.s1.gens == d.s0.gens && method_enter_step(
        m,
        target,
        d.s0.ctx,
        x.drop_last(),
        x.last(),
        d.s1.ctx,
    )
}

/// Registering method `name` of `owner` with type `t`.
pub open spec fn method_registered(c0: InferContext, owner: Seq<char>, name: Seq<char>, t: InferTypeView, c1: InferContext) -> bool {
    &&& c1.wf()
    &&& c1.same_but_registry(&c0)
    &&& c1.reg().same_aspects(&c0.reg())
    &&& c1.reg().method(owner, name) matches Some(x) && x@ == t
    &&& forall|o: Seq<char>, n: Seq<char>| !(o == owner && n == name) ==> #[trigger] c1.reg().method(o, n) == c0.reg().method(o, n)
    &&& c1.reg().structs() == c0.reg().structs()
    &&& c1.reg().enums() == c0.reg().enums()
}

// ── The relation ─────────────────────────────────────────────────────────────

/// What a node of the walk gave: one type, or the types of a sequence.
pub enum Val {
    One(InferType),
    Many(Seq<InferType>),
}

/// A record of one node of the walk: the state before it, its result, the
/// state after it, and the records of the nodes it walked, in order.
pub struct Dv {
    pub s0: St,
    pub r: Result<Val, GustError>,
    pub s1: St,
    pub kids: Seq<Dv>,
}

pub open spec fn one(r: Result<InferType, GustError>) -> Result<Val, GustError> {
    match r {
        Ok(t) => Ok(Val::One(t)),
        Err(x) => Err(x),
    }
}

pub open spec fn many(r: Result<Seq<InferType>, GustError>) -> Result<Val, GustError> {
    match r {
        Ok(ts) => Ok(Val::Many(ts)),
        Err(x) => Err(x),
    }
}

/// `d` stopped at the error of its kid `k`.
pub open spec fn stops(d: Dv, k: Dv) -> bool {
    k.r is Err && d.r == k.r && d.s1 == k.s1
}

/// `d` records inferring expression `e`.
pub open spec fn ex_d(d: Dv, e: Expr) -> bool
    decreases e, 0nat,
{
    match e {
        Expr::Literal(lit, _) => d.r matches Ok(Val::One(t)) && lit_step(lit, d.s0.ctx, t, d.s1.ctx) && d.s1.gens
            == d.s0.gens,
        Expr::Ident(name, span) => d.s1.gens == d.s0.gens && match d.r {
            Ok(Val::One(t)) => lookup_step(d.s0.ctx, name@, Some(t), d.s1.ctx),
            Err(x) => lookup_step(d.s0.ctx, name@, None, d.s1.ctx) && is_type_error(
                x,
                TypeErrorCode::T0003,
                "undefined name `"@ + name@ + "`"@,
                span,
            ),
            _ => false,
        },
        Expr::BinOp(l, op, rr, span) => d.kids.len() >= 1 && ex_d(d.kids[0], *l) && d.kids[0].s0 == d.s0
            && match d.kids[0].r {
            Err(_) => stops(d, d.kids[0]),
            Ok(Val::One(tl)) => d.kids.len() >= 2 && ex_d(d.kids[1], *rr) && d.kids[1].s0 == d.kids[0].s1
                && match d.kids[1].r {
                Err(_) => stops(d, d.kids[1]),
                Ok(Val::One(tr)) => d.r matches Ok(Val::One(t)) && binop_step(
                    tl,
                    op,
                    tr,
                    span,
                    d.kids[1].s1.ctx,
                    t,
                    d.s1.ctx,
                ) && d.s1.gens == d.kids[1].s1.gens,
                _ => false,
            },
            _ => false,
        },
        Expr::UnaryOp(op, x, span) => d.kids.len() >= 1 && ex_d(d.kids[0], *x) && d.kids[0].s0 == d.s0
            && match d.kids[0].r {
            Err(_) => stops(d, d.kids[0]),
            Ok(Val::One(tx)) => d.r matches Ok(Val::One(t)) && unary_step(op, tx, span, d.kids[0].s1.ctx, t, d.s1.ctx)
                && d.s1.gens == d.kids[0].s1.gens,
            _ => false,
        },
        Expr::Tuple(es, _) => d.kids.len() >= 1 && exs_d(d.kids[0], es@) && d.kids[0].s0 == d.s0 && d.s1
            == d.kids[0].s1 && match d.kids[0].r {
            Err(x) => d.r == Err::<Val, GustError>(x),
            Ok(Val::Many(ts)) => d.r matches Ok(Val::One(t)) && t@ == InferTypeView::Tuple(infers_model(ts)),
            _ => false,
        },
        Expr::Call { callee, args, span } => d.kids.len() >= 1 && ex_d(d.kids[0], *callee) && d.kids[0].s0 == d.s0
            && match d.kids[0].r {
            Err(_) => stops(d, d.kids[0]),
            Ok(Val::One(tc)) => d.kids.len() >= 2 && exs_d(d.kids[1], args@) && d.kids[1].s0 == d.kids[0].s1
                && match d.kids[1].r {
                Err(_) => stops(d, d.kids[1]),
                Ok(Val::Many(ts)) => !(d.r matches Ok(Val::Many(_))) && call_step(
                    tc,
                    ts,
                    span,
                    d.kids[1].s1.ctx,
                    unone(d.r),
                    d.s1.ctx,
                ) && d.s1.gens == d.kids[1].s1.gens,
                _ => false,
            },
            _ => false,
        },
        Expr::StructLiteral { path, fields, span } => match lit_shape(d.s0.ctx, path@) {
            LitShape::Empty => d.s1 == d.s0 && (d.r matches Err(x) && is_internal(x, "empty path in struct literal"@)),
            LitShape::Unknown(msg) => d.s1 == d.s0 && (d.r matches Err(x) && is_type_error(x, TypeErrorCode::T0003, msg, span)),
            LitShape::Found { name, qs, decl, owner, all } => {
                let k = d.kids;
                &&& k.len() >= 2
                &&& remap_rec(k[0], qs)
                &&& k[0].s0 == d.s0
                &&& lit_fields_d(k[1], fields@, decl, inst_map(qs, d.s0.ctx.next_var() as nat), owner, span)
                &&& k[1].s0 == k[0].s1
                &&& d.s1 == k[1].s1
                &&& match k[1].r {
                    Err(x) => d.r == Err::<Val, GustError>(x),
                    Ok(_) => match if all { first_unset(decl, fields@) } else { None } {
                        Some(j) => d.r matches Err(x) && is_type_error(
                            x,
                            TypeErrorCode::T0003,
                            "missing field `"@ + decl[j].0 + "` in `"@ + owner + "`"@,
                            span,
                        ),
                        None => d.r matches Ok(Val::One(t)) && t@ == InferTypeView::Named(name, infers_model(k[0].r->Ok_0->Many_0)),
                    },
                }
            },
        },
        Expr::Match { scrutinee, arms, .. } => d.kids.len() >= 1 && ex_d(d.kids[0], *scrutinee) && d.kids[0].s0
            == d.s0 && match d.kids[0].r {
            Err(_) => stops(d, d.kids[0]),
            Ok(Val::One(ts)) => {
                let k = d.kids;
                &&& k.len() >= 3
                &&& drew(k[1])
                &&& k[1].s0 == k[0].s1
                &&& arms_d(k[2], arms@, ts, one_of(k[1].r))
                &&& k[2].s0 == k[1].s1
                &&& d.s1 == k[2].s1
                &&& match k[2].r {
                    Err(x) => d.r == Err::<Val, GustError>(x),
                    Ok(_) => d.r == k[1].r,
                }
            },
            _ => false,
        },
        Expr::If { condition, then_branch, else_branch, span } => d.kids.len() >= 1 && ex_d(d.kids[0], *condition)
            && d.kids[0].s0 == d.s0 && match d.kids[0].r {
            Err(_) => stops(d, d.kids[0]),
            Ok(Val::One(tc)) => {
                &&& d.kids.len() >= 3
                &&& add_rec(d.kids[1], tc@, InferTypeView::Concrete(TypeView::Bool), span)
                &&& d.kids[1].s0 == d.kids[0].s1
                &&& blk_d(d.kids[2], then_branch)
                &&& d.kids[2].s0 == d.kids[1].s1
                &&& match d.kids[2].r {
                    Err(_) => stops(d, d.kids[2]),
                    Ok(Val::One(tt)) => match else_branch {
                        Some(eb) => d.kids.len() >= 4 && blk_d(d.kids[3], eb) && d.kids[3].s0 == d.kids[2].s1 && match d.kids[3].r {
                            Err(_) => stops(d, d.kids[3]),
                            Ok(Val::One(te)) => d.r == Ok::<Val, GustError>(Val::One(tt)) && add_step(
                                d.kids[3].s1.ctx,
                                tt@,
                                te@,
                                span,
                                d.s1.ctx,
                            ) && d.s1.gens == d.kids[3].s1.gens,
                            _ => false,
                        },
                        None => is_unit(d.r) && add_step(
                            d.kids[2].s1.ctx,
                            tt@,
                            InferTypeView::Concrete(TypeView::Unit),
                            span,
                            d.s1.ctx,
                        ) && d.s1.gens == d.kids[2].s1.gens,
                    },
                    _ => false,
                }
            },
            _ => false,
        },
        Expr::Loop { body, .. } => d.kids.len() >= 2 && loop_rec(d.kids[0]) && d.kids[0].s0 == d.s0 && blk_d(
            d.kids[1],
            body,
        ) && d.kids[1].s0 == d.kids[0].s1 && match d.kids[1].r {
            Err(_) => stops(d, d.kids[1]),
            Ok(_) => d.r == d.kids[0].r && loop_exit_step(d.kids[1].s1.ctx, d.s0.ctx.break_type(), d.s1.ctx) && d.s1.gens
                == d.kids[1].s1.gens,
        },
        Expr::Closure { params, return_type, body, .. } => d.kids.len() >= 2 && closure_rec(
            d.kids[0],
            params@,
            return_type,
        ) && d.kids[0].s0 == d.s0 && blk_d(d.kids[1], body) && d.kids[1].s0 == d.kids[0].s1 && match d.kids[1].r {
            Err(_) => stops(d, d.kids[1]),
            Ok(Val::One(tb)) => {
                let m = d.kids[0].r->Ok_0->Many_0;
                d.r matches Ok(Val::One(t)) && closure_exit_step(
                    m.drop_last(),
                    m.last(),
                    tb,
                    body.span,
                    d.s0.ctx.return_type(),
                    d.kids[1].s1.ctx,
                    t,
                    d.s1.ctx,
                ) && d.s1.gens == d.kids[1].s1.gens
            },
            _ => false,
        },
        Expr::Array(es, span) => if es@.len() == 0 {
            &&& d.r matches Ok(Val::One(t)) && t@ == InferTypeView::Array(Box::new(InferTypeView::Var(d.s0.ctx.next_var())))
            &&& d.s1.ctx.next_var() == d.s0.ctx.next_var() + 1
            &&& d.s1.ctx.same_envs(&d.s0.ctx)
            &&& d.s1.ctx.wf() == d.s0.ctx.wf()
            &&& d.s1.gens == d.s0.gens
        } else {
            d.kids.len() >= 1 && ex_d(d.kids[0], es@[0]) && d.kids[0].s0 == d.s0 && match d.kids[0].r {
                Err(_) => stops(d, d.kids[0]),
                Ok(Val::One(tf)) => d.kids.len() >= 2 && arr_d(d.kids[1], es@.drop_first(), tf, span) && d.kids[1].s0
                    == d.kids[0].s1 && d.s1 == d.kids[1].s1 && match d.kids[1].r {
                    Err(x) => d.r == Err::<Val, GustError>(x),
                    Ok(_) => d.r matches Ok(Val::One(t)) && t@ == InferTypeView::Array(Box::new(tf@)),
                },
                _ => false,
            }
        },
        Expr::Index { object, index, span } => d.kids.len() >= 1 && ex_d(d.kids[0], *object) && d.kids[0].s0 == d.s0
            && match d.kids[0].r {
            Err(_) => stops(d, d.kids[0]),
            Ok(Val::One(to)) => d.kids.len() >= 2 && ex_d(d.kids[1], *index) && d.kids[1].s0 == d.kids[0].s1
                && match d.kids[1].r {
                Err(_) => stops(d, d.kids[1]),
                Ok(Val::One(ti)) => d.r matches Ok(Val::One(t)) && index_step(to, ti, span, d.kids[1].s1.ctx, t, d.s1.ctx)
                    && d.s1.gens == d.kids[1].s1.gens,
                _ => false,
            },
            _ => false,
        },
        Expr::Ascribe { expr, ann, span } => d.kids.len() >= 1 && ex_d(d.kids[0], *expr) && d.kids[0].s0 == d.s0
            && match d.kids[0].r {
            Err(_) => stops(d, d.kids[0]),
            Ok(Val::One(ti)) => d.r == Ok::<Val, GustError>(Val::One(ti)) && add_step(
                d.kids[0].s1.ctx,
                ti@,
                te_to_infer(ann@, Map::empty()),
                span,
                d.s1.ctx,
            ) && d.s1.gens == d.kids[0].s1.gens,
            _ => false,
        },
        Expr::Cast { expr, target_type, span } => d.kids.len() >= 1 && ex_d(d.kids[0], *expr) && d.kids[0].s0 == d.s0
            && d.s1 == d.kids[0].s1 && match d.kids[0].r {
            Err(_) => d.r == d.kids[0].r,
            Ok(Val::One(ts)) => !(d.r matches Ok(Val::Many(_))) && cast_step(
                ts,
                te_to_infer(target_type@, Map::empty()),
                span,
                d.s1.ctx,
                unone(d.r),
            ),
            _ => false,
        },
        Expr::TupleAccess { object, index, span } => d.kids.len() >= 1 && ex_d(d.kids[0], *object) && d.kids[0].s0
            == d.s0 && d.s1 == d.kids[0].s1 && match d.kids[0].r {
            Err(_) => d.r == d.kids[0].r,
            Ok(Val::One(to)) => !(d.r matches Ok(Val::Many(_))) && tuple_access_step(
                to,
                index as nat,
                span,
                d.s1.ctx,
                unone(d.r),
            ),
            _ => false,
        },
        Expr::Path(segments, span) => !(d.r matches Ok(Val::Many(_))) && path_step(
            segments,
            span,
            d.s0.ctx,
            unone(d.r),
            d.s1.ctx,
        ) && d.s1.gens == d.s0.gens,
        Expr::PropagateError { expr, span } => d.kids.len() >= 1 && ex_d(d.kids[0], *expr) && d.kids[0].s0 == d.s0
            && match d.kids[0].r {
            Err(_) => stops(d, d.kids[0]),
            Ok(Val::One(ti)) => d.r matches Ok(Val::One(t)) && propagate_step(ti, span, d.kids[0].s1.ctx, t, d.s1.ctx)
                && d.s1.gens == d.kids[0].s1.gens,
            _ => false,
        },
        Expr::FieldAccess { object, field, span } => d.kids.len() >= 1 && ex_d(d.kids[0], *object) && d.kids[0].s0
            == d.s0 && d.s1 == d.kids[0].s1 && match d.kids[0].r {
            Err(_) => d.r == d.kids[0].r,
            Ok(Val::One(to)) => !(d.r matches Ok(Val::Many(_))) && field_step(to, field@, span, d.s1.ctx, unone(d.r)),
            _ => false,
        },
        Expr::MethodCall { receiver, method, args, span } => d.kids.len() >= 1 && ex_d(d.kids[0], *receiver)
            && d.kids[0].s0 == d.s0 && match d.kids[0].r {
            Err(_) => stops(d, d.kids[0]),
            Ok(Val::One(tr)) => {
                let k1 = d.kids[1];
                &&& d.kids.len() >= 2
                &&& k1.s0 == d.kids[0].s1
                &&& k1.s1 == k1.s0
                &&& k1.kids.len() == 0
                &&& !(k1.r matches Ok(Val::One(_)))
                &&& (k1.r matches Ok(Val::Many(p)) ==> p.len() == 2)
                &&& target_step(tr, method@, span, k1.s0.ctx, pair_r(k1.r))
                &&& match k1.r {
                    Err(_) => stops(d, k1),
                    Ok(Val::Many(p)) => d.kids.len() >= 3 && exs_d(d.kids[2], args@) && d.kids[2].s0 == k1.s1
                        && match d.kids[2].r {
                        Err(_) => stops(d, d.kids[2]),
                        Ok(Val::Many(ts)) => d.r matches Ok(Val::One(t)) && method_step(
                            p[1],
                            p[0],
                            ts,
                            span,
                            d.kids[2].s1.ctx,
                            t,
                            d.s1.ctx,
                        ) && d.s1.gens == d.kids[2].s1.gens,
                        _ => false,
                    },
                    _ => false,
                }
            },
            _ => false,
        },
        Expr::Assign { target, op, value, span } => d.kids.len() >= 1 && tgt_d(d.kids[0], target) && d.kids[0].s0
            == d.s0 && match d.kids[0].r {
            Err(_) => stops(d, d.kids[0]),
            Ok(Val::One(tt)) => d.kids.len() >= 2 && ex_d(d.kids[1], *value) && d.kids[1].s0 == d.kids[0].s1
                && match d.kids[1].r {
                Err(_) => stops(d, d.kids[1]),
                Ok(Val::One(tv)) => d.r matches Ok(Val::One(t)) && assign_step(tt, op, tv, span, d.kids[1].s1.ctx, t, d.s1.ctx)
                    && d.s1.gens == d.kids[1].s1.gens,
                _ => false,
            },
            _ => false,
        },
    }
}

/// `d` records walking block `b`: entering it, inferring its declarations
/// in order, then its tail expression, if any, and leaving it. Its type is
/// the tail's, else the last declaration's, else unit.
pub open spec fn blk_d(d: Dv, b: Block) -> bool
    decreases b, 0nat,
{
    &&& d.kids.len() >= 2
    &&& head(d.kids[0], b)
    &&& d.kids[0].s0 == d.s0
    &&& decls_d(d.kids[1], b.stmts@)
    &&& d.kids[1].s0 == d.kids[0].s1
    &&& match d.kids[1].r {
        Err(_) => stops(d, d.kids[1]),
        Ok(Val::One(lt)) => match b.tail {
            Some(tail) => d.kids.len() >= 3 && ex_d(d.kids[2], *tail) && d.kids[2].s0 == d.kids[1].s1 && match d.kids[2].r {
                Err(_) => stops(d, d.kids[2]),
                Ok(Val::One(tt)) => d.r == Ok::<Val, GustError>(Val::One(tt)) && exit_step(d.kids[2].s1.ctx, d.s1.ctx)
                    && d.s1.gens == d.kids[2].s1.gens,
                _ => false,
            },
            None => d.r == Ok::<Val, GustError>(Val::One(lt)) && exit_step(d.kids[1].s1.ctx, d.s1.ctx) && d.s1.gens
                == d.kids[1].s1.gens,
        },
        _ => false,
    }
}

/// `d` records checking the arms `arms` of a `match` in order, against a
/// scrutinee of type `scrut` and with result type `rv`.
pub open spec fn arms_d(d: Dv, arms: Seq<MatchArm>, scrut: InferType, rv: InferType) -> bool
    decreases arms, 1nat,
{
    if arms.len() == 0 {
        idle(d)
    } else {
        d.kids.len() >= 1 && arms_d(d.kids[0], arms.drop_last(), scrut, rv) && d.kids[0].s0 == d.s0 && match d.kids[0].r {
            Err(_) => stops(d, d.kids[0]),
            Ok(_) => d.kids.len() >= 2 && arm_d(d.kids[1], arms.last(), scrut, rv) && d.kids[1].s0 == d.kids[0].s1 && d.r
                == d.kids[1].r && d.s1 == d.kids[1].s1,
        }
    }
}

/// `d` records checking one arm of a `match`: in a scope of its own, its
/// pattern, its guard (required to be `Bool`), and its body, whose type must
/// be the match's result type `rv`.
pub open spec fn arm_d(d: Dv, arm: MatchArm, scrut: InferType, rv: InferType) -> bool
    decreases arm, 0nat,
{
    let k = d.kids;
    &&& k.len() >= 2
    &&& push_rec(k[0])
    &&& k[0].s0 == d.s0
    &&& pat_rec(k[1], arm.pattern, scrut)
    &&& k[1].s0 == k[0].s1
    &&& match k[1].r {
        Err(_) => stops(d, k[1]),
        Ok(_) => k.len() >= 3 && cond_d(k[2], arm.guard, arm.span) && k[2].s0 == k[1].s1 && match k[2].r {
            Err(_) => stops(d, k[2]),
            Ok(_) => k.len() >= 4 && blk_d(k[3], arm.body) && k[3].s0 == k[2].s1 && match k[3].r {
                Err(_) => stops(d, k[3]),
                Ok(Val::One(ta)) => {
                    &&& k.len() >= 5
                    &&& add_rec(k[4], ta@, rv@, arm.span)
                    &&& k[4].s0 == k[3].s1
                    &&& d.r == Ok::<Val, GustError>(Val::Many(Seq::empty()))
                    &&& pop_step(k[4].s1.ctx, d.s1.ctx)
                    &&& d.s1.gens == k[4].s1.gens
                },
                _ => false,
            },
        },
    }
}

/// No step of checking the arms `arms` of a `match` falls outside its domain.
pub open spec fn arms_safe(arms: Seq<MatchArm>, scrut: InferType, rv: InferType, s0: St) -> bool
    decreases arms, 1nat,
{
    if arms.len() == 0 {
        true
    } else {
        arms_safe(arms.drop_last(), scrut, rv, s0) && forall|d: Dv|
            #[trigger] arms_d(d, arms.drop_last(), scrut, rv) && went(d, s0) ==> arm_safe(arms.last(), scrut, rv, d.s1)
    }
}

/// No step of checking one arm of a `match` falls outside its domain.
pub open spec fn arm_safe(arm: MatchArm, scrut: InferType, rv: InferType, s0: St) -> bool
    decreases arm, 0nat,
{
    forall|p: Dv| #[trigger] push_rec(p) && p.s0 == s0 ==> (p.s1.ctx.next_var() + pat_vars(arm.pattern, p.s1.ctx.reg().enums())
        <= u32::MAX && forall|d1: Dv| #[trigger] pat_rec(d1, arm.pattern, scrut) && went(d1, p.s1) ==> (opt_safe(arm.guard, d1.s1)
        && forall|d2: Dv| #[trigger] cond_d(d2, arm.guard, arm.span) && went(d2, d1.s1) ==> blk_safe(arm.body, d2.s1)))
}

/// `d` records the fields `fields` of a literal in order: each must be one
/// of the declared fields `decl` (else `T0003`, naming `owner`); its value
/// is inferred and required to have the declared type, read through `remap`.
pub open spec fn lit_fields_d(d: Dv, fields: Seq<(String, Expr)>, decl: Seq<(Seq<char>, InferTypeView)>, remap: Map<u32, InferTypeView>, owner: Seq<char>, span: Span) -> bool
    decreases fields, 1nat,
{
    if fields.len() == 0 {
        idle(d)
    } else {
        d.kids.len() >= 1 && lit_fields_d(d.kids[0], fields.drop_last(), decl, remap, owner, span) && d.kids[0].s0 == d.s0
            && match d.kids[0].r {
            Err(_) => stops(d, d.kids[0]),
            Ok(_) => match first_field(decl, fields.last().0@) {
                None => d.s1 == d.kids[0].s1 && (d.r matches Err(x) && is_type_error(
                    x,
                    TypeErrorCode::T0003,
                    "no field `"@ + fields.last().0@ + "` on `"@ + owner + "`"@,
                    span,
                )),
                Some(i) => d.kids.len() >= 2 && ex_d(d.kids[1], fields.last().1) && d.kids[1].s0 == d.kids[0].s1
                    && match d.kids[1].r {
                    Err(_) => stops(d, d.kids[1]),
                    Ok(Val::One(te)) => d.r == Ok::<Val, GustError>(Val::Many(Seq::empty())) && add_step(
                        d.kids[1].s1.ctx,
                        te@,
                        pattern_field_type(decl[i].1, remap),
                        span,
                        d.s1.ctx,
                    ) && d.s1.gens == d.kids[1].s1.gens,
                    _ => false,
                },
            },
        }
    }
}

/// No step of a literal's fields falls outside its domain.
pub open spec fn lit_fields_safe(fields: Seq<(String, Expr)>, decl: Seq<(Seq<char>, InferTypeView)>, remap: Map<u32, InferTypeView>, owner: Seq<char>, span: Span, s0: St) -> bool
    decreases fields, 1nat,
{
    if fields.len() == 0 {
        true
    } else {
        lit_fields_safe(fields.drop_last(), decl, remap, owner, span, s0) && forall|d: Dv|
            #[trigger] lit_fields_d(d, fields.drop_last(), decl, remap, owner, span) && went(d, s0) ==> ex_safe(
                fields.last().1,
                d.s1,
            )
    }
}

/// `d` records inferring the methods `ms` of type `target` in order.
pub open spec fn methods_d(d: Dv, ms: Seq<FunDecl>, target: Seq<char>) -> bool
    decreases ms, 1nat,
{
    if ms.len() == 0 {
        idle(d)
    } else {
        d.kids.len() >= 1 && methods_d(d.kids[0], ms.drop_last(), target) && d.kids[0].s0 == d.s0 && match d.kids[0].r {
            Err(_) => stops(d, d.kids[0]),
            Ok(_) => d.kids.len() >= 2 && method_d(d.kids[1], ms.last(), target) && d.kids[1].s0 == d.kids[0].s1 && d.r
                == d.kids[1].r && d.s1 == d.kids[1].s1,
        }
    }
}

/// `d` records inferring method `m` of type `target`: its body is checked
/// against its signature, the constraints so far are solved, and the
/// method is registered with its resolved type.
pub open spec fn method_d(d: Dv, m: FunDecl, target: Seq<char>) -> bool
    decreases m, 0nat,
{
    d.kids.len() >= 2 && method_rec(d.kids[0], m, target) && d.kids[0].s0 == d.s0 && blk_d(d.kids[1], m.body)
        && d.kids[1].s0 == d.kids[0].s1 && match d.kids[1].r {
        Err(_) => stops(d, d.kids[1]),
        Ok(Val::One(tb)) => {
            let x = d.kids[0].r->Ok_0->Many_0;
            let k2 = d.kids[2];
            &&& d.kids.len() >= 3
            &&& exit_rec(k2, x.drop_last(), x.last(), tb, m.body.span, d.s0.ctx.return_type())
            &&& k2.s0 == d.kids[1].s1
            &&& match solve_spec(k2.s1.ctx.constraint_list()) {
                Err(f) => d.s1 == k2.s1 && (d.r matches Err(e) && solve_error(e, k2.s1.ctx.constraint_list(), f)),
                Ok(sub) => d.r == Ok::<Val, GustError>(Val::Many(Seq::empty())) && d.s1.gens == k2.s1.gens
                    && method_registered(k2.s1.ctx, target, m.name@, subst1(sub, one_of(k2.r)@), d.s1.ctx),
            }
        },
        _ => false,
    }
}

/// No step of inferring the methods `ms` falls outside its domain.
pub open spec fn methods_safe(ms: Seq<FunDecl>, target: Seq<char>, s0: St) -> bool
    decreases ms, 1nat,
{
    if ms.len() == 0 {
        true
    } else {
        methods_safe(ms.drop_last(), target, s0) && forall|d: Dv|
            #[trigger] methods_d(d, ms.drop_last(), target) && went(d, s0) ==> method_safe(ms.last(), target, d.s1)
    }
}

/// No step of inferring method `m` falls outside its domain.
pub open spec fn method_safe(m: FunDecl, target: Seq<char>, s0: St) -> bool
    decreases m, 0nat,
{
    method_next(m, target, s0.ctx.next_var() as nat) <= u32::MAX && forall|k0: Dv|
        #[trigger] method_rec(k0, m, target) && k0.s0 == s0 ==> blk_safe(m.body, k0.s1)
}

/// `d` records inferring `decls` in order; its type is the last one's, or
/// unit when there is none.
pub open spec fn decls_d(d: Dv, decls: Seq<Decl>) -> bool
    decreases decls, 1nat,
{
    if decls.len() == 0 {
        is_unit(d.r) && d.s1 == d.s0
    } else {
        d.kids.len() >= 1 && decls_d(d.kids[0], decls.drop_last()) && d.kids[0].s0 == d.s0 && match d.kids[0].r {
            Err(_) => stops(d, d.kids[0]),
            Ok(_) => d.kids.len() >= 2 && decl_d(d.kids[1], decls.last()) && d.kids[1].s0 == d.kids[0].s1 && d.r
                == d.kids[1].r && d.s1 == d.kids[1].s1,
        }
    }
}

/// `d` records inferring declaration `decl`.
pub open spec fn decl_d(d: Dv, decl: Decl) -> bool
    decreases decl, 0nat,
{
    match decl {
        Decl::Let(bd) => d.kids.len() >= 1 && ex_d(d.kids[0], bd.value) && d.kids[0].s0 == d.s0 && match d.kids[0].r {
            Err(_) => stops(d, d.kids[0]),
            Ok(Val::One(tv)) => !(d.r matches Ok(Val::Many(_))) && let_step(
                bd,
                tv,
                env_vars(d.s0.ctx),
                d.kids[0].s1.ctx,
                d.kids[0].s1.gens,
                unone(d.r),
                d.s1.ctx,
                d.s1.gens,
            ),
            _ => false,
        },
        Decl::Mut(bd) => bind_mut_d(d, bd),
        Decl::Fun(fd) => d.kids.len() >= 2 && fun_rec(d.kids[0], fd) && d.kids[0].s0 == d.s0 && blk_d(d.kids[1], fd.body)
            && d.kids[1].s0 == d.kids[0].s1 && match d.kids[1].r {
            Err(_) => stops(d, d.kids[1]),
            Ok(Val::One(tb)) => {
                let m = d.kids[0].r->Ok_0->Many_0;
                let k2 = d.kids[2];
                &&& d.kids.len() >= 3
                &&& exit_rec(k2, m.drop_last(), m.last(), tb, fd.body.span, d.s0.ctx.return_type())
                &&& k2.s0 == d.kids[1].s1
                &&& !(d.r matches Ok(Val::Many(_)))
                &&& (d.r is Ok ==> is_unit(d.r))
                &&& gen_step(fd.name@, one_of(k2.r)@, env_vars(d.s0.ctx), fd.span, k2.s1.ctx, k2.s1.gens, unit_r(d.r), d.s1.ctx, d.s1.gens)
            },
            _ => false,
        },
        Decl::Impl(ib) => match ib.header.aspect_name {
            Some(_) => d.s1 == d.s0 && (d.r matches Err(x) && is_internal(x, "trait impl blocks not yet supported"@)),
            None => match ib.header.target_type {
                TypeExpr::Named(n, args) if args.len() == 0 => d.kids.len() >= 1 && methods_d(d.kids[0], ib.methods@, n@)
                    && d.kids[0].s0 == d.s0 && d.s1 == d.kids[0].s1 && match d.kids[0].r {
                    Err(x) => d.r == Err::<Val, GustError>(x),
                    Ok(_) => is_unit(d.r),
                },
                _ => d.s1 == d.s0 && (d.r matches Err(x) && is_internal(x, "generic impl blocks not yet supported"@)),
            },
        },
        Decl::Struct(_) => is_unit(d.r) && d.s1 == d.s0,
        Decl::Enum(_) => is_unit(d.r) && d.s1 == d.s0,
        Decl::Aspect(_) => is_unit(d.r) && d.s1 == d.s0,
        Decl::Stmt(st) => stmt_d(d, st),
    }
}

/// `d` records a mutable binding `bd`: its value, the constraint of its
/// annotation, if any, and the binding. Its type is unit.
pub open spec fn bind_mut_d(d: Dv, bd: BindDecl) -> bool
    decreases bd, 0nat,
{
    d.kids.len() >= 1 && ex_d(d.kids[0], bd.value) && d.kids[0].s0 == d.s0 && match d.kids[0].r {
        Err(_) => stops(d, d.kids[0]),
        Ok(Val::One(tv)) => {
            let k1 = d.kids[1];
            &&& d.kids.len() >= 2
            &&& k1.s0 == d.kids[0].s1
            &&& match ann_of(bd) {
                Some(a) => add_rec(k1, tv@, a, bd.span),
                None => idle(k1),
            }
            &&& is_unit(d.r)
            &&& d.s1.gens == k1.s1.gens
            &&& bind_step(k1.s1.ctx, bd.name@, tv, true, d.s1.ctx)
        },
        _ => false,
    }
}

/// `d` records an optional expression, walked when present.
pub open spec fn opt_d(d: Dv, o: Option<Expr>) -> bool
    decreases o, 0nat,
{
    match o {
        None => idle(d),
        Some(e) => ex_d(d, e),
    }
}

/// `d` records the initializer of a C-style `for`.
pub open spec fn init_d(d: Dv, init: Option<ForInit>) -> bool
    decreases init, 0nat,
{
    match init {
        None => idle(d),
        Some(ForInit::Mut(bd)) => bind_mut_d(d, bd),
        Some(ForInit::Expr(e)) => ex_d(d, e),
    }
}

/// `d` records an optional condition, required to be `Bool` at `span`.
pub open spec fn cond_d(d: Dv, o: Option<Expr>, span: Span) -> bool
    decreases o, 0nat,
{
    match o {
        None => idle(d),
        Some(c) => d.kids.len() >= 1 && ex_d(d.kids[0], c) && d.kids[0].s0 == d.s0 && match d.kids[0].r {
            Err(_) => stops(d, d.kids[0]),
            Ok(Val::One(tc)) => add_rec(
                Dv { s0: d.kids[0].s1, r: d.r, s1: d.s1, kids: Seq::empty() },
                tc@,
                InferTypeView::Concrete(TypeView::Bool),
                span,
            ),
            _ => false,
        },
    }
}

/// `d` records inferring statement `st`.
pub open spec fn stmt_d(d: Dv, st: Stmt) -> bool
    decreases st, 0nat,
{
    match st {
        Stmt::Expr(e) => d.kids.len() >= 1 && ex_d(d.kids[0], e) && d.kids[0].s0 == d.s0 && d.s1 == d.kids[0].s1
            && match d.kids[0].r {
            Err(_) => d.r == d.kids[0].r,
            Ok(Val::One(_)) => is_unit(d.r),
            _ => false,
        },
        Stmt::Return { value, span } => match value {
            Some(e) => d.kids.len() >= 1 && ex_d(d.kids[0], e) && d.kids[0].s0 == d.s0 && match d.kids[0].r {
                Err(_) => stops(d, d.kids[0]),
                Ok(Val::One(tv)) => is_never(d.r) && ret_step(tv@, span, d.kids[0].s1.ctx, d.s1.ctx) && d.s1.gens
                    == d.kids[0].s1.gens,
                _ => false,
            },
            None => is_never(d.r) && ret_step(InferTypeView::Concrete(TypeView::Unit), span, d.s0.ctx, d.s1.ctx)
                && d.s1.gens == d.s0.gens,
        },
        Stmt::Break { value, span } => match value {
            Some(e) => d.kids.len() >= 1 && ex_d(d.kids[0], e) && d.kids[0].s0 == d.s0 && match d.kids[0].r {
                Err(_) => stops(d, d.kids[0]),
                Ok(Val::One(tv)) => is_never(d.r) && brk_step(tv@, span, d.kids[0].s1.ctx, d.s1.ctx) && d.s1.gens
                    == d.kids[0].s1.gens,
                _ => false,
            },
            None => is_never(d.r) && brk_step(InferTypeView::Concrete(TypeView::Unit), span, d.s0.ctx, d.s1.ctx)
                && d.s1.gens == d.s0.gens,
        },
        Stmt::Continue(_) => is_never(d.r) && d.s1 == d.s0,
        Stmt::While { condition, body, span } => d.kids.len() >= 1 && ex_d(d.kids[0], condition) && d.kids[0].s0
            == d.s0 && match d.kids[0].r {
            Err(_) => stops(d, d.kids[0]),
            Ok(Val::One(tc)) => {
                &&& d.kids.len() >= 3
                &&& add_rec(d.kids[1], tc@, InferTypeView::Concrete(TypeView::Bool), span)
                &&& d.kids[1].s0 == d.kids[0].s1
                &&& blk_d(d.kids[2], body)
                &&& d.kids[2].s0 == d.kids[1].s1
                &&& match d.kids[2].r {
                    Err(_) => stops(d, d.kids[2]),
                    Ok(_) => is_unit(d.r) && d.s1 == d.kids[2].s1,
                }
            },
            _ => false,
        },
        Stmt::For { init, condition, step, body, span } => {
            let k = d.kids;
            &&& k.len() >= 2
            &&& push_rec(k[0])
            &&& k[0].s0 == d.s0
            &&& init_d(k[1], init)
            &&& k[1].s0 == k[0].s1
            &&& match k[1].r {
                Err(_) => stops(d, k[1]),
                Ok(_) => k.len() >= 3 && cond_d(k[2], condition, span) && k[2].s0 == k[1].s1 && match k[2].r {
                    Err(_) => stops(d, k[2]),
                    Ok(_) => k.len() >= 4 && opt_d(k[3], step) && k[3].s0 == k[2].s1 && match k[3].r {
                        Err(_) => stops(d, k[3]),
                        Ok(_) => k.len() >= 5 && blk_d(k[4], body) && k[4].s0 == k[3].s1 && match k[4].r {
                            Err(_) => stops(d, k[4]),
                            Ok(_) => is_unit(d.r) && pop_step(k[4].s1.ctx, d.s1.ctx) && d.s1.gens == k[4].s1.gens,
                        },
                    },
                },
            }
        },
        Stmt::ForIn { binding, iterable, body, span } => d.kids.len() >= 1 && ex_d(d.kids[0], iterable) && d.kids[0].s0
            == d.s0 && match d.kids[0].r {
            Err(_) => stops(d, d.kids[0]),
            Ok(Val::One(ti)) => {
                let k = d.kids;
                &&& k.len() >= 2
                &&& for_in_rec(k[1], ti, span)
                &&& k[1].s0 == k[0].s1
                &&& match k[1].r {
                    Err(_) => stops(d, k[1]),
                    Ok(Val::One(te)) => {
                        &&& k.len() >= 5
                        &&& push_rec(k[2])
                        &&& k[2].s0 == k[1].s1
                        &&& bind_rec(k[3], binding@, te, false)
                        &&& k[3].s0 == k[2].s1
                        &&& blk_d(k[4], body)
                        &&& k[4].s0 == k[3].s1
                        &&& match k[4].r {
                            Err(_) => stops(d, k[4]),
                            Ok(_) => is_unit(d.r) && pop_step(k[4].s1.ctx, d.s1.ctx) && d.s1.gens == k[4].s1.gens,
                        }
                    },
                    _ => false,
                }
            },
            _ => false,
        },
    }
}

/// The pair a method lookup gave.
pub open spec fn pair_r(r: Result<Val, GustError>) -> Result<(InferType, InferType), GustError> {
    match r {
        Ok(Val::Many(p)) => Ok((p[0], p[1])),
        Ok(Val::One(_)) => Err(arbitrary()),
        Err(x) => Err(x),
    }
}

/// The type a walk that did not fail gave.
pub open spec fn one_of(r: Result<Val, GustError>) -> InferType {
    match r {
        Ok(Val::One(t)) => t,
        _ => arbitrary(),
    }
}

/// `d` records finding the type of an assignment's target.
pub open spec fn tgt_d(d: Dv, t: AssignTarget) -> bool
    decreases t, 0nat,
{
    match t {
        AssignTarget::Ident(name, span) => d.s1 == d.s0 && d.kids.len() == 0 && !(d.r matches Ok(Val::Many(_)))
            && write_step(d.s0.ctx, name@, span, unone(d.r)),
        AssignTarget::Index { object, index, span } => d.kids.len() >= 1 && ex_d(d.kids[0], *object) && d.kids[0].s0
            == d.s0 && match d.kids[0].r {
            Err(_) => stops(d, d.kids[0]),
            Ok(Val::One(to)) => d.kids.len() >= 2 && ex_d(d.kids[1], *index) && d.kids[1].s0 == d.kids[0].s1
                && match d.kids[1].r {
                Err(_) => stops(d, d.kids[1]),
                Ok(Val::One(ti)) => d.r matches Ok(Val::One(x)) && index_step(to, ti, span, d.kids[1].s1.ctx, x, d.s1.ctx)
                    && d.s1.gens == d.kids[1].s1.gens,
                _ => false,
            },
            _ => false,
        },
        AssignTarget::FieldAccess { object, field, span } => d.kids.len() >= 1 && ex_d(d.kids[0], *object)
            && d.kids[0].s0 == d.s0 && d.s1 == d.kids[0].s1 && match d.kids[0].r {
            Err(_) => d.r == d.kids[0].r,
            Ok(Val::One(to)) => !(d.r matches Ok(Val::Many(_))) && field_write_step(to, field@, span, d.s1.ctx, unone(d.r)),
            _ => false,
        },
    }
}

/// `d` records inferring each element of `es` after an array's first, each
/// required to have the first's type `first`.
pub open spec fn arr_d(d: Dv, es: Seq<Expr>, first: InferType, span: Span) -> bool
    decreases es, 1nat,
{
    if es.len() == 0 {
        d.r == Ok::<Val, GustError>(Val::Many(Seq::empty())) && d.s1 == d.s0
    } else {
        d.kids.len() >= 1 && arr_d(d.kids[0], es.drop_last(), first, span) && d.kids[0].s0 == d.s0 && match d.kids[0].r {
            Err(_) => stops(d, d.kids[0]),
            Ok(_) => d.kids.len() >= 2 && ex_d(d.kids[1], es.last()) && d.kids[1].s0 == d.kids[0].s1 && match d.kids[1].r {
                Err(_) => stops(d, d.kids[1]),
                Ok(Val::One(t)) => d.r == Ok::<Val, GustError>(Val::Many(Seq::empty())) && add_step(
                    d.kids[1].s1.ctx,
                    t@,
                    first@,
                    span,
                    d.s1.ctx,
                ) && d.s1.gens == d.kids[1].s1.gens,
                _ => false,
            },
        }
    }
}

pub open spec fn unone(r: Result<Val, GustError>) -> Result<InferType, GustError> {
    match r {
        Ok(Val::One(t)) => Ok(t),
        Ok(Val::Many(_)) => Err(arbitrary()),
        Err(x) => Err(x),
    }
}

/// `d` records inferring each of `es` in order; the first error stops it.
pub open spec fn exs_d(d: Dv, es: Seq<Expr>) -> bool
    decreases es, 1nat,
{
    if es.len() == 0 {
        d.r == Ok::<Val, GustError>(Val::Many(Seq::empty())) && d.s1 == d.s0
    } else {
        d.kids.len() >= 1 && exs_d(d.kids[0], es.drop_last()) && d.kids[0].s0 == d.s0 && match d.kids[0].r {
            Err(_) => stops(d, d.kids[0]),
            Ok(Val::Many(ts)) => d.kids.len() >= 2 && ex_d(d.kids[1], es.last()) && d.kids[1].s0 == d.kids[0].s1
                && d.s1 == d.kids[1].s1 && match d.kids[1].r {
                Err(x) => d.r == Err::<Val, GustError>(x),
                Ok(Val::One(t)) => d.r == Ok::<Val, GustError>(Val::Many(ts.push(t))),
                _ => false,
            },
            _ => false,
        }
    }
}

/// What inferring expression `e` from state `s0` gives: the result `r` and
/// the state `s1` after it.
pub open spec fn ex_rel(e: Expr, s0: St, r: Result<InferType, GustError>, s1: St) -> bool {
    exists|d: Dv| #[trigger] ex_d(d, e) && d.s0 == s0 && d.r == one(r) && d.s1 == s1
}

// ── What the walk needs ──────────────────────────────────────────────────────

/// `d` records a walk from `s` that did not fail.
pub open spec fn went(d: Dv, s: St) -> bool {
    d.s0 == s && d.r is Ok
}

/// No step of inferring `e` from `s0` falls outside its domain.
pub open spec fn ex_safe(e: Expr, s0: St) -> bool
    decreases e, 0nat,
{
    match e {
        Expr::Literal(lit, _) => lit is Nope ==> s0.ctx.next_var() < u32::MAX,
        Expr::Ident(name, _) => lookup_pre(s0.ctx, name@),
        Expr::BinOp(l, op, rr, _) => ex_safe(*l, s0) && forall|d: Dv|
            #[trigger] ex_d(d, *l) && went(d, s0) ==> (ex_safe(*rr, d.s1) && forall|d2: Dv|
                #[trigger] ex_d(d2, *rr) && went(d2, d.s1) ==> (is_arith(op) ==> d2.s1.ctx.next_var() < u32::MAX)),
        Expr::UnaryOp(_, x, _) => ex_safe(*x, s0),
        Expr::Tuple(es, _) => exs_safe(es@, s0),
        Expr::Call { callee, args, .. } => ex_safe(*callee, s0) && forall|d: Dv|
            #[trigger] ex_d(d, *callee) && went(d, s0) ==> (exs_safe(args@, d.s1) && forall|d2: Dv|
                #[trigger] exs_d(d2, args@) && went(d2, d.s1) ==> d2.s1.ctx.next_var() < u32::MAX),
        Expr::StructLiteral { path, fields, span } => match lit_shape(s0.ctx, path@) {
            LitShape::Found { qs, decl, owner, .. } => s0.ctx.next_var() + qs.len() <= u32::MAX && forall|k0: Dv|
                #[trigger] remap_rec(k0, qs) && k0.s0 == s0 ==> lit_fields_safe(
                    fields@,
                    decl,
                    inst_map(qs, s0.ctx.next_var() as nat),
                    owner,
                    span,
                    k0.s1,
                ),
            _ => true,
        },
        Expr::Match { scrutinee, arms, .. } => ex_safe(*scrutinee, s0) && forall|d: Dv|
            #[trigger] ex_d(d, *scrutinee) && went(d, s0) ==> (d.s1.ctx.next_var() < u32::MAX && forall|k1: Dv|
                #[trigger] drew(k1) && k1.s0 == d.s1 ==> arms_safe(arms@, one_of(d.r), one_of(k1.r), k1.s1)),
        Expr::If { condition, then_branch, else_branch, span } => ex_safe(*condition, s0) && forall|d: Dv|
            #[trigger] ex_d(d, *condition) && went(d, s0) ==> forall|d1: Dv|
                #[trigger] add_rec(d1, one_of(d.r)@, InferTypeView::Concrete(TypeView::Bool), span) && d1.s0 == d.s1
                    ==> (blk_safe(then_branch, d1.s1) && forall|d2: Dv|
                    #[trigger] blk_d(d2, then_branch) && went(d2, d1.s1) ==> match else_branch {
                        Some(eb) => blk_safe(eb, d2.s1),
                        None => true,
                    }),
        Expr::Loop { body, .. } => s0.ctx.next_var() < u32::MAX && forall|d: Dv|
            #[trigger] loop_rec(d) && d.s0 == s0 ==> blk_safe(body, d.s1),
        Expr::Closure { params, return_type, body, .. } => param_types(params@, s0.ctx.next_var() as nat).1 + 1
            <= u32::MAX && forall|d: Dv| #[trigger] closure_rec(d, params@, return_type) && d.s0 == s0 ==> blk_safe(body, d.s1),
        Expr::Array(es, span) => if es@.len() == 0 {
            s0.ctx.next_var() < u32::MAX
        } else {
            ex_safe(es@[0], s0) && forall|d: Dv|
                #[trigger] ex_d(d, es@[0]) && went(d, s0) ==> arr_safe(es@.drop_first(), one_of(d.r), span, d.s1)
        },
        Expr::Index { object, index, .. } => ex_safe(*object, s0) && forall|d: Dv|
            #[trigger] ex_d(d, *object) && went(d, s0) ==> (ex_safe(*index, d.s1) && forall|d2: Dv|
                #[trigger] ex_d(d2, *index) && went(d2, d.s1) ==> d2.s1.ctx.next_var() < u32::MAX),
        Expr::Ascribe { expr, .. } => ex_safe(*expr, s0),
        Expr::Cast { expr, .. } => ex_safe(*expr, s0),
        Expr::TupleAccess { object, .. } => ex_safe(*object, s0),
        Expr::Path(segments, _) => path_pre(segments, s0.ctx),
        Expr::PropagateError { expr, .. } => ex_safe(*expr, s0) && forall|d: Dv|
            #[trigger] ex_d(d, *expr) && went(d, s0) ==> d.s1.ctx.next_var() + 3 <= u32::MAX,
        Expr::FieldAccess { object, field, .. } => ex_safe(*object, s0) && forall|d: Dv|
            #[trigger] ex_d(d, *object) && went(d, s0) ==> field_pre(one_of(d.r), field@, d.s1.ctx),
        Expr::MethodCall { receiver, args, .. } => ex_safe(*receiver, s0) && forall|d: Dv|
            #[trigger] ex_d(d, *receiver) && went(d, s0) ==> (exs_safe(args@, d.s1) && forall|d2: Dv|
                #[trigger] exs_d(d2, args@) && went(d2, d.s1) ==> d2.s1.ctx.next_var() < u32::MAX),
        Expr::Assign { target, op, value, .. } => tgt_safe(target, s0) && forall|d: Dv|
            #[trigger] tgt_d(d, target) && went(d, s0) ==> (ex_safe(*value, d.s1) && forall|d2: Dv|
                #[trigger] ex_d(d2, *value) && went(d2, d.s1) ==> (op != AssignOp::Assign ==> d2.s1.ctx.next_var()
                < u32::MAX)),
    }
}

/// No step of walking block `b` from `s0` falls outside its domain.
pub open spec fn blk_safe(b: Block, s0: St) -> bool
    decreases b, 0nat,
{
    &&& s0.ctx.next_var() + hoist_n(b.stmts@) <= u32::MAX
    &&& forall|h: Dv| #[trigger] head(h, b) && h.s0 == s0 ==> (decls_safe(b.stmts@, h.s1) && forall|d: Dv|
        #[trigger] decls_d(d, b.stmts@) && went(d, h.s1) ==> match b.tail {
            Some(t) => ex_safe(*t, d.s1),
            None => true,
        })
}

/// No step of inferring `decls` in order falls outside its domain.
pub open spec fn decls_safe(decls: Seq<Decl>, s0: St) -> bool
    decreases decls, 1nat,
{
    if decls.len() == 0 {
        true
    } else {
        decls_safe(decls.drop_last(), s0) && forall|d: Dv|
            #[trigger] decls_d(d, decls.drop_last()) && went(d, s0) ==> decl_safe(decls.last(), d.s1)
    }
}

/// No step of inferring `decl` falls outside its domain.
pub open spec fn decl_safe(decl: Decl, s0: St) -> bool
    decreases decl, 0nat,
{
    match decl {
        Decl::Let(bd) => ex_safe(bd.value, s0),
        Decl::Mut(bd) => ex_safe(bd.value, s0),
        Decl::Fun(fd) => fun_next(fd, s0.ctx.next_var() as nat) <= u32::MAX && forall|k0: Dv|
            #[trigger] fun_rec(k0, fd) && k0.s0 == s0 ==> (blk_safe(fd.body, k0.s1) && forall|k1: Dv|
                #[trigger] blk_d(k1, fd.body) && went(k1, k0.s1) ==> forall|k2: Dv|
                    #[trigger] exit_rec(
                        k2,
                        k0.r->Ok_0->Many_0.drop_last(),
                        k0.r->Ok_0->Many_0.last(),
                        one_of(k1.r),
                        fd.body.span,
                        s0.ctx.return_type(),
                    ) && k2.s0 == k1.s1 ==> lookup_pre(k2.s1.ctx, fd.name@)),
        Decl::Impl(ib) => match ib.header.aspect_name {
            Some(_) => true,
            None => match ib.header.target_type {
                TypeExpr::Named(n, args) if args.len() == 0 => methods_safe(ib.methods@, n@, s0),
                _ => true,
            },
        },
        Decl::Struct(_) => true,
        Decl::Enum(_) => true,
        Decl::Aspect(_) => true,
        Decl::Stmt(st) => stmt_safe(st, s0),
    }
}

/// No step of walking an optional expression falls outside its domain.
pub open spec fn opt_safe(o: Option<Expr>, s0: St) -> bool
    decreases o, 0nat,
{
    match o {
        None => true,
        Some(e) => ex_safe(e, s0),
    }
}

/// No step of a C-style `for`'s initializer falls outside its domain.
pub open spec fn init_safe(init: Option<ForInit>, s0: St) -> bool
    decreases init, 0nat,
{
    match init {
        None => true,
        Some(ForInit::Mut(bd)) => ex_safe(bd.value, s0),
        Some(ForInit::Expr(e)) => ex_safe(e, s0),
    }
}

/// No step of inferring statement `st` falls outside its domain.
pub open spec fn stmt_safe(st: Stmt, s0: St) -> bool
    decreases st, 0nat,
{
    match st {
        Stmt::Expr(e) => ex_safe(e, s0),
        Stmt::Return { value, .. } => opt_safe(value, s0),
        Stmt::Break { value, .. } => opt_safe(value, s0),
        Stmt::Continue(_) => true,
        Stmt::While { condition, body, span } => ex_safe(condition, s0) && forall|d: Dv|
            #[trigger] ex_d(d, condition) && went(d, s0) ==> forall|d1: Dv|
                #[trigger] add_rec(d1, one_of(d.r)@, InferTypeView::Concrete(TypeView::Bool), span) && d1.s0 == d.s1
                    ==> blk_safe(body, d1.s1),
        Stmt::For { init, condition, step, body, span } => forall|p: Dv|
            #[trigger] push_rec(p) && p.s0 == s0 ==> (init_safe(init, p.s1) && forall|d1: Dv|
                #[trigger] init_d(d1, init) && went(d1, p.s1) ==> (opt_safe(condition, d1.s1) && forall|d2: Dv|
                    #[trigger] cond_d(d2, condition, span) && went(d2, d1.s1) ==> (opt_safe(step, d2.s1) && forall|d3: Dv|
                        #[trigger] opt_d(d3, step) && went(d3, d2.s1) ==> blk_safe(body, d3.s1)))),
        Stmt::ForIn { binding, iterable, body, span } => ex_safe(iterable, s0) && forall|d: Dv|
            #[trigger] ex_d(d, iterable) && went(d, s0) ==> (d.s1.ctx.next_var() + 2 <= u32::MAX && forall|d1: Dv|
                #[trigger] for_in_rec(d1, one_of(d.r), span) && went(d1, d.s1) ==> forall|p: Dv|
                    #[trigger] push_rec(p) && p.s0 == d1.s1 ==> forall|b1: Dv|
                        #[trigger] bind_rec(b1, binding@, one_of(d1.r), false) && b1.s0 == p.s1 ==> blk_safe(body, b1.s1)),
    }
}

/// No step of finding the type of target `t` from `s0` falls outside its
/// domain.
pub open spec fn tgt_safe(t: AssignTarget, s0: St) -> bool
    decreases t, 0nat,
{
    match t {
        AssignTarget::Ident(..) => true,
        AssignTarget::Index { object, index, .. } => ex_safe(*object, s0) && forall|d: Dv|
            #[trigger] ex_d(d, *object) && went(d, s0) ==> (ex_safe(*index, d.s1) && forall|d2: Dv|
                #[trigger] ex_d(d2, *index) && went(d2, d.s1) ==> d2.s1.ctx.next_var() < u32::MAX),
        AssignTarget::FieldAccess { object, field, .. } => ex_safe(*object, s0) && forall|d: Dv|
            #[trigger] ex_d(d, *object) && went(d, s0) ==> field_pre(one_of(d.r), field@, d.s1.ctx),
    }
}

/// No step of inferring the elements `es` of an array after its first falls
/// outside its domain.
pub open spec fn arr_safe(es: Seq<Expr>, first: InferType, span: Span, s0: St) -> bool
    decreases es, 1nat,
{
    if es.len() == 0 {
        true
    } else {
        arr_safe(es.drop_last(), first, span, s0) && forall|d: Dv|
            #[trigger] arr_d(d, es.drop_last(), first, span) && went(d, s0) ==> ex_safe(es.last(), d.s1)
    }
}

/// No step of inferring each of `es` in order falls outside its domain.
pub open spec fn exs_safe(es: Seq<Expr>, s0: St) -> bool
    decreases es, 1nat,
{
    if es.len() == 0 {
        true
    } else {
        exs_safe(es.drop_last(), s0) && forall|d: Dv|
            #[trigger] exs_d(d, es.drop_last()) && went(d, s0) ==> ex_safe(es.last(), d.s1)
    }
}

proof fn lemma_exs_safe_prefix(es: Seq<Expr>, s0: St, k: int)
    requires
        0 <= k <= es.len(),
        exs_safe(es, s0),
    ensures
        exs_safe(es.take(k), s0),
    decreases es.len(),
{
    if k < es.len() {
        assert(es.drop_last().take(k) =~= es.take(k));
        lemma_exs_safe_prefix(es.drop_last(), s0, k);
    } else {
        assert(es.take(k) =~= es);
    }
}

/// A walk over a prefix of `es` that failed is a walk over all of `es`.
proof fn lemma_exs_err(es: Seq<Expr>, k: int, d: Dv) -> (d2: Dv)
    requires
        0 <= k <= es.len(),
        exs_d(d, es.take(k)),
        d.r is Err,
    ensures
        exs_d(d2, es),
        d2.s0 == d.s0,
        d2.r == d.r,
        d2.s1 == d.s1,
    decreases es.len(),
{
    if k < es.len() {
        assert(es.drop_last().take(k) =~= es.take(k));
        let d1 = lemma_exs_err(es.drop_last(), k, d);
        Dv { s0: d.s0, r: d.r, s1: d.s1, kids: seq![d1] }
    } else {
        assert(es.take(k) =~= es);
        d
    }
}

// ── The walk ─────────────────────────────────────────────────────────────────

/// Infer the type of `expr` (see [`ex_rel`]), recording its constraints in
/// `ctx` and its generalizations in `gens`.
pub fn infer_expr(expr: &Expr, ctx: &mut InferContext, gens: &mut Vec<FunGeneralization>) -> (r: Result<InferType, GustError>)
    requires
        old(ctx).wf(),
        ex_safe(*expr, st(*old(ctx), old(gens)@)),
    ensures
        final(ctx).wf(),
        ex_rel(*expr, st(*old(ctx), old(gens)@), r, st(*final(ctx), final(gens)@)),
{
    let (r, Ghost(d)) = walk_expr(expr, ctx, gens);
    r
}

/// What inferring statement `st` from state `s0` gives: the result `r` and
/// the state `s1` after it.
pub open spec fn stmt_rel(st: Stmt, s0: St, r: Result<InferType, GustError>, s1: St) -> bool {
    exists|d: Dv| #[trigger] stmt_d(d, st) && d.s0 == s0 && d.r == one(r) && d.s1 == s1
}

/// Infer statement `stmt` (see [`stmt_rel`]), recording its constraints in
/// `ctx` and its generalizations in `gens`. Its type is unit, or `Never`
/// for `return`, `break` and `continue`.
pub fn infer_stmt(stmt: &Stmt, ctx: &mut InferContext, gens: &mut Vec<FunGeneralization>) -> (r: Result<InferType, GustError>)
    requires
        old(ctx).wf(),
        stmt_safe(*stmt, st(*old(ctx), old(gens)@)),
    ensures
        final(ctx).wf(),
        stmt_rel(*stmt, st(*old(ctx), old(gens)@), r, st(*final(ctx), final(gens)@)),
{
    let (r, Ghost(d)) = walk_stmt(stmt, ctx, gens);
    r
}

/// What inferring the declarations of a program in order from state `s0`
/// gives: success or the first error, and the state `s1` after it.
pub open spec fn program_rel(p: Program, s0: St, r: Result<(), GustError>, s1: St) -> bool {
    exists|d: Dv| #[trigger] decls_d(d, p.decls@) && d.s0 == s0 && d.s1 == s1 && match r {
        Ok(_) => d.r is Ok,
        Err(x) => d.r == Err::<Val, GustError>(x),
    }
}

/// Infer the declarations of `program` in order (see [`program_rel`]); the
/// first error stops it.
pub fn infer_program(program: &Program, ctx: &mut InferContext, gens: &mut Vec<FunGeneralization>) -> (r: Result<(), GustError>)
    requires
        old(ctx).wf(),
        decls_safe(program.decls@, st(*old(ctx), old(gens)@)),
    ensures
        final(ctx).wf(),
        program_rel(*program, st(*old(ctx), old(gens)@), r, st(*final(ctx), final(gens)@)),
{
    let (r, Ghost(d)) = walk_decls(&program.decls, ctx, gens);
    match r {
        Ok(_) => Ok(()),
        Err(x) => Err(x),
    }
}

fn walk_expr(expr: &Expr, ctx: &mut InferContext, gens: &mut Vec<FunGeneralization>) -> (out: (Result<InferType, GustError>, Ghost<Dv>))
    requires
        old(ctx).wf(),
        ex_safe(*expr, st(*old(ctx), old(gens)@)),
    ensures
        final(ctx).wf(),
        out.0 is Ok ==> final(ctx).mono_scopes().len() == old(ctx).mono_scopes().len(),
        ex_d(out.1@, *expr),
        out.1@.s0 == st(*old(ctx), old(gens)@),
        out.1@.r == one(out.0),
        out.1@.s1 == st(*final(ctx), final(gens)@),
    decreases expr, 1nat,
{
    let ghost s0 = st(*ctx, gens@);
    match expr {
        Expr::Literal(lit, _) => {
            let t = infer_literal(lit, ctx);
            let ghost d = Dv { s0, r: one(Ok(t)), s1: st(*ctx, gens@), kids: seq![] };
            (Ok(t), Ghost(d))
        },
        Expr::Ident(name, span) => {
            let r = match ctx.lookup(name.as_str()) {
                Some(t) => Ok(t),
                None => {
                    let mut msg = String::new();
                    push_str(&mut msg, "undefined name `");
                    push_str(&mut msg, name.as_str());
                    push_str(&mut msg, "`");
                    Err(GustError::type_error(TypeErrorCode::T0003, msg, span))
                },
            };
            let ghost d = Dv { s0, r: one(r), s1: st(*ctx, gens@), kids: seq![] };
            (r, Ghost(d))
        },
        Expr::BinOp(..) | Expr::UnaryOp(..) | Expr::Tuple(..) | Expr::Call { .. } => walk_ops(expr, ctx, gens),
        Expr::Array { .. } | Expr::Index { .. } | Expr::Ascribe { .. } | Expr::Cast { .. } => walk_coll(expr, ctx, gens),
        Expr::TupleAccess { .. } | Expr::PropagateError { .. } | Expr::FieldAccess { .. } | Expr::Path(..) => walk_acc(expr, ctx, gens),
        Expr::MethodCall { .. } | Expr::Assign { .. } => walk_meth(expr, ctx, gens),
        Expr::If { .. } | Expr::Loop { .. } | Expr::Closure { .. } => walk_ctl(expr, ctx, gens),
        Expr::Match { .. } => walk_match(expr, ctx, gens),
        Expr::StructLiteral { .. } => walk_lit(expr, ctx, gens),
    }
}

fn walk_ops(expr: &Expr, ctx: &mut InferContext, gens: &mut Vec<FunGeneralization>) -> (out: (Result<InferType, GustError>, Ghost<Dv>))
    requires
        old(ctx).wf(),
        ex_safe(*expr, st(*old(ctx), old(gens)@)),
        *expr is BinOp || *expr is UnaryOp || *expr is Tuple || *expr is Call,
    ensures
        final(ctx).wf(),
        out.0 is Ok ==> final(ctx).mono_scopes().len() == old(ctx).mono_scopes().len(),
        ex_d(out.1@, *expr),
        out.1@.s0 == st(*old(ctx), old(gens)@),
        out.1@.r == one(out.0),
        out.1@.s1 == st(*final(ctx), final(gens)@),
    decreases expr, 0nat,
{
    let ghost s0 = st(*ctx, gens@);
    match expr {
        Expr::BinOp(l, op, rr, span) => {
            let (ra, Ghost(da)) = walk_expr(l, ctx, gens);
            let tl = match ra {
                Ok(t) => t,
                Err(x) => {
                    let ghost d = Dv { s0, r: da.r, s1: da.s1, kids: seq![da] };
                    return (Err(x), Ghost(d));
                },
            };
            let (rb, Ghost(db)) = walk_expr(rr, ctx, gens);
            let tr = match rb {
                Ok(t) => t,
                Err(x) => {
                    let ghost d = Dv { s0, r: db.r, s1: db.s1, kids: seq![da, db] };
                    return (Err(x), Ghost(d));
                },
            };
            let t = infer_binop(tl, op, tr, span, ctx);
            let ghost d = Dv { s0, r: one(Ok(t)), s1: st(*ctx, gens@), kids: seq![da, db] };
            (Ok(t), Ghost(d))
        },
        Expr::UnaryOp(op, x, span) => {
            let (ra, Ghost(da)) = walk_expr(x, ctx, gens);
            let tx = match ra {
                Ok(t) => t,
                Err(e) => {
                    let ghost d = Dv { s0, r: da.r, s1: da.s1, kids: seq![da] };
                    return (Err(e), Ghost(d));
                },
            };
            let t = infer_unaryop(op, tx, span, ctx);
            let ghost d = Dv { s0, r: one(Ok(t)), s1: st(*ctx, gens@), kids: seq![da] };
            (Ok(t), Ghost(d))
        },
        Expr::Tuple(es, _) => {
            let (ra, Ghost(da)) = walk_exprs(es, ctx, gens);
            let r = match ra {
                Ok(ts) => {
                    proof { lemma_infers_model(ts@); }
                    Ok(InferType::Tuple(ts))
                },
                Err(x) => Err(x),
            };
            let ghost d = Dv { s0, r: one(r), s1: da.s1, kids: seq![da] };
            (r, Ghost(d))
        },
        Expr::Call { callee, args, span } => {
            let (ra, Ghost(da)) = walk_expr(callee, ctx, gens);
            let tc = match ra {
                Ok(t) => t,
                Err(x) => {
                    let ghost d = Dv { s0, r: da.r, s1: da.s1, kids: seq![da] };
                    return (Err(x), Ghost(d));
                },
            };
            let (rb, Ghost(db)) = walk_exprs(args, ctx, gens);
            let ts = match rb {
                Ok(ts) => ts,
                Err(x) => {
                    let ghost d = Dv { s0, r: db.r, s1: db.s1, kids: seq![da, db] };
                    return (Err(x), Ghost(d));
                },
            };
            let r = infer_call(tc, ts, span, ctx);
            let ghost d = Dv { s0, r: one(r), s1: st(*ctx, gens@), kids: seq![da, db] };
            (r, Ghost(d))
        },
        _ => {
            assert(false);
            (Err(GustError::internal(String::from_str("unreachable"))), Ghost(arbitrary()))
        },
    }
}

fn walk_coll(expr: &Expr, ctx: &mut InferContext, gens: &mut Vec<FunGeneralization>) -> (out: (Result<InferType, GustError>, Ghost<Dv>))
    requires
        old(ctx).wf(),
        ex_safe(*expr, st(*old(ctx), old(gens)@)),
        *expr is Array || *expr is Index || *expr is Ascribe || *expr is Cast,
    ensures
        final(ctx).wf(),
        out.0 is Ok ==> final(ctx).mono_scopes().len() == old(ctx).mono_scopes().len(),
        ex_d(out.1@, *expr),
        out.1@.s0 == st(*old(ctx), old(gens)@),
        out.1@.r == one(out.0),
        out.1@.s1 == st(*final(ctx), final(gens)@),
    decreases expr, 0nat,
{
    let ghost s0 = st(*ctx, gens@);
    match expr {
        Expr::Array(es, span) => {
            if es.len() == 0 {
                let v = ctx.fresh_var();
                let t = InferType::Array(Box::new(v));
                let ghost d = Dv { s0, r: one(Ok(t)), s1: st(*ctx, gens@), kids: seq![] };
                return (Ok(t), Ghost(d));
            }
            let (ra, Ghost(da)) = walk_expr(&es[0], ctx, gens);
            let tf = match ra {
                Ok(t) => t,
                Err(x) => {
                    let ghost d = Dv { s0, r: da.r, s1: da.s1, kids: seq![da] };
                    return (Err(x), Ghost(d));
                },
            };
            let (rb, Ghost(db)) = walk_array_rest(es, &tf, span, ctx, gens);
            let r = match rb {
                Ok(()) => Ok(InferType::Array(Box::new(tf))),
                Err(x) => Err(x),
            };
            let ghost d = Dv { s0, r: one(r), s1: db.s1, kids: seq![da, db] };
            (r, Ghost(d))
        },
        Expr::Index { object, index, span } => {
            let (ra, Ghost(da)) = walk_expr(object, ctx, gens);
            let to = match ra {
                Ok(t) => t,
                Err(x) => {
                    let ghost d = Dv { s0, r: da.r, s1: da.s1, kids: seq![da] };
                    return (Err(x), Ghost(d));
                },
            };
            let (rb, Ghost(db)) = walk_expr(index, ctx, gens);
            let ti = match rb {
                Ok(t) => t,
                Err(x) => {
                    let ghost d = Dv { s0, r: db.r, s1: db.s1, kids: seq![da, db] };
                    return (Err(x), Ghost(d));
                },
            };
            let t = infer_index(to, ti, span, ctx);
            let ghost d = Dv { s0, r: one(Ok(t)), s1: st(*ctx, gens@), kids: seq![da, db] };
            (Ok(t), Ghost(d))
        },
        Expr::Ascribe { expr: inner, ann, span } => {
            let (ra, Ghost(da)) = walk_expr(inner, ctx, gens);
            let ti = match ra {
                Ok(t) => t,
                Err(x) => {
                    let ghost d = Dv { s0, r: da.r, s1: da.s1, kids: seq![da] };
                    return (Err(x), Ghost(d));
                },
            };
            let ghost c0 = *ctx;
            add_c(ctx, clone_infer(&ti), type_expr_to_infer(ann), span);
            let ghost d = Dv { s0, r: one(Ok(ti)), s1: st(*ctx, gens@), kids: seq![da] };
            (Ok(ti), Ghost(d))
        },
        Expr::Cast { expr: inner, target_type, span } => {
            let (ra, Ghost(da)) = walk_expr(inner, ctx, gens);
            let ts = match ra {
                Ok(t) => t,
                Err(x) => {
                    let ghost d = Dv { s0, r: da.r, s1: da.s1, kids: seq![da] };
                    return (Err(x), Ghost(d));
                },
            };
            let r = infer_cast(&ts, type_expr_to_infer(target_type), span, ctx);
            let ghost d = Dv { s0, r: one(r), s1: da.s1, kids: seq![da] };
            (r, Ghost(d))
        },
        _ => {
            assert(false);
            (Err(GustError::internal(String::from_str("unreachable"))), Ghost(arbitrary()))
        },
    }
}

fn walk_acc(expr: &Expr, ctx: &mut InferContext, gens: &mut Vec<FunGeneralization>) -> (out: (Result<InferType, GustError>, Ghost<Dv>))
    requires
        old(ctx).wf(),
        ex_safe(*expr, st(*old(ctx), old(gens)@)),
        *expr is TupleAccess || *expr is PropagateError || *expr is FieldAccess || *expr is Path,
    ensures
        final(ctx).wf(),
        out.0 is Ok ==> final(ctx).mono_scopes().len() == old(ctx).mono_scopes().len(),
        ex_d(out.1@, *expr),
        out.1@.s0 == st(*old(ctx), old(gens)@),
        out.1@.r == one(out.0),
        out.1@.s1 == st(*final(ctx), final(gens)@),
    decreases expr, 0nat,
{
    let ghost s0 = st(*ctx, gens@);
    match expr {
        Expr::TupleAccess { object, index, span } => {
            let (ra, Ghost(da)) = walk_expr(object, ctx, gens);
            let to = match ra {
                Ok(t) => t,
                Err(x) => {
                    let ghost d = Dv { s0, r: da.r, s1: da.s1, kids: seq![da] };
                    return (Err(x), Ghost(d));
                },
            };
            let r = infer_tuple_access(&to, *index, span, ctx);
            let ghost d = Dv { s0, r: one(r), s1: da.s1, kids: seq![da] };
            (r, Ghost(d))
        },
        Expr::PropagateError { expr: inner, span } => {
            let (ra, Ghost(da)) = walk_expr(inner, ctx, gens);
            let ti = match ra {
                Ok(t) => t,
                Err(x) => {
                    let ghost d = Dv { s0, r: da.r, s1: da.s1, kids: seq![da] };
                    return (Err(x), Ghost(d));
                },
            };
            let t = infer_propagate(ti, span, ctx);
            let ghost d = Dv { s0, r: one(Ok(t)), s1: st(*ctx, gens@), kids: seq![da] };
            (Ok(t), Ghost(d))
        },
        Expr::FieldAccess { object, field, span } => {
            let (ra, Ghost(da)) = walk_expr(object, ctx, gens);
            let to = match ra {
                Ok(t) => t,
                Err(x) => {
                    let ghost d = Dv { s0, r: da.r, s1: da.s1, kids: seq![da] };
                    return (Err(x), Ghost(d));
                },
            };
            let r = infer_field_access_type(&to, field.as_str(), span, ctx);
            let ghost d = Dv { s0, r: one(r), s1: da.s1, kids: seq![da] };
            (r, Ghost(d))
        },
        Expr::Path(segments, span) => {
            let r = infer_path(segments, span, ctx);
            let ghost d = Dv { s0, r: one(r), s1: st(*ctx, gens@), kids: seq![] };
            (r, Ghost(d))
        },
        _ => {
            assert(false);
            (Err(GustError::internal(String::from_str("unreachable"))), Ghost(arbitrary()))
        },
    }
}

fn walk_meth(expr: &Expr, ctx: &mut InferContext, gens: &mut Vec<FunGeneralization>) -> (out: (Result<InferType, GustError>, Ghost<Dv>))
    requires
        old(ctx).wf(),
        ex_safe(*expr, st(*old(ctx), old(gens)@)),
        *expr is MethodCall || *expr is Assign,
    ensures
        final(ctx).wf(),
        out.0 is Ok ==> final(ctx).mono_scopes().len() == old(ctx).mono_scopes().len(),
        ex_d(out.1@, *expr),
        out.1@.s0 == st(*old(ctx), old(gens)@),
        out.1@.r == one(out.0),
        out.1@.s1 == st(*final(ctx), final(gens)@),
    decreases expr, 0nat,
{
    let ghost s0 = st(*ctx, gens@);
    match expr {
        Expr::MethodCall { receiver, method, args, span } => {
            let (ra, Ghost(da)) = walk_expr(receiver, ctx, gens);
            let tr = match ra {
                Ok(t) => t,
                Err(x) => {
                    let ghost d = Dv { s0, r: da.r, s1: da.s1, kids: seq![da] };
                    return (Err(x), Ghost(d));
                },
            };
            let rt = infer_method_target(&tr, method.as_str(), span, ctx);
            let (recv, mt) = match rt {
                Ok(p) => p,
                Err(x) => {
                    let ghost k1 = Dv { s0: da.s1, r: Err(x), s1: da.s1, kids: seq![] };
                    let ghost d = Dv { s0, r: k1.r, s1: k1.s1, kids: seq![da, k1] };
                    return (Err(x), Ghost(d));
                },
            };
            let ghost k1 = Dv { s0: da.s1, r: Ok(Val::Many(seq![recv, mt])), s1: da.s1, kids: seq![] };
            assert(pair_r(k1.r) == Ok::<(InferType, InferType), GustError>((recv, mt)));
            let (rc, Ghost(dc)) = walk_exprs(args, ctx, gens);
            let ts = match rc {
                Ok(ts) => ts,
                Err(x) => {
                    let ghost d = Dv { s0, r: dc.r, s1: dc.s1, kids: seq![da, k1, dc] };
                    return (Err(x), Ghost(d));
                },
            };
            let t = infer_method_call(mt, recv, ts, span, ctx);
            let ghost d = Dv { s0, r: one(Ok(t)), s1: st(*ctx, gens@), kids: seq![da, k1, dc] };
            (Ok(t), Ghost(d))
        },
        Expr::Assign { target, op, value, span } => {
            let (ra, Ghost(da)) = walk_target(target, ctx, gens);
            let tt = match ra {
                Ok(t) => t,
                Err(x) => {
                    let ghost d = Dv { s0, r: da.r, s1: da.s1, kids: seq![da] };
                    return (Err(x), Ghost(d));
                },
            };
            let (rb, Ghost(db)) = walk_expr(value, ctx, gens);
            let tv = match rb {
                Ok(t) => t,
                Err(x) => {
                    let ghost d = Dv { s0, r: db.r, s1: db.s1, kids: seq![da, db] };
                    return (Err(x), Ghost(d));
                },
            };
            let t = infer_assign_op(tt, op, tv, span, ctx);
            let ghost d = Dv { s0, r: one(Ok(t)), s1: st(*ctx, gens@), kids: seq![da, db] };
            (Ok(t), Ghost(d))
        },
        _ => {
            assert(false);
            (Err(GustError::internal(String::from_str("unreachable"))), Ghost(arbitrary()))
        },
    }
}

fn walk_ctl(expr: &Expr, ctx: &mut InferContext, gens: &mut Vec<FunGeneralization>) -> (out: (Result<InferType, GustError>, Ghost<Dv>))
    requires
        old(ctx).wf(),
        ex_safe(*expr, st(*old(ctx), old(gens)@)),
        *expr is If || *expr is Loop || *expr is Closure,
    ensures
        final(ctx).wf(),
        out.0 is Ok ==> final(ctx).mono_scopes().len() == old(ctx).mono_scopes().len(),
        ex_d(out.1@, *expr),
        out.1@.s0 == st(*old(ctx), old(gens)@),
        out.1@.r == one(out.0),
        out.1@.s1 == st(*final(ctx), final(gens)@),
    decreases expr, 0nat,
{
    let ghost s0 = st(*ctx, gens@);
    match expr {
        Expr::If { condition, then_branch, else_branch, span } => {
            let (ra, Ghost(da)) = walk_expr(condition, ctx, gens);
            let tc = match ra {
                Ok(t) => t,
                Err(x) => {
                    let ghost d = Dv { s0, r: da.r, s1: da.s1, kids: seq![da] };
                    return (Err(x), Ghost(d));
                },
            };
            let ghost tcv = tc@;
            add_c(ctx, tc, InferType::bool(), span);
            let ghost k1 = Dv { s0: da.s1, r: Ok(Val::Many(Seq::empty())), s1: st(*ctx, gens@), kids: seq![] };
            assert(add_rec(k1, tcv, InferTypeView::Concrete(TypeView::Bool), *span));
            let (rb, Ghost(db)) = walk_block(then_branch, ctx, gens);
            let tt = match rb {
                Ok(t) => t,
                Err(x) => {
                    let ghost d = Dv { s0, r: db.r, s1: db.s1, kids: seq![da, k1, db] };
                    return (Err(x), Ghost(d));
                },
            };
            match else_branch {
                Some(eb) => {
                    let (rc, Ghost(dc)) = walk_block(eb, ctx, gens);
                    let te = match rc {
                        Ok(t) => t,
                        Err(x) => {
                            let ghost d = Dv { s0, r: dc.r, s1: dc.s1, kids: seq![da, k1, db, dc] };
                            return (Err(x), Ghost(d));
                        },
                    };
                    add_c(ctx, clone_infer(&tt), te, span);
                    let ghost d = Dv { s0, r: one(Ok(tt)), s1: st(*ctx, gens@), kids: seq![da, k1, db, dc] };
                    (Ok(tt), Ghost(d))
                },
                None => {
                    add_c(ctx, tt, InferType::unit(), span);
                    let u = InferType::unit();
                    let ghost d = Dv { s0, r: one(Ok(u)), s1: st(*ctx, gens@), kids: seq![da, k1, db] };
                    (Ok(u), Ghost(d))
                },
            }
        },
        Expr::Loop { body, .. } => {
            let bv = ctx.fresh_var();
            let saved = ctx.push_break_type(clone_infer(&bv));
            let ghost k0 = Dv { s0, r: Ok(Val::One(bv)), s1: st(*ctx, gens@), kids: seq![] };
            assert(loop_rec(k0));
            let (rb, Ghost(db)) = walk_block(body, ctx, gens);
            match rb {
                Ok(_) => {},
                Err(x) => {
                    let ghost d = Dv { s0, r: db.r, s1: db.s1, kids: seq![k0, db] };
                    return (Err(x), Ghost(d));
                },
            }
            ctx.pop_break_type(saved);
            let ghost d = Dv { s0, r: one(Ok(bv)), s1: st(*ctx, gens@), kids: seq![k0, db] };
            (Ok(bv), Ghost(d))
        },
        Expr::Closure { params, return_type, body, .. } => {
            proof { ctx.lemma_wf_scopes(); }
            let (ps, ret, saved) = infer_closure_enter(params, return_type, ctx);
            let ghost k0 = Dv { s0, r: Ok(Val::Many(ps@.push(ret))), s1: st(*ctx, gens@), kids: seq![] };
            assert(ps@.push(ret).drop_last() =~= ps@);
            assert(closure_rec(k0, params@, *return_type));
            let (rb, Ghost(db)) = walk_block(body, ctx, gens);
            let tb = match rb {
                Ok(t) => t,
                Err(x) => {
                    let ghost d = Dv { s0, r: db.r, s1: db.s1, kids: seq![k0, db] };
                    return (Err(x), Ghost(d));
                },
            };
            let t = infer_closure_exit(ps, ret, tb, &body.span, saved, ctx);
            let ghost d = Dv { s0, r: one(Ok(t)), s1: st(*ctx, gens@), kids: seq![k0, db] };
            (Ok(t), Ghost(d))
        },
        _ => {
            assert(false);
            (Err(GustError::internal(String::from_str("unreachable"))), Ghost(arbitrary()))
        },
    }
}

fn walk_match(expr: &Expr, ctx: &mut InferContext, gens: &mut Vec<FunGeneralization>) -> (out: (Result<InferType, GustError>, Ghost<Dv>))
    requires
        old(ctx).wf(),
        ex_safe(*expr, st(*old(ctx), old(gens)@)),
        *expr is Match,
    ensures
        final(ctx).wf(),
        out.0 is Ok ==> final(ctx).mono_scopes().len() == old(ctx).mono_scopes().len(),
        ex_d(out.1@, *expr),
        out.1@.s0 == st(*old(ctx), old(gens)@),
        out.1@.r == one(out.0),
        out.1@.s1 == st(*final(ctx), final(gens)@),
    decreases expr, 0nat,
{
    let ghost s0 = st(*ctx, gens@);
    match expr {
        Expr::Match { scrutinee, arms, .. } => {
            let (ra, Ghost(da)) = walk_expr(scrutinee, ctx, gens);
            let ts = match ra {
                Ok(t) => t,
                Err(x) => {
                    let ghost d = Dv { s0, r: da.r, s1: da.s1, kids: seq![da] };
                    return (Err(x), Ghost(d));
                },
            };
            let rv = ctx.fresh_var();
            let ghost k1 = Dv { s0: da.s1, r: Ok(Val::One(rv)), s1: st(*ctx, gens@), kids: seq![] };
            assert(drew(k1));
            let (rb, Ghost(db)) = walk_arms(arms, &ts, &rv, ctx, gens);
            let r = match rb {
                Ok(()) => Ok(rv),
                Err(x) => Err(x),
            };
            let ghost d = Dv { s0, r: one(r), s1: db.s1, kids: seq![da, k1, db] };
            (r, Ghost(d))
        },
        _ => {
            assert(false);
            (Err(GustError::internal(String::from_str("unreachable"))), Ghost(arbitrary()))
        },
    }
}

proof fn lemma_arms_safe_prefix(arms: Seq<MatchArm>, scrut: InferType, rv: InferType, s0: St, k: int)
    requires
        0 <= k <= arms.len(),
        arms_safe(arms, scrut, rv, s0),
    ensures
        arms_safe(arms.take(k), scrut, rv, s0),
    decreases arms.len(),
{
    if k < arms.len() {
        assert(arms.drop_last().take(k) =~= arms.take(k));
        lemma_arms_safe_prefix(arms.drop_last(), scrut, rv, s0, k);
    } else {
        assert(arms.take(k) =~= arms);
    }
}

/// A walk over a prefix of a `match`'s arms that failed is a walk over all
/// of them.
proof fn lemma_arms_err(arms: Seq<MatchArm>, scrut: InferType, rv: InferType, k: int, d: Dv) -> (d2: Dv)
    requires
        0 <= k <= arms.len(),
        arms_d(d, arms.take(k), scrut, rv),
        d.r is Err,
    ensures
        arms_d(d2, arms, scrut, rv),
        d2.s0 == d.s0,
        d2.r == d.r,
        d2.s1 == d.s1,
    decreases arms.len(),
{
    if k < arms.len() {
        assert(arms.drop_last().take(k) =~= arms.take(k));
        let d1 = lemma_arms_err(arms.drop_last(), scrut, rv, k, d);
        Dv { s0: d.s0, r: d.r, s1: d.s1, kids: seq![d1] }
    } else {
        assert(arms.take(k) =~= arms);
        d
    }
}

/// Check the arms of a `match` in order (see [`arms_d`]).
fn walk_arms(arms: &Vec<MatchArm>, scrut: &InferType, rv: &InferType, ctx: &mut InferContext, gens: &mut Vec<FunGeneralization>) -> (out: (Result<(), GustError>, Ghost<Dv>))
    requires
        old(ctx).wf(),
        arms_safe(arms@, *scrut, *rv, st(*old(ctx), old(gens)@)),
    ensures
        final(ctx).wf(),
        out.0 is Ok ==> final(ctx).mono_scopes().len() == old(ctx).mono_scopes().len(),
        arms_d(out.1@, arms@, *scrut, *rv),
        out.1@.s0 == st(*old(ctx), old(gens)@),
        match out.0 { Ok(_) => out.1@.r is Ok, Err(x) => out.1@.r == Err::<Val, GustError>(x) },
        out.1@.s1 == st(*final(ctx), final(gens)@),
    decreases arms, 1nat,
{
    let ghost s0 = st(*ctx, gens@);
    let mut i: usize = 0;
    let ghost mut dacc = Dv { s0, r: Ok(Val::Many(Seq::empty())), s1: s0, kids: seq![] };
    assert(arms@.take(0) =~= Seq::<MatchArm>::empty());
    while i < arms.len()
        invariant
            i <= arms.len(),
            ctx.wf(),
            ctx.mono_scopes().len() == old(ctx).mono_scopes().len(),
            s0 == st(*old(ctx), old(gens)@),
            arms_safe(arms@, *scrut, *rv, s0),
            arms_d(dacc, arms@.take(i as int), *scrut, *rv),
            dacc.s0 == s0,
            dacc.r is Ok,
            dacc.s1 == st(*ctx, gens@),
        decreases arms.len() - i,
    {
        proof {
            lemma_arms_safe_prefix(arms@, *scrut, *rv, s0, i + 1);
            assert(arms@.take(i + 1).drop_last() =~= arms@.take(i as int));
            assert(arms@.take(i + 1).last() == arms@[i as int]);
        }
        let (rb, Ghost(db)) = walk_arm(&arms[i], scrut, rv, ctx, gens);
        match rb {
            Ok(()) => {
                proof {
                    dacc = Dv { s0, r: db.r, s1: db.s1, kids: seq![dacc, db] };
                }
            },
            Err(x) => {
                let ghost d = Dv { s0, r: db.r, s1: db.s1, kids: seq![dacc, db] };
                let ghost d2 = lemma_arms_err(arms@, *scrut, *rv, i + 1, d);
                return (Err(x), Ghost(d2));
            },
        }
        i += 1;
    }
    assert(arms@.take(arms.len() as int) =~= arms@);
    (Ok(()), Ghost(dacc))
}

/// Check one arm of a `match` (see [`arm_d`]).
fn walk_arm(arm: &MatchArm, scrut: &InferType, rv: &InferType, ctx: &mut InferContext, gens: &mut Vec<FunGeneralization>) -> (out: (Result<(), GustError>, Ghost<Dv>))
    requires
        old(ctx).wf(),
        arm_safe(*arm, *scrut, *rv, st(*old(ctx), old(gens)@)),
    ensures
        final(ctx).wf(),
        out.0 is Ok ==> final(ctx).mono_scopes().len() == old(ctx).mono_scopes().len(),
        arm_d(out.1@, *arm, *scrut, *rv),
        out.1@.s0 == st(*old(ctx), old(gens)@),
        match out.0 { Ok(_) => out.1@.r == Ok::<Val, GustError>(Val::Many(Seq::empty())), Err(x) => out.1@.r == Err::<Val, GustError>(x) },
        out.1@.s1 == st(*final(ctx), final(gens)@),
    decreases arm, 0nat,
{
    let ghost s0 = st(*ctx, gens@);
    proof { ctx.lemma_wf_scopes(); }
    ctx.push_scope();
    let ghost k0 = Dv { s0, r: Ok(Val::Many(Seq::empty())), s1: st(*ctx, gens@), kids: seq![] };
    assert(push_rec(k0));
    let rp = infer_pattern(&arm.pattern, scrut, ctx);
    let ghost k1 = Dv {
        s0: k0.s1,
        r: unit_val(rp),
        s1: st(*ctx, gens@),
        kids: seq![],
    };
    assert(pat_rec(k1, arm.pattern, *scrut));
    if let Err(x) = rp {
        let ghost d = Dv { s0, r: k1.r, s1: k1.s1, kids: seq![k0, k1] };
        return (Err(x), Ghost(d));
    }
    let (r2, Ghost(k2)) = walk_cond(&arm.guard, &arm.span, ctx, gens);
    if let Err(x) = r2 {
        let ghost d = Dv { s0, r: k2.r, s1: k2.s1, kids: seq![k0, k1, k2] };
        return (Err(x), Ghost(d));
    }
    let (r3, Ghost(k3)) = walk_block(&arm.body, ctx, gens);
    let ta = match r3 {
        Ok(t) => t,
        Err(x) => {
            let ghost d = Dv { s0, r: k3.r, s1: k3.s1, kids: seq![k0, k1, k2, k3] };
            return (Err(x), Ghost(d));
        },
    };
    let ghost tav = ta@;
    add_c(ctx, ta, clone_infer(rv), &arm.span);
    let ghost k4 = Dv { s0: k3.s1, r: Ok(Val::Many(Seq::empty())), s1: st(*ctx, gens@), kids: seq![] };
    assert(add_rec(k4, tav, rv@, arm.span));
    proof { ctx.lemma_wf_scopes(); }
    ctx.pop_scope();
    let ghost d = Dv { s0, r: Ok(Val::Many(Seq::empty())), s1: st(*ctx, gens@), kids: seq![k0, k1, k2, k3, k4] };
    (Ok(()), Ghost(d))
}

fn copy_vars(src: &Vec<TypeVar>) -> (r: Vec<TypeVar>)
    ensures
        r@ == src@,
{
    let mut r: Vec<TypeVar> = Vec::new();
    let mut c: usize = 0;
    while c < src.len()
        invariant
            c <= src.len(),
            r@ == src@.take(c as int),
        decreases src.len() - c,
    {
        r.push(src[c]);
        assert(src@.take(c as int + 1) =~= src@.take(c as int).push(src@[c as int]));
        c += 1;
    }
    assert(src@.take(src.len() as int) =~= src@);
    r
}

fn copy_fields(src: &Vec<(String, InferType)>) -> (r: Vec<(String, InferType)>)
    ensures
        fields_view(r@) == fields_view(src@),
{
    let ghost v0 = fields_view(src@);
    let mut r: Vec<(String, InferType)> = Vec::new();
    let mut c: usize = 0;
    while c < src.len()
        invariant
            c <= src.len(),
            v0 == fields_view(src@),
            fields_view(r@) == v0.take(c as int),
        decreases src.len() - c,
    {
        let ghost before = r@;
        r.push((src[c].0.clone(), clone_infer(&src[c].1)));
        assert(fields_view(r@) =~= fields_view(before).push((src@[c as int].0@, src@[c as int].1@)));
        assert(v0.take(c as int + 1) =~= v0.take(c as int).push(v0[c as int]));
        c += 1;
    }
    assert(v0.take(src.len() as int) =~= v0);
    r
}

proof fn lemma_inst_has(qs: Seq<TypeVar>, start: nat, j: int)
    requires
        0 <= j < qs.len(),
    ensures
        inst_map(qs, start).contains_key(qs[j].0),
    decreases qs.len(),
{
    if j < qs.len() - 1 {
        lemma_inst_has(qs.drop_last(), start, j);
    }
}

/// A fresh variable for each of the type parameters `qs`: the map from each
/// parameter to its variable, and the type arguments in order.
fn fresh_remap(qs: &Vec<TypeVar>, ctx: &mut InferContext) -> (r: (Substitution, Vec<InferType>))
    requires
        old(ctx).next_var() + qs.len() <= u32::MAX,
    ensures
        r.0@ == inst_map(qs@, old(ctx).next_var() as nat),
        infers_model(r.1@) == pattern_type_args(qs@, r.0@),
        final(ctx).next_var() == old(ctx).next_var() + qs.len(),
        final(ctx).same_envs(old(ctx)),
        final(ctx).wf() == old(ctx).wf(),
{
    let ghost start = ctx.next_var();
    let mut remap = Substitution::new();
    let mut i: usize = 0;
    while i < qs.len()
        invariant
            i <= qs.len(),
            start + qs.len() <= u32::MAX,
            start == old(ctx).next_var(),
            ctx.next_var() == start + i,
            ctx.same_envs(old(ctx)),
            ctx.wf() == old(ctx).wf(),
            remap@ == inst_map(qs@.take(i as int), start as nat),
        decreases qs.len() - i,
    {
        let fresh = ctx.fresh_var();
        remap.bind(qs[i], fresh);
        proof {
            assert(qs@.take(i as int + 1).drop_last() =~= qs@.take(i as int));
        }
        i += 1;
    }
    assert(qs@.take(qs.len() as int) =~= qs@);
    let mut ta: Vec<InferType> = Vec::new();
    let mut j: usize = 0;
    proof { lemma_infers_model(ta@); }
    while j < qs.len()
        invariant
            j <= qs.len(),
            remap@ == inst_map(qs@, start as nat),
            infers_model(ta@) == pattern_type_args(qs@, remap@).take(j as int),
        decreases qs.len() - j,
    {
        proof { lemma_inst_has(qs@, start as nat, j as int); }
        let t = match remap.lookup(qs[j]) {
            Some(t) => clone_infer(t),
            None => InferType::Never,
        };
        proof {
            lemma_infers_model_push(ta@, t);
            assert(pattern_type_args(qs@, remap@).take(j as int + 1) =~= pattern_type_args(qs@, remap@).take(j as int).push(t@));
        }
        ta.push(t);
        j += 1;
    }
    assert(pattern_type_args(qs@, remap@).take(qs.len() as int) =~= pattern_type_args(qs@, remap@));
    (remap, ta)
}

proof fn lemma_first_unset(decl: Seq<(Seq<char>, InferTypeView)>, given: Seq<(String, Expr)>)
    ensures
        match first_unset(decl, given) {
            Some(j) => 0 <= j < decl.len() && !has_name(given, decl[j].0) && forall|k: int|
                0 <= k < j ==> has_name(given, #[trigger] decl[k].0),
            None => forall|k: int| 0 <= k < decl.len() ==> has_name(given, #[trigger] decl[k].0),
        },
    decreases decl.len(),
{
    if decl.len() > 0 {
        lemma_first_unset(decl.drop_first(), given);
        assert forall|k: int| 1 <= k < decl.len() implies decl[k].0 == decl.drop_first()[k - 1].0 by {}
        if has_name(given, decl[0].0) {
            match first_unset(decl.drop_first(), given) {
                Some(j) => {
                    assert forall|k: int| 0 <= k < j + 1 implies has_name(given, #[trigger] decl[k].0) by {
                        if k > 0 {
                            assert(decl[k].0 == decl.drop_first()[k - 1].0);
                        }
                    }
                },
                None => {
                    assert forall|k: int| 0 <= k < decl.len() implies has_name(given, #[trigger] decl[k].0) by {
                        if k > 0 {
                            assert(decl[k].0 == decl.drop_first()[k - 1].0);
                        }
                    }
                },
            }
        }
    }
}

/// The first declared field that `given` does not name (see
/// [`first_unset`]).
fn find_unset(decl: &Vec<(String, InferType)>, given: &Vec<(String, Expr)>) -> (r: Option<usize>)
    ensures
        match first_unset(fields_view(decl@), given@) {
            Some(j) => r == Some(j as usize),
            None => r is None,
        },
{
    let ghost dv = fields_view(decl@);
    proof { lemma_first_unset(dv, given@); }
    let mut j: usize = 0;
    while j < decl.len()
        invariant
            j <= decl.len(),
            dv == fields_view(decl@),
            dv.len() == decl.len(),
            forall|k: int| 0 <= k < j ==> has_name(given@, #[trigger] dv[k].0),
        decreases decl.len() - j,
    {
        let mut found = false;
        let mut i: usize = 0;
        while i < given.len()
            invariant
                i <= given.len(),
                j < decl.len(),
                dv == fields_view(decl@),
                found ==> has_name(given@, dv[j as int].0),
                !found ==> forall|q: int| 0 <= q < i ==> #[trigger] given@[q].0@ != dv[j as int].0,
            decreases given.len() - i,
        {
            if str_eq(given[i].0.as_str(), decl[j].0.as_str()) {
                found = true;
                assert(given@[i as int].0@ == dv[j as int].0);
            }
            i += 1;
        }
        if !found {
            proof {
                lemma_first_unset(dv, given@);
                assert(!has_name(given@, dv[j as int].0));
                match first_unset(dv, given@) {
                    Some(j2) => {
                        if j2 < j {
                            assert(has_name(given@, dv[j2].0));
                        }
                        if j2 > j {
                            assert(has_name(given@, dv[j as int].0));
                        }
                    },
                    None => {
                        assert(has_name(given@, dv[j as int].0));
                    },
                }
            }
            return Some(j);
        }
        j += 1;
    }
    proof { lemma_first_unset(dv, given@); }
    None
}

proof fn lemma_lit_safe_prefix(fields: Seq<(String, Expr)>, decl: Seq<(Seq<char>, InferTypeView)>, remap: Map<u32, InferTypeView>, owner: Seq<char>, span: Span, s0: St, k: int)
    requires
        0 <= k <= fields.len(),
        lit_fields_safe(fields, decl, remap, owner, span, s0),
    ensures
        lit_fields_safe(fields.take(k), decl, remap, owner, span, s0),
    decreases fields.len(),
{
    if k < fields.len() {
        assert(fields.drop_last().take(k) =~= fields.take(k));
        lemma_lit_safe_prefix(fields.drop_last(), decl, remap, owner, span, s0, k);
    } else {
        assert(fields.take(k) =~= fields);
    }
}

/// A walk over a prefix of a literal's fields that failed is a walk over all
/// of them.
proof fn lemma_lit_err(fields: Seq<(String, Expr)>, decl: Seq<(Seq<char>, InferTypeView)>, remap: Map<u32, InferTypeView>, owner: Seq<char>, span: Span, k: int, d: Dv) -> (d2: Dv)
    requires
        0 <= k <= fields.len(),
        lit_fields_d(d, fields.take(k), decl, remap, owner, span),
        d.r is Err,
    ensures
        lit_fields_d(d2, fields, decl, remap, owner, span),
        d2.s0 == d.s0,
        d2.r == d.r,
        d2.s1 == d.s1,
    decreases fields.len(),
{
    if k < fields.len() {
        assert(fields.drop_last().take(k) =~= fields.take(k));
        let d1 = lemma_lit_err(fields.drop_last(), decl, remap, owner, span, k, d);
        Dv { s0: d.s0, r: d.r, s1: d.s1, kids: seq![d1] }
    } else {
        assert(fields.take(k) =~= fields);
        d
    }
}

/// Infer the fields of a literal in order (see [`lit_fields_d`]).
fn walk_lit_fields(
    fields: &Vec<(String, Expr)>,
    decl: &Vec<(String, InferType)>,
    remap: &Substitution,
    owner: &String,
    span: &Span,
    ctx: &mut InferContext,
    gens: &mut Vec<FunGeneralization>,
) -> (out: (Result<(), GustError>, Ghost<Dv>))
    requires
        old(ctx).wf(),
        lit_fields_safe(fields@, fields_view(decl@), remap@, owner@, *span, st(*old(ctx), old(gens)@)),
    ensures
        final(ctx).wf(),
        out.0 is Ok ==> final(ctx).mono_scopes().len() == old(ctx).mono_scopes().len(),
        lit_fields_d(out.1@, fields@, fields_view(decl@), remap@, owner@, *span),
        out.1@.s0 == st(*old(ctx), old(gens)@),
        match out.0 { Ok(_) => out.1@.r is Ok, Err(x) => out.1@.r == Err::<Val, GustError>(x) },
        out.1@.s1 == st(*final(ctx), final(gens)@),
    decreases fields, 1nat,
{
    let ghost s0 = st(*ctx, gens@);
    let ghost dv = fields_view(decl@);
    let mut i: usize = 0;
    let ghost mut dacc = Dv { s0, r: Ok(Val::Many(Seq::empty())), s1: s0, kids: seq![] };
    assert(fields@.take(0) =~= Seq::<(String, Expr)>::empty());
    while i < fields.len()
        invariant
            i <= fields.len(),
            ctx.wf(),
            ctx.mono_scopes().len() == old(ctx).mono_scopes().len(),
            s0 == st(*old(ctx), old(gens)@),
            dv == fields_view(decl@),
            lit_fields_safe(fields@, dv, remap@, owner@, *span, s0),
            lit_fields_d(dacc, fields@.take(i as int), dv, remap@, owner@, *span),
            dacc.s0 == s0,
            dacc.r is Ok,
            dacc.s1 == st(*ctx, gens@),
        decreases fields.len() - i,
    {
        proof {
            lemma_lit_safe_prefix(fields@, dv, remap@, owner@, *span, s0, i + 1);
            assert(fields@.take(i + 1).drop_last() =~= fields@.take(i as int));
            assert(fields@.take(i + 1).last() == fields@[i as int]);
        }
        let fi = find_field(decl, fields[i].0.as_str());
        proof { lemma_first_field(dv, fields@[i as int].0@); }
        let idx = match fi {
            Some(k) => k,
            None => {
                let mut msg = String::new();
                push_str(&mut msg, "no field `");
                push_str(&mut msg, fields[i].0.as_str());
                push_str(&mut msg, "` on `");
                push_str(&mut msg, owner.as_str());
                push_str(&mut msg, "`");
                let e = GustError::type_error(TypeErrorCode::T0003, msg, span);
                let ghost d = Dv { s0, r: Err(e), s1: dacc.s1, kids: seq![dacc] };
                let ghost d2 = lemma_lit_err(fields@, dv, remap@, owner@, *span, i + 1, d);
                return (Err(e), Ghost(d2));
            },
        };
        let dt = match &decl[idx].1 {
            InferType::Var(v) => match remap.lookup(*v) {
                Some(t) => clone_infer(t),
                None => InferType::Var(*v),
            },
            other => clone_infer(other),
        };
        assert(dt@ == pattern_field_type(dv[idx as int].1, remap@));
        let (rb, Ghost(db)) = walk_expr(&fields[i].1, ctx, gens);
        match rb {
            Ok(te) => {
                let ghost tev = te@;
                add_c(ctx, te, dt, span);
                proof {
                    dacc = Dv { s0, r: Ok(Val::Many(Seq::empty())), s1: st(*ctx, gens@), kids: seq![dacc, db] };
                }
            },
            Err(x) => {
                let ghost d = Dv { s0, r: db.r, s1: db.s1, kids: seq![dacc, db] };
                let ghost d2 = lemma_lit_err(fields@, dv, remap@, owner@, *span, i + 1, d);
                return (Err(x), Ghost(d2));
            },
        }
        i += 1;
    }
    assert(fields@.take(fields.len() as int) =~= fields@);
    (Ok(()), Ghost(dacc))
}

fn walk_lit(expr: &Expr, ctx: &mut InferContext, gens: &mut Vec<FunGeneralization>) -> (out: (Result<InferType, GustError>, Ghost<Dv>))
    requires
        old(ctx).wf(),
        ex_safe(*expr, st(*old(ctx), old(gens)@)),
        *expr is StructLiteral,
    ensures
        final(ctx).wf(),
        out.0 is Ok ==> final(ctx).mono_scopes().len() == old(ctx).mono_scopes().len(),
        ex_d(out.1@, *expr),
        out.1@.s0 == st(*old(ctx), old(gens)@),
        out.1@.r == one(out.0),
        out.1@.s1 == st(*final(ctx), final(gens)@),
    decreases expr, 0nat,
{
    let ghost s0 = st(*ctx, gens@);
    match expr {
        Expr::StructLiteral { path, fields, span } => {
            let ghost shape = lit_shape(*ctx, path@);
            let mut owner = String::new();
            let (name, qs, decl, all) = if path.len() == 2 {
                let info = match ctx.get_enum(path[0].as_str()) {
                    Some(i) => i,
                    None => {
                        let mut msg = String::new();
                        push_str(&mut msg, "unknown enum `");
                        push_str(&mut msg, path[0].as_str());
                        push_str(&mut msg, "`");
                        let r = Err(GustError::type_error(TypeErrorCode::T0003, msg, span));
                        let ghost d = Dv { s0, r: one(r), s1: s0, kids: seq![] };
                        return (r, Ghost(d));
                    },
                };
                let vi = match find_variant(&info.variants, path[1].as_str()) {
                    Some(i) => i,
                    None => {
                        let mut msg = String::new();
                        push_str(&mut msg, "no variant `");
                        push_str(&mut msg, path[1].as_str());
                        push_str(&mut msg, "` on enum `");
                        push_str(&mut msg, path[0].as_str());
                        push_str(&mut msg, "`");
                        let r = Err(GustError::type_error(TypeErrorCode::T0003, msg, span));
                        let ghost d = Dv { s0, r: one(r), s1: s0, kids: seq![] };
                        return (r, Ghost(d));
                    },
                };
                proof { lemma_first_variant(info.variants@, path@[1]@); }
                let qs = copy_vars(&info.type_params);
                let decl = copy_fields(&info.variants[vi].fields);
                push_str(&mut owner, path[0].as_str());
                push_str(&mut owner, "::");
                push_str(&mut owner, path[1].as_str());
                (path[0].clone(), qs, decl, false)
            } else if path.len() == 0 {
                let r = Err(GustError::internal(String::from_str("empty path in struct literal")));
                let ghost d = Dv { s0, r: one(r), s1: s0, kids: seq![] };
                return (r, Ghost(d));
            } else {
                let n = &path[path.len() - 1];
                let decl = match ctx.get_struct_fields(n.as_str()) {
                    Some(f) => copy_fields(f),
                    None => {
                        let mut msg = String::new();
                        push_str(&mut msg, "unknown struct `");
                        push_str(&mut msg, n.as_str());
                        push_str(&mut msg, "`");
                        let r = Err(GustError::type_error(TypeErrorCode::T0003, msg, span));
                        let ghost d = Dv { s0, r: one(r), s1: s0, kids: seq![] };
                        return (r, Ghost(d));
                    },
                };
                let qs = match ctx.get_struct_type_params(n.as_str()) {
                    Some(p) => copy_vars(p),
                    None => Vec::new(),
                };
                push_str(&mut owner, n.as_str());
                (n.clone(), qs, decl, true)
            };
            assert(shape matches LitShape::Found { name: nm, qs: q, decl: dc, owner: ow, all: al } && nm == name@
                && q == qs@ && dc == fields_view(decl@) && ow == owner@ && al == all);
            let (remap, ta) = fresh_remap(&qs, ctx);
            let ghost k0 = Dv { s0, r: Ok(Val::Many(ta@)), s1: st(*ctx, gens@), kids: seq![] };
            assert(remap_rec(k0, qs@));
            let (rf, Ghost(k1)) = walk_lit_fields(fields, &decl, &remap, &owner, span, ctx, gens);
            if let Err(x) = rf {
                let ghost d = Dv { s0, r: k1.r, s1: k1.s1, kids: seq![k0, k1] };
                return (Err(x), Ghost(d));
            }
            if all {
                proof { lemma_first_unset(fields_view(decl@), fields@); }
                match find_unset(&decl, fields) {
                    Some(j) => {
                        let mut msg = String::new();
                        push_str(&mut msg, "missing field `");
                        push_str(&mut msg, decl[j].0.as_str());
                        push_str(&mut msg, "` in `");
                        push_str(&mut msg, owner.as_str());
                        push_str(&mut msg, "`");
                        let r = Err(GustError::type_error(TypeErrorCode::T0003, msg, span));
                        let ghost d = Dv { s0, r: one(r), s1: k1.s1, kids: seq![k0, k1] };
                        return (r, Ghost(d));
                    },
                    None => {},
                }
            }
            let t = InferType::Named(name, ta);
            let ghost d = Dv { s0, r: one(Ok(t)), s1: k1.s1, kids: seq![k0, k1] };
            (Ok(t), Ghost(d))
        },
        _ => {
            assert(false);
            (Err(GustError::internal(String::from_str("unreachable"))), Ghost(arbitrary()))
        },
    }
}

proof fn lemma_method_param_types_mono(params: Seq<Param>, g: Map<Seq<char>, u32>, st: InferTypeView, n0: nat, k: int)
    requires
        0 <= k <= params.len(),
    ensures
        method_param_types(params.take(k), g, st, n0).1 <= method_param_types(params, g, st, n0).1,
        method_param_types(params.take(k), g, st, n0).1 >= n0,
        method_param_types(params, g, st, n0).0.len() == params.len(),
    decreases params.len(),
{
    if k == params.len() {
        assert(params.take(k) =~= params);
        lemma_method_param_types_ge(params, g, st, n0);
    } else {
        assert(params.drop_last().take(k) =~= params.take(k));
        lemma_method_param_types_mono(params.drop_last(), g, st, n0, k);
        lemma_method_param_types_ge(params, g, st, n0);
    }
}

proof fn lemma_method_param_types_ge(params: Seq<Param>, g: Map<Seq<char>, u32>, st: InferTypeView, n0: nat)
    ensures
        method_param_types(params, g, st, n0).1 >= n0,
        method_param_types(params, g, st, n0).0.len() == params.len(),
    decreases params.len(),
{
    if params.len() > 0 {
        lemma_method_param_types_ge(params.drop_last(), g, st, n0);
    }
}

/// Enter method `m` of type `target` (see [`method_enter_step`]): also
/// gives the enclosing return type, to restore on leaving.
fn method_enter(m: &FunDecl, target: &String, ctx: &mut InferContext) -> (r: (Vec<InferType>, InferType, Option<InferType>))
    requires
        old(ctx).wf(),
        method_next(*m, target@, old(ctx).next_var() as nat) <= u32::MAX,
    ensures
        method_enter_step(*m, target@, *old(ctx), r.0@, r.1, *final(ctx)),
        r.2 == old(ctx).return_type(),
{
    let ghost n0 = ctx.next_var() as nat;
    let ghost c0 = *ctx;
    let ghost n1 = (n0 + m.generics.len()) as nat;
    let ghost sv = self_of(target@);
    proof {
        lemma_method_param_types_ge(m.params@, generic_map(m.generics@, n0), sv, n1);
    }
    let mut gmap: StrMap<TypeVar> = StrMap::new();
    let mut i: usize = 0;
    assert(generic_ids(gmap.view()) =~= generic_map(m.generics@.take(0), n0));
    while i < m.generics.len()
        invariant
            i <= m.generics.len(),
            gmap.wf(),
            generic_ids(gmap.view()) == generic_map(m.generics@.take(i as int), n0),
            ctx.next_var() == n0 + i,
            n1 <= u32::MAX,
            n1 == n0 + m.generics.len(),
            ctx.same_envs(&c0),
            ctx.wf(),
        decreases m.generics.len() - i,
    {
        let v = ctx.fresh_type_var_raw();
        gmap.insert(m.generics[i].name.clone(), v);
        proof {
            assert(m.generics@.take(i + 1).drop_last() =~= m.generics@.take(i as int));
            assert(generic_ids(gmap.view()) =~= generic_map(m.generics@.take(i + 1), n0));
        }
        i += 1;
    }
    assert(m.generics@.take(m.generics.len() as int) =~= m.generics@);
    let ghost g = generic_map(m.generics@, n0);
    let mut tys: Vec<InferType> = Vec::new();
    let mut j: usize = 0;
    proof { lemma_infers_model(tys@); }
    while j < m.params.len()
        invariant
            j <= m.params.len(),
            gmap.wf(),
            generic_ids(gmap.view()) == g,
            sv == self_of(target@),
            ctx.wf(),
            ctx.same_envs(&c0),
            method_param_types(m.params@, g, sv, n1).1 <= u32::MAX,
            infers_model(tys@) == method_param_types(m.params@.take(j as int), g, sv, n1).0,
            ctx.next_var() == method_param_types(m.params@.take(j as int), g, sv, n1).1,
            tys@.len() == j,
        decreases m.params.len() - j,
    {
        proof {
            assert(m.params@.take(j + 1).drop_last() =~= m.params@.take(j as int));
            lemma_method_param_types_mono(m.params@, g, sv, n1, j + 1);
        }
        let t = if str_eq(m.params[j].name.as_str(), "self") {
            let mut tn = String::new();
            push_str(&mut tn, target.as_str());
            let none: Vec<InferType> = Vec::new();
            proof { lemma_infers_model(none@); }
            assert(infers_model(none@) =~= Seq::<InferTypeView>::empty());
            InferType::Named(tn, none)
        } else {
            match &m.params[j].type_ann {
                Some(te) => type_expr_to_infer_with_generics(te, &gmap),
                None => ctx.fresh_var(),
            }
        };
        proof {
            reveal_strlit("self");
            lemma_infers_model_push(tys@, t);
        }
        tys.push(t);
        j += 1;
    }
    assert(m.params@.take(m.params.len() as int) =~= m.params@);
    let ret = match &m.return_type {
        Some(te) => type_expr_to_infer_with_generics(te, &gmap),
        None => InferType::unit(),
    };
    proof { ctx.lemma_wf_scopes(); }
    ctx.push_scope();
    let ghost m0 = ctx.mono_scopes();
    let ghost tv = method_param_types(m.params@, g, sv, n1).0;
    proof {
        lemma_infers_model(tys@);
        assert(mono_view(m0.last()) =~= param_scope(m.params@.take(0), tv.take(0)));
    }
    let mut k: usize = 0;
    while k < m.params.len()
        invariant
            k <= m.params.len(),
            tys@.len() == m.params.len(),
            ctx.wf(),
            m0.len() >= 1,
            ctx.mono_scopes().len() == m0.len(),
            ctx.mono_scopes().drop_last() == m0.drop_last(),
            mono_view(ctx.mono_scopes().last()) == param_scope(m.params@.take(k as int), tv.take(k as int)),
            tv == infers_model(tys@),
            infers_model(tys@).len() == tys@.len(),
            forall|q: int| 0 <= q < tys@.len() ==> #[trigger] infers_model(tys@)[q] == tys@[q]@,
            ctx.poly_scopes() == c0.poly_scopes().push(Map::empty()),
            ctx.next_var() == method_param_types(m.params@, g, sv, n1).1,
            ret@ == match m.return_type {
                Some(te) => te_to_infer(te@, g),
                None => InferTypeView::Concrete(TypeView::Unit),
            },
            ctx.constraint_list() == c0.constraint_list(),
            ctx.return_type() == c0.return_type(),
            ctx.break_type() == c0.break_type(),
            ctx.reg() == c0.reg(),
            m0.drop_last() == c0.mono_scopes(),
        decreases m.params.len() - k,
    {
        let t = clone_infer(&tys[k]);
        let ghost prev = ctx.mono_scopes();
        proof {
            assert(m.params@.take(k + 1).drop_last() =~= m.params@.take(k as int));
            assert(tv.take(k + 1).take(k as int) =~= tv.take(k as int));
        }
        ctx.bind_mono(m.params[k].name.clone(), t, m.params[k].mutable);
        proof {
            assert(ctx.mono_scopes().drop_last() =~= prev.drop_last());
            assert(mono_view(ctx.mono_scopes().last()) =~= mono_view(prev.last()).insert(
                m.params@[k as int].name@,
                (tys@[k as int]@, m.params@[k as int].mutable),
            ));
            assert(m.params@.take(k + 1).last() == m.params@[k as int]);
            assert(tv.take(k + 1)[k as int] == tys@[k as int]@);
        }
        k += 1;
    }
    assert(m.params@.take(m.params.len() as int) =~= m.params@);
    assert(tv.take(m.params.len() as int) =~= tv);
    let saved = ctx.push_return_type(clone_infer(&ret));
    (tys, ret, saved)
}

/// Infer method `m` of type `target` (see [`method_d`]).
fn walk_method(m: &FunDecl, target: &String, ctx: &mut InferContext, gens: &mut Vec<FunGeneralization>) -> (out: (Result<(), GustError>, Ghost<Dv>))
    requires
        old(ctx).wf(),
        method_safe(*m, target@, st(*old(ctx), old(gens)@)),
    ensures
        final(ctx).wf(),
        out.0 is Ok ==> final(ctx).mono_scopes().len() == old(ctx).mono_scopes().len(),
        method_d(out.1@, *m, target@),
        out.1@.s0 == st(*old(ctx), old(gens)@),
        match out.0 { Ok(_) => out.1@.r is Ok, Err(x) => out.1@.r == Err::<Val, GustError>(x) },
        out.1@.s1 == st(*final(ctx), final(gens)@),
    decreases m, 0nat,
{
    let ghost s0 = st(*ctx, gens@);
    proof { ctx.lemma_wf_scopes(); }
    let (ps, ret, saved) = method_enter(m, target, ctx);
    let ghost k0 = Dv { s0, r: Ok(Val::Many(ps@.push(ret))), s1: st(*ctx, gens@), kids: seq![] };
    assert(ps@.push(ret).drop_last() =~= ps@);
    assert(method_rec(k0, *m, target@));
    let (rb, Ghost(db)) = walk_block(&m.body, ctx, gens);
    let tb = match rb {
        Ok(t) => t,
        Err(x) => {
            let ghost d = Dv { s0, r: db.r, s1: db.s1, kids: seq![k0, db] };
            return (Err(x), Ghost(d));
        },
    };
    let ghost tb0 = tb;
    let ft = infer_closure_exit(ps, ret, tb, &m.body.span, saved, ctx);
    let ghost k2 = Dv { s0: db.s1, r: Ok(Val::One(ft)), s1: st(*ctx, gens@), kids: seq![] };
    assert(exit_rec(k2, k0.r->Ok_0->Many_0.drop_last(), k0.r->Ok_0->Many_0.last(), tb0, m.body.span, s0.ctx.return_type()));
    let sub = match ctx.solve() {
        Ok(s) => s,
        Err(x) => {
            let ghost d = Dv { s0, r: Err(x), s1: k2.s1, kids: seq![k0, db, k2] };
            return (Err(x), Ghost(d));
        },
    };
    proof { lemma_apply_idempotent(sub@, ft@); }
    let resolved = sub.apply(&ft);
    let mut owner = String::new();
    push_str(&mut owner, target.as_str());
    proof { ctx.lemma_wf_scopes(); }
    ctx.register_method(owner, m.name.clone(), resolved);
    let ghost d = Dv { s0, r: Ok(Val::Many(Seq::empty())), s1: st(*ctx, gens@), kids: seq![k0, db, k2] };
    (Ok(()), Ghost(d))
}

proof fn lemma_methods_safe_prefix(ms: Seq<FunDecl>, target: Seq<char>, s0: St, k: int)
    requires
        0 <= k <= ms.len(),
        methods_safe(ms, target, s0),
    ensures
        methods_safe(ms.take(k), target, s0),
    decreases ms.len(),
{
    if k < ms.len() {
        assert(ms.drop_last().take(k) =~= ms.take(k));
        lemma_methods_safe_prefix(ms.drop_last(), target, s0, k);
    } else {
        assert(ms.take(k) =~= ms);
    }
}

/// A walk over a prefix of an impl's methods that failed is a walk over all
/// of them.
proof fn lemma_methods_err(ms: Seq<FunDecl>, target: Seq<char>, k: int, d: Dv) -> (d2: Dv)
    requires
        0 <= k <= ms.len(),
        methods_d(d, ms.take(k), target),
        d.r is Err,
    ensures
        methods_d(d2, ms, target),
        d2.s0 == d.s0,
        d2.r == d.r,
        d2.s1 == d.s1,
    decreases ms.len(),
{
    if k < ms.len() {
        assert(ms.drop_last().take(k) =~= ms.take(k));
        let d1 = lemma_methods_err(ms.drop_last(), target, k, d);
        Dv { s0: d.s0, r: d.r, s1: d.s1, kids: seq![d1] }
    } else {
        assert(ms.take(k) =~= ms);
        d
    }
}

/// Infer the methods of an impl in order (see [`methods_d`]).
fn walk_methods(ms: &Vec<FunDecl>, target: &String, ctx: &mut InferContext, gens: &mut Vec<FunGeneralization>) -> (out: (Result<(), GustError>, Ghost<Dv>))
    requires
        old(ctx).wf(),
        methods_safe(ms@, target@, st(*old(ctx), old(gens)@)),
    ensures
        final(ctx).wf(),
        out.0 is Ok ==> final(ctx).mono_scopes().len() == old(ctx).mono_scopes().len(),
        methods_d(out.1@, ms@, target@),
        out.1@.s0 == st(*old(ctx), old(gens)@),
        match out.0 { Ok(_) => out.1@.r is Ok, Err(x) => out.1@.r == Err::<Val, GustError>(x) },
        out.1@.s1 == st(*final(ctx), final(gens)@),
    decreases ms, 1nat,
{
    let ghost s0 = st(*ctx, gens@);
    let mut i: usize = 0;
    let ghost mut dacc = Dv { s0, r: Ok(Val::Many(Seq::empty())), s1: s0, kids: seq![] };
    assert(ms@.take(0) =~= Seq::<FunDecl>::empty());
    while i < ms.len()
        invariant
            i <= ms.len(),
            ctx.wf(),
            ctx.mono_scopes().len() == old(ctx).mono_scopes().len(),
            s0 == st(*old(ctx), old(gens)@),
            methods_safe(ms@, target@, s0),
            methods_d(dacc, ms@.take(i as int), target@),
            dacc.s0 == s0,
            dacc.r is Ok,
            dacc.s1 == st(*ctx, gens@),
        decreases ms.len() - i,
    {
        proof {
            lemma_methods_safe_prefix(ms@, target@, s0, i + 1);
            assert(ms@.take(i + 1).drop_last() =~= ms@.take(i as int));
            assert(ms@.take(i + 1).last() == ms@[i as int]);
        }
        let (rb, Ghost(db)) = walk_method(&ms[i], target, ctx, gens);
        match rb {
            Ok(()) => {
                proof {
                    dacc = Dv { s0, r: db.r, s1: db.s1, kids: seq![dacc, db] };
                }
            },
            Err(x) => {
                let ghost d = Dv { s0, r: db.r, s1: db.s1, kids: seq![dacc, db] };
                let ghost d2 = lemma_methods_err(ms@, target@, i + 1, d);
                return (Err(x), Ghost(d2));
            },
        }
        i += 1;
    }
    assert(ms@.take(ms.len() as int) =~= ms@);
    (Ok(()), Ghost(dacc))
}

/// Infer an impl block's methods (see [`decl_d`]).
fn walk_impl(ib: &ImplDecl, ctx: &mut InferContext, gens: &mut Vec<FunGeneralization>) -> (out: (Result<InferType, GustError>, Ghost<Dv>))
    requires
        old(ctx).wf(),
        decl_safe(Decl::Impl(*ib), st(*old(ctx), old(gens)@)),
    ensures
        final(ctx).wf(),
        out.0 is Ok ==> final(ctx).mono_scopes().len() == old(ctx).mono_scopes().len(),
        decl_d(out.1@, Decl::Impl(*ib)),
        out.1@.s0 == st(*old(ctx), old(gens)@),
        out.1@.r == one(out.0),
        out.1@.s1 == st(*final(ctx), final(gens)@),
    decreases ib, 0nat,
{
    let ghost s0 = st(*ctx, gens@);
    if ib.header.aspect_name.is_some() {
        let r = Err(GustError::internal(String::from_str("trait impl blocks not yet supported")));
        let ghost d = Dv { s0, r: one(r), s1: s0, kids: seq![] };
        return (r, Ghost(d));
    }
    let target = match &ib.header.target_type {
        TypeExpr::Named(n, args) => {
            if args.len() == 0 {
                n.clone()
            } else {
                let r = Err(GustError::internal(String::from_str("generic impl blocks not yet supported")));
                let ghost d = Dv { s0, r: one(r), s1: s0, kids: seq![] };
                return (r, Ghost(d));
            }
        },
        _ => {
            let r = Err(GustError::internal(String::from_str("generic impl blocks not yet supported")));
            let ghost d = Dv { s0, r: one(r), s1: s0, kids: seq![] };
            return (r, Ghost(d));
        },
    };
    let (rm, Ghost(dm)) = walk_methods(&ib.methods, &target, ctx, gens);
    let r = match rm {
        Ok(()) => Ok(InferType::unit()),
        Err(x) => Err(x),
    };
    let ghost d = Dv { s0, r: one(r), s1: dm.s1, kids: seq![dm] };
    (r, Ghost(d))
}

/// Walk block `b` (see [`blk_d`]).
fn walk_block(b: &Block, ctx: &mut InferContext, gens: &mut Vec<FunGeneralization>) -> (out: (Result<InferType, GustError>, Ghost<Dv>))
    requires
        old(ctx).wf(),
        blk_safe(*b, st(*old(ctx), old(gens)@)),
    ensures
        final(ctx).wf(),
        out.0 is Ok ==> final(ctx).mono_scopes().len() == old(ctx).mono_scopes().len(),
        blk_d(out.1@, *b),
        out.1@.s0 == st(*old(ctx), old(gens)@),
        out.1@.r == one(out.0),
        out.1@.s1 == st(*final(ctx), final(gens)@),
    decreases b, 0nat,
{
    let ghost s0 = st(*ctx, gens@);
    proof { ctx.lemma_wf_scopes(); }
    ctx.push_scope();
    ctx.push_struct_scope();
    let ghost k0 = Dv { s0, r: Ok(Val::Many(Seq::empty())), s1: st(*ctx, gens@), kids: seq![] };
    assert(enter_rec(k0));
    let Ghost(k1) = register_block_types(&b.stmts, ctx, Ghost(gens@));
    hoist_block(&b.stmts, ctx);
    let ghost k2 = Dv { s0: k1.s1, r: Ok(Val::Many(Seq::empty())), s1: st(*ctx, gens@), kids: seq![] };
    let ghost h = Dv { s0, r: Ok(Val::Many(Seq::empty())), s1: k2.s1, kids: seq![k0, k1, k2] };
    assert(head(h, *b));
    let (rd, Ghost(dd)) = walk_decls(&b.stmts, ctx, gens);
    let lt = match rd {
        Ok(t) => t,
        Err(x) => {
            let ghost d = Dv { s0, r: dd.r, s1: dd.s1, kids: seq![h, dd] };
            return (Err(x), Ghost(d));
        },
    };
    match &b.tail {
        Some(tail) => {
            let (rt, Ghost(dt)) = walk_expr(tail, ctx, gens);
            let tt = match rt {
                Ok(t) => t,
                Err(x) => {
                    let ghost d = Dv { s0, r: dt.r, s1: dt.s1, kids: seq![h, dd, dt] };
                    return (Err(x), Ghost(d));
                },
            };
            proof { ctx.lemma_wf_scopes(); }
            ctx.pop_struct_scope();
            ctx.pop_scope();
            let ghost d = Dv { s0, r: one(Ok(tt)), s1: st(*ctx, gens@), kids: seq![h, dd, dt] };
            (Ok(tt), Ghost(d))
        },
        None => {
            proof { ctx.lemma_wf_scopes(); }
            ctx.pop_struct_scope();
            ctx.pop_scope();
            let ghost d = Dv { s0, r: one(Ok(lt)), s1: st(*ctx, gens@), kids: seq![h, dd] };
            (Ok(lt), Ghost(d))
        },
    }
}

/// Register the struct and enum declarations of a block (see [`regs_d`]).
fn register_block_types(decls: &Vec<Decl>, ctx: &mut InferContext, Ghost(g): Ghost<Seq<FunGeneralization>>) -> (out: Ghost<Dv>)
    requires
        old(ctx).wf(),
    ensures
        final(ctx).wf(),
        final(ctx).same_but_registry(old(ctx)),
        regs_d(out@, decls@),
        out@.s0 == st(*old(ctx), g),
        out@.s1 == st(*final(ctx), g),
{
    let ghost s0 = st(*ctx, g);
    let ghost mut dacc = Dv { s0, r: Ok(Val::Many(Seq::empty())), s1: s0, kids: seq![] };
    let mut i: usize = 0;
    assert(decls@.take(0) =~= Seq::<Decl>::empty());
    while i < decls.len()
        invariant
            i <= decls.len(),
            ctx.wf(),
            ctx.same_but_registry(old(ctx)),
            s0 == st(*old(ctx), g),
            regs_d(dacc, decls@.take(i as int)),
            dacc.s0 == s0,
            dacc.s1 == st(*ctx, g),
        decreases decls.len() - i,
    {
        proof {
            assert(decls@.take(i + 1).drop_last() =~= decls@.take(i as int));
            assert(decls@.take(i + 1).last() == decls@[i as int]);
        }
        let ghost c0 = *ctx;
        match &decls[i] {
            Decl::Struct(sd) => {
                let empty: StrMap<TypeVar> = StrMap::new();
                assert(generic_ids(empty.view()) =~= Map::<Seq<char>, u32>::empty());
                let fields = field_entries(&sd.fields, &empty);
                ctx.register_struct_fields(sd.name.clone(), fields);
                assert(ctx.reg().structs() =~= c0.reg().structs().insert(sd.name@, ctx.reg().structs()[sd.name@]));
            },
            Decl::Enum(ed) => {
                let empty: StrMap<TypeVar> = StrMap::new();
                assert(generic_ids(empty.view()) =~= Map::<Seq<char>, u32>::empty());
                let variants = variant_entries(&ed.variants, &empty);
                let info = EnumInfo { type_params: Vec::new(), variants };
                ctx.register_enum(ed.name.clone(), info);
                assert(ctx.reg().enums() =~= c0.reg().enums().insert(ed.name@, ctx.reg().enums()[ed.name@]));
                assert(enum_view(ctx.reg().enums()[ed.name@]).type_params =~= Seq::<TypeVar>::empty());
            },
            _ => {},
        }
        proof {
            dacc = Dv { s0, r: Ok(Val::Many(Seq::empty())), s1: st(*ctx, g), kids: seq![dacc] };
        }
        i += 1;
    }
    assert(decls@.take(decls.len() as int) =~= decls@);
    Ghost(dacc)
}

/// Bind the name of every non-generic function of `decls` to a fresh type
/// variable in the innermost scope (see [`hoist_map`]).
fn hoist_block(decls: &Vec<Decl>, ctx: &mut InferContext)
    requires
        old(ctx).wf(),
        old(ctx).next_var() + hoist_n(decls@) <= u32::MAX,
    ensures
        hoist_step(*old(ctx), decls@, *final(ctx)),
{
    proof { ctx.lemma_wf_scopes(); }
    let ghost start = ctx.next_var() as nat;
    let ghost scopes0 = ctx.mono_scopes();
    let mut i: usize = 0;
    assert(decls@.take(0) =~= Seq::<Decl>::empty());
    while i < decls.len()
        invariant
            i <= decls.len(),
            ctx.wf(),
            scopes0 == old(ctx).mono_scopes(),
            scopes0.len() >= 1,
            start == old(ctx).next_var() as nat,
            start + hoist_n(decls@) <= u32::MAX,
            ctx.mono_scopes() == scopes0.update(scopes0.len() - 1, hoist_map(scopes0.last(), decls@.take(i as int), start)),
            ctx.next_var() == start + hoist_n(decls@.take(i as int)),
            ctx.poly_scopes() == old(ctx).poly_scopes(),
            ctx.constraint_list() == old(ctx).constraint_list(),
            ctx.return_type() == old(ctx).return_type(),
            ctx.break_type() == old(ctx).break_type(),
            ctx.reg() == old(ctx).reg(),
        decreases decls.len() - i,
    {
        proof {
            assert(decls@.take(i + 1).drop_last() =~= decls@.take(i as int));
            assert(decls@.take(i + 1).last() == decls@[i as int]);
            lemma_hoist_n_prefix(decls@, i + 1);
        }
        match &decls[i] {
            Decl::Fun(fd) => {
                if fd.generics.len() == 0 {
                    let fresh = ctx.fresh_var();
                    ctx.bind_mono(fd.name.clone(), fresh, false);
                    proof { ctx.lemma_wf_scopes(); }
                }
            },
            _ => {},
        }
        assert(ctx.mono_scopes() =~= scopes0.update(scopes0.len() - 1, hoist_map(scopes0.last(), decls@.take(i + 1), start)));
        i += 1;
    }
    assert(decls@.take(decls.len() as int) =~= decls@);
}

proof fn lemma_hoist_n_prefix(decls: Seq<Decl>, k: int)
    requires
        0 <= k <= decls.len(),
    ensures
        hoist_n(decls.take(k)) <= hoist_n(decls),
    decreases decls.len(),
{
    if k < decls.len() {
        assert(decls.drop_last().take(k) =~= decls.take(k));
        lemma_hoist_n_prefix(decls.drop_last(), k);
    } else {
        assert(decls.take(k) =~= decls);
    }
}

proof fn lemma_decls_safe_prefix(decls: Seq<Decl>, s0: St, k: int)
    requires
        0 <= k <= decls.len(),
        decls_safe(decls, s0),
    ensures
        decls_safe(decls.take(k), s0),
    decreases decls.len(),
{
    if k < decls.len() {
        assert(decls.drop_last().take(k) =~= decls.take(k));
        lemma_decls_safe_prefix(decls.drop_last(), s0, k);
    } else {
        assert(decls.take(k) =~= decls);
    }
}

/// A walk over a prefix of `decls` that failed is a walk over all of them.
proof fn lemma_decls_err(decls: Seq<Decl>, k: int, d: Dv) -> (d2: Dv)
    requires
        0 <= k <= decls.len(),
        decls_d(d, decls.take(k)),
        d.r is Err,
    ensures
        decls_d(d2, decls),
        d2.s0 == d.s0,
        d2.r == d.r,
        d2.s1 == d.s1,
    decreases decls.len(),
{
    if k < decls.len() {
        assert(decls.drop_last().take(k) =~= decls.take(k));
        let d1 = lemma_decls_err(decls.drop_last(), k, d);
        Dv { s0: d.s0, r: d.r, s1: d.s1, kids: seq![d1] }
    } else {
        assert(decls.take(k) =~= decls);
        d
    }
}

/// Infer `decls` in order (see [`decls_d`]).
fn walk_decls(decls: &Vec<Decl>, ctx: &mut InferContext, gens: &mut Vec<FunGeneralization>) -> (out: (Result<InferType, GustError>, Ghost<Dv>))
    requires
        old(ctx).wf(),
        decls_safe(decls@, st(*old(ctx), old(gens)@)),
    ensures
        final(ctx).wf(),
        out.0 is Ok ==> final(ctx).mono_scopes().len() == old(ctx).mono_scopes().len(),
        decls_d(out.1@, decls@),
        out.1@.s0 == st(*old(ctx), old(gens)@),
        out.1@.r == one(out.0),
        out.1@.s1 == st(*final(ctx), final(gens)@),
    decreases decls, 1nat,
{
    let ghost s0 = st(*ctx, gens@);
    let mut last = InferType::unit();
    let mut i: usize = 0;
    let ghost mut dacc = Dv { s0, r: one(Ok(last)), s1: s0, kids: seq![] };
    assert(decls@.take(0) =~= Seq::<Decl>::empty());
    while i < decls.len()
        invariant
            i <= decls.len(),
            ctx.wf(),
            ctx.mono_scopes().len() == old(ctx).mono_scopes().len(),
            s0 == st(*old(ctx), old(gens)@),
            decls_safe(decls@, s0),
            decls_d(dacc, decls@.take(i as int)),
            dacc.s0 == s0,
            dacc.r == one(Ok(last)),
            dacc.s1 == st(*ctx, gens@),
        decreases decls.len() - i,
    {
        proof {
            lemma_decls_safe_prefix(decls@, s0, i + 1);
            assert(decls@.take(i + 1).drop_last() =~= decls@.take(i as int));
            assert(decls@.take(i + 1).last() == decls@[i as int]);
        }
        let (rb, Ghost(db)) = walk_decl(&decls[i], ctx, gens);
        match rb {
            Ok(t) => {
                last = t;
                proof {
                    dacc = Dv { s0, r: db.r, s1: db.s1, kids: seq![dacc, db] };
                }
            },
            Err(x) => {
                let ghost d = Dv { s0, r: db.r, s1: db.s1, kids: seq![dacc, db] };
                let ghost d2 = lemma_decls_err(decls@, i + 1, d);
                return (Err(x), Ghost(d2));
            },
        }
        i += 1;
    }
    assert(decls@.take(decls.len() as int) =~= decls@);
    (Ok(last), Ghost(dacc))
}

/// Infer declaration `decl` (see [`decl_d`]).
fn walk_decl(decl: &Decl, ctx: &mut InferContext, gens: &mut Vec<FunGeneralization>) -> (out: (Result<InferType, GustError>, Ghost<Dv>))
    requires
        old(ctx).wf(),
        decl_safe(*decl, st(*old(ctx), old(gens)@)),
    ensures
        final(ctx).wf(),
        out.0 is Ok ==> final(ctx).mono_scopes().len() == old(ctx).mono_scopes().len(),
        decl_d(out.1@, *decl),
        out.1@.s0 == st(*old(ctx), old(gens)@),
        out.1@.r == one(out.0),
        out.1@.s1 == st(*final(ctx), final(gens)@),
    decreases decl, 0nat,
{
    let ghost s0 = st(*ctx, gens@);
    match decl {
        Decl::Let(bd) => {
            let env = ctx.env_free_vars();
            assert(env@ =~= env_vars(*ctx));
            let (ra, Ghost(da)) = walk_expr(&bd.value, ctx, gens);
            let tv = match ra {
                Ok(t) => t,
                Err(x) => {
                    let ghost d = Dv { s0, r: da.r, s1: da.s1, kids: seq![da] };
                    return (Err(x), Ghost(d));
                },
            };
            let ann = match &bd.type_ann {
                Some(a) => Some(type_expr_to_infer(a)),
                None => None,
            };
            let is_closure = match &bd.value {
                Expr::Closure { .. } => true,
                _ => false,
            };
            proof { ctx.lemma_wf_scopes(); }
            let r = infer_let_binding(bd.name.clone(), tv, ann, is_closure, env, &bd.span, ctx, gens);
            let ghost d = Dv { s0, r: one(r), s1: st(*ctx, gens@), kids: seq![da] };
            (r, Ghost(d))
        },
        Decl::Mut(bd) => walk_bind_mut(bd, ctx, gens),
        Decl::Fun(fd) => {
            proof { ctx.lemma_wf_scopes(); }
            let (ps, ret, saved, env) = fun_enter(fd, ctx);
            let ghost k0 = Dv { s0, r: Ok(Val::Many(ps@.push(ret))), s1: st(*ctx, gens@), kids: seq![] };
            assert(ps@.push(ret).drop_last() =~= ps@);
            assert(fun_rec(k0, *fd));
            let (rb, Ghost(db)) = walk_block(&fd.body, ctx, gens);
            let tb = match rb {
                Ok(t) => t,
                Err(x) => {
                    let ghost d = Dv { s0, r: db.r, s1: db.s1, kids: seq![k0, db] };
                    return (Err(x), Ghost(d));
                },
            };
            let ghost tb0 = tb;
            let ft = infer_closure_exit(ps, ret, tb, &fd.body.span, saved, ctx);
            let ghost k2 = Dv { s0: db.s1, r: Ok(Val::One(ft)), s1: st(*ctx, gens@), kids: seq![] };
            assert(exit_rec(k2, k0.r->Ok_0->Many_0.drop_last(), k0.r->Ok_0->Many_0.last(), tb0, fd.body.span, s0.ctx.return_type()));
            let rg = infer_fun_generalize(fd.name.clone(), ft, env, &fd.span, ctx, gens);
            let r = match rg {
                Ok(()) => Ok(InferType::unit()),
                Err(x) => Err(x),
            };
            proof { ctx.lemma_wf_scopes(); }
            let ghost d = Dv { s0, r: one(r), s1: st(*ctx, gens@), kids: seq![k0, db, k2] };
            (r, Ghost(d))
        },
        Decl::Struct(_) | Decl::Enum(_) | Decl::Aspect(_) => {
            let u = InferType::unit();
            let ghost d = Dv { s0, r: one(Ok(u)), s1: s0, kids: seq![] };
            (Ok(u), Ghost(d))
        },
        Decl::Stmt(st) => walk_stmt(st, ctx, gens),
        Decl::Impl(ib) => walk_impl(ib, ctx, gens),
    }
}

proof fn lemma_fun_param_types_mono(params: Seq<Param>, g: Map<Seq<char>, u32>, n0: nat, k: int)
    requires
        0 <= k <= params.len(),
    ensures
        fun_param_types(params.take(k), g, n0).1 <= fun_param_types(params, g, n0).1,
        fun_param_types(params.take(k), g, n0).1 >= n0,
        fun_param_types(params, g, n0).0.len() == params.len(),
    decreases params.len(),
{
    if k == params.len() {
        assert(params.take(k) =~= params);
        lemma_fun_param_types_ge(params, g, n0);
    } else {
        assert(params.drop_last().take(k) =~= params.take(k));
        lemma_fun_param_types_mono(params.drop_last(), g, n0, k);
        lemma_fun_param_types_ge(params, g, n0);
    }
}

proof fn lemma_fun_param_types_ge(params: Seq<Param>, g: Map<Seq<char>, u32>, n0: nat)
    ensures
        fun_param_types(params, g, n0).1 >= n0,
        fun_param_types(params, g, n0).0.len() == params.len(),
    decreases params.len(),
{
    if params.len() > 0 {
        lemma_fun_param_types_ge(params.drop_last(), g, n0);
    }
}

/// Enter function `fd` (see [`fun_enter_step`]): also gives the enclosing
/// return type, to restore on leaving, and the variables free in the
/// environment before the function's scope.
fn fun_enter(fd: &FunDecl, ctx: &mut InferContext) -> (r: (Vec<InferType>, InferType, Option<InferType>, HashSet<u32>))
    requires
        old(ctx).wf(),
        fun_next(*fd, old(ctx).next_var() as nat) <= u32::MAX,
    ensures
        fun_enter_step(*fd, *old(ctx), r.0@, r.1, *final(ctx)),
        r.2 == old(ctx).return_type(),
        r.3@ == env_vars(*old(ctx)),
{
    let ghost n0 = ctx.next_var() as nat;
    let ghost c0 = *ctx;
    let ghost n1 = (n0 + fd.generics.len()) as nat;
    proof {
        lemma_fun_param_types_ge(fd.params@, generic_map(fd.generics@, n0), n1);
    }
    let mut gmap: StrMap<TypeVar> = StrMap::new();
    let mut i: usize = 0;
    assert(generic_ids(gmap.view()) =~= generic_map(fd.generics@.take(0), n0));
    while i < fd.generics.len()
        invariant
            i <= fd.generics.len(),
            gmap.wf(),
            generic_ids(gmap.view()) == generic_map(fd.generics@.take(i as int), n0),
            ctx.next_var() == n0 + i,
            n1 <= u32::MAX,
            n1 == n0 + fd.generics.len(),
            ctx.same_envs(&c0),
            ctx.wf(),
        decreases fd.generics.len() - i,
    {
        let v = ctx.fresh_type_var_raw();
        gmap.insert(fd.generics[i].name.clone(), v);
        proof {
            assert(fd.generics@.take(i + 1).drop_last() =~= fd.generics@.take(i as int));
            assert(generic_ids(gmap.view()) =~= generic_map(fd.generics@.take(i + 1), n0));
        }
        i += 1;
    }
    assert(fd.generics@.take(fd.generics.len() as int) =~= fd.generics@);
    let ghost g = generic_map(fd.generics@, n0);
    let mut tys: Vec<InferType> = Vec::new();
    let mut j: usize = 0;
    proof { lemma_infers_model(tys@); }
    while j < fd.params.len()
        invariant
            j <= fd.params.len(),
            gmap.wf(),
            generic_ids(gmap.view()) == g,
            ctx.wf(),
            ctx.same_envs(&c0),
            fun_param_types(fd.params@, g, n1).1 + if fd.return_type is None { 1nat } else { 0nat } <= u32::MAX,
            infers_model(tys@) == fun_param_types(fd.params@.take(j as int), g, n1).0,
            ctx.next_var() == fun_param_types(fd.params@.take(j as int), g, n1).1,
            tys@.len() == j,
        decreases fd.params.len() - j,
    {
        proof {
            assert(fd.params@.take(j + 1).drop_last() =~= fd.params@.take(j as int));
            lemma_fun_param_types_mono(fd.params@, g, n1, j + 1);
        }
        let t = match &fd.params[j].type_ann {
            Some(te) => type_expr_to_infer_with_generics(te, &gmap),
            None => ctx.fresh_var(),
        };
        proof { lemma_infers_model_push(tys@, t); }
        tys.push(t);
        j += 1;
    }
    assert(fd.params@.take(fd.params.len() as int) =~= fd.params@);
    let ret = match &fd.return_type {
        Some(te) => type_expr_to_infer_with_generics(te, &gmap),
        None => ctx.fresh_var(),
    };
    let env = ctx.env_free_vars();
    assert(env@ =~= env_vars(c0));
    proof { ctx.lemma_wf_scopes(); }
    ctx.push_scope();
    let ghost m0 = ctx.mono_scopes();
    let ghost tv = fun_param_types(fd.params@, g, n1).0;
    proof {
        lemma_infers_model(tys@);
        assert(mono_view(m0.last()) =~= fun_scope(fd.params@.take(0), tv.take(0)));
    }
    let mut k: usize = 0;
    while k < fd.params.len()
        invariant
            k <= fd.params.len(),
            tys@.len() == fd.params.len(),
            ctx.wf(),
            m0.len() >= 1,
            ctx.mono_scopes().len() == m0.len(),
            ctx.mono_scopes().drop_last() == m0.drop_last(),
            mono_view(ctx.mono_scopes().last()) == fun_scope(fd.params@.take(k as int), tv.take(k as int)),
            tv == infers_model(tys@),
            infers_model(tys@).len() == tys@.len(),
            forall|q: int| 0 <= q < tys@.len() ==> #[trigger] infers_model(tys@)[q] == tys@[q]@,
            ctx.poly_scopes() == c0.poly_scopes().push(Map::empty()),
            ctx.next_var() == fun_next(*fd, n0),
            ret@ == match fd.return_type {
                Some(te) => te_to_infer(te@, g),
                None => InferTypeView::Var(fun_param_types(fd.params@, g, n1).1 as u32),
            },
            ctx.constraint_list() == c0.constraint_list(),
            ctx.return_type() == c0.return_type(),
            ctx.break_type() == c0.break_type(),
            ctx.reg() == c0.reg(),
            m0.drop_last() == c0.mono_scopes(),
        decreases fd.params.len() - k,
    {
        let t = clone_infer(&tys[k]);
        let ghost prev = ctx.mono_scopes();
        proof {
            assert(fd.params@.take(k + 1).drop_last() =~= fd.params@.take(k as int));
            assert(tv.take(k + 1).take(k as int) =~= tv.take(k as int));
        }
        ctx.bind_mono(fd.params[k].name.clone(), t, false);
        proof {
            assert(ctx.mono_scopes().drop_last() =~= prev.drop_last());
            assert(mono_view(ctx.mono_scopes().last()) =~= mono_view(prev.last()).insert(
                fd.params@[k as int].name@,
                (tys@[k as int]@, false),
            ));
            assert(fd.params@.take(k + 1).last() == fd.params@[k as int]);
            assert(tv.take(k + 1)[k as int] == tys@[k as int]@);
        }
        k += 1;
    }
    assert(fd.params@.take(fd.params.len() as int) =~= fd.params@);
    assert(tv.take(fd.params.len() as int) =~= tv);
    let saved = ctx.push_return_type(clone_infer(&ret));
    (tys, ret, saved, env)
}

/// Infer a mutable binding (see [`bind_mut_d`]).
fn walk_bind_mut(bd: &BindDecl, ctx: &mut InferContext, gens: &mut Vec<FunGeneralization>) -> (out: (Result<InferType, GustError>, Ghost<Dv>))
    requires
        old(ctx).wf(),
        ex_safe(bd.value, st(*old(ctx), old(gens)@)),
    ensures
        final(ctx).wf(),
        out.0 is Ok ==> final(ctx).mono_scopes().len() == old(ctx).mono_scopes().len(),
        bind_mut_d(out.1@, *bd),
        out.1@.s0 == st(*old(ctx), old(gens)@),
        out.1@.r == one(out.0),
        out.1@.s1 == st(*final(ctx), final(gens)@),
    decreases bd, 0nat,
{
    let ghost s0 = st(*ctx, gens@);
    let (ra, Ghost(da)) = walk_expr(&bd.value, ctx, gens);
    let tv = match ra {
        Ok(t) => t,
        Err(x) => {
            let ghost d = Dv { s0, r: da.r, s1: da.s1, kids: seq![da] };
            return (Err(x), Ghost(d));
        },
    };
    match &bd.type_ann {
        Some(a) => {
            add_c(ctx, clone_infer(&tv), type_expr_to_infer(a), &bd.span);
        },
        None => {},
    }
    let ghost k1 = Dv { s0: da.s1, r: Ok(Val::Many(Seq::empty())), s1: st(*ctx, gens@), kids: seq![] };
    proof { ctx.lemma_wf_scopes(); }
    ctx.bind_mono(bd.name.clone(), tv, true);
    let u = InferType::unit();
    let ghost d = Dv { s0, r: one(Ok(u)), s1: st(*ctx, gens@), kids: seq![da, k1] };
    (Ok(u), Ghost(d))
}

/// Walk an optional expression (see [`opt_d`]).
fn walk_opt(o: &Option<Expr>, ctx: &mut InferContext, gens: &mut Vec<FunGeneralization>) -> (out: (Result<(), GustError>, Ghost<Dv>))
    requires
        old(ctx).wf(),
        opt_safe(*o, st(*old(ctx), old(gens)@)),
    ensures
        final(ctx).wf(),
        out.0 is Ok ==> final(ctx).mono_scopes().len() == old(ctx).mono_scopes().len(),
        opt_d(out.1@, *o),
        out.1@.s0 == st(*old(ctx), old(gens)@),
        match out.0 { Ok(_) => out.1@.r is Ok, Err(x) => out.1@.r == Err::<Val, GustError>(x) },
        out.1@.s1 == st(*final(ctx), final(gens)@),
    decreases o, 0nat,
{
    match o {
        None => {
            let ghost s0 = st(*ctx, gens@);
            (Ok(()), Ghost(Dv { s0, r: Ok(Val::Many(Seq::empty())), s1: s0, kids: seq![] }))
        },
        Some(e) => {
            let (r, Ghost(d)) = walk_expr(e, ctx, gens);
            match r {
                Ok(_) => (Ok(()), Ghost(d)),
                Err(x) => (Err(x), Ghost(d)),
            }
        },
    }
}

/// Walk the initializer of a C-style `for` (see [`init_d`]).
fn walk_init(init: &Option<ForInit>, ctx: &mut InferContext, gens: &mut Vec<FunGeneralization>) -> (out: (Result<(), GustError>, Ghost<Dv>))
    requires
        old(ctx).wf(),
        init_safe(*init, st(*old(ctx), old(gens)@)),
    ensures
        final(ctx).wf(),
        out.0 is Ok ==> final(ctx).mono_scopes().len() == old(ctx).mono_scopes().len(),
        init_d(out.1@, *init),
        out.1@.s0 == st(*old(ctx), old(gens)@),
        match out.0 { Ok(_) => out.1@.r is Ok, Err(x) => out.1@.r == Err::<Val, GustError>(x) },
        out.1@.s1 == st(*final(ctx), final(gens)@),
    decreases init, 0nat,
{
    match init {
        None => {
            let ghost s0 = st(*ctx, gens@);
            (Ok(()), Ghost(Dv { s0, r: Ok(Val::Many(Seq::empty())), s1: s0, kids: seq![] }))
        },
        Some(ForInit::Mut(bd)) => {
            let (r, Ghost(d)) = walk_bind_mut(bd, ctx, gens);
            match r {
                Ok(_) => (Ok(()), Ghost(d)),
                Err(x) => (Err(x), Ghost(d)),
            }
        },
        Some(ForInit::Expr(e)) => {
            let (r, Ghost(d)) = walk_expr(e, ctx, gens);
            match r {
                Ok(_) => (Ok(()), Ghost(d)),
                Err(x) => (Err(x), Ghost(d)),
            }
        },
    }
}

/// Walk an optional condition, required to be `Bool` (see [`cond_d`]).
fn walk_cond(o: &Option<Expr>, span: &Span, ctx: &mut InferContext, gens: &mut Vec<FunGeneralization>) -> (out: (Result<(), GustError>, Ghost<Dv>))
    requires
        old(ctx).wf(),
        opt_safe(*o, st(*old(ctx), old(gens)@)),
    ensures
        final(ctx).wf(),
        out.0 is Ok ==> final(ctx).mono_scopes().len() == old(ctx).mono_scopes().len(),
        cond_d(out.1@, *o, *span),
        out.1@.s0 == st(*old(ctx), old(gens)@),
        match out.0 { Ok(_) => out.1@.r is Ok, Err(x) => out.1@.r == Err::<Val, GustError>(x) },
        out.1@.s1 == st(*final(ctx), final(gens)@),
    decreases o, 0nat,
{
    let ghost s0 = st(*ctx, gens@);
    match o {
        None => (Ok(()), Ghost(Dv { s0, r: Ok(Val::Many(Seq::empty())), s1: s0, kids: seq![] })),
        Some(c) => {
            let (ra, Ghost(da)) = walk_expr(c, ctx, gens);
            let tc = match ra {
                Ok(t) => t,
                Err(x) => {
                    let ghost d = Dv { s0, r: da.r, s1: da.s1, kids: seq![da] };
                    return (Err(x), Ghost(d));
                },
            };
            add_c(ctx, tc, InferType::bool(), span);
            let ghost d = Dv { s0, r: Ok(Val::Many(Seq::empty())), s1: st(*ctx, gens@), kids: seq![da] };
            (Ok(()), Ghost(d))
        },
    }
}

/// Infer statement `st` (see [`stmt_d`]).
fn walk_stmt(stmt: &Stmt, ctx: &mut InferContext, gens: &mut Vec<FunGeneralization>) -> (out: (Result<InferType, GustError>, Ghost<Dv>))
    requires
        old(ctx).wf(),
        stmt_safe(*stmt, st(*old(ctx), old(gens)@)),
    ensures
        final(ctx).wf(),
        out.0 is Ok ==> final(ctx).mono_scopes().len() == old(ctx).mono_scopes().len(),
        stmt_d(out.1@, *stmt),
        out.1@.s0 == st(*old(ctx), old(gens)@),
        out.1@.r == one(out.0),
        out.1@.s1 == st(*final(ctx), final(gens)@),
    decreases stmt, 1nat,
{
    let ghost s0 = st(*ctx, gens@);
    match stmt {
        Stmt::Expr(e) => {
            let (ra, Ghost(da)) = walk_expr(e, ctx, gens);
            let r = match ra {
                Ok(_) => Ok(InferType::unit()),
                Err(x) => Err(x),
            };
            let ghost d = Dv { s0, r: one(r), s1: da.s1, kids: seq![da] };
            (r, Ghost(d))
        },
        Stmt::Return { value, span } => {
            let ghost mut kids: Seq<Dv> = Seq::empty();
            let tv = match value {
                Some(e) => {
                    let (ra, Ghost(da)) = walk_expr(e, ctx, gens);
                    match ra {
                        Ok(t) => {
                            proof { kids = seq![da]; }
                            t
                        },
                        Err(x) => {
                            let ghost d = Dv { s0, r: da.r, s1: da.s1, kids: seq![da] };
                            return (Err(x), Ghost(d));
                        },
                    }
                },
                None => InferType::unit(),
            };
            let t = infer_return(tv, span, ctx);
            let ghost d = Dv { s0, r: one(Ok(t)), s1: st(*ctx, gens@), kids };
            (Ok(t), Ghost(d))
        },
        Stmt::Break { value, span } => {
            let ghost mut kids: Seq<Dv> = Seq::empty();
            let tv = match value {
                Some(e) => {
                    let (ra, Ghost(da)) = walk_expr(e, ctx, gens);
                    match ra {
                        Ok(t) => {
                            proof { kids = seq![da]; }
                            t
                        },
                        Err(x) => {
                            let ghost d = Dv { s0, r: da.r, s1: da.s1, kids: seq![da] };
                            return (Err(x), Ghost(d));
                        },
                    }
                },
                None => InferType::unit(),
            };
            let t = infer_break(tv, span, ctx);
            let ghost d = Dv { s0, r: one(Ok(t)), s1: st(*ctx, gens@), kids };
            (Ok(t), Ghost(d))
        },
        Stmt::Continue(_) => {
            let t = InferType::never();
            let ghost d = Dv { s0, r: one(Ok(t)), s1: s0, kids: seq![] };
            (Ok(t), Ghost(d))
        },
        Stmt::While { .. } | Stmt::For { .. } | Stmt::ForIn { .. } => walk_loop_stmt(stmt, ctx, gens),
    }
}

/// Infer statement `st` (see [`stmt_d`]).
fn walk_loop_stmt(stmt: &Stmt, ctx: &mut InferContext, gens: &mut Vec<FunGeneralization>) -> (out: (Result<InferType, GustError>, Ghost<Dv>))
    requires
        old(ctx).wf(),
        stmt_safe(*stmt, st(*old(ctx), old(gens)@)),
        *stmt is For || *stmt is ForIn || *stmt is While,
    ensures
        final(ctx).wf(),
        out.0 is Ok ==> final(ctx).mono_scopes().len() == old(ctx).mono_scopes().len(),
        stmt_d(out.1@, *stmt),
        out.1@.s0 == st(*old(ctx), old(gens)@),
        out.1@.r == one(out.0),
        out.1@.s1 == st(*final(ctx), final(gens)@),
    decreases stmt, 0nat,
{
    let ghost s0 = st(*ctx, gens@);
    match stmt {
        Stmt::While { condition, body, span } => {
            let (ra, Ghost(da)) = walk_expr(condition, ctx, gens);
            let tc = match ra {
                Ok(t) => t,
                Err(x) => {
                    let ghost d = Dv { s0, r: da.r, s1: da.s1, kids: seq![da] };
                    return (Err(x), Ghost(d));
                },
            };
            let ghost tcv = tc@;
            add_c(ctx, tc, InferType::bool(), span);
            let ghost k1 = Dv { s0: da.s1, r: Ok(Val::Many(Seq::empty())), s1: st(*ctx, gens@), kids: seq![] };
            assert(add_rec(k1, tcv, InferTypeView::Concrete(TypeView::Bool), *span));
            let (rb, Ghost(db)) = walk_block(body, ctx, gens);
            match rb {
                Ok(_) => {},
                Err(x) => {
                    let ghost d = Dv { s0, r: db.r, s1: db.s1, kids: seq![da, k1, db] };
                    return (Err(x), Ghost(d));
                },
            }
            let u = InferType::unit();
            let ghost d = Dv { s0, r: one(Ok(u)), s1: db.s1, kids: seq![da, k1, db] };
            (Ok(u), Ghost(d))
        },
        Stmt::For { init, condition, step, body, span } => {
            proof { ctx.lemma_wf_scopes(); }
            ctx.push_scope();
            let ghost k0 = Dv { s0, r: Ok(Val::Many(Seq::empty())), s1: st(*ctx, gens@), kids: seq![] };
            assert(push_rec(k0));
            let (r1, Ghost(d1)) = walk_init(init, ctx, gens);
            if let Err(x) = r1 {
                let ghost d = Dv { s0, r: d1.r, s1: d1.s1, kids: seq![k0, d1] };
                return (Err(x), Ghost(d));
            }
            let (r2, Ghost(d2)) = walk_cond(condition, span, ctx, gens);
            if let Err(x) = r2 {
                let ghost d = Dv { s0, r: d2.r, s1: d2.s1, kids: seq![k0, d1, d2] };
                return (Err(x), Ghost(d));
            }
            let (r3, Ghost(d3)) = walk_opt(step, ctx, gens);
            if let Err(x) = r3 {
                let ghost d = Dv { s0, r: d3.r, s1: d3.s1, kids: seq![k0, d1, d2, d3] };
                return (Err(x), Ghost(d));
            }
            let (r4, Ghost(d4)) = walk_block(body, ctx, gens);
            if let Err(x) = r4 {
                let ghost d = Dv { s0, r: d4.r, s1: d4.s1, kids: seq![k0, d1, d2, d3, d4] };
                return (Err(x), Ghost(d));
            }
            proof { ctx.lemma_wf_scopes(); }
            ctx.pop_scope();
            let u = InferType::unit();
            let ghost d = Dv { s0, r: one(Ok(u)), s1: st(*ctx, gens@), kids: seq![k0, d1, d2, d3, d4] };
            (Ok(u), Ghost(d))
        },
        Stmt::ForIn { binding, iterable, body, span } => {
            let (ra, Ghost(da)) = walk_expr(iterable, ctx, gens);
            let ti = match ra {
                Ok(t) => t,
                Err(x) => {
                    let ghost d = Dv { s0, r: da.r, s1: da.s1, kids: seq![da] };
                    return (Err(x), Ghost(d));
                },
            };
            let ghost ti0 = ti;
            let rf = infer_for_in(ti, span, ctx);
            let ghost k1 = Dv { s0: da.s1, r: one(rf), s1: st(*ctx, gens@), kids: seq![] };
            assert(for_in_rec(k1, ti0, *span));
            let te = match rf {
                Ok(t) => t,
                Err(x) => {
                    let ghost d = Dv { s0, r: k1.r, s1: k1.s1, kids: seq![da, k1] };
                    return (Err(x), Ghost(d));
                },
            };
            proof { ctx.lemma_wf_scopes(); }
            ctx.push_scope();
            let ghost k2 = Dv { s0: k1.s1, r: Ok(Val::Many(Seq::empty())), s1: st(*ctx, gens@), kids: seq![] };
            assert(push_rec(k2));
            proof { ctx.lemma_wf_scopes(); }
            ctx.bind_mono(binding.clone(), te, false);
            let ghost k3 = Dv { s0: k2.s1, r: Ok(Val::Many(Seq::empty())), s1: st(*ctx, gens@), kids: seq![] };
            assert(bind_rec(k3, binding@, te, false));
            let (rb, Ghost(db)) = walk_block(body, ctx, gens);
            if let Err(x) = rb {
                let ghost d = Dv { s0, r: db.r, s1: db.s1, kids: seq![da, k1, k2, k3, db] };
                return (Err(x), Ghost(d));
            }
            proof { ctx.lemma_wf_scopes(); }
            ctx.pop_scope();
            let u = InferType::unit();
            let ghost d = Dv { s0, r: one(Ok(u)), s1: st(*ctx, gens@), kids: seq![da, k1, k2, k3, db] };
            (Ok(u), Ghost(d))
        },
        _ => {
            assert(false);
            (Err(GustError::internal(String::from_str("unreachable"))), Ghost(arbitrary()))
        },
    }
}

/// Record that `lhs` must equal `rhs` at `span`.
fn add_c(ctx: &mut InferContext, lhs: InferType, rhs: InferType, span: &Span)
    ensures
        add_step(*old(ctx), lhs@, rhs@, *span, *final(ctx)),
{
    let ghost before = ctx.constraint_list();
    ctx.add_constraint(lhs, rhs, span.clone());
    assert(ctx.constraint_list().take(before.len() as int) =~= ctx.constraint_list().drop_last());
}

/// Find the type of an assignment's target (see [`tgt_d`]).
fn walk_target(target: &AssignTarget, ctx: &mut InferContext, gens: &mut Vec<FunGeneralization>) -> (out: (Result<InferType, GustError>, Ghost<Dv>))
    requires
        old(ctx).wf(),
        tgt_safe(*target, st(*old(ctx), old(gens)@)),
    ensures
        final(ctx).wf(),
        out.0 is Ok ==> final(ctx).mono_scopes().len() == old(ctx).mono_scopes().len(),
        tgt_d(out.1@, *target),
        out.1@.s0 == st(*old(ctx), old(gens)@),
        out.1@.r == one(out.0),
        out.1@.s1 == st(*final(ctx), final(gens)@),
    decreases target, 0nat,
{
    let ghost s0 = st(*ctx, gens@);
    match target {
        AssignTarget::Ident(name, span) => {
            let r = ctx.lookup_for_write(name.as_str(), span);
            let ghost d = Dv { s0, r: one(r), s1: s0, kids: seq![] };
            (r, Ghost(d))
        },
        AssignTarget::Index { object, index, span } => {
            let (ra, Ghost(da)) = walk_expr(object, ctx, gens);
            let to = match ra {
                Ok(t) => t,
                Err(x) => {
                    let ghost d = Dv { s0, r: da.r, s1: da.s1, kids: seq![da] };
                    return (Err(x), Ghost(d));
                },
            };
            let (rb, Ghost(db)) = walk_expr(index, ctx, gens);
            let ti = match rb {
                Ok(t) => t,
                Err(x) => {
                    let ghost d = Dv { s0, r: db.r, s1: db.s1, kids: seq![da, db] };
                    return (Err(x), Ghost(d));
                },
            };
            let t = infer_index(to, ti, span, ctx);
            let ghost d = Dv { s0, r: one(Ok(t)), s1: st(*ctx, gens@), kids: seq![da, db] };
            (Ok(t), Ghost(d))
        },
        AssignTarget::FieldAccess { object, field, span } => {
            let (ra, Ghost(da)) = walk_expr(object, ctx, gens);
            let to = match ra {
                Ok(t) => t,
                Err(x) => {
                    let ghost d = Dv { s0, r: da.r, s1: da.s1, kids: seq![da] };
                    return (Err(x), Ghost(d));
                },
            };
            let r = infer_field_assign_type(&to, field.as_str(), span, ctx);
            let ghost d = Dv { s0, r: one(r), s1: da.s1, kids: seq![da] };
            (r, Ghost(d))
        },
    }
}

proof fn lemma_arr_safe_prefix(es: Seq<Expr>, first: InferType, span: Span, s0: St, k: int)
    requires
        0 <= k <= es.len(),
        arr_safe(es, first, span, s0),
    ensures
        arr_safe(es.take(k), first, span, s0),
    decreases es.len(),
{
    if k < es.len() {
        assert(es.drop_last().take(k) =~= es.take(k));
        lemma_arr_safe_prefix(es.drop_last(), first, span, s0, k);
    } else {
        assert(es.take(k) =~= es);
    }
}

/// A walk over a prefix of an array's elements that failed is a walk over
/// all of them.
proof fn lemma_arr_err(es: Seq<Expr>, first: InferType, span: Span, k: int, d: Dv) -> (d2: Dv)
    requires
        0 <= k <= es.len(),
        arr_d(d, es.take(k), first, span),
        d.r is Err,
    ensures
        arr_d(d2, es, first, span),
        d2.s0 == d.s0,
        d2.r == d.r,
        d2.s1 == d.s1,
    decreases es.len(),
{
    if k < es.len() {
        assert(es.drop_last().take(k) =~= es.take(k));
        let d1 = lemma_arr_err(es.drop_last(), first, span, k, d);
        Dv { s0: d.s0, r: d.r, s1: d.s1, kids: seq![d1] }
    } else {
        assert(es.take(k) =~= es);
        d
    }
}

/// Infer each element of `es` after the first, each required to have the
/// first's type (see [`arr_d`]).
fn walk_array_rest(es: &Vec<Expr>, first: &InferType, span: &Span, ctx: &mut InferContext, gens: &mut Vec<FunGeneralization>) -> (out: (Result<(), GustError>, Ghost<Dv>))
    requires
        old(ctx).wf(),
        es.len() >= 1,
        arr_safe(es@.drop_first(), *first, *span, st(*old(ctx), old(gens)@)),
    ensures
        final(ctx).wf(),
        out.0 is Ok ==> final(ctx).mono_scopes().len() == old(ctx).mono_scopes().len(),
        arr_d(out.1@, es@.drop_first(), *first, *span),
        out.1@.s0 == st(*old(ctx), old(gens)@),
        out.1@.r == match out.0 { Ok(_) => Ok(Val::Many(Seq::empty())), Err(x) => Err::<Val, GustError>(x) },
        out.1@.s1 == st(*final(ctx), final(gens)@),
    decreases es, 1nat,
{
    let ghost s0 = st(*ctx, gens@);
    let ghost rest = es@.drop_first();
    let mut i: usize = 1;
    let ghost mut dacc = Dv { s0, r: Ok(Val::Many(Seq::empty())), s1: s0, kids: seq![] };
    assert(rest.take(0) =~= Seq::<Expr>::empty());
    while i < es.len()
        invariant
            1 <= i <= es.len(),
            rest == es@.drop_first(),
            ctx.wf(),
            ctx.mono_scopes().len() == old(ctx).mono_scopes().len(),
            s0 == st(*old(ctx), old(gens)@),
            arr_safe(rest, *first, *span, s0),
            arr_d(dacc, rest.take(i - 1), *first, *span),
            dacc.s0 == s0,
            dacc.r == Ok::<Val, GustError>(Val::Many(Seq::empty())),
            dacc.s1 == st(*ctx, gens@),
        decreases es.len() - i,
    {
        proof {
            lemma_arr_safe_prefix(rest, *first, *span, s0, i as int);
            assert(rest.take(i as int).drop_last() =~= rest.take(i - 1));
            assert(rest.take(i as int).last() == es@[i as int]);
        }
        let (rb, Ghost(db)) = walk_expr(&es[i], ctx, gens);
        match rb {
            Ok(t) => {
                let ghost c0 = *ctx;
                add_c(ctx, t, clone_infer(first), span);
                proof {
                    dacc = Dv { s0, r: Ok(Val::Many(Seq::empty())), s1: st(*ctx, gens@), kids: seq![dacc, db] };
                }
            },
            Err(x) => {
                let ghost d = Dv { s0, r: db.r, s1: db.s1, kids: seq![dacc, db] };
                let ghost d2 = lemma_arr_err(rest, *first, *span, i as int, d);
                return (Err(x), Ghost(d2));
            },
        }
        i += 1;
    }
    assert(rest.take(es.len() - 1) =~= rest);
    (Ok(()), Ghost(dacc))
}

/// Infer each of `es` in order (see [`exs_d`]).
fn walk_exprs(es: &Vec<Expr>, ctx: &mut InferContext, gens: &mut Vec<FunGeneralization>) -> (out: (Result<Vec<InferType>, GustError>, Ghost<Dv>))
    requires
        old(ctx).wf(),
        exs_safe(es@, st(*old(ctx), old(gens)@)),
    ensures
        final(ctx).wf(),
        out.0 is Ok ==> final(ctx).mono_scopes().len() == old(ctx).mono_scopes().len(),
        exs_d(out.1@, es@),
        out.1@.s0 == st(*old(ctx), old(gens)@),
        out.1@.r == match out.0 { Ok(ts) => Ok(Val::Many(ts@)), Err(x) => Err::<Val, GustError>(x) },
        out.1@.s1 == st(*final(ctx), final(gens)@),
    decreases es, 1nat,
{
    let ghost s0 = st(*ctx, gens@);
    let mut ts: Vec<InferType> = Vec::new();
    let mut i: usize = 0;
    let ghost mut dacc = Dv { s0, r: Ok(Val::Many(Seq::empty())), s1: s0, kids: seq![] };
    assert(es@.take(0) =~= Seq::<Expr>::empty());
    while i < es.len()
        invariant
            i <= es.len(),
            ctx.wf(),
            ctx.mono_scopes().len() == old(ctx).mono_scopes().len(),
            s0 == st(*old(ctx), old(gens)@),
            exs_safe(es@, s0),
            exs_d(dacc, es@.take(i as int)),
            dacc.s0 == s0,
            dacc.r == Ok::<Val, GustError>(Val::Many(ts@)),
            dacc.s1 == st(*ctx, gens@),
        decreases es.len() - i,
    {
        proof {
            lemma_exs_safe_prefix(es@, s0, i + 1);
            assert(es@.take(i + 1).drop_last() =~= es@.take(i as int));
            assert(es@.take(i + 1).last() == es@[i as int]);
        }
        let (rb, Ghost(db)) = walk_expr(&es[i], ctx, gens);
        match rb {
            Ok(t) => {
                ts.push(t);
                proof {
                    dacc = Dv { s0, r: Ok(Val::Many(ts@)), s1: db.s1, kids: seq![dacc, db] };
                }
            },
            Err(x) => {
                let ghost d = Dv { s0, r: db.r, s1: db.s1, kids: seq![dacc, db] };
                let ghost d2 = lemma_exs_err(es@, i + 1, d);
                return (Err(x), Ghost(d2));
            },
        }
        i += 1;
    }
    assert(es@.take(es.len() as int) =~= es@);
    (Ok(ts), Ghost(dacc))
}

} // verus!
verus! {

// ── Scopes nest ──────────────────────────────────────────────────────────────

/// `b`'s scope stacks are `a`'s.
pub open spec fn same_scopes(a: St, b: St) -> bool {
    b.ctx.mono_scopes() == a.ctx.mono_scopes() && b.ctx.poly_scopes() == a.ctx.poly_scopes()
}

/// `b`'s scope stacks are `a`'s but for what the innermost scopes bind.
pub open spec fn same_outer(a: St, b: St) -> bool {
    &&& b.ctx.mono_scopes().len() == a.ctx.mono_scopes().len()
    &&& b.ctx.poly_scopes().len() == a.ctx.poly_scopes().len()
    &&& b.ctx.mono_scopes().drop_last() == a.ctx.mono_scopes().drop_last()
    &&& b.ctx.poly_scopes().drop_last() == a.ctx.poly_scopes().drop_last()
}

/// Both scope stacks of `s` hold at least the root scope.
pub open spec fn rooted(s: St) -> bool {
    s.ctx.mono_scopes().len() >= 1 && s.ctx.poly_scopes().len() >= 1
}

proof fn lemma_update_outer<A>(s: Seq<A>, x: A)
    requires
        s.len() >= 1,
    ensures
        s.update(s.len() - 1, x).len() == s.len(),
        s.update(s.len() - 1, x).drop_last() == s.drop_last(),
{
    assert(s.update(s.len() - 1, x).drop_last() =~= s.drop_last());
}

proof fn lemma_push_drop<A>(s: Seq<A>, x: A)
    ensures
        s.push(x).drop_last() == s,
        s.push(x).len() == s.len() + 1,
{
    assert(s.push(x).drop_last() =~= s);
}

/// Opening scopes of both kinds at `c` and closing them again gives back
/// `c`'s stacks.
proof fn lemma_scopes_pushed(c: InferContext)
    ensures
        c.mono_scopes().push(Map::empty()).drop_last() == c.mono_scopes(),
        c.poly_scopes().push(Map::empty()).drop_last() == c.poly_scopes(),
{
    lemma_push_drop(c.mono_scopes(), Map::empty());
    lemma_push_drop(c.poly_scopes(), Map::empty());
}

proof fn lemma_ex_scopes(d: Dv, e: Expr)
    requires
        ex_d(d, e),
        d.r is Ok,
        rooted(d.s0),
    ensures
        same_scopes(d.s0, d.s1),
    decreases e, 0nat,
{
    let k = d.kids;
    match e {
        Expr::BinOp(l, _, rr, _) => {
            lemma_ex_scopes(k[0], *l);
            lemma_ex_scopes(k[1], *rr);
        },
        Expr::UnaryOp(_, x, _) => {
            lemma_ex_scopes(k[0], *x);
        },
        Expr::Tuple(es, _) => {
            lemma_exs_scopes(k[0], es@);
        },
        Expr::Call { callee, args, .. } => {
            lemma_ex_scopes(k[0], *callee);
            lemma_exs_scopes(k[1], args@);
        },
        Expr::StructLiteral { path, fields, span } => {
            match lit_shape(d.s0.ctx, path@) {
                LitShape::Found { name, qs, decl, owner, all } => {
                    lemma_lit_scopes(k[1], fields@, decl, inst_map(qs, d.s0.ctx.next_var() as nat), owner, span);
                },
                _ => {},
            }
        },
        Expr::Match { scrutinee, arms, .. } => {
            lemma_ex_scopes(k[0], *scrutinee);
            lemma_arms_scopes(k[2], arms@, one_of(k[0].r), one_of(k[1].r));
        },
        Expr::If { condition, then_branch, else_branch, .. } => {
            lemma_ex_scopes(k[0], *condition);
            lemma_blk_scopes(k[2], then_branch);
            match else_branch {
                Some(eb) => {
                    lemma_blk_scopes(k[3], eb);
                },
                None => {},
            }
        },
        Expr::Loop { body, .. } => {
            lemma_blk_scopes(k[1], body);
        },
        Expr::Closure { body, .. } => {
            lemma_scopes_pushed(d.s0.ctx);
            lemma_blk_scopes(k[1], body);
        },
        Expr::Array(es, span) => {
            if es@.len() > 0 {
                lemma_ex_scopes(k[0], es@[0]);
                lemma_arr_scopes(k[1], es@.drop_first(), one_of(k[0].r), span);
            }
        },
        Expr::Index { object, index, .. } => {
            lemma_ex_scopes(k[0], *object);
            lemma_ex_scopes(k[1], *index);
        },
        Expr::Ascribe { expr, .. } => {
            lemma_ex_scopes(k[0], *expr);
        },
        Expr::Cast { expr, .. } => {
            lemma_ex_scopes(k[0], *expr);
        },
        Expr::TupleAccess { object, .. } => {
            lemma_ex_scopes(k[0], *object);
        },
        Expr::PropagateError { expr, .. } => {
            lemma_ex_scopes(k[0], *expr);
        },
        Expr::FieldAccess { object, .. } => {
            lemma_ex_scopes(k[0], *object);
        },
        Expr::MethodCall { receiver, args, .. } => {
            lemma_ex_scopes(k[0], *receiver);
            lemma_exs_scopes(k[2], args@);
        },
        Expr::Assign { target, value, .. } => {
            lemma_tgt_scopes(k[0], target);
            lemma_ex_scopes(k[1], *value);
        },
        _ => {},
    }
}

proof fn lemma_exs_scopes(d: Dv, es: Seq<Expr>)
    requires
        exs_d(d, es),
        d.r is Ok,
        rooted(d.s0),
    ensures
        same_scopes(d.s0, d.s1),
    decreases es, 1nat,
{
    if es.len() > 0 {
        lemma_exs_scopes(d.kids[0], es.drop_last());
        lemma_ex_scopes(d.kids[1], es.last());
    }
}

proof fn lemma_arr_scopes(d: Dv, es: Seq<Expr>, first: InferType, span: Span)
    requires
        arr_d(d, es, first, span),
        d.r is Ok,
        rooted(d.s0),
    ensures
        same_scopes(d.s0, d.s1),
    decreases es, 1nat,
{
    if es.len() > 0 {
        lemma_arr_scopes(d.kids[0], es.drop_last(), first, span);
        lemma_ex_scopes(d.kids[1], es.last());
    }
}

proof fn lemma_lit_scopes(d: Dv, fields: Seq<(String, Expr)>, decl: Seq<(Seq<char>, InferTypeView)>, remap: Map<u32, InferTypeView>, owner: Seq<char>, span: Span)
    requires
        lit_fields_d(d, fields, decl, remap, owner, span),
        d.r is Ok,
        rooted(d.s0),
    ensures
        same_scopes(d.s0, d.s1),
    decreases fields, 1nat,
{
    if fields.len() > 0 {
        lemma_lit_scopes(d.kids[0], fields.drop_last(), decl, remap, owner, span);
        lemma_ex_scopes(d.kids[1], fields.last().1);
    }
}

proof fn lemma_tgt_scopes(d: Dv, t: AssignTarget)
    requires
        tgt_d(d, t),
        d.r is Ok,
        rooted(d.s0),
    ensures
        same_scopes(d.s0, d.s1),
    decreases t, 0nat,
{
    match t {
        AssignTarget::Index { object, index, .. } => {
            lemma_ex_scopes(d.kids[0], *object);
            lemma_ex_scopes(d.kids[1], *index);
        },
        AssignTarget::FieldAccess { object, .. } => {
            lemma_ex_scopes(d.kids[0], *object);
        },
        _ => {},
    }
}

proof fn lemma_regs_scopes(d: Dv, decls: Seq<Decl>)
    requires
        regs_d(d, decls),
    ensures
        same_scopes(d.s0, d.s1),
    decreases decls.len(),
{
    if decls.len() > 0 {
        lemma_regs_scopes(d.kids[0], decls.drop_last());
    }
}

proof fn lemma_blk_scopes(d: Dv, b: Block)
    requires
        blk_d(d, b),
        d.r is Ok,
        rooted(d.s0),
    ensures
        same_scopes(d.s0, d.s1),
    decreases b, 0nat,
{
    let h = d.kids[0];
    lemma_scopes_pushed(d.s0.ctx);
    lemma_regs_scopes(h.kids[1], b.stmts@);
    let m0 = h.kids[2].s0.ctx.mono_scopes();
    let p0 = h.kids[2].s0.ctx.poly_scopes();
    lemma_update_outer(m0, hoist_map(m0.last(), b.stmts@, h.kids[2].s0.ctx.next_var() as nat));
    lemma_decls_scopes(d.kids[1], b.stmts@);
    match b.tail {
        Some(t) => {
            lemma_ex_scopes(d.kids[2], *t);
        },
        None => {},
    }
}

proof fn lemma_decls_scopes(d: Dv, decls: Seq<Decl>)
    requires
        decls_d(d, decls),
        d.r is Ok,
        rooted(d.s0),
    ensures
        same_outer(d.s0, d.s1),
    decreases decls, 1nat,
{
    if decls.len() > 0 {
        lemma_decls_scopes(d.kids[0], decls.drop_last());
        lemma_decl_scopes(d.kids[1], decls.last());
    }
}

proof fn lemma_decl_scopes(d: Dv, decl: Decl)
    requires
        decl_d(d, decl),
        d.r is Ok,
        rooted(d.s0),
    ensures
        same_outer(d.s0, d.s1),
    decreases decl, 0nat,
{
    let k = d.kids;
    match decl {
        Decl::Let(bd) => {
            lemma_ex_scopes(k[0], bd.value);
            let c = k[0].s1.ctx;
            lemma_update_outer(c.mono_scopes(), c.mono_scopes().last().insert(bd.name@, (one_of(k[0].r), false)));
            let p = c.poly_scopes();
            if p.len() >= 1 {
                lemma_update_outer(p, p.last().insert(bd.name@, d.s1.ctx.poly_scopes().last()[bd.name@]));
            }
        },
        Decl::Mut(bd) => {
            lemma_bind_mut_scopes(d, bd);
        },
        Decl::Fun(fd) => {
            lemma_scopes_pushed(d.s0.ctx);
            lemma_blk_scopes(k[1], fd.body);
            let c = k[2].s1.ctx;
            let p = c.poly_scopes();
            lemma_update_outer(p, p.last().insert(fd.name@, d.s1.ctx.poly_scopes().last()[fd.name@]));
        },
        Decl::Impl(ib) => {
            match ib.header.aspect_name {
                None => match ib.header.target_type {
                    TypeExpr::Named(n, args) => {
                        if args.len() == 0 {
                            lemma_methods_scopes(k[0], ib.methods@, n@);
                        }
                    },
                    _ => {},
                },
                _ => {},
            }
        },
        Decl::Stmt(st) => {
            lemma_stmt_scopes(d, st);
        },
        _ => {},
    }
}

proof fn lemma_bind_mut_scopes(d: Dv, bd: BindDecl)
    requires
        bind_mut_d(d, bd),
        d.r is Ok,
        rooted(d.s0),
    ensures
        same_outer(d.s0, d.s1),
    decreases bd, 0nat,
{
    lemma_ex_scopes(d.kids[0], bd.value);
    let c = d.kids[1].s1.ctx;
    lemma_update_outer(c.mono_scopes(), c.mono_scopes().last().insert(bd.name@, (one_of(d.kids[0].r), true)));
}

proof fn lemma_methods_scopes(d: Dv, ms: Seq<FunDecl>, target: Seq<char>)
    requires
        methods_d(d, ms, target),
        d.r is Ok,
        rooted(d.s0),
    ensures
        same_scopes(d.s0, d.s1),
    decreases ms, 1nat,
{
    if ms.len() > 0 {
        lemma_methods_scopes(d.kids[0], ms.drop_last(), target);
        lemma_method_scopes(d.kids[1], ms.last(), target);
    }
}

proof fn lemma_method_scopes(d: Dv, m: FunDecl, target: Seq<char>)
    requires
        method_d(d, m, target),
        d.r is Ok,
        rooted(d.s0),
    ensures
        same_scopes(d.s0, d.s1),
    decreases m, 0nat,
{
    lemma_scopes_pushed(d.s0.ctx);
    lemma_blk_scopes(d.kids[1], m.body);
}

proof fn lemma_arms_scopes(d: Dv, arms: Seq<MatchArm>, scrut: InferType, rv: InferType)
    requires
        arms_d(d, arms, scrut, rv),
        d.r is Ok,
        rooted(d.s0),
    ensures
        same_scopes(d.s0, d.s1),
    decreases arms, 1nat,
{
    if arms.len() > 0 {
        lemma_arms_scopes(d.kids[0], arms.drop_last(), scrut, rv);
        lemma_arm_scopes(d.kids[1], arms.last(), scrut, rv);
    }
}

proof fn lemma_arm_scopes(d: Dv, arm: MatchArm, scrut: InferType, rv: InferType)
    requires
        arm_d(d, arm, scrut, rv),
        d.r is Ok,
        rooted(d.s0),
    ensures
        same_scopes(d.s0, d.s1),
    decreases arm, 0nat,
{
    let k = d.kids;
    lemma_scopes_pushed(d.s0.ctx);
    lemma_cond_scopes(k[2], arm.guard, arm.span);
    lemma_blk_scopes(k[3], arm.body);
}

proof fn lemma_cond_scopes(d: Dv, o: Option<Expr>, span: Span)
    requires
        cond_d(d, o, span),
        d.r is Ok,
        rooted(d.s0),
    ensures
        same_scopes(d.s0, d.s1),
    decreases o, 0nat,
{
    match o {
        Some(c) => {
            lemma_ex_scopes(d.kids[0], c);
        },
        None => {},
    }
}

proof fn lemma_opt_scopes(d: Dv, o: Option<Expr>)
    requires
        opt_d(d, o),
        d.r is Ok,
        rooted(d.s0),
    ensures
        same_scopes(d.s0, d.s1),
    decreases o, 0nat,
{
    match o {
        Some(e) => {
            lemma_ex_scopes(d, e);
        },
        None => {},
    }
}

proof fn lemma_init_scopes(d: Dv, init: Option<ForInit>)
    requires
        init_d(d, init),
        d.r is Ok,
        rooted(d.s0),
    ensures
        same_outer(d.s0, d.s1),
    decreases init, 0nat,
{
    match init {
        Some(ForInit::Mut(bd)) => {
            lemma_bind_mut_scopes(d, bd);
        },
        Some(ForInit::Expr(e)) => {
            lemma_ex_scopes(d, e);
        },
        None => {},
    }
}

proof fn lemma_stmt_scopes(d: Dv, st: Stmt)
    requires
        stmt_d(d, st),
        d.r is Ok,
        rooted(d.s0),
    ensures
        same_scopes(d.s0, d.s1),
    decreases st, 0nat,
{
    let k = d.kids;
    match st {
        Stmt::Expr(e) => {
            lemma_ex_scopes(k[0], e);
        },
        Stmt::Return { value, .. } => {
            match value {
                Some(e) => {
                    lemma_ex_scopes(k[0], e);
                },
                None => {},
            }
        },
        Stmt::Break { value, .. } => {
            match value {
                Some(e) => {
                    lemma_ex_scopes(k[0], e);
                },
                None => {},
            }
        },
        Stmt::While { condition, body, .. } => {
            lemma_ex_scopes(k[0], condition);
            lemma_blk_scopes(k[2], body);
        },
        Stmt::For { init, condition, step, body, span } => {
            lemma_scopes_pushed(d.s0.ctx);
            lemma_init_scopes(k[1], init);
            lemma_cond_scopes(k[2], condition, span);
            lemma_opt_scopes(k[3], step);
            lemma_blk_scopes(k[4], body);
        },
        Stmt::ForIn { binding, iterable, body, .. } => {
            lemma_ex_scopes(k[0], iterable);
            lemma_scopes_pushed(k[1].s1.ctx);
            let c = k[3].s0.ctx;
            lemma_update_outer(c.mono_scopes(), c.mono_scopes().last().insert(binding@, (one_of(k[1].r), false)));
            lemma_blk_scopes(k[4], body);
        },
        _ => {},
    }
}

/// Scopes nest in the walk: inferring an expression or a statement that
/// succeeds leaves both scope stacks as they were (what a block, a closure,
/// a function, a `match` arm or a loop binds is gone with its scope); a
/// declaration changes at most what the innermost scopes bind.
pub proof fn law_walk_keeps_scopes(d: Dv, e: Expr, st: Stmt, decl: Decl)
    requires
        rooted(d.s0),
        d.r is Ok,
    ensures
        ex_d(d, e) ==> same_scopes(d.s0, d.s1),
        stmt_d(d, st) ==> same_scopes(d.s0, d.s1),
        decl_d(d, decl) ==> same_outer(d.s0, d.s1),
{
    if ex_d(d, e) {
        lemma_ex_scopes(d, e);
    }
    if stmt_d(d, st) {
        lemma_stmt_scopes(d, st);
    }
    if decl_d(d, decl) {
        lemma_decl_scopes(d, decl);
    }
}

} // verus!
