//! The second pass of the type checker: the walk that builds the typed
//! tree from the solved first pass, giving each expression its resolved
//! type.
//!
//! As for the first pass (see [`super::walk`]), what the walk does is stated
//! as a relation over records [`Cv`] of its nodes: the context before and
//! after a node, the node's result (its typed form, or an error) and the
//! records of the nodes it built, in order. [`cx_d`] and its companions say
//! when a record is one of the given node.

use vstd::prelude::*;

use crate::ast::{Literal, Span, UnaryOp};
use crate::error::{GustError, TypeErrorCode, is_internal, is_type_error};
use crate::syntax::{BindDecl, Block, Decl, Expr, ForInit, FunDecl, ImplDecl, MatchArm, Stmt};
use crate::error::InternalErrorCode;
use crate::ast::TypeExpr;
use crate::typeinference::model::subst1;
use super::matching::{ArmPattern, exhaustive, some_catch_all, some_bool, some_covers, catch_all, bool_literal, covers_variant, is_catch_all_pattern, is_bool_literal_pattern, pattern_covers_variant};
use super::construction::{call_instance, call_subst, paired, all_resolved, resolved_fun, call_outcome, call_general};
use super::rules::arity_text;
use crate::typeinference::{TypeScheme, inst_map, unify_spec, unify};
use crate::typeinference::model::compose_spec;
use crate::typeinference::EnumInfo;
use crate::typeinference::model::terminates;
use super::conversions::types_to_infer_spec;
use super::construction::{pattern_bindings, bind_error_is, construct_pattern_bindings};
use crate::ast::{FieldDef, Param};
use crate::text::{decimal, push_decimal, push_str};
use crate::typed_ast::{TypedBlock, TypedDecl, TypedExpr};
use crate::types::{Type, TypeView, clone_type, type_text, write_type};
use crate::typeinference::context::find_scoped;
use crate::typeinference::model::{InferTypeView, apply_spec, fv, idempotent, lemma_apply_idempotent, occurs, vars_within};
use crate::typeinference::lemma_pair_step;
use crate::typeinference::{InferType, Substitution, TypeVar, clone_infer};
use crate::ast::TypeExprView;
use super::conversions::{cannot_infer, lemma_type_to_infer_closed_all, infer_to_type, infer_type_to_type, resolved_to_type, te_to_infer, type_expr_to_infer, type_to_infer, type_to_infer_spec, cannot_infer_text, lemma_type_to_infer_closed};
use super::inference::{fields_view, first_field, find_field, lemma_first_field, first_variant, lemma_first_variant, find_variant};
use super::construction::{
    ConstructCtx, binop_type, construct_binop_type, construct_literal_type, construct_unaryop_type, literal_type,
    same_consts,
};

verus! {

/// What a node of the second pass gave.
pub enum CVal<'a> {
    E(TypedExpr<'a>),
    Es(Seq<TypedExpr<'a>>),
    B(TypedBlock<'a>),
    D(TypedDecl<'a>),
    Ds(Seq<TypedDecl<'a>>),
    Arms(Seq<TypedExpr<'a>>, Seq<TypedBlock<'a>>),
    Nil,
}

/// A record of one node of the second pass: the context before it, its
/// result, the context after it, and the records of the nodes it built.
pub struct Cv<'a> {
    pub s0: ConstructCtx<'a>,
    pub r: Result<CVal<'a>, GustError>,
    pub s1: ConstructCtx<'a>,
    pub kids: Seq<Cv<'a>>,
}

/// `d` stopped at the error of its kid `k`.
pub open spec fn cstops<'a>(d: Cv<'a>, k: Cv<'a>) -> bool {
    k.r is Err && d.r == k.r && d.s1 == k.s1
}

/// The typed expression a record gave.
pub open spec fn ex_of<'a>(r: Result<CVal<'a>, GustError>) -> TypedExpr<'a> {
    match r {
        Ok(CVal::E(t)) => t,
        _ => arbitrary(),
    }
}

/// `t` is the typed form of `e`, of type `ty`, holding `parts` and `blocks`.
pub open spec fn tnode<'a>(t: TypedExpr<'a>, e: Expr, ty: TypeView, parts: Seq<TypedExpr<'a>>, blocks: Seq<TypedBlock<'a>>) -> bool {
    *t.src == e && t.ty@ == ty && t.parts@ == parts && t.blocks@ == blocks
}

/// `d` gave the typed form of `e`, of type `ty`, holding `parts` and `blocks`.
pub open spec fn gives<'a>(d: Cv<'a>, e: Expr, ty: TypeView, parts: Seq<TypedExpr<'a>>, blocks: Seq<TypedBlock<'a>>) -> bool {
    d.r matches Ok(CVal::E(t)) && tnode(t, e, ty, parts, blocks)
}

/// `d` failed with type error `code` at `span`, carrying `msg`.
pub open spec fn fails<'a>(d: Cv<'a>, code: TypeErrorCode, msg: Seq<char>, span: Span) -> bool {
    d.r matches Err(x) && is_type_error(x, code, msg, span)
}

/// `d` failed with an internal error carrying `msg`.
pub open spec fn fails_int<'a>(d: Cv<'a>, msg: Seq<char>) -> bool {
    d.r matches Err(x) && is_internal(x, msg)
}

/// The types of `ts`.
pub open spec fn tys<'a>(ts: Seq<TypedExpr<'a>>) -> Seq<TypeView> {
    ts.map_values(|t: TypedExpr<'a>| t.ty@)
}

/// The name a method call looks its receiver's methods up under.
pub open spec fn receiver_name(t: TypeView) -> Option<Seq<char>> {
    match t {
        TypeView::Named(n, _) => Some(n),
        TypeView::Str => Some("String"@),
        TypeView::Int => Some("Int"@),
        TypeView::Float => Some("Float"@),
        TypeView::Bool => Some("Bool"@),
        _ => None,
    }
}

/// What `?` gives on an operand of type `t`.
pub open spec fn propagated(t: TypeView) -> Option<TypeView> {
    match t {
        TypeView::Result(ok, _) => Some(*ok),
        TypeView::Named(n, args) => if n == "Result"@ && args.len() == 2 {
            Some(args[0])
        } else {
            None
        },
        _ => None,
    }
}

/// The resolved type of a type annotation `te`: what the first pass's
/// substitution makes of it, when no variable is left.
pub open spec fn resolve_te<'a>(c: ConstructCtx<'a>, te: TypeExprView) -> Option<TypeView> {
    let it = apply_spec(c.subst_map(), te_to_infer(te, Map::empty()));
    if fv(it) == Set::<u32>::empty() {
        Some(infer_to_type(it))
    } else {
        None
    }
}

/// The views of resolved struct fields.
pub open spec fn tfields(fs: Seq<(String, Type)>) -> Seq<(Seq<char>, TypeView)> {
    fs.map_values(|f: (String, Type)| (f.0@, f.1@))
}

/// The index of the first field named `k`.
pub open spec fn first_tfield(fs: Seq<(Seq<char>, TypeView)>, k: Seq<char>) -> Option<int>
    decreases fs.len(),
{
    if fs.len() == 0 {
        None
    } else if fs[0].0 == k {
        Some(0)
    } else {
        match first_tfield(fs.drop_first(), k) {
            Some(i) => Some(i + 1),
            None => None,
        }
    }
}

/// The substitution sending each of the first `k` type parameters `qs` to
/// the type argument at its place (a later repeat winning).
pub open spec fn arg_remap(qs: Seq<TypeVar>, args: Seq<TypeView>, k: nat) -> Map<u32, InferTypeView>
    decreases k,
{
    if k == 0 {
        Map::empty()
    } else {
        arg_remap(qs, args, (k - 1) as nat).insert(qs[k - 1].0, type_to_infer_spec(args[k - 1]))
    }
}

/// The smaller of two lengths.
pub open spec fn zip_len(a: nat, b: nat) -> nat {
    if a < b { a } else { b }
}

/// What reading field `field` of a value of type `t` gives in context `c`:
/// its type, a type error, or an internal error's message.
pub enum FieldType {
    Found(TypeView),
    Unresolved,
    Internal(Seq<char>),
}

pub open spec fn field_type_of<'a>(c: ConstructCtx<'a>, t: TypeView, field: Seq<char>) -> FieldType {
    match t {
        TypeView::Named(n, args) => if c.gen_params().contains_key(n) {
            if !c.gen_raw().contains_key(n) {
                FieldType::Internal("missing raw fields for `"@ + n + "`"@)
            } else {
                let raw = fields_view(c.gen_raw()[n]@);
                match first_field(raw, field) {
                    None => FieldType::Internal("no field `"@ + field + "` on `"@ + n + "`"@),
                    Some(i) => {
                        let qs = c.gen_params()[n]@;
                        let it = apply_spec(arg_remap(qs, args, zip_len(qs.len(), args.len())), raw[i].1);
                        if fv(it) == Set::<u32>::empty() {
                            FieldType::Found(infer_to_type(it))
                        } else {
                            FieldType::Unresolved
                        }
                    },
                }
            }
        } else {
            match find_scoped(c.struct_scope_maps(), n) {
                Some(fs) => match first_tfield(tfields(fs@), field) {
                    Some(i) => FieldType::Found(tfields(fs@)[i].1),
                    None => FieldType::Internal("no field `"@ + field + "` on `"@ + n + "`"@),
                },
                None => FieldType::Internal("no field `"@ + field + "` on `"@ + n + "`"@),
            }
        },
        _ => FieldType::Internal("field access on non-struct type "@ + type_text(t)),
    }
}

/// The view of an optional type.
pub open spec fn otv(o: Option<Type>) -> Option<TypeView> {
    match o {
        Some(t) => Some(t@),
        None => None,
    }
}

/// `c1` is `c0` with `p` holding of their value scopes and struct scopes,
/// the rest (return and break types, the generator, what the pass reads)
/// unchanged.
pub open spec fn moved<'a>(c0: ConstructCtx<'a>, c1: ConstructCtx<'a>, scopes: Seq<Map<Seq<char>, TypeView>>, structs: Seq<Map<Seq<char>, Vec<(String, Type)>>>) -> bool {
    &&& c1.wf()
    &&& c1.scopes() == scopes
    &&& c1.struct_scope_maps() == structs
    &&& c1.return_ty() == c0.return_ty()
    &&& c1.break_ty() == c0.break_ty()
    &&& c1.next_id() == c0.next_id()
    &&& same_consts(c0, c1)
}

/// `c1` is `c0` but for the break type.
pub open spec fn rebroken<'a>(c0: ConstructCtx<'a>, c1: ConstructCtx<'a>) -> bool {
    &&& c1.wf() == c0.wf()
    &&& c1.scopes() == c0.scopes()
    &&& c1.struct_scope_maps() == c0.struct_scope_maps()
    &&& c1.return_ty() == c0.return_ty()
    &&& c1.next_id() == c0.next_id()
    &&& same_consts(c0, c1)
}

/// `c1` is `c0` with the generator's next variable at `n`.
pub open spec fn renumbered<'a>(c0: ConstructCtx<'a>, c1: ConstructCtx<'a>, n: int) -> bool {
    &&& c1.wf() == c0.wf()
    &&& c1.scopes() == c0.scopes()
    &&& c1.struct_scope_maps() == c0.struct_scope_maps()
    &&& c1.return_ty() == c0.return_ty()
    &&& c1.break_ty() == c0.break_ty()
    &&& c1.next_id() == n
    &&& same_consts(c0, c1)
}

/// Binding `name` to `t` in the innermost value scope.
pub open spec fn cbind<'a>(c0: ConstructCtx<'a>, name: Seq<char>, t: TypeView, c1: ConstructCtx<'a>) -> bool {
    moved(c0, c1, c0.scopes().update(c0.scopes().len() - 1, c0.scopes().last().insert(name, t)), c0.struct_scope_maps())
}

/// Leaving a value scope.
pub open spec fn cpop<'a>(c0: ConstructCtx<'a>, c1: ConstructCtx<'a>) -> bool {
    moved(c0, c1, c0.scopes().drop_last(), c0.struct_scope_maps())
}

/// The resolved types of a struct's declared fields, in order; `None` when
/// one is left unresolved.
pub open spec fn resolve_fields<'a>(c: ConstructCtx<'a>, fs: Seq<FieldDef>) -> Option<Seq<(Seq<char>, TypeView)>>
    decreases fs.len(),
{
    if fs.len() == 0 {
        Some(Seq::empty())
    } else {
        match resolve_fields(c, fs.drop_last()) {
            None => None,
            Some(prev) => match resolve_te(c, fs.last().type_ann@) {
                Some(t) => Some(prev.push((fs.last().name@, t))),
                None => None,
            },
        }
    }
}

/// The types of a closure's parameters, all of which must be annotated:
/// the message and place of the first that is not, or whose annotation is
/// left unresolved.
pub open spec fn closure_params<'a>(c: ConstructCtx<'a>, ps: Seq<Param>) -> Result<Seq<TypeView>, (Seq<char>, Span)>
    decreases ps.len(),
{
    if ps.len() == 0 {
        Ok(Seq::empty())
    } else {
        match closure_params(c, ps.drop_last()) {
            Err(x) => Err(x),
            Ok(prev) => {
                let p = ps.last();
                match p.type_ann {
                    None => Err(("closure parameter `"@ + p.name@ + "` needs a type annotation"@, p.span)),
                    Some(a) => match resolve_te(c, a@) {
                        Some(t) => Ok(prev.push(t)),
                        None => Err((cannot_infer_text(), p.span)),
                    },
                }
            },
        }
    }
}

/// The scope binding each of `ps` to its type in `tys` (a later parameter
/// of the same name winning).
pub open spec fn params_scope(ps: Seq<Param>, tys: Seq<TypeView>) -> Map<Seq<char>, TypeView>
    decreases ps.len(),
{
    if ps.len() == 0 || tys.len() < ps.len() {
        Map::empty()
    } else {
        params_scope(ps.drop_last(), tys.take(ps.len() - 1)).insert(ps.last().name@, tys[ps.len() - 1])
    }
}

/// The type of a typed block: its tail's, or unit.
pub open spec fn tail_ty<'a>(b: TypedBlock<'a>) -> TypeView {
    match b.tail {
        Some(x) => x.ty@,
        None => TypeView::Unit,
    }
}

/// The type of the first `break` with a value that escapes to a `loop` whose
/// body is `b`: looking through the body's statements in order, and into
/// the branches of `if` expressions standing as statements, but not into
/// nested loops or closures.
pub open spec fn loop_break_b<'a>(b: TypedBlock<'a>) -> Option<TypeView>
    decreases b, 1nat,
{
    loop_break_ds(b.decls@)
}

pub open spec fn loop_break_ds<'a>(ds: Seq<TypedDecl<'a>>) -> Option<TypeView>
    decreases ds, 0nat,
{
    if ds.len() == 0 {
        None
    } else {
        match loop_break_d(ds[0]) {
            Some(t) => Some(t),
            None => loop_break_ds(ds.drop_first()),
        }
    }
}

pub open spec fn loop_break_d<'a>(td: TypedDecl<'a>) -> Option<TypeView>
    decreases td, 0nat,
{
    match *td.src {
        Decl::Stmt(Stmt::Break { value: Some(_), .. }) => if td.parts.len() > 0 {
            Some(td.parts@[0].ty@)
        } else {
            None
        },
        Decl::Stmt(Stmt::Expr(Expr::If { .. })) => if td.parts.len() > 0 {
            loop_break_e(td.parts@[0])
        } else {
            None
        },
        _ => None,
    }
}

pub open spec fn loop_break_e<'a>(te: TypedExpr<'a>) -> Option<TypeView>
    decreases te, 0nat,
{
    match *te.src {
        Expr::If { .. } => {
            let first = if te.blocks.len() > 0 { loop_break_b(te.blocks@[0]) } else { None };
            match first {
                Some(t) => Some(t),
                None => if te.blocks.len() > 1 { loop_break_b(te.blocks@[1]) } else { None },
            }
        },
        _ => None,
    }
}

/// `d` gave the typed form of declaration `decl`, holding `parts` and
/// `blocks`.
pub open spec fn gives_d<'a>(d: Cv<'a>, decl: Decl, parts: Seq<TypedExpr<'a>>, blocks: Seq<TypedBlock<'a>>) -> bool {
    d.r matches Ok(CVal::D(t)) && *t.src == decl && t.parts@ == parts && t.blocks@ == blocks
}

/// The typed block a record gave.
pub open spec fn blk_of<'a>(r: Result<CVal<'a>, GustError>) -> TypedBlock<'a> {
    match r {
        Ok(CVal::B(t)) => t,
        _ => arbitrary(),
    }
}

/// `d` records registering the structs a block declares, in order.
pub open spec fn cregs_d<'a>(d: Cv<'a>, decls: Seq<Decl>) -> bool
    decreases decls.len(),
{
    if decls.len() == 0 {
        d.r == Ok::<CVal<'a>, GustError>(CVal::Nil) && d.s1 == d.s0
    } else {
        d.kids.len() >= 1 && cregs_d(d.kids[0], decls.drop_last()) && d.kids[0].s0 == d.s0 && match d.kids[0].r {
            Err(_) => cstops(d, d.kids[0]),
            Ok(_) => {
                let c = d.kids[0].s1;
                match decls.last() {
                    Decl::Struct(sd) => match resolve_fields(c, sd.fields@) {
                        None => d.s1 == c && fails(d, TypeErrorCode::T0002, cannot_infer_text(), sd.span),
                        Some(fv) => {
                            let ss = c.struct_scope_maps();
                            let x = d.s1.struct_scope_maps().last()[sd.name@];
                            &&& d.r == Ok::<CVal<'a>, GustError>(CVal::Nil)
                            &&& tfields(x@) == fv
                            &&& moved(c, d.s1, c.scopes(), ss.update(ss.len() - 1, ss.last().insert(sd.name@, x)))
                        },
                    },
                    _ => d.r == Ok::<CVal<'a>, GustError>(CVal::Nil) && d.s1 == c,
                }
            },
        }
    }
}

/// The arms of a `match` as exhaustiveness reads them.
pub open spec fn arm_patterns(arms: Seq<MatchArm>) -> Seq<ArmPattern> {
    arms.map_values(|a: MatchArm| ArmPattern { pattern: a.pattern, guarded: a.guard is Some })
}

/// The type of a `match` with arm bodies `bodies`: the first's, or unit.
pub open spec fn match_ty<'a>(bodies: Seq<TypedBlock<'a>>) -> TypeView {
    if bodies.len() > 0 { tail_ty(bodies[0]) } else { TypeView::Unit }
}

/// What instantiating scheme `sc` for a call on arguments of types `argv`
/// gives (see [`call_outcome`], read over the arguments' types).
pub open spec fn call_ok(sc: TypeScheme, next: u32, argv: Seq<TypeView>, span: Span, r: Result<TypeView, GustError>) -> bool {
    match call_instance(sc, next) {
        InferTypeView::Fun(ps, ret) => {
            let args = types_to_infer_spec(argv);
            match call_subst(ps, args, paired(ps, args) as nat) {
                None => r matches Err(e) && is_type_error(e, TypeErrorCode::T0001, "argument type mismatch"@, span),
                Some(s) => if all_resolved(s, ps, *ret) {
                    r matches Ok(t) && resolved_fun(s, ps, *ret, t)
                } else {
                    r matches Err(e) && is_type_error(e, TypeErrorCode::T0002, cannot_infer_text(), span)
                },
            }
        },
        _ => r matches Err(e) && is_internal(e, "scheme type is not a function"@),
    }
}

/// The generator has room for fresh variables for the quantified variables
/// of `sc`, and each of them comes before the generator's next variable (so
/// instantiating cannot loop).
pub open spec fn call_room(sc: TypeScheme, next: u32) -> bool {
    &&& next + sc.quantified_vars.len() <= u32::MAX
    &&& forall|i: int| 0 <= i < sc.quantified_vars.len() ==> #[trigger] sc.quantified_vars@[i].0 < next
}

/// The types a call's arguments are built against: the parameter types of
/// a callee named in scope with a function type of the right arity, else
/// none.
pub open spec fn call_hints<'a>(c: ConstructCtx<'a>, callee: Expr, n: nat) -> Seq<Option<TypeView>> {
    let none = Seq::new(n, |i: int| None::<TypeView>);
    match callee {
        Expr::Ident(name, _) => match find_scoped(c.scopes(), name@) {
            Some(TypeView::Fun(ps, _)) => if ps.len() == n {
                ps.map_values(|p: TypeView| Some(p))
            } else {
                none
            },
            _ => none,
        },
        _ => none,
    }
}

/// The result of a record as a type.
pub open spec fn ty_res<'a>(r: Result<CVal<'a>, GustError>) -> Result<TypeView, GustError> {
    match r {
        Ok(CVal::E(t)) => Ok(t.ty@),
        Ok(_) => Err(arbitrary()),
        Err(x) => Err(x),
    }
}

/// `e` is a not-implemented error carrying `msg`.
pub open spec fn is_unsupported(e: GustError, msg: Seq<char>) -> bool {
    e matches GustError::Internal { code, message } && code == InternalErrorCode::I0002 && message@ == msg
}

/// Entering a function body: a value scope holding `scope`, and `ret` the
/// return type.
pub open spec fn entered<'a>(c0: ConstructCtx<'a>, c1: ConstructCtx<'a>, scope: Map<Seq<char>, TypeView>, ret: Option<TypeView>) -> bool {
    &&& c1.wf()
    &&& c1.scopes() == c0.scopes().push(scope)
    &&& c1.struct_scope_maps() == c0.struct_scope_maps()
    &&& otv(c1.return_ty()) == ret
    &&& c1.break_ty() == c0.break_ty()
    &&& c1.next_id() == c0.next_id()
    &&& same_consts(c0, c1)
}

/// Leaving a function body: its value scope closed, the return type `ret`
/// again.
pub open spec fn left<'a>(c0: ConstructCtx<'a>, c1: ConstructCtx<'a>, ret: Option<Type>) -> bool {
    &&& c1.wf()
    &&& c1.scopes() == c0.scopes().drop_last()
    &&& c1.struct_scope_maps() == c0.struct_scope_maps()
    &&& c1.return_ty() == ret
    &&& c1.break_ty() == c0.break_ty()
    &&& c1.next_id() == c0.next_id()
    &&& same_consts(c0, c1)
}

/// The scope binding the first of `ps` and `tys` pairwise.
pub open spec fn zip_scope(ps: Seq<Param>, tys: Seq<TypeView>) -> Map<Seq<char>, TypeView> {
    let m = zip_len(ps.len(), tys.len()) as int;
    params_scope(ps.take(m), tys.take(m))
}

/// The resolved types of the parameter types `ps` of a function's type:
/// `None` when one is left unresolved.
pub open spec fn resolve_all(ps: Seq<InferTypeView>) -> Option<Seq<TypeView>>
    decreases ps.len(),
{
    if ps.len() == 0 {
        Some(Seq::empty())
    } else {
        match resolve_all(ps.drop_last()) {
            None => None,
            Some(prev) => if fv(ps.last()) == Set::<u32>::empty() {
                Some(prev.push(infer_to_type(ps.last())))
            } else {
                None
            },
        }
    }
}

/// What a non-generic function's scheme gives under the first pass's
/// substitution: its parameter types and its return type (when resolved),
/// or the error.
pub enum FunSig {
    Sig(Seq<TypeView>, Option<TypeView>),
    Unresolved,
    NotFun,
}

pub open spec fn fun_sig<'a>(c: ConstructCtx<'a>, sc: TypeScheme) -> FunSig {
    match subst1(c.subst_map(), sc.ty@) {
        InferTypeView::Fun(ps, ret) => match resolve_all(ps) {
            None => FunSig::Unresolved,
            Some(pts) => FunSig::Sig(pts, if fv(*ret) == Set::<u32>::empty() { Some(infer_to_type(*ret)) } else { None }),
        },
        _ => FunSig::NotFun,
    }
}

/// The types of a method's parameters: `self` is the impl's type, others
/// must be annotated.
pub open spec fn method_params<'a>(c: ConstructCtx<'a>, ps: Seq<Param>, target: Seq<char>) -> Result<Seq<TypeView>, (Seq<char>, Span)>
    decreases ps.len(),
{
    if ps.len() == 0 {
        Ok(Seq::empty())
    } else {
        match method_params(c, ps.drop_last(), target) {
            Err(x) => Err(x),
            Ok(prev) => {
                let p = ps.last();
                if p.name@ == "self"@ {
                    Ok(prev.push(TypeView::Named(target, Seq::empty())))
                } else {
                    match p.type_ann {
                        None => Err(("parameter `"@ + p.name@ + "` needs a type annotation"@, p.span)),
                        Some(a) => match resolve_te(c, a@) {
                            Some(t) => Ok(prev.push(t)),
                            None => Err((cannot_infer_text(), p.span)),
                        },
                    }
                }
            },
        }
    }
}

/// The names of a literal's fields.
pub open spec fn fnames(fs: Seq<(String, Expr)>) -> Seq<Seq<char>> {
    fs.map_values(|f: (String, Expr)| f.0@)
}

/// What a struct or variant literal's type comes to: a type, a type error,
/// or an internal error.
pub enum LitOut {
    Ty(TypeView),
    TypeErr(TypeErrorCode, Seq<char>),
    Internal(Seq<char>),
}

/// Whether `qs` holds variable `v`.
pub open spec fn holds_var(qs: Seq<TypeVar>, v: u32) -> bool {
    exists|i: int| 0 <= i < qs.len() && #[trigger] qs[i].0 == v
}

/// The map from a generic struct's type parameters `qs` to its literal's
/// type arguments: each parameter to itself, then, field by field in
/// order, a field declared as bare parameter `v` sends `v` to the field
/// value's type.
pub open spec fn lit_remap(qs: Seq<TypeVar>, raw: Seq<(Seq<char>, InferTypeView)>, names: Seq<Seq<char>>, ftys: Seq<TypeView>) -> Map<u32, InferTypeView>
    decreases names.len(),
{
    if names.len() == 0 || ftys.len() < names.len() {
        Map::new(|v: u32| holds_var(qs, v), |v: u32| InferTypeView::Var(v))
    } else {
        let prev = lit_remap(qs, raw, names.drop_last(), ftys.take(names.len() - 1));
        match first_field(raw, names.last()) {
            Some(i) => match raw[i].1 {
                InferTypeView::Var(v) => if holds_var(qs, v) {
                    prev.insert(v, type_to_infer_spec(ftys[names.len() - 1]))
                } else {
                    prev
                },
                _ => prev,
            },
            None => prev,
        }
    }
}

/// The type of a literal of struct `n` whose fields `names` have values of
/// types `ftys`.
pub open spec fn struct_lit<'a>(c: ConstructCtx<'a>, n: Seq<char>, names: Seq<Seq<char>>, ftys: Seq<TypeView>) -> LitOut {
    if !c.gen_params().contains_key(n) {
        LitOut::Ty(TypeView::Named(n, Seq::empty()))
    } else if !c.gen_raw().contains_key(n) {
        LitOut::Internal("missing raw fields for `"@ + n + "`"@)
    } else {
        let qs = c.gen_params()[n]@;
        let rm = lit_remap(qs, fields_view(c.gen_raw()[n]@), names, ftys);
        let args = qs.map_values(|tp: TypeVar| apply_spec(c.subst_map(), if rm.contains_key(tp.0) { rm[tp.0] } else { InferTypeView::Var(tp.0) }));
        if forall|i: int| 0 <= i < args.len() ==> #[trigger] fv(args[i]) == Set::<u32>::empty() {
            LitOut::Ty(TypeView::Named(n, args.map_values(|a: InferTypeView| infer_to_type(a))))
        } else {
            LitOut::TypeErr(TypeErrorCode::T0002, cannot_infer_text())
        }
    }
}

/// The substitution that solving a variant literal's fields against the
/// variant's declared field types `vf` (instantiated by `init`) gives, field
/// by field in order; a field that does not unify is passed over.
pub open spec fn enum_fold(init: Map<u32, InferTypeView>, names: Seq<Seq<char>>, ftys: Seq<TypeView>, vf: Seq<(Seq<char>, InferTypeView)>) -> Map<u32, InferTypeView>
    decreases names.len(),
{
    if names.len() == 0 || ftys.len() < names.len() {
        Map::empty()
    } else {
        let prev = enum_fold(init, names.drop_last(), ftys.take(names.len() - 1), vf);
        match first_field(vf, names.last()) {
            Some(i) => match unify_spec(
                apply_spec(prev, apply_spec(init, vf[i].1)),
                apply_spec(prev, type_to_infer_spec(ftys[names.len() - 1])),
            ) {
                Ok(s) => compose_spec(prev, s),
                Err(_) => prev,
            },
            None => prev,
        }
    }
}

/// The type arguments the expected type gives a literal of enum `e`.
pub open spec fn enum_hints(exp: Option<TypeView>, e: Seq<char>) -> Seq<TypeView> {
    match exp {
        Some(t) => match type_to_infer_spec(t) {
            InferTypeView::Named(n, args) => if n == e {
                args.map_values(|a: InferTypeView| infer_to_type(a))
            } else {
                Seq::empty()
            },
            _ => Seq::empty(),
        },
        None => Seq::empty(),
    }
}

/// The type argument of a variant literal at place `i`: what the fold makes
/// of the fresh variable `next + i`; the hint at `i` where it stays a
/// variable, and `None` where neither resolves it.
pub open spec fn enum_arg(local: Map<u32, InferTypeView>, next: nat, i: int, hints: Seq<TypeView>) -> Option<TypeView> {
    let r = apply_spec(local, InferTypeView::Var((next + i) as u32));
    if r is Var {
        if i < hints.len() { Some(hints[i]) } else { None }
    } else if fv(r) == Set::<u32>::empty() {
        Some(infer_to_type(r))
    } else {
        None
    }
}

/// The generator has room for a fresh variable for each of the type
/// parameters `qs`, each of which lies below its next variable.
pub open spec fn vars_room(qs: Seq<TypeVar>, next: u32) -> bool {
    &&& next + qs.len() <= u32::MAX
    &&& forall|i: int| 0 <= i < qs.len() ==> #[trigger] qs[i].0 < next
}

/// What a struct or variant literal's type computation returned, as `out`
/// says, at `span`.
pub open spec fn lit_res(out: LitOut, r: Result<Type, GustError>, span: Span) -> bool {
    match out {
        LitOut::Ty(t) => r matches Ok(x) && x@ == t,
        LitOut::TypeErr(code, m) => r matches Err(x) && is_type_error(x, code, m, span),
        LitOut::Internal(m) => r matches Err(x) && is_internal(x, m),
    }
}

/// What a literal of variant `v` of enum `e` comes to, with the generator at
/// `next`; the fresh variables are those of the enum's type parameters.
pub open spec fn enum_lit<'a>(c: ConstructCtx<'a>, e: Seq<char>, v: Seq<char>, names: Seq<Seq<char>>, ftys: Seq<TypeView>, exp: Option<TypeView>) -> LitOut {
    if !c.enums().contains_key(e) {
        LitOut::TypeErr(TypeErrorCode::T0003, "unknown enum `"@ + e + "`"@)
    } else {
        let info = c.enums()[e];
        match first_variant(info.variants@, v) {
            None => LitOut::TypeErr(TypeErrorCode::T0003, "no variant `"@ + v + "` on enum `"@ + e + "`"@),
            Some(vi) => {
                let qs = info.type_params@;
                if !vars_room(qs, c.next_id()) {
                    LitOut::Internal("type variables exhausted"@)
                } else {
                    let init = inst_map(qs, c.next_id() as nat);
                    let local = enum_fold(init, names, ftys, fields_view(info.variants@[vi].fields@));
                    let hints = enum_hints(exp, e);
                    if forall|i: int| 0 <= i < qs.len() ==> #[trigger] enum_arg(local, c.next_id() as nat, i, hints) is Some {
                        let args = Seq::new(qs.len(), |i: int| enum_arg(local, c.next_id() as nat, i, hints)->Some_0);
                        LitOut::Ty(infer_to_type(type_to_infer_spec(TypeView::Named(e, args))))
                    } else {
                        LitOut::TypeErr(TypeErrorCode::T0002, cannot_infer_text())
                    }
                }
            },
        }
    }
}

/// How many fresh variables a variant literal draws.
pub open spec fn enum_draws<'a>(c: ConstructCtx<'a>, e: Seq<char>, v: Seq<char>) -> nat {
    if c.enums().contains_key(e) && first_variant(c.enums()[e].variants@, v) is Some && vars_room(
        c.enums()[e].type_params@,
        c.next_id(),
    ) {
        c.enums()[e].type_params@.len()
    } else {
        0
    }
}

/// `d` records building the values of a literal's fields in order.
pub open spec fn cflds_d<'a>(d: Cv<'a>, fs: Seq<(String, Expr)>) -> bool
    decreases fs, 1nat,
{
    if fs.len() == 0 {
        d.r == Ok::<CVal<'a>, GustError>(CVal::Es(Seq::empty())) && d.s1 == d.s0
    } else {
        d.kids.len() >= 1 && cflds_d(d.kids[0], fs.drop_last()) && d.kids[0].s0 == d.s0 && match d.kids[0].r {
            Err(_) => cstops(d, d.kids[0]),
            Ok(CVal::Es(ts)) => d.kids.len() >= 2 && cx_d(d.kids[1], fs.last().1, None) && d.kids[1].s0 == d.kids[0].s1
                && d.s1 == d.kids[1].s1 && match d.kids[1].r {
                Err(x) => d.r == Err::<CVal<'a>, GustError>(x),
                Ok(CVal::E(t)) => d.r == Ok::<CVal<'a>, GustError>(CVal::Es(ts.push(t))),
                _ => false,
            },
            _ => false,
        }
    }
}

/// `d` ends as `out` says for literal `e` holding the typed fields `tfs`,
/// at `span`.
pub open spec fn lit_ends<'a>(d: Cv<'a>, e: Expr, out: LitOut, tfs: Seq<TypedExpr<'a>>, span: Span) -> bool {
    match out {
        LitOut::Ty(t) => gives(d, e, t, tfs, Seq::empty()),
        LitOut::TypeErr(code, m) => fails(d, code, m, span),
        LitOut::Internal(m) => fails_int(d, m),
    }
}

/// `d` records building the typed form of `e`, given the type `exp` the
/// context expects of it, if any.
pub open spec fn cx_d<'a>(d: Cv<'a>, e: Expr, exp: Option<TypeView>) -> bool
    decreases e, 0nat,
{
    let k = d.kids;
    match e {
        Expr::Literal(lit, span) => d.s1 == d.s0 && if lit is Nope {
            match exp {
                Some(x) => gives(d, e, x, Seq::empty(), Seq::empty()),
                None => fails(d, TypeErrorCode::T0002, "cannot infer type of `nope`; add a type annotation"@, span),
            }
        } else {
            gives(d, e, literal_type(lit), Seq::empty(), Seq::empty())
        },
        Expr::Ident(name, span) => d.s1 == d.s0 && match find_scoped(d.s0.scopes(), name@) {
            Some(ty) => gives(d, e, ty, Seq::empty(), Seq::empty()),
            None => fails(d, TypeErrorCode::T0003, "undefined name `"@ + name@ + "`"@, span),
        },
        Expr::BinOp(l, op, rr, _) => k.len() >= 1 && cx_d(k[0], *l, None) && k[0].s0 == d.s0 && match k[0].r {
            Err(_) => cstops(d, k[0]),
            Ok(CVal::E(tl)) => k.len() >= 2 && cx_d(k[1], *rr, None) && k[1].s0 == k[0].s1 && match k[1].r {
                Err(_) => cstops(d, k[1]),
                Ok(CVal::E(tr)) => d.s1 == k[1].s1 && gives(d, e, binop_type(op, tl.ty@), seq![tl, tr], Seq::empty()),
                _ => false,
            },
            _ => false,
        },
        Expr::UnaryOp(op, x, _) => k.len() >= 1 && cx_d(k[0], *x, None) && k[0].s0 == d.s0 && match k[0].r {
            Err(_) => cstops(d, k[0]),
            Ok(CVal::E(tx)) => d.s1 == k[0].s1 && gives(
                d,
                e,
                if op == UnaryOp::Not { TypeView::Bool } else { tx.ty@ },
                seq![tx],
                Seq::empty(),
            ),
            _ => false,
        },
        Expr::Tuple(es, _) => k.len() >= 1 && cxs_d(k[0], es@) && k[0].s0 == d.s0 && match k[0].r {
            Err(_) => cstops(d, k[0]),
            Ok(CVal::Es(ts)) => d.s1 == k[0].s1 && gives(d, e, TypeView::Tuple(tys(ts)), ts, Seq::empty()),
            _ => false,
        },
        Expr::Array(es, span) => if es@.len() == 0 {
            d.s1 == d.s0 && match exp {
                Some(x) => gives(d, e, x, Seq::empty(), Seq::empty()),
                None => fails(d, TypeErrorCode::T0002, "cannot infer element type of empty array; add a type annotation"@, span),
            }
        } else {
            k.len() >= 1 && cxs_d(k[0], es@) && k[0].s0 == d.s0 && match k[0].r {
                Err(_) => cstops(d, k[0]),
                Ok(CVal::Es(ts)) => d.s1 == k[0].s1 && gives(d, e, TypeView::Array(Box::new(ts[0].ty@)), ts, Seq::empty()),
                _ => false,
            }
        },
        Expr::Index { object, index, span } => k.len() >= 1 && cx_d(k[0], *object, None) && k[0].s0 == d.s0 && match k[0].r {
            Err(_) => cstops(d, k[0]),
            Ok(CVal::E(to)) => k.len() >= 2 && cx_d(k[1], *index, None) && k[1].s0 == k[0].s1 && match k[1].r {
                Err(_) => cstops(d, k[1]),
                Ok(CVal::E(ti)) => d.s1 == k[1].s1 && match to.ty@ {
                    TypeView::Array(el) => gives(d, e, *el, seq![to, ti], Seq::empty()),
                    _ => fails(d, TypeErrorCode::T0001, "indexed value is not an array"@, span),
                },
                _ => false,
            },
            _ => false,
        },
        Expr::Assign { value, .. } => k.len() >= 1 && cx_d(k[0], *value, None) && k[0].s0 == d.s0 && match k[0].r {
            Err(_) => cstops(d, k[0]),
            Ok(CVal::E(tv)) => d.s1 == k[0].s1 && gives(d, e, TypeView::Unit, seq![tv], Seq::empty()),
            _ => false,
        },
        Expr::TupleAccess { object, index, .. } => k.len() >= 1 && cx_d(k[0], *object, None) && k[0].s0 == d.s0
            && match k[0].r {
            Err(_) => cstops(d, k[0]),
            Ok(CVal::E(to)) => d.s1 == k[0].s1 && match to.ty@ {
                TypeView::Tuple(el) => if index < el.len() {
                    gives(d, e, el[index as int], seq![to], Seq::empty())
                } else {
                    fails_int(d, "tuple index "@ + decimal(index as nat) + " out of bounds"@)
                },
                _ => fails_int(d, "tuple access on non-tuple"@),
            },
            _ => false,
        },
        Expr::PropagateError { expr, .. } => k.len() >= 1 && cx_d(k[0], *expr, None) && k[0].s0 == d.s0 && match k[0].r {
            Err(_) => cstops(d, k[0]),
            Ok(CVal::E(ti)) => d.s1 == k[0].s1 && match propagated(ti.ty@) {
                Some(t) => gives(d, e, t, seq![ti], Seq::empty()),
                None => fails_int(d, "? on non-Result value"@),
            },
            _ => false,
        },
        Expr::Path(segments, _) => d.s1 == d.s0 && if segments@.len() != 2 {
            fails_int(d, "invalid path in construct"@)
        } else {
            let t = segments@[0]@;
            let m = segments@[1]@;
            if d.s0.methods().contains_key(t) && d.s0.methods()[t].contains_key(m) {
                gives(d, e, d.s0.methods()[t][m]@, Seq::empty(), Seq::empty())
            } else {
                gives(d, e, TypeView::Named(t, Seq::empty()), Seq::empty(), Seq::empty())
            }
        },
        Expr::Call { callee, args, span } => k.len() >= 1 && cxh_d(k[0], args@, call_hints(d.s0, *callee, args@.len()))
            && k[0].s0 == d.s0 && match k[0].r {
            Err(_) => cstops(d, k[0]),
            Ok(CVal::Es(tas)) => {
                let c = k[0].s1;
                let k1 = k[1];
                &&& k.len() >= 2
                &&& k1.s0 == c
                &&& match *callee {
                    Expr::Ident(name, isp) => if find_scoped(c.scopes(), name@) is Some {
                        cx_d(k1, *callee, None)
                    } else if !c.schemes().contains_key(name@) {
                        k1.s1 == c && (k1.r matches Err(x) && is_type_error(x, TypeErrorCode::T0003, "undefined name `"@ + name@ + "`"@, isp))
                    } else {
                        let sc = c.schemes()[name@];
                        if call_room(sc, c.next_id()) {
                            &&& !(k1.r matches Ok(CVal::E(_))) ==> k1.r is Err
                            &&& call_ok(sc, c.next_id(), tys(tas), span, ty_res(k1.r))
                            &&& (k1.r matches Ok(CVal::E(t)) ==> *t.src == *callee && t.parts@.len() == 0 && t.blocks@.len() == 0)
                            &&& renumbered(c, k1.s1, c.next_id() + sc.quantified_vars.len())
                        } else {
                            k1.s1 == c && (k1.r matches Err(x) && is_internal(x, "type variables exhausted"@))
                        }
                    },
                    _ => cx_d(k1, *callee, None),
                }
                &&& match k1.r {
                    Err(_) => cstops(d, k1),
                    Ok(CVal::E(tc)) => d.s1 == k1.s1 && match tc.ty@ {
                        TypeView::Fun(ps, ret) => if ps.len() != tas.len() {
                            fails(d, TypeErrorCode::T0004, arity_text(ps.len(), tas.len()), span)
                        } else {
                            gives(d, e, *ret, seq![tc] + tas, Seq::empty())
                        },
                        _ => fails(d, TypeErrorCode::T0001, "called a non-function value"@, span),
                    },
                    _ => false,
                }
            },
            _ => false,
        },
        Expr::StructLiteral { path, fields, span } => k.len() >= 1 && cflds_d(k[0], fields@) && k[0].s0 == d.s0 && match k[0].r {
            Err(_) => cstops(d, k[0]),
            Ok(CVal::Es(tfs)) => {
                let c = k[0].s1;
                if path@.len() == 2 {
                    &&& renumbered(c, d.s1, c.next_id() + enum_draws(c, path@[0]@, path@[1]@))
                    &&& lit_ends(d, e, enum_lit(c, path@[0]@, path@[1]@, fnames(fields@), tys(tfs), exp), tfs, span)
                } else if path@.len() == 0 {
                    d.s1 == c && fails_int(d, "empty path in struct literal"@)
                } else {
                    d.s1 == c && lit_ends(d, e, struct_lit(c, path@.last()@, fnames(fields@), tys(tfs)), tfs, span)
                }
            },
            _ => false,
        },
        Expr::Match { scrutinee, arms, span } => k.len() >= 1 && cx_d(k[0], *scrutinee, None) && k[0].s0 == d.s0
            && match k[0].r {
            Err(_) => cstops(d, k[0]),
            Ok(CVal::E(ts)) => k.len() >= 2 && carms_d(k[1], arms@, ts.ty@, exp) && k[1].s0 == k[0].s1 && d.s1
                == k[1].s1 && match k[1].r {
                Err(x) => d.r == Err::<CVal<'a>, GustError>(x),
                Ok(CVal::Arms(gs, bs)) => if exhaustive(arm_patterns(arms@), ts.ty@, k[1].s1.enums()) {
                    gives(d, e, match_ty(bs), seq![ts] + gs, bs)
                } else {
                    fails(d, TypeErrorCode::T0008, "non-exhaustive match: not all cases are covered"@, span)
                },
                _ => false,
            },
            _ => false,
        },
        Expr::If { condition, then_branch, else_branch, .. } => k.len() >= 1 && cx_d(k[0], *condition, None) && k[0].s0
            == d.s0 && match k[0].r {
            Err(_) => cstops(d, k[0]),
            Ok(CVal::E(tc)) => k.len() >= 2 && blk_c(k[1], then_branch, exp) && k[1].s0 == k[0].s1 && match k[1].r {
                Err(_) => cstops(d, k[1]),
                Ok(CVal::B(tt)) => match else_branch {
                    Some(eb) => k.len() >= 3 && blk_c(k[2], eb, exp) && k[2].s0 == k[1].s1 && match k[2].r {
                        Err(_) => cstops(d, k[2]),
                        Ok(CVal::B(te)) => d.s1 == k[2].s1 && gives(d, e, tail_ty(tt), seq![tc], seq![tt, te]),
                        _ => false,
                    },
                    None => d.s1 == k[1].s1 && gives(d, e, TypeView::Unit, seq![tc], seq![tt]),
                },
                _ => false,
            },
            _ => false,
        },
        Expr::Loop { body, .. } => {
            let c = k[0].s0;
            &&& k.len() >= 1
            &&& otv(c.break_ty()) == exp
            &&& rebroken(d.s0, c)
            &&& blk_c(k[0], body, None)
            &&& match k[0].r {
                Err(_) => cstops(d, k[0]),
                Ok(CVal::B(tb)) => {
                    &&& d.s1.break_ty() == d.s0.break_ty()
                    &&& rebroken(k[0].s1, d.s1)
                    &&& gives(d, e, match loop_break_b(tb) { Some(t) => t, None => TypeView::Never }, Seq::empty(), seq![tb])
                },
                _ => false,
            }
        },
        Expr::Closure { params, return_type, body, span } => match closure_params(d.s0, params@) {
            Err((m, sp)) => d.s1 == d.s0 && fails(d, TypeErrorCode::T0002, m, sp),
            Ok(ptys) => {
                let ret = match return_type {
                    Some(a) => resolve_te(d.s0, a@),
                    None => Some(TypeView::Unit),
                };
                match ret {
                    None => d.s1 == d.s0 && fails(d, TypeErrorCode::T0002, cannot_infer_text(), span),
                    Some(rt) => {
                        let c = k[0].s0;
                        &&& k.len() >= 1
                        &&& moved(d.s0, c, d.s0.scopes().push(zip_scope(params@, ptys)), d.s0.struct_scope_maps())
                        &&& blk_c(k[0], body, None)
                        &&& match k[0].r {
                            Err(_) => cstops(d, k[0]),
                            Ok(CVal::B(tb)) => cpop(k[0].s1, d.s1) && gives(
                                d,
                                e,
                                TypeView::Fun(ptys, Box::new(rt)),
                                Seq::empty(),
                                seq![tb],
                            ),
                            _ => false,
                        }
                    },
                }
            },
        },
        Expr::Cast { expr, target_type, span } => k.len() >= 1 && cx_d(k[0], *expr, None) && k[0].s0 == d.s0
            && match k[0].r {
            Err(_) => cstops(d, k[0]),
            Ok(CVal::E(ti)) => d.s1 == k[0].s1 && match resolve_te(k[0].s1, target_type@) {
                Some(t) => gives(d, e, t, seq![ti], Seq::empty()),
                None => fails(d, TypeErrorCode::T0002, cannot_infer_text(), span),
            },
            _ => false,
        },
        Expr::Ascribe { expr, ann, span } => match resolve_te(d.s0, ann@) {
            None => d.s1 == d.s0 && fails(d, TypeErrorCode::T0002, cannot_infer_text(), span),
            Some(t) => k.len() >= 1 && cx_d(k[0], *expr, Some(t)) && k[0].s0 == d.s0 && d.r == k[0].r && d.s1 == k[0].s1,
        },
        Expr::FieldAccess { object, field, span } => k.len() >= 1 && cx_d(k[0], *object, None) && k[0].s0 == d.s0
            && match k[0].r {
            Err(_) => cstops(d, k[0]),
            Ok(CVal::E(to)) => d.s1 == k[0].s1 && match field_type_of(k[0].s1, to.ty@, field@) {
                FieldType::Found(t) => gives(d, e, t, seq![to], Seq::empty()),
                FieldType::Unresolved => fails(d, TypeErrorCode::T0002, cannot_infer_text(), span),
                FieldType::Internal(m) => fails_int(d, m),
            },
            _ => false,
        },
        Expr::MethodCall { receiver, method, args, .. } => k.len() >= 1 && cx_d(k[0], *receiver, None) && k[0].s0 == d.s0
            && match k[0].r {
            Err(_) => cstops(d, k[0]),
            Ok(CVal::E(tr)) => match receiver_name(tr.ty@) {
                None => d.s1 == k[0].s1 && fails_int(d, "method call on non-struct type "@ + type_text(tr.ty@)),
                Some(n) => {
                    let c = k[0].s1;
                    if !(c.methods().contains_key(n) && c.methods()[n].contains_key(method@)) {
                        d.s1 == c && fails_int(d, "no method `"@ + method@ + "` on `"@ + n + "`"@)
                    } else {
                        k.len() >= 2 && cxs_d(k[1], args@) && k[1].s0 == c && match k[1].r {
                            Err(_) => cstops(d, k[1]),
                            Ok(CVal::Es(ts)) => d.s1 == k[1].s1 && match c.methods()[n][method@]@ {
                                TypeView::Fun(_, ret) => gives(d, e, *ret, seq![tr] + ts, Seq::empty()),
                                _ => fails_int(d, "method type is not a function"@),
                            },
                            _ => false,
                        }
                    }
                },
            },
            _ => false,
        },
        _ => false,
    }
}

/// `d` records building the typed forms of `es` in order, each with the
/// expected type at its place in `hints`; the first error stops it.
pub open spec fn cxh_d<'a>(d: Cv<'a>, es: Seq<Expr>, hints: Seq<Option<TypeView>>) -> bool
    decreases es, 1nat,
{
    if es.len() == 0 {
        d.r == Ok::<CVal<'a>, GustError>(CVal::Es(Seq::empty())) && d.s1 == d.s0
    } else {
        d.kids.len() >= 1 && cxh_d(d.kids[0], es.drop_last(), hints) && d.kids[0].s0 == d.s0 && match d.kids[0].r {
            Err(_) => cstops(d, d.kids[0]),
            Ok(CVal::Es(ts)) => d.kids.len() >= 2 && cx_d(d.kids[1], es.last(), hints[es.len() - 1]) && d.kids[1].s0
                == d.kids[0].s1 && d.s1 == d.kids[1].s1 && match d.kids[1].r {
                Err(x) => d.r == Err::<CVal<'a>, GustError>(x),
                Ok(CVal::E(t)) => d.r == Ok::<CVal<'a>, GustError>(CVal::Es(ts.push(t))),
                _ => false,
            },
            _ => false,
        }
    }
}

/// `d` records the arms `arms` of a `match` on a value of type `scrut`, in
/// order: their guards and bodies, with `exp` the type expected of them.
pub open spec fn carms_d<'a>(d: Cv<'a>, arms: Seq<MatchArm>, scrut: TypeView, exp: Option<TypeView>) -> bool
    decreases arms, 1nat,
{
    if arms.len() == 0 {
        d.r == Ok::<CVal<'a>, GustError>(CVal::Arms(Seq::empty(), Seq::empty())) && d.s1 == d.s0
    } else {
        d.kids.len() >= 1 && carms_d(d.kids[0], arms.drop_last(), scrut, exp) && d.kids[0].s0 == d.s0 && match d.kids[0].r {
            Err(_) => cstops(d, d.kids[0]),
            Ok(CVal::Arms(gs, bs)) => d.kids.len() >= 2 && carm_d(d.kids[1], arms.last(), scrut, exp) && d.kids[1].s0
                == d.kids[0].s1 && d.s1 == d.kids[1].s1 && match d.kids[1].r {
                Err(x) => d.r == Err::<CVal<'a>, GustError>(x),
                Ok(CVal::Arms(g, b)) => d.r == Ok::<CVal<'a>, GustError>(CVal::Arms(gs + g, bs + b)),
                _ => false,
            },
            _ => false,
        }
    }
}

/// `d` records one arm of a `match` on a value of type `scrut`: in a value
/// scope of its own, the pattern's bindings, the guard, and the body.
pub open spec fn carm_d<'a>(d: Cv<'a>, arm: MatchArm, scrut: TypeView, exp: Option<TypeView>) -> bool
    decreases arm, 0nat,
{
    let k = d.kids;
    let c = k[0].s0;
    let pb = pattern_bindings(arm.pattern, scrut, Map::empty(), c.enums());
    &&& k.len() >= 1
    &&& moved(d.s0, c, d.s0.scopes().push(Map::empty()), d.s0.struct_scope_maps())
    &&& moved(c, k[0].s1, c.scopes().drop_last().push(pb.0), c.struct_scope_maps())
    &&& match pb.1 {
        Some(b) => d.s1 == k[0].s1 && (d.r matches Err(x) && bind_error_is(x, b)),
        None => {
            let c1 = k[0].s1;
            k.len() >= 2 && copt_d(k[1], arm.guard) && k[1].s0 == c1 && match k[1].r {
                Err(_) => cstops(d, k[1]),
                Ok(CVal::Es(g)) => k.len() >= 3 && blk_c(k[2], arm.body, exp) && k[2].s0 == k[1].s1 && match k[2].r {
                    Err(_) => cstops(d, k[2]),
                    Ok(CVal::B(tb)) => cpop(k[2].s1, d.s1) && d.r == Ok::<CVal<'a>, GustError>(CVal::Arms(g, seq![tb])),
                    _ => false,
                },
                _ => false,
            }
        },
    }
}

/// `d` records building the bodies of the methods `ms` of type `target`, in
/// order.
pub open spec fn cmethods_d<'a>(d: Cv<'a>, ms: Seq<FunDecl>, target: Seq<char>) -> bool
    decreases ms, 1nat,
{
    if ms.len() == 0 {
        d.r == Ok::<CVal<'a>, GustError>(CVal::Arms(Seq::empty(), Seq::empty())) && d.s1 == d.s0
    } else {
        d.kids.len() >= 1 && cmethods_d(d.kids[0], ms.drop_last(), target) && d.kids[0].s0 == d.s0 && match d.kids[0].r {
            Err(_) => cstops(d, d.kids[0]),
            Ok(CVal::Arms(_, bs)) => d.kids.len() >= 2 && cmethod_d(d.kids[1], ms.last(), target) && d.kids[1].s0
                == d.kids[0].s1 && d.s1 == d.kids[1].s1 && match d.kids[1].r {
                Err(x) => d.r == Err::<CVal<'a>, GustError>(x),
                Ok(CVal::B(tb)) => d.r == Ok::<CVal<'a>, GustError>(CVal::Arms(Seq::empty(), bs.push(tb))),
                _ => false,
            },
            _ => false,
        }
    }
}

/// `d` records building the body of method `m` of type `target`.
pub open spec fn cmethod_d<'a>(d: Cv<'a>, m: FunDecl, target: Seq<char>) -> bool
    decreases m, 0nat,
{
    match method_params(d.s0, m.params@, target) {
        Err((msg, sp)) => d.s1 == d.s0 && fails(d, TypeErrorCode::T0002, msg, sp),
        Ok(pts) => {
            let ret = match m.return_type {
                Some(a) => Some(resolve_te(d.s0, a@)),
                None => None,
            };
            match ret {
                Some(None) => d.s1 == d.s0 && fails(d, TypeErrorCode::T0002, cannot_infer_text(), m.span),
                _ => {
                    let rt = match ret {
                        Some(Some(t)) => Some(t),
                        _ => None,
                    };
                    let k = d.kids;
                    &&& k.len() >= 1
                    &&& entered(d.s0, k[0].s0, zip_scope(m.params@, pts), rt)
                    &&& blk_c(k[0], m.body, rt)
                    &&& match k[0].r {
                        Err(_) => cstops(d, k[0]),
                        Ok(CVal::B(tb)) => left(k[0].s1, d.s1, d.s0.return_ty()) && d.r == Ok::<CVal<'a>, GustError>(CVal::B(tb)),
                        _ => false,
                    }
                },
            }
        },
    }
}

/// `d` records building the typed form of block `b`, whose tail the context
/// expects to have type `exp`, if any: a value scope and a struct scope are
/// opened, the block's structs registered, its declarations built in order,
/// then its tail, and both scopes closed.
pub open spec fn blk_c<'a>(d: Cv<'a>, b: Block, exp: Option<TypeView>) -> bool
    decreases b, 0nat,
{
    let k = d.kids;
    let c = k[0].s0;
    &&& k.len() >= 1
    &&& moved(d.s0, c, d.s0.scopes().push(Map::empty()), d.s0.struct_scope_maps().push(Map::empty()))
    &&& cregs_d(k[0], b.stmts@)
    &&& match k[0].r {
        Err(_) => cstops(d, k[0]),
        Ok(_) => k.len() >= 2 && cds_d(k[1], b.stmts@) && k[1].s0 == k[0].s1 && match k[1].r {
            Err(_) => cstops(d, k[1]),
            Ok(CVal::Ds(ds)) => match b.tail {
                Some(t) => k.len() >= 3 && cx_d(k[2], *t, exp) && k[2].s0 == k[1].s1 && match k[2].r {
                    Err(_) => cstops(d, k[2]),
                    Ok(CVal::E(tt)) => {
                        let c2 = k[2].s1;
                        &&& moved(c2, d.s1, c2.scopes().drop_last(), c2.struct_scope_maps().drop_last())
                        &&& d.r matches Ok(CVal::B(tb)) && *tb.src == b && tb.decls@ == ds && (tb.tail matches Some(x)
                            && *x == tt)
                    },
                    _ => false,
                },
                None => {
                    let c1 = k[1].s1;
                    &&& moved(c1, d.s1, c1.scopes().drop_last(), c1.struct_scope_maps().drop_last())
                    &&& d.r matches Ok(CVal::B(tb)) && *tb.src == b && tb.decls@ == ds && tb.tail is None
                },
            },
            _ => false,
        },
    }
}

/// `d` records building the typed forms of `decls` in order.
pub open spec fn cds_d<'a>(d: Cv<'a>, decls: Seq<Decl>) -> bool
    decreases decls, 1nat,
{
    if decls.len() == 0 {
        d.r == Ok::<CVal<'a>, GustError>(CVal::Ds(Seq::empty())) && d.s1 == d.s0
    } else {
        d.kids.len() >= 1 && cds_d(d.kids[0], decls.drop_last()) && d.kids[0].s0 == d.s0 && match d.kids[0].r {
            Err(_) => cstops(d, d.kids[0]),
            Ok(CVal::Ds(ds)) => d.kids.len() >= 2 && cdecl_d(d.kids[1], decls.last()) && d.kids[1].s0 == d.kids[0].s1
                && d.s1 == d.kids[1].s1 && match d.kids[1].r {
                Err(x) => d.r == Err::<CVal<'a>, GustError>(x),
                Ok(CVal::D(t)) => d.r == Ok::<CVal<'a>, GustError>(CVal::Ds(ds.push(t))),
                _ => false,
            },
            _ => false,
        }
    }
}

/// `d` records a binding `bd` whose value is built with the type its
/// annotation resolves to as the expected one, and bound to that type, or
/// to the value's own type when there is no annotation.
pub open spec fn cbinding_d<'a>(d: Cv<'a>, bd: BindDecl, decl: Decl) -> bool
    decreases bd, 0nat,
{
    let k = d.kids;
    let ann = match bd.type_ann {
        Some(a) => Some(resolve_te(d.s0, a@)),
        None => None,
    };
    match ann {
        Some(None) => d.s1 == d.s0 && fails(d, TypeErrorCode::T0002, cannot_infer_text(), bd.span),
        _ => {
            let exp = match ann {
                Some(Some(t)) => Some(t),
                _ => None,
            };
            k.len() >= 1 && cx_d(k[0], bd.value, exp) && k[0].s0 == d.s0 && match k[0].r {
                Err(_) => cstops(d, k[0]),
                Ok(CVal::E(tv)) => cbind(k[0].s1, bd.name@, match exp { Some(t) => t, None => tv.ty@ }, d.s1)
                    && gives_d(d, decl, seq![tv], Seq::empty()),
                _ => false,
            }
        },
    }
}

/// `d` records building the typed form of declaration `decl`.
pub open spec fn cdecl_d<'a>(d: Cv<'a>, decl: Decl) -> bool
    decreases decl, 0nat,
{
    match decl {
        Decl::Let(bd) => if bd.value is Closure && d.s0.schemes().contains_key(bd.name@) && d.s0.schemes()[bd.name@].quantified_vars.len()
            > 0 {
            d.s1 == d.s0 && gives_d(d, decl, Seq::empty(), Seq::empty())
        } else {
            cbinding_d(d, bd, decl)
        },
        Decl::Mut(bd) => cbinding_d(d, bd, decl),
        Decl::Fun(fd) => if !d.s0.schemes().contains_key(fd.name@) {
            d.s1 == d.s0 && fails_int(d, "missing type for fn `"@ + fd.name@ + "`"@)
        } else {
            let sc = d.s0.schemes()[fd.name@];
            if sc.quantified_vars.len() > 0 {
                d.s1 == d.s0 && gives_d(d, decl, Seq::empty(), Seq::empty())
            } else {
                match fun_sig(d.s0, sc) {
                    FunSig::NotFun => d.s1 == d.s0 && fails_int(d, "expected Fun type for `"@ + fd.name@ + "`"@),
                    FunSig::Unresolved => d.s1 == d.s0 && fails(d, TypeErrorCode::T0002, cannot_infer_text(), fd.span),
                    FunSig::Sig(pts, ret) => {
                        let k = d.kids;
                        &&& k.len() >= 1
                        &&& entered(d.s0, k[0].s0, zip_scope(fd.params@, pts), ret)
                        &&& blk_c(k[0], fd.body, ret)
                        &&& match k[0].r {
                            Err(_) => cstops(d, k[0]),
                            Ok(CVal::B(tb)) => left(k[0].s1, d.s1, d.s0.return_ty()) && gives_d(d, decl, Seq::empty(), seq![tb]),
                            _ => false,
                        }
                    },
                }
            }
        },
        Decl::Impl(ib) => if ib.header.aspect_name is Some {
            d.s1 == d.s0 && (d.r matches Err(x) && is_unsupported(x, "trait impl blocks not yet supported"@))
        } else {
            match ib.header.target_type {
                TypeExpr::Named(target, _) => d.kids.len() >= 1 && cmethods_d(d.kids[0], ib.methods@, target@) && d.kids[0].s0
                    == d.s0 && d.s1 == d.kids[0].s1 && match d.kids[0].r {
                    Err(x) => d.r == Err::<CVal<'a>, GustError>(x),
                    Ok(CVal::Arms(_, bs)) => gives_d(d, decl, Seq::empty(), bs),
                    _ => false,
                },
                _ => d.s1 == d.s0 && (d.r matches Err(x) && is_unsupported(x, "generic impl blocks not yet supported"@)),
            }
        },
        Decl::Struct(_) => d.s1 == d.s0 && gives_d(d, decl, Seq::empty(), Seq::empty()),
        Decl::Enum(_) => d.s1 == d.s0 && gives_d(d, decl, Seq::empty(), Seq::empty()),
        Decl::Aspect(_) => d.s1 == d.s0 && gives_d(d, decl, Seq::empty(), Seq::empty()),
        Decl::Stmt(st) => cstmt_d(d, st, decl),
        _ => false,
    }
}

/// `d` records an optional expression built with no expected type: the
/// typed forms it gives, none or one.
pub open spec fn copt_d<'a>(d: Cv<'a>, o: Option<Expr>) -> bool
    decreases o, 0nat,
{
    match o {
        None => d.r == Ok::<CVal<'a>, GustError>(CVal::Es(Seq::empty())) && d.s1 == d.s0,
        Some(e) => d.kids.len() >= 1 && cx_d(d.kids[0], e, None) && d.kids[0].s0 == d.s0 && d.s1 == d.kids[0].s1 && match d.kids[0].r {
            Err(x) => d.r == Err::<CVal<'a>, GustError>(x),
            Ok(CVal::E(t)) => d.r == Ok::<CVal<'a>, GustError>(CVal::Es(seq![t])),
            _ => false,
        },
    }
}

/// `d` records the initializer of a C-style `for`: a mutable binding bound
/// to its value's type, or an expression.
pub open spec fn cinit_d<'a>(d: Cv<'a>, init: Option<ForInit>) -> bool
    decreases init, 0nat,
{
    match init {
        None => d.r == Ok::<CVal<'a>, GustError>(CVal::Es(Seq::empty())) && d.s1 == d.s0,
        Some(ForInit::Expr(e)) => d.kids.len() >= 1 && cx_d(d.kids[0], e, None) && d.kids[0].s0 == d.s0 && d.s1 == d.kids[0].s1
            && match d.kids[0].r {
            Err(x) => d.r == Err::<CVal<'a>, GustError>(x),
            Ok(CVal::E(t)) => d.r == Ok::<CVal<'a>, GustError>(CVal::Es(seq![t])),
            _ => false,
        },
        Some(ForInit::Mut(bd)) => d.kids.len() >= 1 && cx_d(d.kids[0], bd.value, None) && d.kids[0].s0 == d.s0 && match d.kids[0].r {
            Err(_) => cstops(d, d.kids[0]),
            Ok(CVal::E(t)) => cbind(d.kids[0].s1, bd.name@, t.ty@, d.s1) && d.r == Ok::<CVal<'a>, GustError>(CVal::Es(seq![t])),
            _ => false,
        },
    }
}

/// `d` records building the typed form of statement `st`, standing as
/// declaration `decl`.
pub open spec fn cstmt_d<'a>(d: Cv<'a>, st: Stmt, decl: Decl) -> bool
    decreases st, 0nat,
{
    let k = d.kids;
    match st {
        Stmt::Expr(e) => k.len() >= 1 && cx_d(k[0], e, None) && k[0].s0 == d.s0 && match k[0].r {
            Err(_) => cstops(d, k[0]),
            Ok(CVal::E(t)) => d.s1 == k[0].s1 && gives_d(d, decl, seq![t], Seq::empty()),
            _ => false,
        },
        Stmt::Return { value, .. } => match value {
            None => d.s1 == d.s0 && gives_d(d, decl, Seq::empty(), Seq::empty()),
            Some(e) => k.len() >= 1 && cx_d(k[0], e, otv(d.s0.return_ty())) && k[0].s0 == d.s0 && match k[0].r {
                Err(_) => cstops(d, k[0]),
                Ok(CVal::E(t)) => d.s1 == k[0].s1 && gives_d(d, decl, seq![t], Seq::empty()),
                _ => false,
            },
        },
        Stmt::Break { value, .. } => match value {
            None => d.s1 == d.s0 && gives_d(d, decl, Seq::empty(), Seq::empty()),
            Some(e) => k.len() >= 1 && cx_d(k[0], e, otv(d.s0.break_ty())) && k[0].s0 == d.s0 && match k[0].r {
                Err(_) => cstops(d, k[0]),
                Ok(CVal::E(t)) => d.s1 == k[0].s1 && gives_d(d, decl, seq![t], Seq::empty()),
                _ => false,
            },
        },
        Stmt::Continue(_) => d.s1 == d.s0 && gives_d(d, decl, Seq::empty(), Seq::empty()),
        Stmt::While { condition, body, .. } => k.len() >= 1 && cx_d(k[0], condition, None) && k[0].s0 == d.s0 && match k[0].r {
            Err(_) => cstops(d, k[0]),
            Ok(CVal::E(tc)) => k.len() >= 2 && blk_c(k[1], body, None) && k[1].s0 == k[0].s1 && match k[1].r {
                Err(_) => cstops(d, k[1]),
                Ok(CVal::B(tb)) => d.s1 == k[1].s1 && gives_d(d, decl, seq![tc], seq![tb]),
                _ => false,
            },
            _ => false,
        },
        Stmt::For { init, condition, step, body, .. } => {
            let c = k[0].s0;
            &&& k.len() >= 1
            &&& moved(d.s0, c, d.s0.scopes().push(Map::empty()), d.s0.struct_scope_maps())
            &&& cinit_d(k[0], init)
            &&& match k[0].r {
                Err(_) => cstops(d, k[0]),
                Ok(CVal::Es(a)) => k.len() >= 2 && copt_d(k[1], condition) && k[1].s0 == k[0].s1 && match k[1].r {
                    Err(_) => cstops(d, k[1]),
                    Ok(CVal::Es(b)) => k.len() >= 3 && copt_d(k[2], step) && k[2].s0 == k[1].s1 && match k[2].r {
                        Err(_) => cstops(d, k[2]),
                        Ok(CVal::Es(s3)) => k.len() >= 4 && blk_c(k[3], body, None) && k[3].s0 == k[2].s1 && match k[3].r {
                            Err(_) => cstops(d, k[3]),
                            Ok(CVal::B(tb)) => cpop(k[3].s1, d.s1) && gives_d(d, decl, a + b + s3, seq![tb]),
                            _ => false,
                        },
                        _ => false,
                    },
                    _ => false,
                },
                _ => false,
            }
        },
        Stmt::ForIn { binding, iterable, body, .. } => k.len() >= 1 && cx_d(k[0], iterable, None) && k[0].s0 == d.s0 && match k[0].r {
            Err(_) => cstops(d, k[0]),
            Ok(CVal::E(ti)) => {
                let elem = match ti.ty@ {
                    TypeView::Array(el) => Some(*el),
                    TypeView::Named(n, args) => if n == "Range"@ && args.len() == 1 { Some(TypeView::Int) } else { None },
                    _ => None,
                };
                match elem {
                    None => d.s1 == k[0].s1 && fails_int(d, "for-in over non-iterable type"@),
                    Some(el) => {
                        let c = k[0].s1;
                        let c1 = k[1].s0;
                        &&& k.len() >= 2
                        &&& moved(c, c1, c.scopes().push(Map::empty().insert(binding@, el)), c.struct_scope_maps())
                        &&& blk_c(k[1], body, None)
                        &&& match k[1].r {
                            Err(_) => cstops(d, k[1]),
                            Ok(CVal::B(tb)) => cpop(k[1].s1, d.s1) && gives_d(d, decl, seq![ti], seq![tb]),
                            _ => false,
                        }
                    },
                }
            },
            _ => false,
        },
    }
}

/// `d` records building the typed forms of `es` in order; the first error
/// stops it.
pub open spec fn cxs_d<'a>(d: Cv<'a>, es: Seq<Expr>) -> bool
    decreases es, 1nat,
{
    if es.len() == 0 {
        d.r == Ok::<CVal<'a>, GustError>(CVal::Es(Seq::empty())) && d.s1 == d.s0
    } else {
        d.kids.len() >= 1 && cxs_d(d.kids[0], es.drop_last()) && d.kids[0].s0 == d.s0 && match d.kids[0].r {
            Err(_) => cstops(d, d.kids[0]),
            Ok(CVal::Es(ts)) => d.kids.len() >= 2 && cx_d(d.kids[1], es.last(), None) && d.kids[1].s0 == d.kids[0].s1
                && d.s1 == d.kids[1].s1 && match d.kids[1].r {
                Err(x) => d.r == Err::<CVal<'a>, GustError>(x),
                Ok(CVal::E(t)) => d.r == Ok::<CVal<'a>, GustError>(CVal::Es(ts.push(t))),
                _ => false,
            },
            _ => false,
        }
    }
}

/// What building the typed form of `e` from context `c0` gives.
pub open spec fn construct_rel<'a>(e: Expr, exp: Option<TypeView>, c0: ConstructCtx<'a>, r: Result<TypedExpr<'a>, GustError>, c1: ConstructCtx<'a>) -> bool {
    exists|d: Cv<'a>| #[trigger] cx_d(d, e, exp) && d.s0 == c0 && d.s1 == c1 && match r {
        Ok(t) => d.r == Ok::<CVal<'a>, GustError>(CVal::E(t)),
        Err(x) => d.r == Err::<CVal<'a>, GustError>(x),
    }
}

/// The view of an expected type.
pub open spec fn tyv(o: Option<&Type>) -> Option<TypeView> {
    match o {
        Some(t) => Some(t@),
        None => None,
    }
}

fn text3(a: &str, b: &str, c: &str) -> (r: String)
    ensures
        r@ == a@ + b@ + c@,
{
    let mut s = String::new();
    push_str(&mut s, a);
    push_str(&mut s, b);
    push_str(&mut s, c);
    s
}

/// Build the typed form of `expr` (see [`construct_rel`]), given the type
/// the context expects of it.
pub fn construct_expr<'a>(expr: &'a Expr, expected: Option<&Type>, ctx: &mut ConstructCtx<'a>) -> (r: Result<TypedExpr<'a>, GustError>)
    requires
        old(ctx).wf(),
    ensures
        final(ctx).wf(),
        same_consts(*old(ctx), *final(ctx)),
        construct_rel(*expr, tyv(expected), *old(ctx), r, *final(ctx)),
        r is Ok ==> final(ctx).scopes().len() == old(ctx).scopes().len() && final(ctx).struct_scope_maps().len()
            == old(ctx).struct_scope_maps().len(),
{
    let (r, Ghost(d)) = build_expr(expr, expected, ctx);
    r
}

fn build_expr<'a>(expr: &'a Expr, expected: Option<&Type>, ctx: &mut ConstructCtx<'a>) -> (out: (Result<TypedExpr<'a>, GustError>, Ghost<Cv<'a>>))
    requires
        old(ctx).wf(),
    ensures
        final(ctx).wf(),
        same_consts(*old(ctx), *final(ctx)),
        cx_d(out.1@, *expr, tyv(expected)),
        out.0 is Ok ==> final(ctx).scopes().len() == old(ctx).scopes().len() && final(ctx).struct_scope_maps().len()
            == old(ctx).struct_scope_maps().len(),
        out.1@.s0 == *old(ctx),
        out.1@.s1 == *final(ctx),
        match out.0 {
            Ok(t) => out.1@.r == Ok::<CVal<'a>, GustError>(CVal::E(t)),
            Err(x) => out.1@.r == Err::<CVal<'a>, GustError>(x),
        },
    decreases expr, 1nat,
{
    let ghost c0 = *ctx;
    match expr {
        Expr::Literal(lit, span) => {
            match construct_literal_type(lit, expected, span) {
                Ok(ty) => {
                    let t = TypedExpr { src: expr, ty, parts: Vec::new(), blocks: Vec::new() };
                    let ghost d = Cv { s0: c0, r: Ok(CVal::E(t)), s1: c0, kids: seq![] };
                    (Ok(t), Ghost(d))
                },
                Err(x) => {
                    let ghost d = Cv { s0: c0, r: Err(x), s1: c0, kids: seq![] };
                    (Err(x), Ghost(d))
                },
            }
        },
        Expr::Ident(name, span) => {
            match ctx.lookup(name.as_str()) {
                Some(ty) => {
                    let t = TypedExpr { src: expr, ty: clone_type(ty), parts: Vec::new(), blocks: Vec::new() };
                    let ghost d = Cv { s0: c0, r: Ok(CVal::E(t)), s1: c0, kids: seq![] };
                    (Ok(t), Ghost(d))
                },
                None => {
                    let x = GustError::type_error(TypeErrorCode::T0003, text3("undefined name `", name.as_str(), "`"), span);
                    let ghost d = Cv { s0: c0, r: Err(x), s1: c0, kids: seq![] };
                    (Err(x), Ghost(d))
                },
            }
        },
        Expr::Path(segments, _) => {
            if segments.len() != 2 {
                let x = GustError::internal(String::from_str("invalid path in construct"));
                return (Err(x), Ghost(Cv { s0: c0, r: Err(x), s1: c0, kids: seq![] }));
            }
            let ty = match ctx.method_type(segments[0].as_str(), segments[1].as_str()) {
                Some(t) => clone_type(t),
                None => {
                    let mut n = String::new();
                    push_str(&mut n, segments[0].as_str());
                    let none: Vec<Type> = Vec::new();
                    assert(crate::types::types_model(none@) =~= Seq::<TypeView>::empty());
                    Type::Named(n, none)
                },
            };
            let t = TypedExpr { src: expr, ty, parts: Vec::new(), blocks: Vec::new() };
            let ghost d = Cv { s0: c0, r: Ok(CVal::E(t)), s1: c0, kids: seq![] };
            (Ok(t), Ghost(d))
        },
        Expr::If { .. } | Expr::Loop { .. } | Expr::Closure { .. } => build_ctl(expr, expected, ctx),
        Expr::Match { .. } => build_match(expr, expected, ctx),
        Expr::Call { .. } => build_call(expr, expected, ctx),
        Expr::BinOp(..) | Expr::UnaryOp(..) | Expr::Tuple(..) | Expr::Array(..) | Expr::Index { .. } | Expr::Assign { .. } => build_ops(expr, expected, ctx),
        Expr::TupleAccess { .. } | Expr::PropagateError { .. } | Expr::Cast { .. } | Expr::Ascribe { .. } | Expr::FieldAccess { .. } | Expr::MethodCall { .. } => build_acc(expr, expected, ctx),
        Expr::StructLiteral { .. } => build_struct_lit(expr, expected, ctx),
    }
}

fn build_ops<'a>(expr: &'a Expr, expected: Option<&Type>, ctx: &mut ConstructCtx<'a>) -> (out: (Result<TypedExpr<'a>, GustError>, Ghost<Cv<'a>>))
    requires
        old(ctx).wf(),
        *expr is BinOp || *expr is UnaryOp || *expr is Tuple || *expr is Array || *expr is Index || *expr is Assign,
    ensures
        final(ctx).wf(),
        same_consts(*old(ctx), *final(ctx)),
        cx_d(out.1@, *expr, tyv(expected)),
        out.0 is Ok ==> final(ctx).scopes().len() == old(ctx).scopes().len() && final(ctx).struct_scope_maps().len()
            == old(ctx).struct_scope_maps().len(),
        out.1@.s0 == *old(ctx),
        out.1@.s1 == *final(ctx),
        match out.0 {
            Ok(t) => out.1@.r == Ok::<CVal<'a>, GustError>(CVal::E(t)),
            Err(x) => out.1@.r == Err::<CVal<'a>, GustError>(x),
        },
    decreases expr, 0nat,
{
    let ghost c0 = *ctx;
    match expr {
        Expr::BinOp(l, op, rr, _) => {
            let (ra, Ghost(da)) = build_expr(l, None, ctx);
            let tl = match ra {
                Ok(t) => t,
                Err(x) => {
                    return (Err(x), Ghost(Cv { s0: c0, r: da.r, s1: da.s1, kids: seq![da] }));
                },
            };
            let (rb, Ghost(db)) = build_expr(rr, None, ctx);
            let tr = match rb {
                Ok(t) => t,
                Err(x) => {
                    return (Err(x), Ghost(Cv { s0: c0, r: db.r, s1: db.s1, kids: seq![da, db] }));
                },
            };
            let ty = construct_binop_type(op, &tl.ty);
            let mut parts: Vec<TypedExpr<'a>> = Vec::new();
            parts.push(tl);
            parts.push(tr);
            let t = TypedExpr { src: expr, ty, parts, blocks: Vec::new() };
            assert(t.parts@ =~= seq![ex_of(da.r), ex_of(db.r)]);
            assert(t.blocks@ =~= Seq::<TypedBlock<'a>>::empty());
            let ghost d = Cv { s0: c0, r: Ok(CVal::E(t)), s1: *ctx, kids: seq![da, db] };
            (Ok(t), Ghost(d))
        },
        Expr::UnaryOp(op, x, _) => {
            let (ra, Ghost(da)) = build_expr(x, None, ctx);
            let tx = match ra {
                Ok(t) => t,
                Err(e) => {
                    return (Err(e), Ghost(Cv { s0: c0, r: da.r, s1: da.s1, kids: seq![da] }));
                },
            };
            let ty = construct_unaryop_type(op, &tx.ty);
            let mut parts: Vec<TypedExpr<'a>> = Vec::new();
            parts.push(tx);
            let t = TypedExpr { src: expr, ty, parts, blocks: Vec::new() };
            assert(t.parts@ =~= seq![ex_of(da.r)]);
            assert(t.blocks@ =~= Seq::<TypedBlock<'a>>::empty());
            let ghost d = Cv { s0: c0, r: Ok(CVal::E(t)), s1: *ctx, kids: seq![da] };
            (Ok(t), Ghost(d))
        },
        Expr::Tuple(es, _) => {
            let (ra, Ghost(da)) = build_exprs(es, ctx);
            let ts = match ra {
                Ok(ts) => ts,
                Err(x) => {
                    return (Err(x), Ghost(Cv { s0: c0, r: da.r, s1: da.s1, kids: seq![da] }));
                },
            };
            let ghost tsv = ts@;
            let tyvec = types_of(&ts);
            let t = TypedExpr { src: expr, ty: Type::Tuple(tyvec), parts: ts, blocks: Vec::new() };
            assert(t.blocks@ =~= Seq::<TypedBlock<'a>>::empty());
            let ghost d = Cv { s0: c0, r: Ok(CVal::E(t)), s1: *ctx, kids: seq![da] };
            (Ok(t), Ghost(d))
        },
        Expr::Array(es, span) => {
            if es.len() == 0 {
                return match expected {
                    Some(x) => {
                        let t = TypedExpr { src: expr, ty: clone_type(x), parts: Vec::new(), blocks: Vec::new() };
                        let ghost d = Cv { s0: c0, r: Ok(CVal::E(t)), s1: c0, kids: seq![] };
                        (Ok(t), Ghost(d))
                    },
                    None => {
                        let mut m = String::new();
                        push_str(&mut m, "cannot infer element type of empty array; add a type annotation");
                        let x = GustError::type_error(TypeErrorCode::T0002, m, span);
                        let ghost d = Cv { s0: c0, r: Err(x), s1: c0, kids: seq![] };
                        (Err(x), Ghost(d))
                    },
                };
            }
            let (ra, Ghost(da)) = build_exprs(es, ctx);
            let ts = match ra {
                Ok(ts) => ts,
                Err(x) => {
                    return (Err(x), Ghost(Cv { s0: c0, r: da.r, s1: da.s1, kids: seq![da] }));
                },
            };
            let el = clone_type(&ts[0].ty);
            let t = TypedExpr { src: expr, ty: Type::Array(Box::new(el)), parts: ts, blocks: Vec::new() };
            assert(t.blocks@ =~= Seq::<TypedBlock<'a>>::empty());
            let ghost d = Cv { s0: c0, r: Ok(CVal::E(t)), s1: *ctx, kids: seq![da] };
            (Ok(t), Ghost(d))
        },
        Expr::Index { object, index, span } => {
            let (ra, Ghost(da)) = build_expr(object, None, ctx);
            let to = match ra {
                Ok(t) => t,
                Err(x) => {
                    return (Err(x), Ghost(Cv { s0: c0, r: da.r, s1: da.s1, kids: seq![da] }));
                },
            };
            let (rb, Ghost(db)) = build_expr(index, None, ctx);
            let ti = match rb {
                Ok(t) => t,
                Err(x) => {
                    return (Err(x), Ghost(Cv { s0: c0, r: db.r, s1: db.s1, kids: seq![da, db] }));
                },
            };
            let el = match &to.ty {
                Type::Array(el) => clone_type(el),
                _ => {
                    let mut m = String::new();
                    push_str(&mut m, "indexed value is not an array");
                    let x = GustError::type_error(TypeErrorCode::T0001, m, span);
                    return (Err(x), Ghost(Cv { s0: c0, r: Err(x), s1: *ctx, kids: seq![da, db] }));
                },
            };
            let mut parts: Vec<TypedExpr<'a>> = Vec::new();
            parts.push(to);
            parts.push(ti);
            let t = TypedExpr { src: expr, ty: el, parts, blocks: Vec::new() };
            assert(t.parts@ =~= seq![ex_of(da.r), ex_of(db.r)]);
            assert(t.blocks@ =~= Seq::<TypedBlock<'a>>::empty());
            let ghost d = Cv { s0: c0, r: Ok(CVal::E(t)), s1: *ctx, kids: seq![da, db] };
            (Ok(t), Ghost(d))
        },
        Expr::Assign { value, .. } => {
            let (ra, Ghost(da)) = build_expr(value, None, ctx);
            let tv = match ra {
                Ok(t) => t,
                Err(x) => {
                    return (Err(x), Ghost(Cv { s0: c0, r: da.r, s1: da.s1, kids: seq![da] }));
                },
            };
            let mut parts: Vec<TypedExpr<'a>> = Vec::new();
            parts.push(tv);
            let t = TypedExpr { src: expr, ty: Type::Unit, parts, blocks: Vec::new() };
            assert(t.parts@ =~= seq![ex_of(da.r)]);
            assert(t.blocks@ =~= Seq::<TypedBlock<'a>>::empty());
            let ghost d = Cv { s0: c0, r: Ok(CVal::E(t)), s1: *ctx, kids: seq![da] };
            (Ok(t), Ghost(d))
        },
        _ => {
            assert(false);
            (Err(GustError::internal(String::from_str("unreachable"))), Ghost(arbitrary()))
        },
    }
}

fn build_acc<'a>(expr: &'a Expr, expected: Option<&Type>, ctx: &mut ConstructCtx<'a>) -> (out: (Result<TypedExpr<'a>, GustError>, Ghost<Cv<'a>>))
    requires
        old(ctx).wf(),
        *expr is TupleAccess || *expr is PropagateError || *expr is Cast || *expr is Ascribe || *expr is FieldAccess || *expr is MethodCall,
    ensures
        final(ctx).wf(),
        same_consts(*old(ctx), *final(ctx)),
        cx_d(out.1@, *expr, tyv(expected)),
        out.0 is Ok ==> final(ctx).scopes().len() == old(ctx).scopes().len() && final(ctx).struct_scope_maps().len()
            == old(ctx).struct_scope_maps().len(),
        out.1@.s0 == *old(ctx),
        out.1@.s1 == *final(ctx),
        match out.0 {
            Ok(t) => out.1@.r == Ok::<CVal<'a>, GustError>(CVal::E(t)),
            Err(x) => out.1@.r == Err::<CVal<'a>, GustError>(x),
        },
    decreases expr, 0nat,
{
    let ghost c0 = *ctx;
    match expr {
        Expr::TupleAccess { object, index, .. } => {
            let (ra, Ghost(da)) = build_expr(object, None, ctx);
            let to = match ra {
                Ok(t) => t,
                Err(x) => {
                    return (Err(x), Ghost(Cv { s0: c0, r: da.r, s1: da.s1, kids: seq![da] }));
                },
            };
            let ty = match &to.ty {
                Type::Tuple(el) => {
                    proof { crate::types::lemma_types_model(el@); }
                    if *index < el.len() {
                        clone_type(&el[*index])
                    } else {
                        let mut m = String::new();
                        push_str(&mut m, "tuple index ");
                        push_decimal(&mut m, *index as u64);
                        push_str(&mut m, " out of bounds");
                        let x = GustError::internal(m);
                        return (Err(x), Ghost(Cv { s0: c0, r: Err(x), s1: *ctx, kids: seq![da] }));
                    }
                },
                _ => {
                    let x = GustError::internal(String::from_str("tuple access on non-tuple"));
                    return (Err(x), Ghost(Cv { s0: c0, r: Err(x), s1: *ctx, kids: seq![da] }));
                },
            };
            let mut parts: Vec<TypedExpr<'a>> = Vec::new();
            parts.push(to);
            let t = TypedExpr { src: expr, ty, parts, blocks: Vec::new() };
            assert(t.parts@ =~= seq![ex_of(da.r)]);
            assert(t.blocks@ =~= Seq::<TypedBlock<'a>>::empty());
            let ghost d = Cv { s0: c0, r: Ok(CVal::E(t)), s1: *ctx, kids: seq![da] };
            (Ok(t), Ghost(d))
        },
        Expr::PropagateError { expr: inner, .. } => {
            let (ra, Ghost(da)) = build_expr(inner, None, ctx);
            let ti = match ra {
                Ok(t) => t,
                Err(x) => {
                    return (Err(x), Ghost(Cv { s0: c0, r: da.r, s1: da.s1, kids: seq![da] }));
                },
            };
            let ty = match propagate_type(&ti.ty) {
                Some(t) => t,
                None => {
                    let x = GustError::internal(String::from_str("? on non-Result value"));
                    return (Err(x), Ghost(Cv { s0: c0, r: Err(x), s1: *ctx, kids: seq![da] }));
                },
            };
            let mut parts: Vec<TypedExpr<'a>> = Vec::new();
            parts.push(ti);
            let t = TypedExpr { src: expr, ty, parts, blocks: Vec::new() };
            assert(t.parts@ =~= seq![ex_of(da.r)]);
            assert(t.blocks@ =~= Seq::<TypedBlock<'a>>::empty());
            let ghost d = Cv { s0: c0, r: Ok(CVal::E(t)), s1: *ctx, kids: seq![da] };
            (Ok(t), Ghost(d))
        },
        Expr::Cast { expr: inner, target_type, span } => {
            let (ra, Ghost(da)) = build_expr(inner, None, ctx);
            let ti = match ra {
                Ok(t) => t,
                Err(x) => {
                    return (Err(x), Ghost(Cv { s0: c0, r: da.r, s1: da.s1, kids: seq![da] }));
                },
            };
            let ty = match resolve_ann(target_type, span, ctx) {
                Ok(t) => t,
                Err(x) => {
                    return (Err(x), Ghost(Cv { s0: c0, r: Err(x), s1: *ctx, kids: seq![da] }));
                },
            };
            let mut parts: Vec<TypedExpr<'a>> = Vec::new();
            parts.push(ti);
            let t = TypedExpr { src: expr, ty, parts, blocks: Vec::new() };
            assert(t.parts@ =~= seq![ex_of(da.r)]);
            assert(t.blocks@ =~= Seq::<TypedBlock<'a>>::empty());
            let ghost d = Cv { s0: c0, r: Ok(CVal::E(t)), s1: *ctx, kids: seq![da] };
            (Ok(t), Ghost(d))
        },
        Expr::Ascribe { expr: inner, ann, span } => {
            let ty = match resolve_ann(ann, span, ctx) {
                Ok(t) => t,
                Err(x) => {
                    return (Err(x), Ghost(Cv { s0: c0, r: Err(x), s1: c0, kids: seq![] }));
                },
            };
            let (ra, Ghost(da)) = build_expr(inner, Some(&ty), ctx);
            let ghost d = Cv { s0: c0, r: da.r, s1: da.s1, kids: seq![da] };
            (ra, Ghost(d))
        },
        Expr::FieldAccess { object, field, span } => {
            let (ra, Ghost(da)) = build_expr(object, None, ctx);
            let to = match ra {
                Ok(t) => t,
                Err(x) => {
                    return (Err(x), Ghost(Cv { s0: c0, r: da.r, s1: da.s1, kids: seq![da] }));
                },
            };
            let ty = match field_type(&to.ty, field.as_str(), span, ctx) {
                Ok(t) => t,
                Err(x) => {
                    return (Err(x), Ghost(Cv { s0: c0, r: Err(x), s1: *ctx, kids: seq![da] }));
                },
            };
            let mut parts: Vec<TypedExpr<'a>> = Vec::new();
            parts.push(to);
            let t = TypedExpr { src: expr, ty, parts, blocks: Vec::new() };
            assert(t.parts@ =~= seq![ex_of(da.r)]);
            assert(t.blocks@ =~= Seq::<TypedBlock<'a>>::empty());
            let ghost d = Cv { s0: c0, r: Ok(CVal::E(t)), s1: *ctx, kids: seq![da] };
            (Ok(t), Ghost(d))
        },
        Expr::MethodCall { receiver, method, args, .. } => {
            let (ra, Ghost(da)) = build_expr(receiver, None, ctx);
            let tr = match ra {
                Ok(t) => t,
                Err(x) => {
                    return (Err(x), Ghost(Cv { s0: c0, r: da.r, s1: da.s1, kids: seq![da] }));
                },
            };
            let n = match receiver_type_name(&tr.ty) {
                Some(n) => n,
                None => {
                    let mut m = String::new();
                    push_str(&mut m, "method call on non-struct type ");
                    write_type(&tr.ty, &mut m);
                    let x = GustError::internal(m);
                    return (Err(x), Ghost(Cv { s0: c0, r: Err(x), s1: *ctx, kids: seq![da] }));
                },
            };
            let mty = match ctx.method_type(n.as_str(), method.as_str()) {
                Some(t) => clone_type(t),
                None => {
                    let mut m = String::new();
                    push_str(&mut m, "no method `");
                    push_str(&mut m, method.as_str());
                    push_str(&mut m, "` on `");
                    push_str(&mut m, n.as_str());
                    push_str(&mut m, "`");
                    let x = GustError::internal(m);
                    return (Err(x), Ghost(Cv { s0: c0, r: Err(x), s1: *ctx, kids: seq![da] }));
                },
            };
            let (rb, Ghost(db)) = build_exprs(args, ctx);
            let ts = match rb {
                Ok(ts) => ts,
                Err(x) => {
                    return (Err(x), Ghost(Cv { s0: c0, r: db.r, s1: db.s1, kids: seq![da, db] }));
                },
            };
            let ret = match mty {
                Type::Fun(_, ret) => *ret,
                _ => {
                    let x = GustError::internal(String::from_str("method type is not a function"));
                    return (Err(x), Ghost(Cv { s0: c0, r: Err(x), s1: *ctx, kids: seq![da, db] }));
                },
            };
            let ghost tsv = ts@;
            let mut parts: Vec<TypedExpr<'a>> = Vec::new();
            parts.push(tr);
            let mut ts = ts;
            parts.append(&mut ts);
            let t = TypedExpr { src: expr, ty: ret, parts, blocks: Vec::new() };
            assert(t.parts@ =~= seq![ex_of(da.r)] + tsv);
            assert(t.blocks@ =~= Seq::<TypedBlock<'a>>::empty());
            let ghost d = Cv { s0: c0, r: Ok(CVal::E(t)), s1: *ctx, kids: seq![da, db] };
            (Ok(t), Ghost(d))
        },
        _ => {
            assert(false);
            (Err(GustError::internal(String::from_str("unreachable"))), Ghost(arbitrary()))
        },
    }
}


fn build_ctl<'a>(expr: &'a Expr, expected: Option<&Type>, ctx: &mut ConstructCtx<'a>) -> (out: (Result<TypedExpr<'a>, GustError>, Ghost<Cv<'a>>))
    requires
        old(ctx).wf(),
        *expr is If || *expr is Loop || *expr is Closure,
    ensures
        final(ctx).wf(),
        same_consts(*old(ctx), *final(ctx)),
        cx_d(out.1@, *expr, tyv(expected)),
        out.0 is Ok ==> final(ctx).scopes().len() == old(ctx).scopes().len() && final(ctx).struct_scope_maps().len()
            == old(ctx).struct_scope_maps().len(),
        out.1@.s0 == *old(ctx),
        out.1@.s1 == *final(ctx),
        match out.0 {
            Ok(t) => out.1@.r == Ok::<CVal<'a>, GustError>(CVal::E(t)),
            Err(x) => out.1@.r == Err::<CVal<'a>, GustError>(x),
        },
    decreases expr, 0nat,
{
    let ghost c0 = *ctx;
    match expr {
        Expr::If { condition, then_branch, else_branch, .. } => {
            let (ra, Ghost(da)) = build_expr(condition, None, ctx);
            let tc = match ra {
                Ok(t) => t,
                Err(x) => {
                    return (Err(x), Ghost(Cv { s0: c0, r: da.r, s1: da.s1, kids: seq![da] }));
                },
            };
            let (rb, Ghost(db)) = build_block(then_branch, expected, ctx);
            let tt = match rb {
                Ok(t) => t,
                Err(x) => {
                    return (Err(x), Ghost(Cv { s0: c0, r: db.r, s1: db.s1, kids: seq![da, db] }));
                },
            };
            match else_branch {
                Some(eb) => {
                    let (rc, Ghost(dc)) = build_block(eb, expected, ctx);
                    let te = match rc {
                        Ok(t) => t,
                        Err(x) => {
                            return (Err(x), Ghost(Cv { s0: c0, r: dc.r, s1: dc.s1, kids: seq![da, db, dc] }));
                        },
                    };
                    let ty = match &tt.tail {
                        Some(x) => clone_type(&x.ty),
                        None => Type::Unit,
                    };
                    let mut parts: Vec<TypedExpr<'a>> = Vec::new();
                    parts.push(tc);
                    let mut blocks: Vec<TypedBlock<'a>> = Vec::new();
                    blocks.push(tt);
                    blocks.push(te);
                    let t = TypedExpr { src: expr, ty, parts, blocks };
                    assert(t.parts@ =~= seq![ex_of(da.r)]);
                    assert(t.blocks@ =~= seq![blk_of(db.r), blk_of(dc.r)]);
                    let ghost d = Cv { s0: c0, r: Ok(CVal::E(t)), s1: *ctx, kids: seq![da, db, dc] };
                    (Ok(t), Ghost(d))
                },
                None => {
                    let mut parts: Vec<TypedExpr<'a>> = Vec::new();
                    parts.push(tc);
                    let mut blocks: Vec<TypedBlock<'a>> = Vec::new();
                    blocks.push(tt);
                    let t = TypedExpr { src: expr, ty: Type::Unit, parts, blocks };
                    assert(t.parts@ =~= seq![ex_of(da.r)]);
                    assert(t.blocks@ =~= seq![blk_of(db.r)]);
                    let ghost d = Cv { s0: c0, r: Ok(CVal::E(t)), s1: *ctx, kids: seq![da, db] };
                    (Ok(t), Ghost(d))
                },
            }
        },
        Expr::Loop { body, .. } => {
            let want = match expected {
                Some(t) => Some(clone_type(t)),
                None => None,
            };
            let saved = ctx.push_break_type(want);
            let (rb, Ghost(db)) = build_block(body, None, ctx);
            let tb = match rb {
                Ok(t) => t,
                Err(x) => {
                    return (Err(x), Ghost(Cv { s0: c0, r: db.r, s1: db.s1, kids: seq![db] }));
                },
            };
            ctx.pop_break_type(saved);
            let ty = match find_loop_break_type(&tb) {
                Some(t) => t,
                None => Type::Never,
            };
            let mut blocks: Vec<TypedBlock<'a>> = Vec::new();
            blocks.push(tb);
            let t = TypedExpr { src: expr, ty, parts: Vec::new(), blocks };
            assert(t.blocks@ =~= seq![blk_of(db.r)]);
            assert(t.parts@ =~= Seq::<TypedExpr<'a>>::empty());
            let ghost d = Cv { s0: c0, r: Ok(CVal::E(t)), s1: *ctx, kids: seq![db] };
            (Ok(t), Ghost(d))
        },
        Expr::Closure { params, return_type, body, span } => {
            let ptys = match closure_param_types(params, ctx) {
                Ok(p) => p,
                Err(x) => {
                    return (Err(x), Ghost(Cv { s0: c0, r: Err(x), s1: c0, kids: seq![] }));
                },
            };
            let ret = match return_type {
                Some(a) => match resolve_ann(a, span, ctx) {
                    Ok(t) => t,
                    Err(x) => {
                        return (Err(x), Ghost(Cv { s0: c0, r: Err(x), s1: c0, kids: seq![] }));
                    },
                },
                None => Type::Unit,
            };
            bind_params(params, &ptys, ctx);
            let (rb, Ghost(db)) = build_block(body, None, ctx);
            let tb = match rb {
                Ok(t) => t,
                Err(x) => {
                    return (Err(x), Ghost(Cv { s0: c0, r: db.r, s1: db.s1, kids: seq![db] }));
                },
            };
            ctx.pop_scope();
            let mut blocks: Vec<TypedBlock<'a>> = Vec::new();
            blocks.push(tb);
            let t = TypedExpr { src: expr, ty: Type::Fun(ptys, Box::new(ret)), parts: Vec::new(), blocks };
            assert(t.blocks@ =~= seq![blk_of(db.r)]);
            assert(t.parts@ =~= Seq::<TypedExpr<'a>>::empty());
            let ghost d = Cv { s0: c0, r: Ok(CVal::E(t)), s1: *ctx, kids: seq![db] };
            (Ok(t), Ghost(d))
        },
        _ => {
            assert(false);
            (Err(GustError::internal(String::from_str("unreachable"))), Ghost(arbitrary()))
        },
    }
}

/// The types of a closure's parameters (see [`closure_params`]).
fn closure_param_types<'a>(params: &Vec<Param>, ctx: &ConstructCtx<'a>) -> (r: Result<Vec<Type>, GustError>)
    requires
        ctx.wf(),
    ensures
        match closure_params(*ctx, params@) {
            Ok(ts) => r matches Ok(v) && crate::types::types_model(v@) == ts && v.len() == params.len(),
            Err((m, sp)) => r matches Err(e) && is_type_error(e, TypeErrorCode::T0002, m, sp),
        },
{
    let mut v: Vec<Type> = Vec::new();
    let mut i: usize = 0;
    proof { crate::types::lemma_types_model(v@); }
    assert(params@.take(0) =~= Seq::<Param>::empty());
    while i < params.len()
        invariant
            i <= params.len(),
            ctx.wf(),
            closure_params(*ctx, params@.take(i as int)) == Ok::<Seq<TypeView>, (Seq<char>, Span)>(crate::types::types_model(v@)),
            v.len() == i,
        decreases params.len() - i,
    {
        assert(params@.take(i + 1).drop_last() =~= params@.take(i as int));
        assert(params@.take(i + 1).last() == params@[i as int]);
        let p = &params[i];
        let t = match &p.type_ann {
            None => {
                proof { lemma_closure_params_err(*ctx, params@, i + 1); }
                return Err(GustError::type_error(TypeErrorCode::T0002, text3("closure parameter `", p.name.as_str(), "` needs a type annotation"), &p.span));
            },
            Some(a) => match resolve_ann(a, &p.span, ctx) {
                Ok(t) => t,
                Err(x) => {
                    proof { lemma_closure_params_err(*ctx, params@, i + 1); }
                    return Err(x);
                },
            },
        };
        proof { crate::types::lemma_types_model_push(v@, t); }
        v.push(t);
        i += 1;
    }
    assert(params@.take(params.len() as int) =~= params@);
    Ok(v)
}

/// A failure on a prefix of the parameters is the failure on all of them.
proof fn lemma_closure_params_err<'a>(c: ConstructCtx<'a>, ps: Seq<Param>, k: int)
    requires
        0 <= k <= ps.len(),
        closure_params(c, ps.take(k)) is Err,
    ensures
        closure_params(c, ps) == closure_params(c, ps.take(k)),
    decreases ps.len(),
{
    if k < ps.len() {
        assert(ps.drop_last().take(k) =~= ps.take(k));
        lemma_closure_params_err(c, ps.drop_last(), k);
    } else {
        assert(ps.take(k) =~= ps);
    }
}

/// Open a value scope binding each of `params` to its type at its place in
/// `tys`, as far as both go.
fn bind_params<'a>(params: &Vec<Param>, tys: &Vec<Type>, ctx: &mut ConstructCtx<'a>)
    requires
        old(ctx).wf(),
    ensures
        moved(
            *old(ctx),
            *final(ctx),
            old(ctx).scopes().push(zip_scope(params@, crate::types::types_model(tys@))),
            old(ctx).struct_scope_maps(),
        ),
{
    let ghost tv = crate::types::types_model(tys@);
    proof { crate::types::lemma_types_model(tys@); }
    ctx.push_scope();
    let ghost s0 = ctx.scopes();
    let ghost m = zip_len(params.len() as nat, tys.len() as nat) as int;
    assert(Map::<Seq<char>, TypeView>::empty() =~= params_scope(params@.take(0), tv.take(0)));
    let mut j: usize = 0;
    while j < params.len() && j < tys.len()
        invariant
            j <= params.len(),
            j <= tys.len(),
            m == zip_len(params.len() as nat, tys.len() as nat) as int,
            tv == crate::types::types_model(tys@),
            tv.len() == tys.len(),
            forall|q: int| 0 <= q < tys.len() ==> #[trigger] tv[q] == tys@[q]@,
            ctx.wf(),
            same_consts(*old(ctx), *ctx),
            s0.len() > 0,
            s0 == old(ctx).scopes().push(Map::empty()),
            ctx.scopes() == s0.update(s0.len() - 1, params_scope(params@.take(j as int), tv.take(j as int))),
            ctx.struct_scope_maps() == old(ctx).struct_scope_maps(),
            ctx.return_ty() == old(ctx).return_ty(),
            ctx.break_ty() == old(ctx).break_ty(),
            ctx.next_id() == old(ctx).next_id(),
            same_consts(*old(ctx), *ctx),
        decreases params.len() - j,
    {
        proof {
            assert(params@.take(j + 1).drop_last() =~= params@.take(j as int));
            assert(tv.take(j + 1).take(j as int) =~= tv.take(j as int));
            assert(params@.take(j + 1).last() == params@[j as int]);
            assert(tv.take(j + 1)[j as int] == tys@[j as int]@);
        }
        let mut n = String::new();
        push_str(&mut n, params[j].name.as_str());
        ctx.bind(n, clone_type(&tys[j]));
        assert(ctx.scopes() =~= s0.update(s0.len() - 1, params_scope(params@.take(j + 1), tv.take(j + 1))));
        j += 1;
    }
    assert(j as int == m);
    assert(s0.update(s0.len() - 1, params_scope(params@.take(m), tv.take(m))) =~= old(ctx).scopes().push(zip_scope(params@, tv)));
}

/// The type of the first `break` with a value that escapes to a loop whose
/// body is `b` (see [`loop_break_b`]).
fn find_loop_break_type<'a>(b: &TypedBlock<'a>) -> (r: Option<Type>)
    ensures
        otv(r) == loop_break_b(*b),
    decreases b, 2nat,
{
    let mut i: usize = 0;
    assert(b.decls@.subrange(0, b.decls@.len() as int) =~= b.decls@);
    while i < b.decls.len()
        invariant
            i <= b.decls.len(),
            loop_break_ds(b.decls@) == loop_break_ds(b.decls@.subrange(i as int, b.decls@.len() as int)),
        decreases b.decls.len() - i,
    {
        let ghost rest = b.decls@.subrange(i as int, b.decls@.len() as int);
        assert(rest[0] == b.decls@[i as int]);
        assert(rest.drop_first() =~= b.decls@.subrange(i + 1, b.decls@.len() as int));
        match break_in_decl(&b.decls[i]) {
            Some(t) => {
                return Some(t);
            },
            None => {},
        }
        i += 1;
    }
    assert(b.decls@.subrange(i as int, b.decls@.len() as int) =~= Seq::<TypedDecl<'a>>::empty());
    None
}

fn break_in_decl<'a>(td: &TypedDecl<'a>) -> (r: Option<Type>)
    ensures
        otv(r) == loop_break_d(*td),
    decreases td, 1nat,
{
    match td.src {
        Decl::Stmt(Stmt::Break { value: Some(_), .. }) => {
            if td.parts.len() > 0 {
                Some(clone_type(&td.parts[0].ty))
            } else {
                None
            }
        },
        Decl::Stmt(Stmt::Expr(Expr::If { .. })) => {
            if td.parts.len() > 0 {
                break_in_if(&td.parts[0])
            } else {
                None
            }
        },
        _ => None,
    }
}

fn break_in_if<'a>(te: &TypedExpr<'a>) -> (r: Option<Type>)
    ensures
        otv(r) == loop_break_e(*te),
    decreases te, 1nat,
{
    match te.src {
        Expr::If { .. } => {
            let first = if te.blocks.len() > 0 {
                find_loop_break_type(&te.blocks[0])
            } else {
                None
            };
            match first {
                Some(t) => Some(t),
                None => if te.blocks.len() > 1 {
                    find_loop_break_type(&te.blocks[1])
                } else {
                    None
                },
            }
        },
        _ => None,
    }
}

/// Build the typed form of block `b` (see [`blk_c`]).
fn build_block<'a>(b: &'a Block, expected: Option<&Type>, ctx: &mut ConstructCtx<'a>) -> (out: (Result<TypedBlock<'a>, GustError>, Ghost<Cv<'a>>))
    requires
        old(ctx).wf(),
    ensures
        final(ctx).wf(),
        same_consts(*old(ctx), *final(ctx)),
        blk_c(out.1@, *b, tyv(expected)),
        out.0 is Ok ==> final(ctx).scopes().len() == old(ctx).scopes().len() && final(ctx).struct_scope_maps().len()
            == old(ctx).struct_scope_maps().len(),
        out.1@.s0 == *old(ctx),
        out.1@.s1 == *final(ctx),
        match out.0 {
            Ok(t) => out.1@.r == Ok::<CVal<'a>, GustError>(CVal::B(t)),
            Err(x) => out.1@.r == Err::<CVal<'a>, GustError>(x),
        },
    decreases b, 0nat,
{
    let ghost c0 = *ctx;
    ctx.push_scope();
    ctx.push_struct_scope();
    let (rr, Ghost(dr)) = build_regs(&b.stmts, ctx);
    if let Err(x) = rr {
        return (Err(x), Ghost(Cv { s0: c0, r: dr.r, s1: dr.s1, kids: seq![dr] }));
    }
    let (rd, Ghost(dd)) = build_decls(&b.stmts, ctx);
    let ds = match rd {
        Ok(ds) => ds,
        Err(x) => {
            return (Err(x), Ghost(Cv { s0: c0, r: dd.r, s1: dd.s1, kids: seq![dr, dd] }));
        },
    };
    match &b.tail {
        Some(t) => {
            let (rt, Ghost(dt)) = build_expr(t, expected, ctx);
            let tt = match rt {
                Ok(t) => t,
                Err(x) => {
                    return (Err(x), Ghost(Cv { s0: c0, r: dt.r, s1: dt.s1, kids: seq![dr, dd, dt] }));
                },
            };
            ctx.pop_struct_scope();
            ctx.pop_scope();
            let tb = TypedBlock { src: b, decls: ds, tail: Some(Box::new(tt)) };
            let ghost d = Cv { s0: c0, r: Ok(CVal::B(tb)), s1: *ctx, kids: seq![dr, dd, dt] };
            (Ok(tb), Ghost(d))
        },
        None => {
            ctx.pop_struct_scope();
            ctx.pop_scope();
            let tb = TypedBlock { src: b, decls: ds, tail: None };
            let ghost d = Cv { s0: c0, r: Ok(CVal::B(tb)), s1: *ctx, kids: seq![dr, dd] };
            (Ok(tb), Ghost(d))
        },
    }
}

proof fn lemma_resolve_fields_err<'a>(c: ConstructCtx<'a>, fs: Seq<FieldDef>, k: int)
    requires
        0 <= k <= fs.len(),
        resolve_fields(c, fs.take(k)) is None,
    ensures
        resolve_fields(c, fs) is None,
    decreases fs.len(),
{
    if k < fs.len() {
        assert(fs.drop_last().take(k) =~= fs.take(k));
        lemma_resolve_fields_err(c, fs.drop_last(), k);
    } else {
        assert(fs.take(k) =~= fs);
    }
}

/// The resolved types of a struct's declared fields (see
/// [`resolve_fields`]), or the `T0002` error at `span`.
fn struct_fields<'a>(fs: &Vec<FieldDef>, span: &Span, ctx: &ConstructCtx<'a>) -> (r: Result<Vec<(String, Type)>, GustError>)
    requires
        ctx.wf(),
    ensures
        match resolve_fields(*ctx, fs@) {
            Some(fv) => r matches Ok(v) && tfields(v@) == fv,
            None => r matches Err(e) && is_type_error(e, TypeErrorCode::T0002, cannot_infer_text(), *span),
        },
{
    let mut v: Vec<(String, Type)> = Vec::new();
    let mut i: usize = 0;
    assert(fs@.take(0) =~= Seq::<FieldDef>::empty());
    assert(tfields(v@) =~= Seq::<(Seq<char>, TypeView)>::empty());
    while i < fs.len()
        invariant
            i <= fs.len(),
            ctx.wf(),
            resolve_fields(*ctx, fs@.take(i as int)) == Some(tfields(v@)),
        decreases fs.len() - i,
    {
        assert(fs@.take(i + 1).drop_last() =~= fs@.take(i as int));
        assert(fs@.take(i + 1).last() == fs@[i as int]);
        let t = match resolve_ann(&fs[i].type_ann, span, ctx) {
            Ok(t) => t,
            Err(x) => {
                proof { lemma_resolve_fields_err(*ctx, fs@, i + 1); }
                return Err(x);
            },
        };
        let mut n = String::new();
        push_str(&mut n, fs[i].name.as_str());
        let ghost before = v@;
        v.push((n, t));
        assert(tfields(v@) =~= tfields(before).push((fs@[i as int].name@, t@)));
        i += 1;
    }
    assert(fs@.take(fs.len() as int) =~= fs@);
    Ok(v)
}

proof fn lemma_cregs_err<'a>(decls: Seq<Decl>, k: int, d: Cv<'a>) -> (d2: Cv<'a>)
    requires
        0 <= k <= decls.len(),
        cregs_d(d, decls.take(k)),
        d.r is Err,
    ensures
        cregs_d(d2, decls),
        d2.s0 == d.s0,
        d2.r == d.r,
        d2.s1 == d.s1,
    decreases decls.len(),
{
    if k < decls.len() {
        assert(decls.drop_last().take(k) =~= decls.take(k));
        let d1 = lemma_cregs_err(decls.drop_last(), k, d);
        Cv { s0: d.s0, r: d.r, s1: d.s1, kids: seq![d1] }
    } else {
        assert(decls.take(k) =~= decls);
        d
    }
}

/// Register the structs a block declares (see [`cregs_d`]).
fn build_regs<'a>(decls: &'a Vec<Decl>, ctx: &mut ConstructCtx<'a>) -> (out: (Result<(), GustError>, Ghost<Cv<'a>>))
    requires
        old(ctx).wf(),
        old(ctx).struct_scope_maps().len() > 0,
    ensures
        final(ctx).wf(),
        same_consts(*old(ctx), *final(ctx)),
        cregs_d(out.1@, decls@),
        out.0 is Ok ==> final(ctx).scopes().len() == old(ctx).scopes().len() && final(ctx).struct_scope_maps().len()
            == old(ctx).struct_scope_maps().len(),
        out.1@.s0 == *old(ctx),
        out.1@.s1 == *final(ctx),
        match out.0 {
            Ok(_) => out.1@.r is Ok,
            Err(x) => out.1@.r == Err::<CVal<'a>, GustError>(x),
        },
{
    let ghost c0 = *ctx;
    let mut i: usize = 0;
    let ghost mut dacc = Cv { s0: c0, r: Ok(CVal::Nil), s1: c0, kids: seq![] };
    assert(decls@.take(0) =~= Seq::<Decl>::empty());
    while i < decls.len()
        invariant
            i <= decls.len(),
            ctx.wf(),
            same_consts(*old(ctx), *ctx),
            ctx.scopes().len() == old(ctx).scopes().len(),
            ctx.struct_scope_maps().len() == old(ctx).struct_scope_maps().len(),
            old(ctx).struct_scope_maps().len() > 0,
            c0 == *old(ctx),
            cregs_d(dacc, decls@.take(i as int)),
            dacc.s0 == c0,
            dacc.r == Ok::<CVal<'a>, GustError>(CVal::Nil),
            dacc.s1 == *ctx,
        decreases decls.len() - i,
    {
        proof {
            assert(decls@.take(i + 1).drop_last() =~= decls@.take(i as int));
            assert(decls@.take(i + 1).last() == decls@[i as int]);
        }
        let ghost c = *ctx;
        match &decls[i] {
            Decl::Struct(sd) => {
                let fields = match struct_fields(&sd.fields, &sd.span, ctx) {
                    Ok(f) => f,
                    Err(x) => {
                        let ghost d = Cv { s0: c0, r: Err(x), s1: c, kids: seq![dacc] };
                        let ghost d2 = lemma_cregs_err(decls@, i + 1, d);
                        return (Err(x), Ghost(d2));
                    },
                };
                let mut n = String::new();
                push_str(&mut n, sd.name.as_str());
                ctx.register_local_struct(n, fields);
                proof {
                    let ss = c.struct_scope_maps();
                    assert(ctx.struct_scope_maps().last() == ss.last().insert(sd.name@, ctx.struct_scope_maps().last()[sd.name@]));
                }
            },
            _ => {},
        }
        proof {
            dacc = Cv { s0: c0, r: Ok(CVal::Nil), s1: *ctx, kids: seq![dacc] };
        }
        i += 1;
    }
    assert(decls@.take(decls.len() as int) =~= decls@);
    (Ok(()), Ghost(dacc))
}

proof fn lemma_cds_err<'a>(decls: Seq<Decl>, k: int, d: Cv<'a>) -> (d2: Cv<'a>)
    requires
        0 <= k <= decls.len(),
        cds_d(d, decls.take(k)),
        d.r is Err,
    ensures
        cds_d(d2, decls),
        d2.s0 == d.s0,
        d2.r == d.r,
        d2.s1 == d.s1,
    decreases decls.len(),
{
    if k < decls.len() {
        assert(decls.drop_last().take(k) =~= decls.take(k));
        let d1 = lemma_cds_err(decls.drop_last(), k, d);
        Cv { s0: d.s0, r: d.r, s1: d.s1, kids: seq![d1] }
    } else {
        assert(decls.take(k) =~= decls);
        d
    }
}

/// Build the typed forms of `decls` in order (see [`cds_d`]).
fn build_decls<'a>(decls: &'a Vec<Decl>, ctx: &mut ConstructCtx<'a>) -> (out: (Result<Vec<TypedDecl<'a>>, GustError>, Ghost<Cv<'a>>))
    requires
        old(ctx).wf(),
        old(ctx).scopes().len() > 0,
    ensures
        final(ctx).wf(),
        same_consts(*old(ctx), *final(ctx)),
        cds_d(out.1@, decls@),
        out.0 is Ok ==> final(ctx).scopes().len() == old(ctx).scopes().len() && final(ctx).struct_scope_maps().len()
            == old(ctx).struct_scope_maps().len(),
        out.1@.s0 == *old(ctx),
        out.1@.s1 == *final(ctx),
        match out.0 {
            Ok(ds) => out.1@.r == Ok::<CVal<'a>, GustError>(CVal::Ds(ds@)),
            Err(x) => out.1@.r == Err::<CVal<'a>, GustError>(x),
        },
    decreases decls, 1nat,
{
    let ghost c0 = *ctx;
    let mut ds: Vec<TypedDecl<'a>> = Vec::new();
    let mut i: usize = 0;
    let ghost mut dacc = Cv { s0: c0, r: Ok(CVal::Ds(Seq::empty())), s1: c0, kids: seq![] };
    assert(decls@.take(0) =~= Seq::<Decl>::empty());
    while i < decls.len()
        invariant
            i <= decls.len(),
            ctx.wf(),
            same_consts(*old(ctx), *ctx),
            ctx.scopes().len() == old(ctx).scopes().len(),
            ctx.struct_scope_maps().len() == old(ctx).struct_scope_maps().len(),
            ctx.scopes().len() > 0,
            c0 == *old(ctx),
            cds_d(dacc, decls@.take(i as int)),
            dacc.s0 == c0,
            dacc.r == Ok::<CVal<'a>, GustError>(CVal::Ds(ds@)),
            dacc.s1 == *ctx,
        decreases decls.len() - i,
    {
        proof {
            assert(decls@.take(i + 1).drop_last() =~= decls@.take(i as int));
            assert(decls@.take(i + 1).last() == decls@[i as int]);
        }
        let (rb, Ghost(db)) = build_decl(&decls[i], ctx);
        match rb {
            Ok(t) => {
                ds.push(t);
                proof {
                    dacc = Cv { s0: c0, r: Ok(CVal::Ds(ds@)), s1: db.s1, kids: seq![dacc, db] };
                }
            },
            Err(x) => {
                let ghost d = Cv { s0: c0, r: db.r, s1: db.s1, kids: seq![dacc, db] };
                let ghost d2 = lemma_cds_err(decls@, i + 1, d);
                return (Err(x), Ghost(d2));
            },
        }
        i += 1;
    }
    assert(decls@.take(decls.len() as int) =~= decls@);
    (Ok(ds), Ghost(dacc))
}

/// Whether `decl` is a `let` of a closure that the first pass generalized.
fn generic_let<'a>(bd: &BindDecl, ctx: &ConstructCtx<'a>) -> (r: bool)
    requires
        ctx.wf(),
    ensures
        r == (bd.value is Closure && ctx.schemes().contains_key(bd.name@) && ctx.schemes()[bd.name@].quantified_vars.len() > 0),
{
    match &bd.value {
        Expr::Closure { .. } => match ctx.scheme(bd.name.as_str()) {
            Some(sc) => sc.quantified_vars.len() > 0,
            None => false,
        },
        _ => false,
    }
}

/// Build the typed form of declaration `decl` (see [`cdecl_d`]).
fn build_decl<'a>(decl: &'a Decl, ctx: &mut ConstructCtx<'a>) -> (out: (Result<TypedDecl<'a>, GustError>, Ghost<Cv<'a>>))
    requires
        old(ctx).wf(),
        old(ctx).scopes().len() > 0,
    ensures
        final(ctx).wf(),
        same_consts(*old(ctx), *final(ctx)),
        cdecl_d(out.1@, *decl),
        out.0 is Ok ==> final(ctx).scopes().len() == old(ctx).scopes().len() && final(ctx).struct_scope_maps().len()
            == old(ctx).struct_scope_maps().len(),
        out.1@.s0 == *old(ctx),
        out.1@.s1 == *final(ctx),
        match out.0 {
            Ok(t) => out.1@.r == Ok::<CVal<'a>, GustError>(CVal::D(t)),
            Err(x) => out.1@.r == Err::<CVal<'a>, GustError>(x),
        },
    decreases decl, 0nat,
{
    let ghost c0 = *ctx;
    match decl {
        Decl::Let(bd) => {
            if generic_let(bd, ctx) {
                let t = TypedDecl { src: decl, parts: Vec::new(), blocks: Vec::new() };
                let ghost d = Cv { s0: c0, r: Ok(CVal::D(t)), s1: c0, kids: seq![] };
                return (Ok(t), Ghost(d));
            }
            build_binding(bd, decl, ctx)
        },
        Decl::Mut(bd) => build_binding(bd, decl, ctx),
        Decl::Struct(_) | Decl::Enum(_) | Decl::Aspect(_) => {
            let t = TypedDecl { src: decl, parts: Vec::new(), blocks: Vec::new() };
            let ghost d = Cv { s0: c0, r: Ok(CVal::D(t)), s1: c0, kids: seq![] };
            (Ok(t), Ghost(d))
        },
        Decl::Stmt(st) => build_stmt(st, decl, ctx),
        Decl::Fun(fd) => build_fun(fd, decl, ctx),
        Decl::Impl(ib) => build_impl(ib, decl, ctx),
        _ => {
            assert(false);
            (Err(GustError::internal(String::from_str("unreachable"))), Ghost(arbitrary()))
        },
    }
}

/// Build a binding (see [`cbinding_d`]).
fn build_binding<'a>(bd: &'a BindDecl, decl: &'a Decl, ctx: &mut ConstructCtx<'a>) -> (out: (Result<TypedDecl<'a>, GustError>, Ghost<Cv<'a>>))
    requires
        old(ctx).wf(),
        old(ctx).scopes().len() > 0,
    ensures
        final(ctx).wf(),
        same_consts(*old(ctx), *final(ctx)),
        cbinding_d(out.1@, *bd, *decl),
        out.0 is Ok ==> final(ctx).scopes().len() == old(ctx).scopes().len() && final(ctx).struct_scope_maps().len()
            == old(ctx).struct_scope_maps().len(),
        out.1@.s0 == *old(ctx),
        out.1@.s1 == *final(ctx),
        match out.0 {
            Ok(t) => out.1@.r == Ok::<CVal<'a>, GustError>(CVal::D(t)),
            Err(x) => out.1@.r == Err::<CVal<'a>, GustError>(x),
        },
    decreases bd, 1nat,
{
    let ghost c0 = *ctx;
    let ann = match &bd.type_ann {
        Some(a) => match resolve_ann(a, &bd.span, ctx) {
            Ok(t) => Some(t),
            Err(x) => {
                return (Err(x), Ghost(Cv { s0: c0, r: Err(x), s1: c0, kids: seq![] }));
            },
        },
        None => None,
    };
    let (rv, Ghost(dv)) = build_expr(&bd.value, ann.as_ref(), ctx);
    let tv = match rv {
        Ok(t) => t,
        Err(x) => {
            return (Err(x), Ghost(Cv { s0: c0, r: dv.r, s1: dv.s1, kids: seq![dv] }));
        },
    };
    let ty = match ann {
        Some(t) => t,
        None => clone_type(&tv.ty),
    };
    let mut n = String::new();
    push_str(&mut n, bd.name.as_str());
    ctx.bind(n, ty);
    let mut parts: Vec<TypedExpr<'a>> = Vec::new();
    parts.push(tv);
    let t = TypedDecl { src: decl, parts, blocks: Vec::new() };
    assert(t.parts@ =~= seq![ex_of(dv.r)]);
    assert(t.blocks@ =~= Seq::<TypedBlock<'a>>::empty());
    let ghost d = Cv { s0: c0, r: Ok(CVal::D(t)), s1: *ctx, kids: seq![dv] };
    (Ok(t), Ghost(d))
}

/// Build the typed form of statement `st`, standing as `decl` (see
/// [`cstmt_d`]).
fn build_stmt<'a>(st: &'a Stmt, decl: &'a Decl, ctx: &mut ConstructCtx<'a>) -> (out: (Result<TypedDecl<'a>, GustError>, Ghost<Cv<'a>>))
    requires
        old(ctx).wf(),
        old(ctx).scopes().len() > 0,
    ensures
        final(ctx).wf(),
        same_consts(*old(ctx), *final(ctx)),
        cstmt_d(out.1@, *st, *decl),
        out.0 is Ok ==> final(ctx).scopes().len() == old(ctx).scopes().len() && final(ctx).struct_scope_maps().len()
            == old(ctx).struct_scope_maps().len(),
        out.1@.s0 == *old(ctx),
        out.1@.s1 == *final(ctx),
        match out.0 {
            Ok(t) => out.1@.r == Ok::<CVal<'a>, GustError>(CVal::D(t)),
            Err(x) => out.1@.r == Err::<CVal<'a>, GustError>(x),
        },
    decreases st, 1nat,
{
    let ghost c0 = *ctx;
    match st {
        Stmt::Expr(e) => {
            let (ra, Ghost(da)) = build_expr(e, None, ctx);
            let t = match ra {
                Ok(t) => t,
                Err(x) => {
                    return (Err(x), Ghost(Cv { s0: c0, r: da.r, s1: da.s1, kids: seq![da] }));
                },
            };
            let mut parts: Vec<TypedExpr<'a>> = Vec::new();
            parts.push(t);
            let td = TypedDecl { src: decl, parts, blocks: Vec::new() };
            assert(td.parts@ =~= seq![ex_of(da.r)]);
            assert(td.blocks@ =~= Seq::<TypedBlock<'a>>::empty());
            let ghost d = Cv { s0: c0, r: Ok(CVal::D(td)), s1: *ctx, kids: seq![da] };
            (Ok(td), Ghost(d))
        },
        Stmt::Return { value, .. } | Stmt::Break { value, .. } => {
            let want = match st {
                Stmt::Return { .. } => ctx.return_type_now(),
                _ => ctx.break_type_now(),
            };
            match value {
                None => {
                    let td = TypedDecl { src: decl, parts: Vec::new(), blocks: Vec::new() };
                    let ghost d = Cv { s0: c0, r: Ok(CVal::D(td)), s1: c0, kids: seq![] };
                    (Ok(td), Ghost(d))
                },
                Some(e) => {
                    let (ra, Ghost(da)) = build_expr(e, want.as_ref(), ctx);
                    let t = match ra {
                        Ok(t) => t,
                        Err(x) => {
                            return (Err(x), Ghost(Cv { s0: c0, r: da.r, s1: da.s1, kids: seq![da] }));
                        },
                    };
                    let mut parts: Vec<TypedExpr<'a>> = Vec::new();
                    parts.push(t);
                    let td = TypedDecl { src: decl, parts, blocks: Vec::new() };
                    assert(td.parts@ =~= seq![ex_of(da.r)]);
                    assert(td.blocks@ =~= Seq::<TypedBlock<'a>>::empty());
                    let ghost d = Cv { s0: c0, r: Ok(CVal::D(td)), s1: *ctx, kids: seq![da] };
                    (Ok(td), Ghost(d))
                },
            }
        },
        Stmt::Continue(_) => {
            let td = TypedDecl { src: decl, parts: Vec::new(), blocks: Vec::new() };
            let ghost d = Cv { s0: c0, r: Ok(CVal::D(td)), s1: c0, kids: seq![] };
            (Ok(td), Ghost(d))
        },
        Stmt::While { .. } | Stmt::For { .. } | Stmt::ForIn { .. } => build_loop_stmt(st, decl, ctx),
    }
}

/// Build an optional expression with no expected type (see [`copt_d`]).
fn build_opt<'a>(o: &'a Option<Expr>, ctx: &mut ConstructCtx<'a>) -> (out: (Result<Vec<TypedExpr<'a>>, GustError>, Ghost<Cv<'a>>))
    requires
        old(ctx).wf(),
    ensures
        final(ctx).wf(),
        same_consts(*old(ctx), *final(ctx)),
        copt_d(out.1@, *o),
        out.0 is Ok ==> final(ctx).scopes().len() == old(ctx).scopes().len() && final(ctx).struct_scope_maps().len()
            == old(ctx).struct_scope_maps().len(),
        out.1@.s0 == *old(ctx),
        out.1@.s1 == *final(ctx),
        match out.0 {
            Ok(ts) => out.1@.r == Ok::<CVal<'a>, GustError>(CVal::Es(ts@)),
            Err(x) => out.1@.r == Err::<CVal<'a>, GustError>(x),
        },
    decreases o, 0nat,
{
    let ghost c0 = *ctx;
    match o {
        None => {
            let v: Vec<TypedExpr<'a>> = Vec::new();
            assert(v@ =~= Seq::<TypedExpr<'a>>::empty());
            (Ok(v), Ghost(Cv { s0: c0, r: Ok(CVal::Es(Seq::empty())), s1: c0, kids: seq![] }))
        },
        Some(e) => {
            let (ra, Ghost(da)) = build_expr(e, None, ctx);
            match ra {
                Ok(t) => {
                    let mut v: Vec<TypedExpr<'a>> = Vec::new();
                    v.push(t);
                    assert(v@ =~= seq![ex_of(da.r)]);
                    (Ok(v), Ghost(Cv { s0: c0, r: Ok(CVal::Es(v@)), s1: da.s1, kids: seq![da] }))
                },
                Err(x) => (Err(x), Ghost(Cv { s0: c0, r: Err(x), s1: da.s1, kids: seq![da] })),
            }
        },
    }
}

/// Build the initializer of a C-style `for` (see [`cinit_d`]).
fn build_init<'a>(init: &'a Option<ForInit>, ctx: &mut ConstructCtx<'a>) -> (out: (Result<Vec<TypedExpr<'a>>, GustError>, Ghost<Cv<'a>>))
    requires
        old(ctx).wf(),
        old(ctx).scopes().len() > 0,
    ensures
        final(ctx).wf(),
        same_consts(*old(ctx), *final(ctx)),
        cinit_d(out.1@, *init),
        out.0 is Ok ==> final(ctx).scopes().len() == old(ctx).scopes().len() && final(ctx).struct_scope_maps().len()
            == old(ctx).struct_scope_maps().len(),
        out.1@.s0 == *old(ctx),
        out.1@.s1 == *final(ctx),
        match out.0 {
            Ok(ts) => out.1@.r == Ok::<CVal<'a>, GustError>(CVal::Es(ts@)),
            Err(x) => out.1@.r == Err::<CVal<'a>, GustError>(x),
        },
    decreases init, 0nat,
{
    let ghost c0 = *ctx;
    match init {
        None => {
            let v: Vec<TypedExpr<'a>> = Vec::new();
            assert(v@ =~= Seq::<TypedExpr<'a>>::empty());
            (Ok(v), Ghost(Cv { s0: c0, r: Ok(CVal::Es(Seq::empty())), s1: c0, kids: seq![] }))
        },
        Some(ForInit::Expr(e)) => {
            let (ra, Ghost(da)) = build_expr(e, None, ctx);
            match ra {
                Ok(t) => {
                    let mut v: Vec<TypedExpr<'a>> = Vec::new();
                    v.push(t);
                    assert(v@ =~= seq![ex_of(da.r)]);
                    (Ok(v), Ghost(Cv { s0: c0, r: Ok(CVal::Es(v@)), s1: da.s1, kids: seq![da] }))
                },
                Err(x) => (Err(x), Ghost(Cv { s0: c0, r: Err(x), s1: da.s1, kids: seq![da] })),
            }
        },
        Some(ForInit::Mut(bd)) => {
            let (ra, Ghost(da)) = build_expr(&bd.value, None, ctx);
            let t = match ra {
                Ok(t) => t,
                Err(x) => {
                    return (Err(x), Ghost(Cv { s0: c0, r: da.r, s1: da.s1, kids: seq![da] }));
                },
            };
            let mut n = String::new();
            push_str(&mut n, bd.name.as_str());
            ctx.bind(n, clone_type(&t.ty));
            let mut v: Vec<TypedExpr<'a>> = Vec::new();
            v.push(t);
            assert(v@ =~= seq![ex_of(da.r)]);
            (Ok(v), Ghost(Cv { s0: c0, r: Ok(CVal::Es(v@)), s1: *ctx, kids: seq![da] }))
        },
    }
}

fn build_loop_stmt<'a>(st: &'a Stmt, decl: &'a Decl, ctx: &mut ConstructCtx<'a>) -> (out: (Result<TypedDecl<'a>, GustError>, Ghost<Cv<'a>>))
    requires
        old(ctx).wf(),
        old(ctx).scopes().len() > 0,
        *st is While || *st is For || *st is ForIn,
    ensures
        final(ctx).wf(),
        same_consts(*old(ctx), *final(ctx)),
        cstmt_d(out.1@, *st, *decl),
        out.0 is Ok ==> final(ctx).scopes().len() == old(ctx).scopes().len() && final(ctx).struct_scope_maps().len()
            == old(ctx).struct_scope_maps().len(),
        out.1@.s0 == *old(ctx),
        out.1@.s1 == *final(ctx),
        match out.0 {
            Ok(t) => out.1@.r == Ok::<CVal<'a>, GustError>(CVal::D(t)),
            Err(x) => out.1@.r == Err::<CVal<'a>, GustError>(x),
        },
    decreases st, 0nat,
{
    let ghost c0 = *ctx;
    match st {
        Stmt::While { condition, body, .. } => {
            let (ra, Ghost(da)) = build_expr(condition, None, ctx);
            let tc = match ra {
                Ok(t) => t,
                Err(x) => {
                    return (Err(x), Ghost(Cv { s0: c0, r: da.r, s1: da.s1, kids: seq![da] }));
                },
            };
            let (rb, Ghost(db)) = build_block(body, None, ctx);
            let tb = match rb {
                Ok(t) => t,
                Err(x) => {
                    return (Err(x), Ghost(Cv { s0: c0, r: db.r, s1: db.s1, kids: seq![da, db] }));
                },
            };
            let mut parts: Vec<TypedExpr<'a>> = Vec::new();
            parts.push(tc);
            let mut blocks: Vec<TypedBlock<'a>> = Vec::new();
            blocks.push(tb);
            let td = TypedDecl { src: decl, parts, blocks };
            assert(td.parts@ =~= seq![ex_of(da.r)]);
            assert(td.blocks@ =~= seq![blk_of(db.r)]);
            let ghost d = Cv { s0: c0, r: Ok(CVal::D(td)), s1: *ctx, kids: seq![da, db] };
            (Ok(td), Ghost(d))
        },
        Stmt::For { init, condition, step, body, .. } => {
            ctx.push_scope();
            let (r1, Ghost(d1)) = build_init(init, ctx);
            let mut a = match r1 {
                Ok(v) => v,
                Err(x) => {
                    return (Err(x), Ghost(Cv { s0: c0, r: d1.r, s1: d1.s1, kids: seq![d1] }));
                },
            };
            let (r2, Ghost(d2)) = build_opt(condition, ctx);
            let mut b = match r2 {
                Ok(v) => v,
                Err(x) => {
                    return (Err(x), Ghost(Cv { s0: c0, r: d2.r, s1: d2.s1, kids: seq![d1, d2] }));
                },
            };
            let (r3, Ghost(d3)) = build_opt(step, ctx);
            let mut c = match r3 {
                Ok(v) => v,
                Err(x) => {
                    return (Err(x), Ghost(Cv { s0: c0, r: d3.r, s1: d3.s1, kids: seq![d1, d2, d3] }));
                },
            };
            let (r4, Ghost(d4)) = build_block(body, None, ctx);
            let tb = match r4 {
                Ok(t) => t,
                Err(x) => {
                    return (Err(x), Ghost(Cv { s0: c0, r: d4.r, s1: d4.s1, kids: seq![d1, d2, d3, d4] }));
                },
            };
            ctx.pop_scope();
            let ghost (av, bv, cv) = (a@, b@, c@);
            a.append(&mut b);
            a.append(&mut c);
            let mut blocks: Vec<TypedBlock<'a>> = Vec::new();
            blocks.push(tb);
            let td = TypedDecl { src: decl, parts: a, blocks };
            assert(td.parts@ =~= av + bv + cv);
            assert(td.blocks@ =~= seq![blk_of(d4.r)]);
            let ghost d = Cv { s0: c0, r: Ok(CVal::D(td)), s1: *ctx, kids: seq![d1, d2, d3, d4] };
            (Ok(td), Ghost(d))
        },
        Stmt::ForIn { binding, iterable, body, .. } => {
            let (ra, Ghost(da)) = build_expr(iterable, None, ctx);
            let ti = match ra {
                Ok(t) => t,
                Err(x) => {
                    return (Err(x), Ghost(Cv { s0: c0, r: da.r, s1: da.s1, kids: seq![da] }));
                },
            };
            let elem = match &ti.ty {
                Type::Array(el) => clone_type(el),
                Type::Named(n, args) => {
                    proof { reveal_strlit("Range"); crate::types::lemma_types_model(args@); }
                    if crate::text::str_eq(n.as_str(), "Range") && args.len() == 1 {
                        Type::Int
                    } else {
                        let x = GustError::internal(String::from_str("for-in over non-iterable type"));
                        return (Err(x), Ghost(Cv { s0: c0, r: Err(x), s1: *ctx, kids: seq![da] }));
                    }
                },
                _ => {
                    let x = GustError::internal(String::from_str("for-in over non-iterable type"));
                    return (Err(x), Ghost(Cv { s0: c0, r: Err(x), s1: *ctx, kids: seq![da] }));
                },
            };
            let ghost c = *ctx;
            ctx.push_scope();
            let mut n = String::new();
            push_str(&mut n, binding.as_str());
            ctx.bind(n, elem);
            assert(ctx.scopes() =~= c.scopes().push(Map::empty().insert(binding@, elem@)));
            let (rb, Ghost(db)) = build_block(body, None, ctx);
            let tb = match rb {
                Ok(t) => t,
                Err(x) => {
                    return (Err(x), Ghost(Cv { s0: c0, r: db.r, s1: db.s1, kids: seq![da, db] }));
                },
            };
            ctx.pop_scope();
            let mut parts: Vec<TypedExpr<'a>> = Vec::new();
            parts.push(ti);
            let mut blocks: Vec<TypedBlock<'a>> = Vec::new();
            blocks.push(tb);
            let td = TypedDecl { src: decl, parts, blocks };
            assert(td.parts@ =~= seq![ex_of(da.r)]);
            assert(td.blocks@ =~= seq![blk_of(db.r)]);
            let ghost d = Cv { s0: c0, r: Ok(CVal::D(td)), s1: *ctx, kids: seq![da, db] };
            (Ok(td), Ghost(d))
        },
        _ => {
            assert(false);
            (Err(GustError::internal(String::from_str("unreachable"))), Ghost(arbitrary()))
        },
    }
}

fn build_match<'a>(expr: &'a Expr, expected: Option<&Type>, ctx: &mut ConstructCtx<'a>) -> (out: (Result<TypedExpr<'a>, GustError>, Ghost<Cv<'a>>))
    requires
        old(ctx).wf(),
        *expr is Match,
    ensures
        final(ctx).wf(),
        same_consts(*old(ctx), *final(ctx)),
        cx_d(out.1@, *expr, tyv(expected)),
        out.0 is Ok ==> final(ctx).scopes().len() == old(ctx).scopes().len() && final(ctx).struct_scope_maps().len()
            == old(ctx).struct_scope_maps().len(),
        out.1@.s0 == *old(ctx),
        out.1@.s1 == *final(ctx),
        match out.0 {
            Ok(t) => out.1@.r == Ok::<CVal<'a>, GustError>(CVal::E(t)),
            Err(x) => out.1@.r == Err::<CVal<'a>, GustError>(x),
        },
    decreases expr, 0nat,
{
    let ghost c0 = *ctx;
    match expr {
        Expr::Match { scrutinee, arms, span } => {
            let (ra, Ghost(da)) = build_expr(scrutinee, None, ctx);
            let ts = match ra {
                Ok(t) => t,
                Err(x) => {
                    return (Err(x), Ghost(Cv { s0: c0, r: da.r, s1: da.s1, kids: seq![da] }));
                },
            };
            let (rb, Ghost(db)) = build_arms(arms, &ts.ty, expected, ctx);
            let (gs, bs) = match rb {
                Ok(p) => p,
                Err(x) => {
                    return (Err(x), Ghost(Cv { s0: c0, r: Err(x), s1: db.s1, kids: seq![da, db] }));
                },
            };
            if !arms_exhaustive(arms, &ts.ty, ctx) {
                let mut m = String::new();
                push_str(&mut m, "non-exhaustive match: not all cases are covered");
                let x = GustError::type_error(TypeErrorCode::T0008, m, span);
                return (Err(x), Ghost(Cv { s0: c0, r: Err(x), s1: *ctx, kids: seq![da, db] }));
            }
            let ty = if bs.len() > 0 {
                match &bs[0].tail {
                    Some(x) => clone_type(&x.ty),
                    None => Type::Unit,
                }
            } else {
                Type::Unit
            };
            let ghost (gv, bv) = (gs@, bs@);
            let mut parts: Vec<TypedExpr<'a>> = Vec::new();
            parts.push(ts);
            let mut gs = gs;
            parts.append(&mut gs);
            let t = TypedExpr { src: expr, ty, parts, blocks: bs };
            assert(t.parts@ =~= seq![ex_of(da.r)] + gv);
            let ghost d = Cv { s0: c0, r: Ok(CVal::E(t)), s1: *ctx, kids: seq![da, db] };
            (Ok(t), Ghost(d))
        },
        _ => {
            assert(false);
            (Err(GustError::internal(String::from_str("unreachable"))), Ghost(arbitrary()))
        },
    }
}

/// Whether the arms of a `match` cover every value of type `ty` (see
/// [`exhaustive`]).
fn arms_exhaustive<'a>(arms: &Vec<MatchArm>, ty: &Type, ctx: &ConstructCtx<'a>) -> (r: bool)
    requires
        ctx.wf(),
    ensures
        r == exhaustive(arm_patterns(arms@), ty@, ctx.enums()),
{
    let ghost ap = arm_patterns(arms@);
    if match_arms_catch_all(arms) {
        return true;
    }
    match ty {
        Type::Bool => match_arms_bool(arms, true) && match_arms_bool(arms, false),
        Type::Perhaps(_) => match_arms_cover(arms, "Perhaps", "Some") && match_arms_cover(arms, "Perhaps", "Nope"),
        Type::Result(_, _) => match_arms_cover(arms, "Result", "Ok") && match_arms_cover(arms, "Result", "Err"),
        Type::Named(name, _) => match ctx.enum_info(name.as_str()) {
            Some(info) => {
                let mut all = true;
                let mut j: usize = 0;
                while j < info.variants.len() && all
                    invariant
                        j <= info.variants.len(),
                        ap == arm_patterns(arms@),
                        all ==> forall|k: int| 0 <= k < j ==> #[trigger] some_covers(ap, name@, info.variants@[k].name@),
                        !all ==> j >= 1 && !some_covers(ap, name@, info.variants@[j - 1].name@),
                    decreases info.variants.len() - j,
                {
                    if !match_arms_cover(arms, name.as_str(), info.variants[j].name.as_str()) {
                        all = false;
                    }
                    j += 1;
                }
                all
            },
            None => false,
        },
        Type::Never => true,
        _ => false,
    }
}

fn match_arms_catch_all(arms: &Vec<MatchArm>) -> (r: bool)
    ensures
        r == some_catch_all(arm_patterns(arms@)),
{
    let ghost ap = arm_patterns(arms@);
    let mut i: usize = 0;
    while i < arms.len()
        invariant
            i <= arms.len(),
            ap == arm_patterns(arms@),
            forall|j: int| 0 <= j < i ==> !(!ap[j].guarded && #[trigger] catch_all(ap[j].pattern)),
        decreases arms.len() - i,
    {
        if arms[i].guard.is_none() && is_catch_all_pattern(&arms[i].pattern) {
            assert(!ap[i as int].guarded && catch_all(ap[i as int].pattern));
            return true;
        }
        i += 1;
    }
    false
}

fn match_arms_bool(arms: &Vec<MatchArm>, b: bool) -> (r: bool)
    ensures
        r == some_bool(arm_patterns(arms@), b),
{
    let ghost ap = arm_patterns(arms@);
    let mut i: usize = 0;
    while i < arms.len()
        invariant
            i <= arms.len(),
            ap == arm_patterns(arms@),
            forall|j: int| 0 <= j < i ==> !(!ap[j].guarded && #[trigger] bool_literal(ap[j].pattern, b)),
        decreases arms.len() - i,
    {
        if arms[i].guard.is_none() && is_bool_literal_pattern(&arms[i].pattern, b) {
            assert(!ap[i as int].guarded && bool_literal(ap[i as int].pattern, b));
            return true;
        }
        i += 1;
    }
    false
}

fn match_arms_cover(arms: &Vec<MatchArm>, enum_name: &str, variant_name: &str) -> (r: bool)
    ensures
        r == some_covers(arm_patterns(arms@), enum_name@, variant_name@),
{
    let ghost ap = arm_patterns(arms@);
    let mut i: usize = 0;
    while i < arms.len()
        invariant
            i <= arms.len(),
            ap == arm_patterns(arms@),
            forall|j: int| 0 <= j < i ==> !(!ap[j].guarded && #[trigger] covers_variant(ap[j].pattern, enum_name@, variant_name@)),
        decreases arms.len() - i,
    {
        if arms[i].guard.is_none() && pattern_covers_variant(&arms[i].pattern, enum_name, variant_name) {
            assert(!ap[i as int].guarded && covers_variant(ap[i as int].pattern, enum_name@, variant_name@));
            return true;
        }
        i += 1;
    }
    false
}

proof fn lemma_carms_err<'a>(arms: Seq<MatchArm>, scrut: TypeView, exp: Option<TypeView>, k: int, d: Cv<'a>) -> (d2: Cv<'a>)
    requires
        0 <= k <= arms.len(),
        carms_d(d, arms.take(k), scrut, exp),
        d.r is Err,
    ensures
        carms_d(d2, arms, scrut, exp),
        d2.s0 == d.s0,
        d2.r == d.r,
        d2.s1 == d.s1,
    decreases arms.len(),
{
    if k < arms.len() {
        assert(arms.drop_last().take(k) =~= arms.take(k));
        let d1 = lemma_carms_err(arms.drop_last(), scrut, exp, k, d);
        Cv { s0: d.s0, r: d.r, s1: d.s1, kids: seq![d1] }
    } else {
        assert(arms.take(k) =~= arms);
        d
    }
}

/// Build the arms of a `match` in order (see [`carms_d`]).
fn build_arms<'a>(arms: &'a Vec<MatchArm>, scrut: &Type, expected: Option<&Type>, ctx: &mut ConstructCtx<'a>) -> (out: (Result<(Vec<TypedExpr<'a>>, Vec<TypedBlock<'a>>), GustError>, Ghost<Cv<'a>>))
    requires
        old(ctx).wf(),
    ensures
        final(ctx).wf(),
        same_consts(*old(ctx), *final(ctx)),
        carms_d(out.1@, arms@, scrut@, tyv(expected)),
        out.0 is Ok ==> final(ctx).scopes().len() == old(ctx).scopes().len() && final(ctx).struct_scope_maps().len()
            == old(ctx).struct_scope_maps().len(),
        out.1@.s0 == *old(ctx),
        out.1@.s1 == *final(ctx),
        match out.0 {
            Ok(p) => out.1@.r == Ok::<CVal<'a>, GustError>(CVal::Arms(p.0@, p.1@)),
            Err(x) => out.1@.r == Err::<CVal<'a>, GustError>(x),
        },
    decreases arms, 1nat,
{
    let ghost c0 = *ctx;
    let mut gs: Vec<TypedExpr<'a>> = Vec::new();
    let mut bs: Vec<TypedBlock<'a>> = Vec::new();
    let mut i: usize = 0;
    let ghost mut dacc = Cv { s0: c0, r: Ok(CVal::Arms(Seq::empty(), Seq::empty())), s1: c0, kids: seq![] };
    assert(arms@.take(0) =~= Seq::<MatchArm>::empty());
    while i < arms.len()
        invariant
            i <= arms.len(),
            ctx.wf(),
            same_consts(*old(ctx), *ctx),
            ctx.scopes().len() == old(ctx).scopes().len(),
            ctx.struct_scope_maps().len() == old(ctx).struct_scope_maps().len(),
            c0 == *old(ctx),
            carms_d(dacc, arms@.take(i as int), scrut@, tyv(expected)),
            dacc.s0 == c0,
            dacc.r == Ok::<CVal<'a>, GustError>(CVal::Arms(gs@, bs@)),
            dacc.s1 == *ctx,
        decreases arms.len() - i,
    {
        proof {
            assert(arms@.take(i + 1).drop_last() =~= arms@.take(i as int));
            assert(arms@.take(i + 1).last() == arms@[i as int]);
        }
        let (rb, Ghost(db)) = build_arm(&arms[i], scrut, expected, ctx);
        match rb {
            Ok((g, b)) => {
                let ghost (g0, b0) = (gs@, bs@);
                let mut g = g;
                let ghost gv = g@;
                gs.append(&mut g);
                bs.push(b);
                assert(gs@ =~= g0 + gv);
                assert(bs@ =~= b0 + seq![b]);
                proof {
                    dacc = Cv { s0: c0, r: Ok(CVal::Arms(gs@, bs@)), s1: db.s1, kids: seq![dacc, db] };
                }
            },
            Err(x) => {
                let ghost d = Cv { s0: c0, r: db.r, s1: db.s1, kids: seq![dacc, db] };
                let ghost d2 = lemma_carms_err(arms@, scrut@, tyv(expected), i + 1, d);
                return (Err(x), Ghost(d2));
            },
        }
        i += 1;
    }
    assert(arms@.take(arms.len() as int) =~= arms@);
    (Ok((gs, bs)), Ghost(dacc))
}

/// Build one arm of a `match` (see [`carm_d`]).
fn build_arm<'a>(arm: &'a MatchArm, scrut: &Type, expected: Option<&Type>, ctx: &mut ConstructCtx<'a>) -> (out: (Result<(Vec<TypedExpr<'a>>, TypedBlock<'a>), GustError>, Ghost<Cv<'a>>))
    requires
        old(ctx).wf(),
    ensures
        final(ctx).wf(),
        same_consts(*old(ctx), *final(ctx)),
        carm_d(out.1@, *arm, scrut@, tyv(expected)),
        out.0 is Ok ==> final(ctx).scopes().len() == old(ctx).scopes().len() && final(ctx).struct_scope_maps().len()
            == old(ctx).struct_scope_maps().len(),
        out.1@.s0 == *old(ctx),
        out.1@.s1 == *final(ctx),
        match out.0 {
            Ok(p) => out.1@.r == Ok::<CVal<'a>, GustError>(CVal::Arms(p.0@, seq![p.1])),
            Err(x) => out.1@.r == Err::<CVal<'a>, GustError>(x),
        },
    decreases arm, 0nat,
{
    let ghost c0 = *ctx;
    ctx.push_scope();
    let ghost c = *ctx;
    let rp = construct_pattern_bindings(&arm.pattern, scrut, ctx);
    proof {
        assert(c.scopes().last() == Map::<Seq<char>, TypeView>::empty());
        assert(ctx.scopes() =~= c.scopes().drop_last().push(ctx.scopes().last()));
    }
    let ghost k0 = Cv { s0: c, r: Ok(CVal::Nil), s1: *ctx, kids: seq![] };
    if let Err(x) = rp {
        return (Err(x), Ghost(Cv { s0: c0, r: Err(x), s1: *ctx, kids: seq![k0] }));
    }
    let (rg, Ghost(dg)) = build_opt(&arm.guard, ctx);
    let g = match rg {
        Ok(g) => g,
        Err(x) => {
            return (Err(x), Ghost(Cv { s0: c0, r: dg.r, s1: dg.s1, kids: seq![k0, dg] }));
        },
    };
    let (rb, Ghost(db)) = build_block(&arm.body, expected, ctx);
    let tb = match rb {
        Ok(t) => t,
        Err(x) => {
            return (Err(x), Ghost(Cv { s0: c0, r: db.r, s1: db.s1, kids: seq![k0, dg, db] }));
        },
    };
    ctx.pop_scope();
    let ghost d = Cv { s0: c0, r: Ok(CVal::Arms(g@, seq![tb])), s1: *ctx, kids: seq![k0, dg, db] };
    (Ok((g, tb)), Ghost(d))
}

/// The views of optional types.
pub open spec fn otvs(s: Seq<Option<Type>>) -> Seq<Option<TypeView>> {
    s.map_values(|o: Option<Type>| otv(o))
}

fn none_hints(n: usize) -> (r: Vec<Option<Type>>)
    ensures
        r.len() == n,
        otvs(r@) == Seq::new(n as nat, |i: int| None::<TypeView>),
{
    let mut r: Vec<Option<Type>> = Vec::new();
    let mut i: usize = 0;
    while i < n
        invariant
            i <= n,
            r.len() == i,
            otvs(r@) == Seq::new(i as nat, |j: int| None::<TypeView>),
        decreases n - i,
    {
        let ghost before = r@;
        r.push(None);
        assert(otvs(r@) =~= otvs(before).push(None));
        assert(otvs(r@) =~= Seq::new((i + 1) as nat, |j: int| None::<TypeView>));
        i += 1;
    }
    r
}

/// The expected types of a call's arguments (see [`call_hints`]).
fn hints_for<'a>(callee: &Expr, n: usize, ctx: &ConstructCtx<'a>) -> (r: Vec<Option<Type>>)
    requires
        ctx.wf(),
    ensures
        r.len() == n,
        otvs(r@) == call_hints(*ctx, *callee, n as nat),
{
    match callee {
        Expr::Ident(name, _) => match ctx.lookup(name.as_str()) {
            Some(Type::Fun(ps, _)) => {
                proof { crate::types::lemma_types_model(ps@); }
                if ps.len() == n {
                    let mut r: Vec<Option<Type>> = Vec::new();
                    let mut i: usize = 0;
                    let ghost pv = crate::types::types_model(ps@);
                    while i < ps.len()
                        invariant
                            i <= ps.len(),
                            pv == crate::types::types_model(ps@),
                            pv.len() == ps.len(),
                            forall|q: int| 0 <= q < ps.len() ==> #[trigger] pv[q] == ps@[q]@,
                            otvs(r@) == pv.take(i as int).map_values(|p: TypeView| Some(p)),
                            r.len() == i,
                        decreases ps.len() - i,
                    {
                        let ghost before = r@;
                        let x = clone_type(&ps[i]);
                        r.push(Some(x));
                        assert(otvs(r@) =~= otvs(before).push(Some(x@)));
                        assert(pv.take(i + 1) =~= pv.take(i as int).push(pv[i as int]));
                        assert(otvs(r@) =~= pv.take(i + 1).map_values(|p: TypeView| Some(p)));
                        i += 1;
                    }
                    assert(pv.take(ps.len() as int) =~= pv);
                    r
                } else {
                    none_hints(n)
                }
            },
            _ => none_hints(n),
        },
        _ => none_hints(n),
    }
}

proof fn lemma_cxh_err<'a>(es: Seq<Expr>, hints: Seq<Option<TypeView>>, k: int, d: Cv<'a>) -> (d2: Cv<'a>)
    requires
        0 <= k <= es.len(),
        cxh_d(d, es.take(k), hints),
        d.r is Err,
    ensures
        cxh_d(d2, es, hints),
        d2.s0 == d.s0,
        d2.r == d.r,
        d2.s1 == d.s1,
    decreases es.len(),
{
    if k < es.len() {
        assert(es.drop_last().take(k) =~= es.take(k));
        let d1 = lemma_cxh_err(es.drop_last(), hints, k, d);
        Cv { s0: d.s0, r: d.r, s1: d.s1, kids: seq![d1] }
    } else {
        assert(es.take(k) =~= es);
        d
    }
}

/// Build the typed forms of `es` in order, each with the expected type at
/// its place in `hints` (see [`cxh_d`]).
fn build_hinted<'a>(es: &'a Vec<Expr>, hints: &Vec<Option<Type>>, ctx: &mut ConstructCtx<'a>) -> (out: (Result<Vec<TypedExpr<'a>>, GustError>, Ghost<Cv<'a>>))
    requires
        old(ctx).wf(),
        hints.len() == es.len(),
    ensures
        final(ctx).wf(),
        same_consts(*old(ctx), *final(ctx)),
        cxh_d(out.1@, es@, otvs(hints@)),
        out.0 is Ok ==> final(ctx).scopes().len() == old(ctx).scopes().len() && final(ctx).struct_scope_maps().len()
            == old(ctx).struct_scope_maps().len(),
        out.1@.s0 == *old(ctx),
        out.1@.s1 == *final(ctx),
        match out.0 {
            Ok(ts) => out.1@.r == Ok::<CVal<'a>, GustError>(CVal::Es(ts@)),
            Err(x) => out.1@.r == Err::<CVal<'a>, GustError>(x),
        },
    decreases es, 1nat,
{
    let ghost c0 = *ctx;
    let ghost hv = otvs(hints@);
    let mut ts: Vec<TypedExpr<'a>> = Vec::new();
    let mut i: usize = 0;
    let ghost mut dacc = Cv { s0: c0, r: Ok(CVal::Es(Seq::empty())), s1: c0, kids: seq![] };
    assert(es@.take(0) =~= Seq::<Expr>::empty());
    while i < es.len()
        invariant
            i <= es.len(),
            hints.len() == es.len(),
            hv == otvs(hints@),
            ctx.wf(),
            same_consts(*old(ctx), *ctx),
            ctx.scopes().len() == old(ctx).scopes().len(),
            ctx.struct_scope_maps().len() == old(ctx).struct_scope_maps().len(),
            c0 == *old(ctx),
            cxh_d(dacc, es@.take(i as int), hv),
            dacc.s0 == c0,
            dacc.r == Ok::<CVal<'a>, GustError>(CVal::Es(ts@)),
            dacc.s1 == *ctx,
        decreases es.len() - i,
    {
        proof {
            assert(es@.take(i + 1).drop_last() =~= es@.take(i as int));
            assert(es@.take(i + 1).last() == es@[i as int]);
            assert(hv[i as int] == otv(hints@[i as int]));
        }
        let (rb, Ghost(db)) = build_expr(&es[i], hints[i].as_ref(), ctx);
        match rb {
            Ok(t) => {
                ts.push(t);
                proof {
                    dacc = Cv { s0: c0, r: Ok(CVal::Es(ts@)), s1: db.s1, kids: seq![dacc, db] };
                }
            },
            Err(x) => {
                let ghost d = Cv { s0: c0, r: db.r, s1: db.s1, kids: seq![dacc, db] };
                let ghost d2 = lemma_cxh_err(es@, hv, i + 1, d);
                return (Err(x), Ghost(d2));
            },
        }
        i += 1;
    }
    assert(es@.take(es.len() as int) =~= es@);
    (Ok(ts), Ghost(dacc))
}

proof fn lemma_inst_room(qs: Seq<TypeVar>, n: nat)
    requires
        n + qs.len() <= u32::MAX,
        forall|i: int| 0 <= i < qs.len() ==> #[trigger] qs[i].0 < n,
    ensures
        idempotent(inst_map(qs, n)),
        forall|v: u32| #[trigger] inst_map(qs, n).contains_key(v) ==> v < n,
    decreases qs.len(),
{
    if qs.len() > 0 {
        assert forall|i: int| 0 <= i < qs.drop_last().len() implies #[trigger] qs.drop_last()[i].0 < n by {
            assert(qs.drop_last()[i] == qs[i]);
        }
        lemma_inst_room(qs.drop_last(), n);
        let m = inst_map(qs, n);
        assert(qs.last().0 < n) by { assert(qs[qs.len() - 1].0 < n); }
        assert forall|v: u32, w: u32| #[trigger] m.contains_key(v) && #[trigger] occurs(w, m[v]) implies !m.contains_key(w) by {
            lemma_inst_values(qs, n, v);
        }
    }
}

proof fn lemma_inst_values(qs: Seq<TypeVar>, n: nat, v: u32)
    requires
        n + qs.len() <= u32::MAX,
        inst_map(qs, n).contains_key(v),
    ensures
        inst_map(qs, n)[v] matches InferTypeView::Var(j) && j as nat >= n,
    decreases qs.len(),
{
    if qs.len() > 0 && v != qs.last().0 {
        lemma_inst_values(qs.drop_last(), n, v);
    }
}

fn build_call<'a>(expr: &'a Expr, expected: Option<&Type>, ctx: &mut ConstructCtx<'a>) -> (out: (Result<TypedExpr<'a>, GustError>, Ghost<Cv<'a>>))
    requires
        old(ctx).wf(),
        *expr is Call,
    ensures
        final(ctx).wf(),
        same_consts(*old(ctx), *final(ctx)),
        cx_d(out.1@, *expr, tyv(expected)),
        out.0 is Ok ==> final(ctx).scopes().len() == old(ctx).scopes().len() && final(ctx).struct_scope_maps().len()
            == old(ctx).struct_scope_maps().len(),
        out.1@.s0 == *old(ctx),
        out.1@.s1 == *final(ctx),
        match out.0 {
            Ok(t) => out.1@.r == Ok::<CVal<'a>, GustError>(CVal::E(t)),
            Err(x) => out.1@.r == Err::<CVal<'a>, GustError>(x),
        },
    decreases expr, 0nat,
{
    let ghost c0 = *ctx;
    match expr {
        Expr::Call { callee, args, span } => {
            let hints = hints_for(callee, args.len(), ctx);
            let (ra, Ghost(da)) = build_hinted(args, &hints, ctx);
            let tas = match ra {
                Ok(ts) => ts,
                Err(x) => {
                    return (Err(x), Ghost(Cv { s0: c0, r: da.r, s1: da.s1, kids: seq![da] }));
                },
            };
            let ghost c = *ctx;
            let (rc, Ghost(dc)) = build_callee(callee, &tas, span, ctx);
            let tc = match rc {
                Ok(t) => t,
                Err(x) => {
                    return (Err(x), Ghost(Cv { s0: c0, r: dc.r, s1: dc.s1, kids: seq![da, dc] }));
                },
            };
            let ret = match &tc.ty {
                Type::Fun(ps, ret) => {
                    proof { crate::types::lemma_types_model(ps@); }
                    if ps.len() != tas.len() {
                        let mut m = String::new();
                        push_str(&mut m, "expected ");
                        push_decimal(&mut m, ps.len() as u64);
                        push_str(&mut m, " argument(s), got ");
                        push_decimal(&mut m, tas.len() as u64);
                        let x = GustError::type_error(TypeErrorCode::T0004, m, span);
                        return (Err(x), Ghost(Cv { s0: c0, r: Err(x), s1: *ctx, kids: seq![da, dc] }));
                    }
                    clone_type(ret)
                },
                _ => {
                    let mut m = String::new();
                    push_str(&mut m, "called a non-function value");
                    let x = GustError::type_error(TypeErrorCode::T0001, m, span);
                    return (Err(x), Ghost(Cv { s0: c0, r: Err(x), s1: *ctx, kids: seq![da, dc] }));
                },
            };
            let ghost tv = tas@;
            let mut parts: Vec<TypedExpr<'a>> = Vec::new();
            parts.push(tc);
            let mut tas = tas;
            parts.append(&mut tas);
            let t = TypedExpr { src: expr, ty: ret, parts, blocks: Vec::new() };
            assert(t.parts@ =~= seq![ex_of(dc.r)] + tv);
            assert(t.blocks@ =~= Seq::<TypedBlock<'a>>::empty());
            let ghost d = Cv { s0: c0, r: Ok(CVal::E(t)), s1: *ctx, kids: seq![da, dc] };
            (Ok(t), Ghost(d))
        },
        _ => {
            assert(false);
            (Err(GustError::internal(String::from_str("unreachable"))), Ghost(arbitrary()))
        },
    }
}

/// Whether the generator can instantiate scheme `sc` (see [`call_room`]).
fn has_room<'a>(sc: &TypeScheme, ctx: &ConstructCtx<'a>) -> (r: bool)
    ensures
        r == call_room(*sc, ctx.next_id()),
{
    let n = ctx.next_id_now();
    if sc.quantified_vars.len() as u64 > (u32::MAX - n) as u64 {
        return false;
    }
    let mut i: usize = 0;
    while i < sc.quantified_vars.len()
        invariant
            i <= sc.quantified_vars.len(),
            n == ctx.next_id(),
            forall|j: int| 0 <= j < i ==> #[trigger] sc.quantified_vars@[j].0 < n,
        decreases sc.quantified_vars.len() - i,
    {
        if sc.quantified_vars[i].0 >= n {
            return false;
        }
        i += 1;
    }
    true
}

/// Build the callee of a call whose arguments are `tas`: a name out of scope
/// is instantiated from its scheme for the arguments' types.
fn build_callee<'a>(callee: &'a Expr, tas: &Vec<TypedExpr<'a>>, span: &Span, ctx: &mut ConstructCtx<'a>) -> (out: (Result<TypedExpr<'a>, GustError>, Ghost<Cv<'a>>))
    requires
        old(ctx).wf(),
    ensures
        final(ctx).wf(),
        same_consts(*old(ctx), *final(ctx)),
        out.0 is Ok ==> final(ctx).scopes().len() == old(ctx).scopes().len() && final(ctx).struct_scope_maps().len()
            == old(ctx).struct_scope_maps().len(),
        out.1@.s0 == *old(ctx),
        out.1@.s1 == *final(ctx),
        match out.0 {
            Ok(t) => out.1@.r == Ok::<CVal<'a>, GustError>(CVal::E(t)),
            Err(x) => out.1@.r == Err::<CVal<'a>, GustError>(x),
        },
        ({
            let c = *old(ctx);
            let k1 = out.1@;
            match *callee {
                Expr::Ident(name, isp) => if find_scoped(c.scopes(), name@) is Some {
                    cx_d(k1, *callee, None)
                } else if !c.schemes().contains_key(name@) {
                    k1.s1 == c && (k1.r matches Err(x) && is_type_error(x, TypeErrorCode::T0003, "undefined name `"@ + name@ + "`"@, isp))
                } else {
                    let sc = c.schemes()[name@];
                    if call_room(sc, c.next_id()) {
                        &&& !(k1.r matches Ok(CVal::E(_))) ==> k1.r is Err
                        &&& call_ok(sc, c.next_id(), tys(tas@), *span, ty_res(k1.r))
                        &&& (k1.r matches Ok(CVal::E(t)) ==> *t.src == *callee && t.parts@.len() == 0 && t.blocks@.len() == 0)
                        &&& renumbered(c, k1.s1, c.next_id() + sc.quantified_vars.len())
                    } else {
                        k1.s1 == c && (k1.r matches Err(x) && is_internal(x, "type variables exhausted"@))
                    }
                },
                _ => cx_d(k1, *callee, None),
            }
        }),
    decreases callee, 2nat,
{
    let ghost c = *ctx;
    match callee {
        Expr::Ident(name, isp) => {
            if ctx.lookup(name.as_str()).is_some() {
                return build_expr(callee, None, ctx);
            }
            let sc = match ctx.scheme(name.as_str()) {
                Some(sc) => sc,
                None => {
                    let x = GustError::type_error(TypeErrorCode::T0003, text3("undefined name `", name.as_str(), "`"), isp);
                    return (Err(x), Ghost(Cv { s0: c, r: Err(x), s1: c, kids: seq![] }));
                },
            };
            if !has_room(sc, ctx) {
                let x = GustError::internal(String::from_str("type variables exhausted"));
                return (Err(x), Ghost(Cv { s0: c, r: Err(x), s1: c, kids: seq![] }));
            }
            proof {
                lemma_inst_room(sc.quantified_vars@, ctx.next_id() as nat);
                lemma_apply_idempotent(inst_map(sc.quantified_vars@, ctx.next_id() as nat), sc.ty@);
            }
            let ats = types_of(tas);
            let r = ctx.instantiate_call(sc, &ats, span);
            match r {
                Ok(t) => {
                    let te = TypedExpr { src: callee, ty: t, parts: Vec::new(), blocks: Vec::new() };
                    let ghost d = Cv { s0: c, r: Ok(CVal::E(te)), s1: *ctx, kids: seq![] };
                    (Ok(te), Ghost(d))
                },
                Err(x) => {
                    let ghost d = Cv { s0: c, r: Err(x), s1: *ctx, kids: seq![] };
                    (Err(x), Ghost(d))
                },
            }
        },
        _ => build_expr(callee, None, ctx),
    }
}

proof fn lemma_resolve_all_err(ps: Seq<InferTypeView>, k: int)
    requires
        0 <= k <= ps.len(),
        resolve_all(ps.take(k)) is None,
    ensures
        resolve_all(ps) is None,
    decreases ps.len(),
{
    if k < ps.len() {
        assert(ps.drop_last().take(k) =~= ps.take(k));
        lemma_resolve_all_err(ps.drop_last(), k);
    } else {
        assert(ps.take(k) =~= ps);
    }
}

/// The resolved types of `ps` (see [`resolve_all`]), or `T0002` at `span`.
fn resolve_types(ps: &Vec<InferType>, span: &Span) -> (r: Result<Vec<Type>, GustError>)
    ensures
        match resolve_all(crate::typeinference::infers_model(ps@)) {
            Some(ts) => r matches Ok(v) && crate::types::types_model(v@) == ts,
            None => r matches Err(e) && is_type_error(e, TypeErrorCode::T0002, cannot_infer_text(), *span),
        },
{
    let ghost pv = crate::typeinference::infers_model(ps@);
    proof { crate::typeinference::lemma_infers_model(ps@); }
    let mut v: Vec<Type> = Vec::new();
    let mut i: usize = 0;
    proof { crate::types::lemma_types_model(v@); }
    assert(pv.take(0) =~= Seq::<InferTypeView>::empty());
    while i < ps.len()
        invariant
            i <= ps.len(),
            pv == crate::typeinference::infers_model(ps@),
            pv.len() == ps.len(),
            forall|q: int| 0 <= q < ps.len() ==> #[trigger] pv[q] == ps@[q]@,
            resolve_all(pv.take(i as int)) == Some(crate::types::types_model(v@)),
        decreases ps.len() - i,
    {
        assert(pv.take(i + 1).drop_last() =~= pv.take(i as int));
        assert(pv.take(i + 1).last() == ps@[i as int]@);
        let t = match infer_type_to_type(&ps[i], span) {
            Ok(t) => t,
            Err(x) => {
                proof { lemma_resolve_all_err(pv, i + 1); }
                return Err(x);
            },
        };
        proof { crate::types::lemma_types_model_push(v@, t); }
        v.push(t);
        i += 1;
    }
    assert(pv.take(ps.len() as int) =~= pv);
    Ok(v)
}

/// Build the typed form of function declaration `fd` (see [`cdecl_d`]).
fn build_fun<'a>(fd: &'a FunDecl, decl: &'a Decl, ctx: &mut ConstructCtx<'a>) -> (out: (Result<TypedDecl<'a>, GustError>, Ghost<Cv<'a>>))
    requires
        old(ctx).wf(),
        *decl == Decl::Fun(*fd),
    ensures
        final(ctx).wf(),
        same_consts(*old(ctx), *final(ctx)),
        cdecl_d(out.1@, *decl),
        out.0 is Ok ==> final(ctx).scopes().len() == old(ctx).scopes().len() && final(ctx).struct_scope_maps().len()
            == old(ctx).struct_scope_maps().len(),
        out.1@.s0 == *old(ctx),
        out.1@.s1 == *final(ctx),
        match out.0 {
            Ok(t) => out.1@.r == Ok::<CVal<'a>, GustError>(CVal::D(t)),
            Err(x) => out.1@.r == Err::<CVal<'a>, GustError>(x),
        },
    decreases fd, 0nat,
{
    let ghost c0 = *ctx;
    let sc = match ctx.scheme(fd.name.as_str()) {
        Some(sc) => sc,
        None => {
            let x = GustError::internal(text3("missing type for fn `", fd.name.as_str(), "`"));
            return (Err(x), Ghost(Cv { s0: c0, r: Err(x), s1: c0, kids: seq![] }));
        },
    };
    if sc.quantified_vars.len() > 0 {
        let t = TypedDecl { src: decl, parts: Vec::new(), blocks: Vec::new() };
        return (Ok(t), Ghost(Cv { s0: c0, r: Ok(CVal::D(t)), s1: c0, kids: seq![] }));
    }
    let s = ctx.subst();
    proof {
        ctx.lemma_wf_subst();
        lemma_apply_idempotent(s@, sc.ty@);
    }
    let it = s.apply(&sc.ty);
    let (ps, ret) = match it {
        InferType::Fun(ps, ret) => (ps, ret),
        _ => {
            let x = GustError::internal(text3("expected Fun type for `", fd.name.as_str(), "`"));
            return (Err(x), Ghost(Cv { s0: c0, r: Err(x), s1: c0, kids: seq![] }));
        },
    };
    let pts = match resolve_types(&ps, &fd.span) {
        Ok(v) => v,
        Err(x) => {
            return (Err(x), Ghost(Cv { s0: c0, r: Err(x), s1: c0, kids: seq![] }));
        },
    };
    let rt = match infer_type_to_type(&ret, &fd.span) {
        Ok(t) => Some(t),
        Err(_) => None,
    };
    bind_params(&fd.params, &pts, ctx);
    let want = match &rt {
        Some(t) => Some(clone_type(t)),
        None => None,
    };
    let saved = ctx.push_return_type(want);
    let (rb, Ghost(db)) = build_block(&fd.body, rt.as_ref(), ctx);
    let tb = match rb {
        Ok(t) => t,
        Err(x) => {
            return (Err(x), Ghost(Cv { s0: c0, r: db.r, s1: db.s1, kids: seq![db] }));
        },
    };
    ctx.pop_return_type(saved);
    ctx.pop_scope();
    let mut blocks: Vec<TypedBlock<'a>> = Vec::new();
    blocks.push(tb);
    let t = TypedDecl { src: decl, parts: Vec::new(), blocks };
    assert(t.blocks@ =~= seq![blk_of(db.r)]);
    assert(t.parts@ =~= Seq::<TypedExpr<'a>>::empty());
    let ghost d = Cv { s0: c0, r: Ok(CVal::D(t)), s1: *ctx, kids: seq![db] };
    (Ok(t), Ghost(d))
}

proof fn lemma_method_params_err<'a>(c: ConstructCtx<'a>, ps: Seq<Param>, target: Seq<char>, k: int)
    requires
        0 <= k <= ps.len(),
        method_params(c, ps.take(k), target) is Err,
    ensures
        method_params(c, ps, target) == method_params(c, ps.take(k), target),
    decreases ps.len(),
{
    if k < ps.len() {
        assert(ps.drop_last().take(k) =~= ps.take(k));
        lemma_method_params_err(c, ps.drop_last(), target, k);
    } else {
        assert(ps.take(k) =~= ps);
    }
}

/// The types of a method's parameters (see [`method_params`]).
fn method_param_types<'a>(params: &Vec<Param>, target: &String, ctx: &ConstructCtx<'a>) -> (r: Result<Vec<Type>, GustError>)
    requires
        ctx.wf(),
    ensures
        match method_params(*ctx, params@, target@) {
            Ok(ts) => r matches Ok(v) && crate::types::types_model(v@) == ts && v.len() == params.len(),
            Err((m, sp)) => r matches Err(e) && is_type_error(e, TypeErrorCode::T0002, m, sp),
        },
{
    let mut v: Vec<Type> = Vec::new();
    let mut i: usize = 0;
    proof { crate::types::lemma_types_model(v@); }
    assert(params@.take(0) =~= Seq::<Param>::empty());
    while i < params.len()
        invariant
            i <= params.len(),
            ctx.wf(),
            method_params(*ctx, params@.take(i as int), target@) == Ok::<Seq<TypeView>, (Seq<char>, Span)>(crate::types::types_model(v@)),
            v.len() == i,
        decreases params.len() - i,
    {
        assert(params@.take(i + 1).drop_last() =~= params@.take(i as int));
        assert(params@.take(i + 1).last() == params@[i as int]);
        let p = &params[i];
        proof { reveal_strlit("self"); }
        let t = if crate::text::str_eq(p.name.as_str(), "self") {
            let mut n = String::new();
            push_str(&mut n, target.as_str());
            let none: Vec<Type> = Vec::new();
            assert(crate::types::types_model(none@) =~= Seq::<TypeView>::empty());
            Type::Named(n, none)
        } else {
            match &p.type_ann {
                None => {
                    proof { lemma_method_params_err(*ctx, params@, target@, i + 1); }
                    return Err(GustError::type_error(TypeErrorCode::T0002, text3("parameter `", p.name.as_str(), "` needs a type annotation"), &p.span));
                },
                Some(a) => match resolve_ann(a, &p.span, ctx) {
                    Ok(t) => t,
                    Err(x) => {
                        proof { lemma_method_params_err(*ctx, params@, target@, i + 1); }
                        return Err(x);
                    },
                },
            }
        };
        proof { crate::types::lemma_types_model_push(v@, t); }
        v.push(t);
        i += 1;
    }
    assert(params@.take(params.len() as int) =~= params@);
    Ok(v)
}

/// Build the body of method `m` of type `target` (see [`cmethod_d`]).
fn build_method<'a>(m: &'a FunDecl, target: &String, ctx: &mut ConstructCtx<'a>) -> (out: (Result<TypedBlock<'a>, GustError>, Ghost<Cv<'a>>))
    requires
        old(ctx).wf(),
    ensures
        final(ctx).wf(),
        same_consts(*old(ctx), *final(ctx)),
        cmethod_d(out.1@, *m, target@),
        out.0 is Ok ==> final(ctx).scopes().len() == old(ctx).scopes().len() && final(ctx).struct_scope_maps().len()
            == old(ctx).struct_scope_maps().len(),
        out.1@.s0 == *old(ctx),
        out.1@.s1 == *final(ctx),
        match out.0 {
            Ok(t) => out.1@.r == Ok::<CVal<'a>, GustError>(CVal::B(t)),
            Err(x) => out.1@.r == Err::<CVal<'a>, GustError>(x),
        },
    decreases m, 0nat,
{
    let ghost c0 = *ctx;
    let pts = match method_param_types(&m.params, target, ctx) {
        Ok(v) => v,
        Err(x) => {
            return (Err(x), Ghost(Cv { s0: c0, r: Err(x), s1: c0, kids: seq![] }));
        },
    };
    let rt = match &m.return_type {
        Some(a) => match resolve_ann(a, &m.span, ctx) {
            Ok(t) => Some(t),
            Err(x) => {
                return (Err(x), Ghost(Cv { s0: c0, r: Err(x), s1: c0, kids: seq![] }));
            },
        },
        None => None,
    };
    bind_params(&m.params, &pts, ctx);
    let want = match &rt {
        Some(t) => Some(clone_type(t)),
        None => None,
    };
    let saved = ctx.push_return_type(want);
    let (rb, Ghost(db)) = build_block(&m.body, rt.as_ref(), ctx);
    let tb = match rb {
        Ok(t) => t,
        Err(x) => {
            return (Err(x), Ghost(Cv { s0: c0, r: db.r, s1: db.s1, kids: seq![db] }));
        },
    };
    ctx.pop_return_type(saved);
    ctx.pop_scope();
    let ghost d = Cv { s0: c0, r: Ok(CVal::B(tb)), s1: *ctx, kids: seq![db] };
    (Ok(tb), Ghost(d))
}

proof fn lemma_cmethods_err<'a>(ms: Seq<FunDecl>, target: Seq<char>, k: int, d: Cv<'a>) -> (d2: Cv<'a>)
    requires
        0 <= k <= ms.len(),
        cmethods_d(d, ms.take(k), target),
        d.r is Err,
    ensures
        cmethods_d(d2, ms, target),
        d2.s0 == d.s0,
        d2.r == d.r,
        d2.s1 == d.s1,
    decreases ms.len(),
{
    if k < ms.len() {
        assert(ms.drop_last().take(k) =~= ms.take(k));
        let d1 = lemma_cmethods_err(ms.drop_last(), target, k, d);
        Cv { s0: d.s0, r: d.r, s1: d.s1, kids: seq![d1] }
    } else {
        assert(ms.take(k) =~= ms);
        d
    }
}

/// Build the typed form of impl block `ib` (see [`cdecl_d`]).
fn build_impl<'a>(ib: &'a ImplDecl, decl: &'a Decl, ctx: &mut ConstructCtx<'a>) -> (out: (Result<TypedDecl<'a>, GustError>, Ghost<Cv<'a>>))
    requires
        old(ctx).wf(),
        *decl == Decl::Impl(*ib),
    ensures
        final(ctx).wf(),
        same_consts(*old(ctx), *final(ctx)),
        cdecl_d(out.1@, *decl),
        out.0 is Ok ==> final(ctx).scopes().len() == old(ctx).scopes().len() && final(ctx).struct_scope_maps().len()
            == old(ctx).struct_scope_maps().len(),
        out.1@.s0 == *old(ctx),
        out.1@.s1 == *final(ctx),
        match out.0 {
            Ok(t) => out.1@.r == Ok::<CVal<'a>, GustError>(CVal::D(t)),
            Err(x) => out.1@.r == Err::<CVal<'a>, GustError>(x),
        },
    decreases ib, 0nat,
{
    let ghost c0 = *ctx;
    if ib.header.aspect_name.is_some() {
        let x = GustError::not_implemented(String::from_str("trait impl blocks not yet supported"));
        return (Err(x), Ghost(Cv { s0: c0, r: Err(x), s1: c0, kids: seq![] }));
    }
    let target = match &ib.header.target_type {
        TypeExpr::Named(n, _) => {
            let mut t = String::new();
            push_str(&mut t, n.as_str());
            assert(t@ =~= n@);
            t
        },
        _ => {
            let x = GustError::not_implemented(String::from_str("generic impl blocks not yet supported"));
            return (Err(x), Ghost(Cv { s0: c0, r: Err(x), s1: c0, kids: seq![] }));
        },
    };
    let mut bs: Vec<TypedBlock<'a>> = Vec::new();
    let mut i: usize = 0;
    let ghost mut dacc = Cv { s0: c0, r: Ok(CVal::Arms(Seq::empty(), Seq::empty())), s1: c0, kids: seq![] };
    assert(ib.methods@.take(0) =~= Seq::<FunDecl>::empty());
    while i < ib.methods.len()
        invariant
            i <= ib.methods.len(),
            ctx.wf(),
            same_consts(*old(ctx), *ctx),
            ctx.scopes().len() == old(ctx).scopes().len(),
            ctx.struct_scope_maps().len() == old(ctx).struct_scope_maps().len(),
            c0 == *old(ctx),
            cmethods_d(dacc, ib.methods@.take(i as int), target@),
            ib.header.aspect_name is None,
            ib.header.target_type matches TypeExpr::Named(tn, _) && tn@ == target@,
            *decl == Decl::Impl(*ib),
            dacc.s0 == c0,
            dacc.r == Ok::<CVal<'a>, GustError>(CVal::Arms(Seq::empty(), bs@)),
            dacc.s1 == *ctx,
        decreases ib.methods.len() - i,
    {
        proof {
            assert(ib.methods@.take(i + 1).drop_last() =~= ib.methods@.take(i as int));
            assert(ib.methods@.take(i + 1).last() == ib.methods@[i as int]);
        }
        let (rb, Ghost(db)) = build_method(&ib.methods[i], &target, ctx);
        match rb {
            Ok(tb) => {
                bs.push(tb);
                proof {
                    dacc = Cv { s0: c0, r: Ok(CVal::Arms(Seq::empty(), bs@)), s1: db.s1, kids: seq![dacc, db] };
                }
            },
            Err(x) => {
                let ghost d = Cv { s0: c0, r: db.r, s1: db.s1, kids: seq![dacc, db] };
                let ghost d2 = lemma_cmethods_err(ib.methods@, target@, i + 1, d);
                let ghost dd = Cv { s0: c0, r: Err(x), s1: d2.s1, kids: seq![d2] };
                assert(d2.r == Err::<CVal<'a>, GustError>(x));
                assert(cmethods_d(dd.kids[0], ib.methods@, target@));
                assert(dd.kids[0].s0 == dd.s0);
                return (Err(x), Ghost(dd));
            },
        }
        i += 1;
    }
    assert(ib.methods@.take(ib.methods.len() as int) =~= ib.methods@);
    let t = TypedDecl { src: decl, parts: Vec::new(), blocks: bs };
    assert(t.parts@ =~= Seq::<TypedExpr<'a>>::empty());
    let ghost d = Cv { s0: c0, r: Ok(CVal::D(t)), s1: *ctx, kids: seq![dacc] };
    (Ok(t), Ghost(d))
}

/// The resolved type of annotation `te` (see [`resolve_te`]), or the
/// `T0002` error at `span` when a variable is left.
fn resolve_ann<'a>(te: &crate::ast::TypeExpr, span: &Span, ctx: &ConstructCtx<'a>) -> (r: Result<Type, GustError>)
    requires
        ctx.wf(),
    ensures
        match resolve_te(*ctx, te@) {
            Some(t) => r matches Ok(x) && x@ == t,
            None => r matches Err(e) && is_type_error(e, TypeErrorCode::T0002, cannot_infer_text(), *span),
        },
{
    let it = type_expr_to_infer(te);
    let s = ctx.subst();
    proof {
        ctx.lemma_wf_subst();
        lemma_apply_idempotent(s@, it@);
    }
    resolved_to_type(&it, s, span)
}

/// The name a method call on a receiver of type `t` looks methods up
/// under (see [`receiver_name`]).
fn receiver_type_name(t: &Type) -> (r: Option<String>)
    ensures
        match receiver_name(t@) {
            Some(n) => r matches Some(x) && x@ == n,
            None => r is None,
        },
{
    match t {
        Type::Named(n, _) => {
            let mut s = String::new();
            push_str(&mut s, n.as_str());
            Some(s)
        },
        Type::Str => Some(String::from_str("String")),
        Type::Int => Some(String::from_str("Int")),
        Type::Float => Some(String::from_str("Float")),
        Type::Bool => Some(String::from_str("Bool")),
        _ => None,
    }
}

fn find_tfield(fs: &Vec<(String, Type)>, k: &str) -> (r: Option<usize>)
    ensures
        match first_tfield(tfields(fs@), k@) {
            Some(i) => r matches Some(j) && j as int == i,
            None => r is None,
        },
{
    let ghost fv = tfields(fs@);
    proof { lemma_first_tfield(fv, k@); }
    let mut i: usize = 0;
    while i < fs.len()
        invariant
            i <= fs.len(),
            fv == tfields(fs@),
            forall|j: int| 0 <= j < i ==> fv[j].0 != k@,
        decreases fs.len() - i,
    {
        if crate::text::str_eq(fs[i].0.as_str(), k) {
            proof {
                lemma_first_tfield(fv, k@);
                assert(fv[i as int].0 == k@);
                match first_tfield(fv, k@) {
                    Some(j) => {
                        if j < i {
                            assert(fv[j].0 == k@);
                        }
                    },
                    None => {},
                }
            }
            return Some(i);
        }
        i += 1;
    }
    proof { lemma_first_tfield(fv, k@); }
    None
}

proof fn lemma_first_tfield(fs: Seq<(Seq<char>, TypeView)>, k: Seq<char>)
    ensures
        match first_tfield(fs, k) {
            Some(i) => 0 <= i < fs.len() && fs[i].0 == k && forall|j: int| 0 <= j < i ==> fs[j].0 != k,
            None => forall|j: int| 0 <= j < fs.len() ==> fs[j].0 != k,
        },
    decreases fs.len(),
{
    if fs.len() > 0 {
        lemma_first_tfield(fs.drop_first(), k);
        assert forall|j: int| 1 <= j < fs.len() implies fs[j] == fs.drop_first()[j - 1] by {}
    }
}

proof fn lemma_arg_remap_closed(qs: Seq<TypeVar>, args: Seq<TypeView>, k: nat)
    requires
        k <= qs.len(),
        k <= args.len(),
    ensures
        idempotent(arg_remap(qs, args, k)),
    decreases k,
{
    if k > 0 {
        lemma_arg_remap_closed(qs, args, (k - 1) as nat);
        let m = arg_remap(qs, args, k);
        assert forall|v: u32, w: u32| #[trigger] m.contains_key(v) && #[trigger] occurs(w, m[v]) implies !m.contains_key(w) by {
            let prev = arg_remap(qs, args, (k - 1) as nat);
            if v == qs[k - 1].0 {
                lemma_type_to_infer_closed(args[k - 1], w);
            } else {
                assert(prev.contains_key(v));
                assert(m[v] == prev[v]);
                let mut j: nat = (k - 1) as nat;
                lemma_arg_remap_values(qs, args, (k - 1) as nat, v, w);
            }
        }
    }
}

proof fn lemma_arg_remap_values(qs: Seq<TypeVar>, args: Seq<TypeView>, k: nat, v: u32, w: u32)
    requires
        k <= qs.len(),
        k <= args.len(),
        arg_remap(qs, args, k).contains_key(v),
    ensures
        !occurs(w, arg_remap(qs, args, k)[v]),
    decreases k,
{
    if k > 0 {
        if v == qs[k - 1].0 {
            lemma_type_to_infer_closed(args[k - 1], w);
        } else {
            lemma_arg_remap_values(qs, args, (k - 1) as nat, v, w);
        }
    }
}

/// The type of field `field` of a value of type `t` (see
/// [`field_type_of`]).
fn field_type<'a>(t: &Type, field: &str, span: &Span, ctx: &ConstructCtx<'a>) -> (r: Result<Type, GustError>)
    requires
        ctx.wf(),
    ensures
        match field_type_of(*ctx, t@, field@) {
            FieldType::Found(x) => r matches Ok(y) && y@ == x,
            FieldType::Unresolved => r matches Err(e) && is_type_error(e, TypeErrorCode::T0002, cannot_infer_text(), *span),
            FieldType::Internal(m) => r matches Err(e) && is_internal(e, m),
        },
{
    match t {
        Type::Named(n, args) => {
            match ctx.struct_params(n.as_str()) {
                Some(qs) => {
                    let raw = match ctx.struct_raw(n.as_str()) {
                        Some(r) => r,
                        None => {
                            return Err(GustError::internal(text3("missing raw fields for `", n.as_str(), "`")));
                        },
                    };
                    let i = match find_field(raw, field) {
                        Some(i) => i,
                        None => {
                            let mut m = String::new();
                            push_str(&mut m, "no field `");
                            push_str(&mut m, field);
                            push_str(&mut m, "` on `");
                            push_str(&mut m, n.as_str());
                            push_str(&mut m, "`");
                            return Err(GustError::internal(m));
                        },
                    };
                    proof { lemma_first_field(fields_view(raw@), field@); }
                    let mut remap = Substitution::new();
                    let mut j: usize = 0;
                    proof { crate::types::lemma_types_model(args@); }
                    while j < qs.len() && j < args.len()
                        invariant
                            j <= qs.len(),
                            j <= args.len(),
                            remap@ == arg_remap(qs@, crate::types::types_model(args@), j as nat),
                            crate::types::types_model(args@).len() == args.len(),
                            forall|q: int| 0 <= q < args.len() ==> #[trigger] crate::types::types_model(args@)[q] == args@[q]@,
                        decreases qs.len() - j,
                    {
                        let ti = type_to_infer(&args[j]);
                        remap.bind(qs[j], ti);
                        j += 1;
                    }
                    let ghost av = crate::types::types_model(args@);
                    assert(j as nat == zip_len(qs@.len(), av.len()));
                    proof {
                        lemma_arg_remap_closed(qs@, av, j as nat);
                        lemma_apply_idempotent(remap@, raw@[i as int].1@);
                        assert(fields_view(raw@)[i as int].1 == raw@[i as int].1@);
                    }
                    let applied = remap.apply(&raw[i].1);
                    assert(qs@ == ctx.gen_params()[n@]@);
                    assert(fields_view(raw@) == fields_view(ctx.gen_raw()[n@]@));
                    assert(first_field(fields_view(raw@), field@) == Some(i as int));
                    assert(applied@ == apply_spec(arg_remap(qs@, av, zip_len(qs@.len(), av.len())), fields_view(raw@)[i as int].1));
                    let r = infer_type_to_type(&applied, span);
                    assert(t@ == TypeView::Named(n@, av));
                    assert(field_type_of(*ctx, t@, field@) == if fv(applied@) == Set::<u32>::empty() {
                        FieldType::Found(infer_to_type(applied@))
                    } else {
                        FieldType::Unresolved
                    });
                    r
                },
                None => {
                    match ctx.get_struct_fields(n.as_str()) {
                        Some(fs) => match find_tfield(fs, field) {
                            Some(i) => {
                                proof { lemma_first_tfield(tfields(fs@), field@); }
                                assert(tfields(fs@)[i as int].1 == fs@[i as int].1@);
                                assert(tfields(fs@).len() == fs@.len());
                                assert(first_tfield(tfields(fs@), field@) == Some(i as int));
                                assert(!ctx.gen_params().contains_key(n@));
                                assert(find_scoped(ctx.struct_scope_maps(), n@) == Some(*fs));
                                assert(field_type_of(*ctx, t@, field@) == FieldType::Found(fs@[i as int].1@));
                                Ok(clone_type(&fs[i].1))
                            },
                            None => {
                                let mut m = String::new();
                                push_str(&mut m, "no field `");
                                push_str(&mut m, field);
                                push_str(&mut m, "` on `");
                                push_str(&mut m, n.as_str());
                                push_str(&mut m, "`");
                                Err(GustError::internal(m))
                            },
                        },
                        None => {
                            let mut m = String::new();
                            push_str(&mut m, "no field `");
                            push_str(&mut m, field);
                            push_str(&mut m, "` on `");
                            push_str(&mut m, n.as_str());
                            push_str(&mut m, "`");
                            Err(GustError::internal(m))
                        },
                    }
                },
            }
        },
        _ => {
            let mut m = String::new();
            push_str(&mut m, "field access on non-struct type ");
            write_type(t, &mut m);
            Err(GustError::internal(m))
        },
    }
}

/// The type `?` gives on an operand of type `t` (see [`propagated`]).
fn propagate_type(t: &Type) -> (r: Option<Type>)
    ensures
        match propagated(t@) {
            Some(x) => r matches Some(y) && y@ == x,
            None => r is None,
        },
{
    match t {
        Type::Result(ok, _) => Some(clone_type(ok)),
        Type::Named(n, args) => {
            proof { crate::types::lemma_types_model(args@); }
            if crate::text::str_eq(n.as_str(), "Result") && args.len() == 2 {
                proof { reveal_strlit("Result"); }
                Some(clone_type(&args[0]))
            } else {
                proof { reveal_strlit("Result"); }
                None
            }
        },
        _ => None,
    }
}

/// The types of `ts`, in order.
fn types_of<'a>(ts: &Vec<TypedExpr<'a>>) -> (r: Vec<Type>)
    ensures
        crate::types::types_model(r@) == tys(ts@),
{
    let mut r: Vec<Type> = Vec::new();
    let mut i: usize = 0;
    proof { crate::types::lemma_types_model(r@); }
    while i < ts.len()
        invariant
            i <= ts.len(),
            crate::types::types_model(r@) == tys(ts@).take(i as int),
        decreases ts.len() - i,
    {
        let t = clone_type(&ts[i].ty);
        proof { crate::types::lemma_types_model_push(r@, t); }
        r.push(t);
        assert(tys(ts@).take(i + 1) =~= tys(ts@).take(i as int).push(ts@[i as int].ty@));
        i += 1;
    }
    assert(tys(ts@).take(ts.len() as int) =~= tys(ts@));
    r
}

proof fn lemma_cxs_err<'a>(es: Seq<Expr>, k: int, d: Cv<'a>) -> (d2: Cv<'a>)
    requires
        0 <= k <= es.len(),
        cxs_d(d, es.take(k)),
        d.r is Err,
    ensures
        cxs_d(d2, es),
        d2.s0 == d.s0,
        d2.r == d.r,
        d2.s1 == d.s1,
    decreases es.len(),
{
    if k < es.len() {
        assert(es.drop_last().take(k) =~= es.take(k));
        let d1 = lemma_cxs_err(es.drop_last(), k, d);
        Cv { s0: d.s0, r: d.r, s1: d.s1, kids: seq![d1] }
    } else {
        assert(es.take(k) =~= es);
        d
    }
}

/// Build the typed forms of `es` in order (see [`cxs_d`]).
fn build_exprs<'a>(es: &'a Vec<Expr>, ctx: &mut ConstructCtx<'a>) -> (out: (Result<Vec<TypedExpr<'a>>, GustError>, Ghost<Cv<'a>>))
    requires
        old(ctx).wf(),
    ensures
        final(ctx).wf(),
        same_consts(*old(ctx), *final(ctx)),
        cxs_d(out.1@, es@),
        out.0 is Ok ==> final(ctx).scopes().len() == old(ctx).scopes().len() && final(ctx).struct_scope_maps().len()
            == old(ctx).struct_scope_maps().len(),
        out.1@.s0 == *old(ctx),
        out.1@.s1 == *final(ctx),
        match out.0 {
            Ok(ts) => out.1@.r == Ok::<CVal<'a>, GustError>(CVal::Es(ts@)),
            Err(x) => out.1@.r == Err::<CVal<'a>, GustError>(x),
        },
    decreases es, 1nat,
{
    let ghost c0 = *ctx;
    let mut ts: Vec<TypedExpr<'a>> = Vec::new();
    let mut i: usize = 0;
    let ghost mut dacc = Cv { s0: c0, r: Ok(CVal::Es(Seq::empty())), s1: c0, kids: seq![] };
    assert(es@.take(0) =~= Seq::<Expr>::empty());
    while i < es.len()
        invariant
            i <= es.len(),
            ctx.wf(),
            same_consts(*old(ctx), *ctx),
            c0 == *old(ctx),
            cxs_d(dacc, es@.take(i as int)),
            ctx.scopes().len() == old(ctx).scopes().len(),
            ctx.struct_scope_maps().len() == old(ctx).struct_scope_maps().len(),
            dacc.s0 == c0,
            dacc.r == Ok::<CVal<'a>, GustError>(CVal::Es(ts@)),
            dacc.s1 == *ctx,
        decreases es.len() - i,
    {
        proof {
            assert(es@.take(i + 1).drop_last() =~= es@.take(i as int));
            assert(es@.take(i + 1).last() == es@[i as int]);
        }
        let (rb, Ghost(db)) = build_expr(&es[i], None, ctx);
        match rb {
            Ok(t) => {
                ts.push(t);
                proof {
                    dacc = Cv { s0: c0, r: Ok(CVal::Es(ts@)), s1: db.s1, kids: seq![dacc, db] };
                }
            },
            Err(x) => {
                let ghost d = Cv { s0: c0, r: db.r, s1: db.s1, kids: seq![dacc, db] };
                let ghost d2 = lemma_cxs_err(es@, i + 1, d);
                return (Err(x), Ghost(d2));
            },
        }
        i += 1;
    }
    assert(es@.take(es.len() as int) =~= es@);
    (Ok(ts), Ghost(dacc))
}

/// `qs` holds variable `v`.
fn holds_var_exec(qs: &Vec<TypeVar>, v: u32) -> (r: bool)
    ensures
        r == holds_var(qs@, v),
{
    let mut i: usize = 0;
    while i < qs.len()
        invariant
            i <= qs.len(),
            forall|j: int| 0 <= j < i ==> qs@[j].0 != v,
        decreases qs.len() - i,
    {
        if qs[i].0 == v {
            assert(qs@[i as int].0 == v);
            return true;
        }
        i += 1;
    }
    false
}

/// The identity map on the type parameters `qs` (see [`lit_remap`]).
fn identity_remap(qs: &Vec<TypeVar>) -> (r: Substitution)
    ensures
        r@ == Map::new(|v: u32| holds_var(qs@, v), |v: u32| InferTypeView::Var(v)),
{
    let mut rm = Substitution::new();
    let mut i: usize = 0;
    while i < qs.len()
        invariant
            i <= qs.len(),
            rm@ == Map::new(|v: u32| holds_var(qs@.take(i as int), v), |v: u32| InferTypeView::Var(v)),
        decreases qs.len() - i,
    {
        let q = qs[i];
        rm.bind(q, InferType::Var(q));
        proof {
            let a = qs@.take(i as int);
            let b = qs@.take(i + 1);
            assert forall|v: u32| holds_var(b, v) <==> holds_var(a, v) || v == q.0 by {
                if holds_var(a, v) {
                    let j = choose|j: int| 0 <= j < a.len() && #[trigger] a[j].0 == v;
                    assert(b[j] == a[j]);
                }
                if v == q.0 {
                    assert(b[i as int] == q);
                }
                if holds_var(b, v) {
                    let j = choose|j: int| 0 <= j < b.len() && #[trigger] b[j].0 == v;
                    if j < i {
                        assert(a[j] == b[j]);
                    }
                }
            }
            assert(rm@ =~= Map::new(|v: u32| holds_var(b, v), |v: u32| InferTypeView::Var(v)));
        }
        i += 1;
    }
    assert(qs@.take(qs.len() as int) =~= qs@);
    rm
}

/// The type of a literal of struct `name` with fields `fields`, whose values
/// were built as `tfs` (see [`struct_lit`]).
#[verifier::loop_isolation(false)]
fn struct_lit_type<'a>(name: &str, fields: &Vec<(String, Expr)>, tfs: &Vec<TypedExpr<'a>>, span: &Span, ctx: &ConstructCtx<'a>) -> (r: Result<Type, GustError>)
    requires
        ctx.wf(),
        tfs.len() == fields.len(),
    ensures
        lit_res(struct_lit(*ctx, name@, fnames(fields@), tys(tfs@)), r, *span),
{
    let qs = match ctx.struct_params(name) {
        None => {
            let none: Vec<Type> = Vec::new();
            assert(crate::types::types_model(none@) =~= Seq::<TypeView>::empty());
            return Ok(Type::Named(String::from_str(name), none));
        },
        Some(q) => q,
    };
    let raw = match ctx.struct_raw(name) {
        None => {
            return Err(GustError::internal(text3("missing raw fields for `", name, "`")));
        },
        Some(x) => x,
    };
    let ghost names = fnames(fields@);
    let ghost ftys = tys(tfs@);
    let ghost rv = fields_view(raw@);
    let mut rm = identity_remap(qs);
    let mut i: usize = 0;
    assert(names.take(0) =~= Seq::<Seq<char>>::empty());
    while i < fields.len()
        invariant
            i <= fields.len(),
            tfs.len() == fields.len(),
            names == fnames(fields@),
            ftys == tys(tfs@),
            rv == fields_view(raw@),
            rm@ == lit_remap(qs@, rv, names.take(i as int), ftys.take(i as int)),
        decreases fields.len() - i,
    {
        proof {
            assert(names.take(i + 1).drop_last() =~= names.take(i as int));
            assert(ftys.take(i + 1).take(i as int) =~= ftys.take(i as int));
            assert(names.take(i + 1).last() == fields@[i as int].0@);
            assert(ftys.take(i + 1)[i as int] == tfs@[i as int].ty@);
        }
        match find_field(raw, fields[i].0.as_str()) {
            Some(j) => {
                proof { lemma_first_field(rv, fields@[i as int].0@); }
                assert(rv[j as int].1 == raw@[j as int].1@);
                match &raw[j].1 {
                    InferType::Var(v) => {
                        if holds_var_exec(qs, v.0) {
                            let t = type_to_infer(&tfs[i].ty);
                            rm.bind(*v, t);
                        }
                    },
                    _ => {},
                }
            },
            None => {},
        }
        i += 1;
    }
    assert(names.take(fields.len() as int) =~= names);
    assert(ftys.take(fields.len() as int) =~= ftys);
    let ghost m = rm@;
    let ghost args = qs@.map_values(|tp: TypeVar| apply_spec(ctx.subst_map(), if m.contains_key(tp.0) { m[tp.0] } else { InferTypeView::Var(tp.0) }));
    proof {
        ctx.lemma_wf_subst();
        let rm2 = lit_remap(qs@, rv, names, ftys);
        assert(m == rm2);
        let sargs = qs@.map_values(|tp: TypeVar| apply_spec(ctx.subst_map(), if rm2.contains_key(tp.0) { rm2[tp.0] } else { InferTypeView::Var(tp.0) }));
        assert(sargs =~= args);
    }
    let mut out: Vec<Type> = Vec::new();
    let mut k: usize = 0;
    proof { crate::types::lemma_types_model(out@); }
    while k < qs.len()
        invariant
            k <= qs.len(),
            m == rm@,
            ctx.wf(),
            idempotent(ctx.subst_map()),
            args.len() == qs.len(),
            args == qs@.map_values(|tp: TypeVar| apply_spec(ctx.subst_map(), if m.contains_key(tp.0) { m[tp.0] } else { InferTypeView::Var(tp.0) })),
            out.len() == k,
            forall|j: int| 0 <= j < k ==> fv(#[trigger] args[j]) == Set::<u32>::empty(),
            crate::types::types_model(out@) == args.take(k as int).map_values(|a: InferTypeView| infer_to_type(a)),
        decreases qs.len() - k,
    {
        let q = qs[k];
        let it = match rm.lookup(q) {
            Some(t) => clone_infer(t),
            None => InferType::Var(q),
        };
        proof { lemma_apply_idempotent(ctx.subst_map(), it@); }
        let applied = ctx.subst().apply(&it);
        assert(applied@ == args[k as int]);
        match infer_type_to_type(&applied, span) {
            Ok(t) => {
                proof { crate::types::lemma_types_model_push(out@, t); }
                out.push(t);
                assert(args.take(k + 1).map_values(|a: InferTypeView| infer_to_type(a)) =~= args.take(k as int).map_values(|a: InferTypeView| infer_to_type(a)).push(infer_to_type(args[k as int])));
            },
            Err(x) => {
                assert(fv(args[k as int]) != Set::<u32>::empty());
                assert(!(forall|j: int| 0 <= j < args.len() ==> #[trigger] fv(args[j]) == Set::<u32>::empty()));
                assert(ctx.gen_params().contains_key(name@));
                assert(ctx.gen_raw().contains_key(name@));
                assert(struct_lit(*ctx, name@, names, ftys) == LitOut::TypeErr(TypeErrorCode::T0002, cannot_infer_text()));
                return Err(x);
            },
        }
        k += 1;
    }
    assert(args.take(qs.len() as int) =~= args);
    Ok(Type::Named(String::from_str(name), out))
}

/// The type arguments the expected type gives a literal of enum `e` (see
/// [`enum_hints`]).
fn enum_hint_args(expected: Option<&Type>, e: &str, span: &Span) -> (r: Vec<Type>)
    ensures
        crate::types::types_model(r@) == enum_hints(tyv(expected), e@),
{
    let mut out: Vec<Type> = Vec::new();
    proof { crate::types::lemma_types_model(out@); }
    let t = match expected {
        Some(t) => t,
        None => {
            assert(crate::types::types_model(out@) =~= Seq::<TypeView>::empty());
            return out;
        },
    };
    let it = type_to_infer(t);
    match &it {
        InferType::Named(n, args) => {
            if !crate::text::str_eq(n.as_str(), e) {
                assert(crate::types::types_model(out@) =~= Seq::<TypeView>::empty());
                return out;
            }
            let ghost av = crate::typeinference::infers_model(args@);
            proof { crate::typeinference::lemma_infers_model(args@); }
            let mut i: usize = 0;
            while i < args.len()
                invariant
                    i <= args.len(),
                    it@ == type_to_infer_spec(t@),
                    it@ == InferTypeView::Named(n@, av),
                    av == crate::typeinference::infers_model(args@),
                    av.len() == args.len(),
                    forall|j: int| 0 <= j < args.len() ==> #[trigger] av[j] == args@[j]@,
                    crate::types::types_model(out@) == av.take(i as int).map_values(|a: InferTypeView| infer_to_type(a)),
                decreases args.len() - i,
            {
                proof {
                    assert forall|w: u32| !fv(args@[i as int]@).contains(w) by {
                        lemma_type_to_infer_closed(t@, w);
                        crate::typeinference::model::lemma_occurs_seq(w, av);
                    }
                    assert(fv(args@[i as int]@) =~= Set::<u32>::empty());
                }
                match infer_type_to_type(&args[i], span) {
                    Ok(x) => {
                        proof { crate::types::lemma_types_model_push(out@, x); }
                        out.push(x);
                        assert(av.take(i + 1).map_values(|a: InferTypeView| infer_to_type(a)) =~= av.take(i as int).map_values(
                            |a: InferTypeView| infer_to_type(a),
                        ).push(infer_to_type(av[i as int])));
                    },
                    Err(_) => {
                        assert(false);
                        return out;
                    },
                }
                i += 1;
            }
            assert(av.take(args.len() as int) =~= av);
            out
        },
        _ => {
            assert(crate::types::types_model(out@) =~= Seq::<TypeView>::empty());
            out
        },
    }
}

/// The substitution solving a variant literal's field values against the
/// variant's declared field types `vf` (see [`enum_fold`]).
fn enum_fold_exec<'a>(init: &Substitution, fields: &Vec<(String, Expr)>, tfs: &Vec<TypedExpr<'a>>, vf: &Vec<(String, InferType)>) -> (local: Substitution)
    requires
        idempotent(init@),
        tfs.len() == fields.len(),
    ensures
        idempotent(local@),
        local@ == enum_fold(init@, fnames(fields@), tys(tfs@), fields_view(vf@)),
{
    let ghost names = fnames(fields@);
    let ghost ftys = tys(tfs@);
    let ghost fvw = fields_view(vf@);
    let mut local = Substitution::new();
    let mut i: usize = 0;
    while i < fields.len()
        invariant
            i <= fields.len(),
            tfs.len() == fields.len(),
            idempotent(init@),
            names == fnames(fields@),
            ftys == tys(tfs@),
            fvw == fields_view(vf@),
            idempotent(local@),
            local@ == enum_fold(init@, names.take(i as int), ftys.take(i as int), fvw),
        decreases fields.len() - i,
    {
        proof {
            assert(names.take(i + 1).drop_last() =~= names.take(i as int));
            assert(ftys.take(i + 1).take(i as int) =~= ftys.take(i as int));
            assert(names.take(i + 1).last() == fields@[i as int].0@);
            assert(ftys.take(i + 1)[i as int] == tfs@[i as int].ty@);
        }
        match find_field(vf, fields[i].0.as_str()) {
            Some(j) => {
                proof {
                    lemma_first_field(fvw, fields@[i as int].0@);
                    assert(fvw[j as int].1 == vf@[j as int].1@);
                    lemma_apply_idempotent(init@, vf@[j as int].1@);
                }
                let inst = init.apply(&vf[j].1);
                let actual = type_to_infer(&tfs[i].ty);
                proof {
                    lemma_apply_idempotent(local@, inst@);
                    lemma_apply_idempotent(local@, actual@);
                }
                let lhs = local.apply(&inst);
                let rhs = local.apply(&actual);
                match unify(&lhs, &rhs) {
                    Ok(s) => {
                        proof {
                            assert(vars_within(local@, Set::full()));
                            lemma_pair_step(local@, s@, inst@, actual@, Set::full());
                            assert forall|v: u32| #[trigger] local@.contains_key(v) implies terminates(s@, local@[v]) by {
                                lemma_apply_idempotent(s@, local@[v]);
                            }
                        }
                        local = local.compose(&s);
                    },
                    Err(_) => {},
                }
            },
            None => {},
        }
        i += 1;
    }
    assert(names.take(fields.len() as int) =~= names);
    assert(ftys.take(fields.len() as int) =~= ftys);
    local
}

/// Whether the generator has room for fresh variables for `qs` (see
/// [`vars_room`]).
fn vars_room_exec(qs: &Vec<TypeVar>, n: u32) -> (r: bool)
    ensures
        r == vars_room(qs@, n),
{
    if qs.len() as u64 > (u32::MAX - n) as u64 {
        return false;
    }
    let mut i: usize = 0;
    while i < qs.len()
        invariant
            i <= qs.len(),
            forall|j: int| 0 <= j < i ==> #[trigger] qs@[j].0 < n,
        decreases qs.len() - i,
    {
        if qs[i].0 >= n {
            return false;
        }
        i += 1;
    }
    true
}

/// The type of a literal of variant `v` of enum `e` with fields `fields`,
/// whose values were built as `tfs` (see [`enum_lit`]); a fresh variable is
/// drawn for each of the enum's type parameters.
#[verifier::loop_isolation(false)]
fn enum_lit_type<'a>(
    e: &str,
    v: &str,
    fields: &Vec<(String, Expr)>,
    tfs: &Vec<TypedExpr<'a>>,
    expected: Option<&Type>,
    span: &Span,
    ctx: &mut ConstructCtx<'a>,
) -> (r: Result<Type, GustError>)
    requires
        old(ctx).wf(),
        tfs.len() == fields.len(),
    ensures
        renumbered(*old(ctx), *final(ctx), old(ctx).next_id() + enum_draws(*old(ctx), e@, v@)),
        lit_res(enum_lit(*old(ctx), e@, v@, fnames(fields@), tys(tfs@), tyv(expected)), r, *span),
{
    let info = match ctx.enum_info(e) {
        Some(i) => i,
        None => {
            return Err(GustError::type_error(TypeErrorCode::T0003, text3("unknown enum `", e, "`"), span));
        },
    };
    let vi = match find_variant(&info.variants, v) {
        Some(i) => i,
        None => {
            let mut m = String::new();
            push_str(&mut m, "no variant `");
            push_str(&mut m, v);
            push_str(&mut m, "` on enum `");
            push_str(&mut m, e);
            push_str(&mut m, "`");
            return Err(GustError::type_error(TypeErrorCode::T0003, m, span));
        },
    };
    proof { lemma_first_variant(info.variants@, v@); }
    let next = ctx.next_id_now();
    let qs = &info.type_params;
    if !vars_room_exec(qs, next) {
        return Err(GustError::internal(String::from_str("type variables exhausted")));
    }
    let mut init = Substitution::new();
    let mut i: usize = 0;
    assert(qs@.take(0) =~= Seq::<TypeVar>::empty());
    while i < qs.len()
        invariant
            i <= qs.len(),
            vars_room(qs@, next),
            init@ == inst_map(qs@.take(i as int), next as nat),
            renumbered(*old(ctx), *ctx, next + i),
        decreases qs.len() - i,
    {
        let f = ctx.fresh();
        init.bind(qs[i], InferType::Var(f));
        assert(qs@.take(i + 1).drop_last() =~= qs@.take(i as int));
        i += 1;
    }
    assert(qs@.take(qs.len() as int) =~= qs@);
    proof { lemma_inst_room(qs@, next as nat); }
    let local = enum_fold_exec(&init, fields, tfs, &info.variants[vi].fields);
    let hints = enum_hint_args(expected, e, span);
    let ghost hv = crate::types::types_model(hints@);
    proof { crate::types::lemma_types_model(hints@); }
    let mut args: Vec<Type> = Vec::new();
    proof { crate::types::lemma_types_model(args@); }
    let mut k: usize = 0;
    while k < qs.len()
        invariant
            k <= qs.len(),
            vars_room(qs@, next),
            idempotent(local@),
            hv == crate::types::types_model(hints@),
            hv.len() == hints.len(),
            forall|j: int| 0 <= j < hints.len() ==> #[trigger] hv[j] == hints@[j]@,
            args.len() == k,
            forall|j: int| 0 <= j < k ==> #[trigger] enum_arg(local@, next as nat, j, hv) is Some,
            crate::types::types_model(args@) == Seq::new(k as nat, |j: int| enum_arg(local@, next as nat, j, hv)->Some_0),
        decreases qs.len() - k,
    {
        let id: u32 = next + k as u32;
        let var = InferType::Var(TypeVar(id));
        proof { lemma_apply_idempotent(local@, var@); }
        let r = local.apply(&var);
        let a = match &r {
            InferType::Var(_) => {
                if k < hints.len() {
                    clone_type(&hints[k])
                } else {
                    return Err(cannot_infer(span));
                }
            },
            _ => match infer_type_to_type(&r, span) {
                Ok(t) => t,
                Err(x) => {
                    return Err(x);
                },
            },
        };
        assert(enum_arg(local@, next as nat, k as int, hv) == Some(a@));
        proof { crate::types::lemma_types_model_push(args@, a); }
        args.push(a);
        assert(crate::types::types_model(args@) =~= Seq::new((k + 1) as nat, |j: int| enum_arg(local@, next as nat, j, hv)->Some_0));
        k += 1;
    }
    let nt = Type::Named(String::from_str(e), args);
    let it = type_to_infer(&nt);
    proof { lemma_type_to_infer_closed_all(nt@); }
    infer_type_to_type(&it, span)
}

proof fn lemma_cflds_err<'a>(fs: Seq<(String, Expr)>, k: int, d: Cv<'a>) -> (d2: Cv<'a>)
    requires
        0 <= k <= fs.len(),
        cflds_d(d, fs.take(k)),
        d.r is Err,
    ensures
        cflds_d(d2, fs),
        d2.s0 == d.s0,
        d2.r == d.r,
        d2.s1 == d.s1,
    decreases fs.len(),
{
    if k < fs.len() {
        assert(fs.drop_last().take(k) =~= fs.take(k));
        let d1 = lemma_cflds_err(fs.drop_last(), k, d);
        Cv { s0: d.s0, r: d.r, s1: d.s1, kids: seq![d1] }
    } else {
        assert(fs.take(k) =~= fs);
        d
    }
}

/// Build the typed values of a literal's fields in order (see [`cflds_d`]).
fn build_fields<'a>(fs: &'a Vec<(String, Expr)>, ctx: &mut ConstructCtx<'a>) -> (out: (Result<Vec<TypedExpr<'a>>, GustError>, Ghost<Cv<'a>>))
    requires
        old(ctx).wf(),
    ensures
        final(ctx).wf(),
        same_consts(*old(ctx), *final(ctx)),
        cflds_d(out.1@, fs@),
        out.0 is Ok ==> final(ctx).scopes().len() == old(ctx).scopes().len() && final(ctx).struct_scope_maps().len()
            == old(ctx).struct_scope_maps().len(),
        out.1@.s0 == *old(ctx),
        out.1@.s1 == *final(ctx),
        match out.0 {
            Ok(ts) => out.1@.r == Ok::<CVal<'a>, GustError>(CVal::Es(ts@)) && ts.len() == fs.len(),
            Err(x) => out.1@.r == Err::<CVal<'a>, GustError>(x),
        },
    decreases fs, 1nat,
{
    let ghost c0 = *ctx;
    let mut ts: Vec<TypedExpr<'a>> = Vec::new();
    let mut i: usize = 0;
    let ghost mut dacc = Cv { s0: c0, r: Ok(CVal::Es(Seq::empty())), s1: c0, kids: seq![] };
    assert(fs@.take(0) =~= Seq::<(String, Expr)>::empty());
    while i < fs.len()
        invariant
            i <= fs.len(),
            ctx.wf(),
            same_consts(*old(ctx), *ctx),
            c0 == *old(ctx),
            cflds_d(dacc, fs@.take(i as int)),
            ctx.scopes().len() == old(ctx).scopes().len(),
            ctx.struct_scope_maps().len() == old(ctx).struct_scope_maps().len(),
            dacc.s0 == c0,
            dacc.r == Ok::<CVal<'a>, GustError>(CVal::Es(ts@)),
            dacc.s1 == *ctx,
            ts.len() == i,
        decreases fs.len() - i,
    {
        proof {
            assert(fs@.take(i + 1).drop_last() =~= fs@.take(i as int));
            assert(fs@.take(i + 1).last() == fs@[i as int]);
        }
        let (rb, Ghost(db)) = build_expr(&fs[i].1, None, ctx);
        match rb {
            Ok(t) => {
                ts.push(t);
                proof {
                    dacc = Cv { s0: c0, r: Ok(CVal::Es(ts@)), s1: db.s1, kids: seq![dacc, db] };
                }
            },
            Err(x) => {
                let ghost d = Cv { s0: c0, r: db.r, s1: db.s1, kids: seq![dacc, db] };
                let ghost d2 = lemma_cflds_err(fs@, i + 1, d);
                return (Err(x), Ghost(d2));
            },
        }
        i += 1;
    }
    assert(fs@.take(fs.len() as int) =~= fs@);
    (Ok(ts), Ghost(dacc))
}

/// Build the typed form of a struct or variant literal.
fn build_struct_lit<'a>(expr: &'a Expr, expected: Option<&Type>, ctx: &mut ConstructCtx<'a>) -> (out: (Result<TypedExpr<'a>, GustError>, Ghost<Cv<'a>>))
    requires
        old(ctx).wf(),
        *expr is StructLiteral,
    ensures
        final(ctx).wf(),
        same_consts(*old(ctx), *final(ctx)),
        cx_d(out.1@, *expr, tyv(expected)),
        out.0 is Ok ==> final(ctx).scopes().len() == old(ctx).scopes().len() && final(ctx).struct_scope_maps().len()
            == old(ctx).struct_scope_maps().len(),
        out.1@.s0 == *old(ctx),
        out.1@.s1 == *final(ctx),
        match out.0 {
            Ok(t) => out.1@.r == Ok::<CVal<'a>, GustError>(CVal::E(t)),
            Err(x) => out.1@.r == Err::<CVal<'a>, GustError>(x),
        },
    decreases expr, 0nat,
{
    let ghost c0 = *ctx;
    match expr {
        Expr::StructLiteral { path, fields, span } => {
            let (rf, Ghost(df)) = build_fields(fields, ctx);
            let tfs = match rf {
                Ok(ts) => ts,
                Err(x) => {
                    return (Err(x), Ghost(Cv { s0: c0, r: df.r, s1: df.s1, kids: seq![df] }));
                },
            };
            let ghost c = *ctx;
            let r = if path.len() == 2 {
                enum_lit_type(path[0].as_str(), path[1].as_str(), fields, &tfs, expected, span, ctx)
            } else if path.len() == 0 {
                Err(GustError::internal(String::from_str("empty path in struct literal")))
            } else {
                struct_lit_type(path[path.len() - 1].as_str(), fields, &tfs, span, ctx)
            };
            assert(path.len() != 2 ==> *ctx == c);
            assert(path.len() > 0 ==> path@.last() == path@[path.len() - 1]);
            match r {
                Ok(ty) => {
                    let t = TypedExpr { src: expr, ty, parts: tfs, blocks: Vec::new() };
                    assert(t.blocks@ =~= Seq::<TypedBlock<'a>>::empty());
                    let ghost d = Cv { s0: c0, r: Ok(CVal::E(t)), s1: *ctx, kids: seq![df] };
                    (Ok(t), Ghost(d))
                },
                Err(x) => {
                    let ghost d = Cv { s0: c0, r: Err(x), s1: *ctx, kids: seq![df] };
                    (Err(x), Ghost(d))
                },
            }
        },
        _ => {
            assert(false);
            (Err(GustError::internal(String::from_str("unreachable"))), Ghost(arbitrary()))
        },
    }
}

/// The innermost scope of `c` once the resolved type of each top-level
/// function of `decls` whose scheme is fully resolved is bound in it, so
/// that a function can be named before its declaration.
pub open spec fn hoisted<'a>(c: ConstructCtx<'a>, decls: Seq<Decl>) -> Map<Seq<char>, TypeView>
    decreases decls.len(),
{
    if decls.len() == 0 {
        c.scopes().last()
    } else {
        let prev = hoisted(c, decls.drop_last());
        match decls.last() {
            Decl::Fun(fd) => if c.schemes().contains_key(fd.name@) && fv(c.schemes()[fd.name@].ty@) == Set::<u32>::empty() {
                prev.insert(fd.name@, infer_to_type(c.schemes()[fd.name@].ty@))
            } else {
                prev
            },
            _ => prev,
        }
    }
}

/// What building the typed form of a program of declarations `decls` from
/// context `c0` gives: the functions are hoisted, then the declarations
/// are built in order.
pub open spec fn program_rel<'a>(decls: Seq<Decl>, c0: ConstructCtx<'a>, r: Result<Vec<TypedDecl<'a>>, GustError>, c1: ConstructCtx<'a>) -> bool {
    exists|d: Cv<'a>| #[trigger] cds_d(d, decls) && d.s1 == c1 && moved(
        c0,
        d.s0,
        c0.scopes().update(c0.scopes().len() - 1, hoisted(c0, decls)),
        c0.struct_scope_maps(),
    ) && match r {
        Ok(ts) => d.r == Ok::<CVal<'a>, GustError>(CVal::Ds(ts@)),
        Err(x) => d.r == Err::<CVal<'a>, GustError>(x),
    }
}

/// Build the typed form of `program` (see [`program_rel`]) in the context
/// made from the solved first pass.
pub fn construct_program<'a>(program: &'a crate::syntax::Program, ctx: &mut ConstructCtx<'a>) -> (r: Result<Vec<TypedDecl<'a>>, GustError>)
    requires
        old(ctx).wf(),
        old(ctx).scopes().len() > 0,
    ensures
        final(ctx).wf(),
        same_consts(*old(ctx), *final(ctx)),
        program_rel(program.decls@, *old(ctx), r, *final(ctx)),
{
    let ghost c0 = *ctx;
    let ghost decls = program.decls@;
    let mut i: usize = 0;
    assert(c0.scopes().update(c0.scopes().len() - 1, hoisted(c0, decls.take(0))) =~= c0.scopes());
    while i < program.decls.len()
        invariant
            i <= program.decls.len(),
            decls == program.decls@,
            c0 == *old(ctx),
            c0.wf(),
            c0.scopes().len() > 0,
            moved(c0, *ctx, c0.scopes().update(c0.scopes().len() - 1, hoisted(c0, decls.take(i as int))), c0.struct_scope_maps()),
        decreases program.decls.len() - i,
    {
        proof {
            assert(decls.take(i + 1).drop_last() =~= decls.take(i as int));
            assert(decls.take(i + 1).last() == decls[i as int]);
        }
        match &program.decls[i] {
            Decl::Fun(fd) => {
                match ctx.scheme(fd.name.as_str()) {
                    Some(sc) => {
                        match infer_type_to_type(&sc.ty, &fd.span) {
                            Ok(t) => {
                                ctx.bind(fd.name.clone(), t);
                            },
                            Err(_) => {},
                        }
                    },
                    None => {},
                }
            },
            _ => {},
        }
        proof {
            let a = c0.scopes().update(c0.scopes().len() - 1, hoisted(c0, decls.take(i + 1)));
            assert(ctx.scopes() =~= a);
        }
        i += 1;
    }
    assert(decls.take(program.decls.len() as int) =~= decls);
    let (r, Ghost(d)) = build_decls(&program.decls, ctx);
    r
}

} // verus!
