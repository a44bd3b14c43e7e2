//! Conversions between source type expressions, inference types and
//! resolved types.

use vstd::prelude::*;

use crate::ast::{Span, TypeExpr, TypeExprView, type_expr_model, type_exprs_model, lemma_type_exprs_model};
use crate::error::{GustError, TypeErrorCode, is_type_error};
use crate::strmap::StrMap;
use crate::text::str_eq;
use crate::types::{Type, TypeView, clone_type, type_model, types_model, lemma_types_model, lemma_types_model_push};
use crate::typeinference::model::{InferTypeView, fv, fv_seq, occurs, occurs_seq, lemma_occurs_seq, apply_spec, terminates};
use crate::typeinference::{
    InferType, Substitution, TypeVar, infer_model, infers_model, lemma_infers_model, lemma_infers_model_push,
};

verus! {

/// The inference type of a source type expression, where `g` maps the names
/// of generic parameters in scope to their type variables. A zero-argument
/// name that is a generic parameter becomes its variable; `Int`, `Float`,
/// `Bool`, `String` are concrete, `Never` is the bottom type; any other name
/// is a named type; `()` is the unit type; a function without a return type
/// returns unit.
pub open spec fn te_to_infer(t: TypeExprView, g: Map<Seq<char>, u32>) -> InferTypeView
    decreases t, 0nat,
{
    match t {
        TypeExprView::Named(name, args) => if args.len() == 0 && g.contains_key(name) {
            InferTypeView::Var(g[name])
        } else if args.len() == 0 && name == "Int"@ {
            InferTypeView::Concrete(TypeView::Int)
        } else if args.len() == 0 && name == "Float"@ {
            InferTypeView::Concrete(TypeView::Float)
        } else if args.len() == 0 && name == "Bool"@ {
            InferTypeView::Concrete(TypeView::Bool)
        } else if args.len() == 0 && name == "String"@ {
            InferTypeView::Concrete(TypeView::Str)
        } else if args.len() == 0 && name == "Never"@ {
            InferTypeView::Never
        } else {
            InferTypeView::Named(name, tes_to_infer(args, g))
        },
        TypeExprView::Unit => InferTypeView::Concrete(TypeView::Unit),
        TypeExprView::Tuple(ts) => InferTypeView::Tuple(tes_to_infer(ts, g)),
        TypeExprView::Array(e) => InferTypeView::Array(Box::new(te_to_infer(*e, g))),
        TypeExprView::Fun(ps, ret) => InferTypeView::Fun(
            tes_to_infer(ps, g),
            Box::new(
                match ret {
                    Some(r) => te_to_infer(*r, g),
                    None => InferTypeView::Concrete(TypeView::Unit),
                },
            ),
        ),
    }
}

pub open spec fn tes_to_infer(s: Seq<TypeExprView>, g: Map<Seq<char>, u32>) -> Seq<InferTypeView>
    decreases s, 1nat,
{
    if s.len() == 0 {
        Seq::empty()
    } else {
        tes_to_infer(s.drop_last(), g).push(te_to_infer(s.last(), g))
    }
}

/// The ids of the variables a generic-parameter map holds.
pub open spec fn generic_ids(generics: Map<Seq<char>, TypeVar>) -> Map<Seq<char>, u32> {
    generics.map_values(|v: TypeVar| v.0)
}

fn name_is(name: &String, lit: &str) -> (r: bool)
    ensures
        r == (name@ == lit@),
{
    str_eq(name.as_str(), lit)
}

/// Like `type_expr_to_infer` but substitutes known generic parameter names
/// with their corresponding `InferType::Var`s.
pub fn type_expr_to_infer_with_generics(te: &TypeExpr, generics: &StrMap<TypeVar>) -> (r: InferType)
    requires
        generics.wf(),
    ensures
        r@ == te_to_infer(te@, generic_ids(generics.view())),
    decreases te, 0nat,
{
    let ghost g = generic_ids(generics.view());
    match te {
        TypeExpr::Named(name, args) => {
            proof { lemma_type_exprs_model(args@); }
            if args.len() == 0 {
                if let Some(tv) = generics.get(name.as_str()) {
                    return InferType::Var(*tv);
                }
            }
            let arg_tys = type_exprs_to_infer_with_generics(args, generics);
            if args.len() == 0 && name_is(name, "Int") {
                InferType::integer()
            } else if args.len() == 0 && name_is(name, "Float") {
                InferType::float()
            } else if args.len() == 0 && name_is(name, "Bool") {
                InferType::bool()
            } else if args.len() == 0 && name_is(name, "String") {
                InferType::str()
            } else if args.len() == 0 && name_is(name, "Never") {
                InferType::never()
            } else {
                InferType::Named(name.clone(), arg_tys)
            }
        },
        TypeExpr::Unit => InferType::unit(),
        TypeExpr::Tuple(ts) => InferType::Tuple(type_exprs_to_infer_with_generics(ts, generics)),
        TypeExpr::Array(t) => InferType::Array(Box::new(type_expr_to_infer_with_generics(t, generics))),
        TypeExpr::Fun(ps, ret) => {
            let params = type_exprs_to_infer_with_generics(ps, generics);
            let r = match ret {
                Some(rt) => type_expr_to_infer_with_generics(rt, generics),
                None => InferType::unit(),
            };
            InferType::Fun(params, Box::new(r))
        },
    }
}

fn type_exprs_to_infer_with_generics(ts: &Vec<TypeExpr>, generics: &StrMap<TypeVar>) -> (r: Vec<InferType>)
    requires
        generics.wf(),
    ensures
        infers_model(r@) == tes_to_infer(type_exprs_model(ts@), generic_ids(generics.view())),
    decreases ts, 1nat,
{
    let ghost g = generic_ids(generics.view());
    let ghost m = type_exprs_model(ts@);
    proof { lemma_type_exprs_model(ts@); }
    let mut r: Vec<InferType> = Vec::new();
    let mut i: usize = 0;
    while i < ts.len()
        invariant
            i <= ts.len(),
            generics.wf(),
            g == generic_ids(generics.view()),
            m == type_exprs_model(ts@),
            m.len() == ts.len(),
            forall|j: int| 0 <= j < ts.len() ==> #[trigger] m[j] == type_expr_model(&ts@[j]),
            infers_model(r@) == tes_to_infer(m.take(i as int), g),
        decreases ts.len() - i,
    {
        let c = type_expr_to_infer_with_generics(&ts[i], generics);
        proof {
            lemma_infers_model_push(r@, c);
            assert(m.take(i as int + 1).drop_last() =~= m.take(i as int));
        }
        r.push(c);
        i += 1;
    }
    assert(m.take(ts.len() as int) =~= m);
    r
}

/// Convert a source-level `TypeExpr` to an `InferType` for use during inference.
pub fn type_expr_to_infer(te: &TypeExpr) -> (r: InferType)
    ensures
        r@ == te_to_infer(te@, Map::empty()),
{
    let generics: StrMap<TypeVar> = StrMap::new();
    assert(generic_ids(generics.view()) =~= Map::<Seq<char>, u32>::empty());
    type_expr_to_infer_with_generics(te, &generics)
}

/// The resolved type of an inference type without variables: concrete types
/// as they are, `Never` as the bottom type, and the other constructors
/// element by element.
pub open spec fn infer_to_type(t: InferTypeView) -> TypeView
    decreases t, 0nat,
{
    match t {
        InferTypeView::Concrete(c) => c,
        InferTypeView::Never => TypeView::Never,
        InferTypeView::Var(_) => TypeView::Never,
        InferTypeView::Fun(ps, r) => TypeView::Fun(infers_to_types(ps), Box::new(infer_to_type(*r))),
        InferTypeView::Tuple(ts) => TypeView::Tuple(infers_to_types(ts)),
        InferTypeView::Array(e) => TypeView::Array(Box::new(infer_to_type(*e))),
        InferTypeView::Named(n, args) => TypeView::Named(n, infers_to_types(args)),
    }
}

pub open spec fn infers_to_types(s: Seq<InferTypeView>) -> Seq<TypeView>
    decreases s, 1nat,
{
    if s.len() == 0 {
        Seq::empty()
    } else {
        infers_to_types(s.drop_last()).push(infer_to_type(s.last()))
    }
}

proof fn lemma_union_empty(a: Set<u32>, b: Set<u32>)
    ensures
        (a.union(b) == Set::<u32>::empty()) <==> (a == Set::<u32>::empty() && b == Set::<u32>::empty()),
{
    if a.union(b) == Set::<u32>::empty() {
        assert(a =~= Set::<u32>::empty()) by {
            assert forall|x: u32| !a.contains(x) by {
                assert(!a.union(b).contains(x));
            }
        }
        assert(b =~= Set::<u32>::empty()) by {
            assert forall|x: u32| !b.contains(x) by {
                assert(!a.union(b).contains(x));
            }
        }
    }
    if a == Set::<u32>::empty() && b == Set::<u32>::empty() {
        assert(a.union(b) =~= Set::<u32>::empty());
    }
}

/// The message when a type variable is left unresolved.
pub open spec fn cannot_infer_text() -> Seq<char> {
    "cannot infer type; add a type annotation"@
}

pub(crate) fn cannot_infer(span: &Span) -> (e: GustError)
    ensures
        is_type_error(e, TypeErrorCode::T0002, cannot_infer_text(), *span),
{
    GustError::type_error(TypeErrorCode::T0002, String::from_str("cannot infer type; add a type annotation"), span)
}

/// Convert a fully solved `InferType` to a concrete `Type`; `T0002` if any
/// type variable is still unresolved.
pub fn infer_type_to_type(ty: &InferType, span: &Span) -> (r: Result<Type, GustError>)
    ensures
        r is Ok <==> fv(ty@) == Set::<u32>::empty(),
        r matches Ok(t) ==> t@ == infer_to_type(ty@),
        r matches Err(e) ==> is_type_error(e, TypeErrorCode::T0002, cannot_infer_text(), *span),
    decreases ty, 0nat,
{
    let r = match ty {
        InferType::Concrete(t) => Ok(clone_type(t)),
        InferType::Never => Ok(Type::Never),
        InferType::Var(v) => {
            assert(fv(ty@).contains(v.0));
            Err(cannot_infer(span))
        },
        InferType::Fun(params, ret) => {
            match infer_types_to_types(params, span) {
                Err(e) => {
                    Err(e)
                },
                Ok(p) => match infer_type_to_type(ret, span) {
                    Err(e) => {
                        Err(e)
                    },
                    Ok(rt) => Ok(Type::Fun(p, Box::new(rt))),
                },
            }
        },
        InferType::Tuple(ts) => match infer_types_to_types(ts, span) {
            Err(e) => Err(e),
            Ok(t) => Ok(Type::Tuple(t)),
        },
        InferType::Array(t) => match infer_type_to_type(t, span) {
            Err(e) => Err(e),
            Ok(t) => Ok(Type::Array(Box::new(t))),
        },
        InferType::Named(name, args) => match infer_types_to_types(args, span) {
            Err(e) => Err(e),
            Ok(a) => Ok(Type::Named(name.clone(), a)),
        },
    };
    proof {
        match ty@ {
            InferTypeView::Fun(ps, rt) => {
                assert(fv(ty@) =~= fv_seq(ps).union(fv(*rt)));
                lemma_union_empty(fv_seq(ps), fv(*rt));
            },
            InferTypeView::Tuple(ts) => {
                assert(fv(ty@) =~= fv_seq(ts));
            },
            InferTypeView::Array(e) => {
                assert(fv(ty@) =~= fv(*e));
            },
            InferTypeView::Named(_, args) => {
                assert(fv(ty@) =~= fv_seq(args));
            },
            InferTypeView::Var(_) => {},
            _ => {
                assert(fv(ty@) =~= Set::<u32>::empty());
            },
        }
    }
    r
}

fn infer_types_to_types(ts: &Vec<InferType>, span: &Span) -> (r: Result<Vec<Type>, GustError>)
    ensures
        r is Ok <==> fv_seq(infers_model(ts@)) == Set::<u32>::empty(),
        r matches Ok(t) ==> types_model(t@) == infers_to_types(infers_model(ts@)),
        r matches Err(e) ==> is_type_error(e, TypeErrorCode::T0002, cannot_infer_text(), *span),
    decreases ts, 1nat,
{
    let ghost m = infers_model(ts@);
    proof {
        lemma_infers_model(ts@);
        lemma_occurs_seq(0, m);
    }
    let mut out: Vec<Type> = Vec::new();
    let mut i: usize = 0;
    while i < ts.len()
        invariant
            i <= ts.len(),
            m == infers_model(ts@),
            m.len() == ts.len(),
            forall|j: int| 0 <= j < ts.len() ==> #[trigger] m[j] == infer_model(&ts@[j]),
            forall|j: int| 0 <= j < i ==> fv(#[trigger] m[j]) == Set::<u32>::empty(),
            types_model(out@) == infers_to_types(m.take(i as int)),
        decreases ts.len() - i,
    {
        match infer_type_to_type(&ts[i], span) {
            Err(e) => {
                proof {
                    if forall|v: u32| !#[trigger] fv(m[i as int]).contains(v) {
                        assert(fv(m[i as int]) =~= Set::<u32>::empty());
                    }
                    let v = choose|v: u32| fv(m[i as int]).contains(v);
                    assert(fv(m[i as int]).contains(v));
                    lemma_occurs_seq(v, m);
                    assert(fv_seq(m).contains(v));
                }
                return Err(e);
            },
            Ok(t) => {
                proof {
                    lemma_types_model_push(out@, t);
                    assert(m.take(i as int + 1).drop_last() =~= m.take(i as int));
                }
                out.push(t);
            },
        }
        i += 1;
    }
    proof {
        assert(m.take(ts.len() as int) =~= m);
        assert forall|v: u32| !#[trigger] fv_seq(m).contains(v) by {
            lemma_occurs_seq(v, m);
            if occurs_seq(v, m) {
                let j = choose|j: int| 0 <= j < m.len() && #[trigger] occurs(v, m[j]);
                assert(fv(m[j]).contains(v));
            }
        }
        assert(fv_seq(m) =~= Set::<u32>::empty());
    }
    Ok(out)
}

/// `infer_type_to_type` of `ty` after applying `subst`.
pub fn resolved_to_type(ty: &InferType, subst: &Substitution, span: &Span) -> (r: Result<Type, GustError>)
    requires
        terminates(subst@, ty@),
    ensures
        r is Ok <==> fv(apply_spec(subst@, ty@)) == Set::<u32>::empty(),
        r matches Ok(t) ==> t@ == infer_to_type(apply_spec(subst@, ty@)),
        r matches Err(e) ==> is_type_error(e, TypeErrorCode::T0002, cannot_infer_text(), *span),
{
    infer_type_to_type(&subst.apply(ty), span)
}

/// The inference type of a resolved type: the bottom type, arrays, tuples,
/// functions and named types structurally; every other type as concrete.
pub open spec fn type_to_infer_spec(t: TypeView) -> InferTypeView
    decreases t, 0nat,
{
    match t {
        TypeView::Never => InferTypeView::Never,
        TypeView::Array(e) => InferTypeView::Array(Box::new(type_to_infer_spec(*e))),
        TypeView::Tuple(ts) => InferTypeView::Tuple(types_to_infer_spec(ts)),
        TypeView::Fun(ps, r) => InferTypeView::Fun(types_to_infer_spec(ps), Box::new(type_to_infer_spec(*r))),
        TypeView::Named(n, args) => InferTypeView::Named(n, types_to_infer_spec(args)),
        _ => InferTypeView::Concrete(t),
    }
}

pub open spec fn types_to_infer_spec(s: Seq<TypeView>) -> Seq<InferTypeView>
    decreases s, 1nat,
{
    if s.len() == 0 {
        Seq::empty()
    } else {
        types_to_infer_spec(s.drop_last()).push(type_to_infer_spec(s.last()))
    }
}

/// Convert a resolved type back to an inference type.
pub fn type_to_infer(ty: &Type) -> (r: InferType)
    ensures
        r@ == type_to_infer_spec(ty@),
    decreases ty, 0nat,
{
    match ty {
        Type::Never => InferType::Never,
        Type::Array(t) => InferType::Array(Box::new(type_to_infer(t))),
        Type::Tuple(ts) => InferType::Tuple(types_to_infer(ts)),
        Type::Fun(ps, ret) => InferType::Fun(types_to_infer(ps), Box::new(type_to_infer(ret))),
        Type::Named(n, args) => InferType::Named(n.clone(), types_to_infer(args)),
        other => InferType::Concrete(clone_type(other)),
    }
}

fn types_to_infer(ts: &Vec<Type>) -> (r: Vec<InferType>)
    ensures
        infers_model(r@) == types_to_infer_spec(types_model(ts@)),
    decreases ts, 1nat,
{
    let ghost m = types_model(ts@);
    proof { lemma_types_model(ts@); }
    let mut r: Vec<InferType> = Vec::new();
    let mut i: usize = 0;
    while i < ts.len()
        invariant
            i <= ts.len(),
            m == types_model(ts@),
            m.len() == ts.len(),
            forall|j: int| 0 <= j < ts.len() ==> #[trigger] m[j] == type_model(&ts@[j]),
            infers_model(r@) == types_to_infer_spec(m.take(i as int)),
        decreases ts.len() - i,
    {
        let c = type_to_infer(&ts[i]);
        proof {
            lemma_infers_model_push(r@, c);
            assert(m.take(i as int + 1).drop_last() =~= m.take(i as int));
        }
        r.push(c);
        i += 1;
    }
    assert(m.take(ts.len() as int) =~= m);
    r
}

/// A resolved type, seen as an inference type, has no type variables.
pub proof fn lemma_type_to_infer_closed(t: TypeView, w: u32)
    ensures
        !occurs(w, type_to_infer_spec(t)),
    decreases t, 0nat,
{
    match t {
        TypeView::Array(e) => lemma_type_to_infer_closed(*e, w),
        TypeView::Tuple(ts) => lemma_types_to_infer_closed(ts, w),
        TypeView::Fun(ps, r) => {
            lemma_types_to_infer_closed(ps, w);
            lemma_type_to_infer_closed(*r, w);
        },
        TypeView::Named(_, args) => lemma_types_to_infer_closed(args, w),
        _ => {},
    }
}

pub proof fn lemma_types_to_infer_closed(s: Seq<TypeView>, w: u32)
    ensures
        !occurs_seq(w, types_to_infer_spec(s)),
    decreases s, 1nat,
{
    if s.len() > 0 {
        lemma_types_to_infer_closed(s.drop_last(), w);
        lemma_type_to_infer_closed(s.last(), w);
        let ts = types_to_infer_spec(s);
        assert(ts.drop_last() =~= types_to_infer_spec(s.drop_last()));
        assert(ts.last() == type_to_infer_spec(s.last()));
    }
}

pub proof fn lemma_types_to_infer_spec(s: Seq<TypeView>)
    ensures
        types_to_infer_spec(s).len() == s.len(),
        forall|i: int| 0 <= i < s.len() ==> #[trigger] types_to_infer_spec(s)[i] == type_to_infer_spec(s[i]),
    decreases s.len(),
{
    if s.len() > 0 {
        lemma_types_to_infer_spec(s.drop_last());
    }
}

/// A resolved type, seen as an inference type, has no free variables.
pub proof fn lemma_type_to_infer_closed_all(t: TypeView)
    ensures
        fv(type_to_infer_spec(t)) == Set::<u32>::empty(),
{
    assert forall|w: u32| !fv(type_to_infer_spec(t)).contains(w) by {
        lemma_type_to_infer_closed(t, w);
    }
    assert(fv(type_to_infer_spec(t)) =~= Set::<u32>::empty());
}

} // verus!
