use std::collections::HashSet;

use lib::ast::Span;
use lib::error::{GustError, InternalErrorCode, TypeErrorCode};
use lib::typeinference::{
    free_vars, generalize, instantiate, solve_constraints, unify, Constraint, InferType, Substitution, TypeScheme,
    TypeVar, TypeVarGenerator,
};
use lib::types::Type;

fn span(name: &str) -> Span {
    Span::new(1, 2, name.to_string())
}

fn int_t() -> InferType {
    InferType::integer()
}

fn var(n: u32) -> InferType {
    InferType::Var(TypeVar(n))
}

fn named(n: &str, args: Vec<InferType>) -> InferType {
    InferType::Named(n.to_string(), args)
}

fn fun(ps: Vec<InferType>, r: InferType) -> InferType {
    InferType::Fun(ps, Box::new(r))
}

// ── Generator ────────────────────────────────────────────────────────────────

#[test]
fn generator_hands_out_consecutive_ids() {
    let mut g = TypeVarGenerator::new();
    assert_eq!(g.fresh(), TypeVar(0));
    assert_eq!(g.fresh(), TypeVar(1));
    assert_eq!(g.counter(), 2);
    let mut h = TypeVarGenerator::with_counter(10);
    assert_eq!(h.fresh(), TypeVar(10));
    assert_eq!(h.counter(), 11);
}

#[test]
fn generator_default_starts_at_zero() {
    let g = TypeVarGenerator::default();
    assert_eq!(g.counter(), 0);
}

// ── Rendering ────────────────────────────────────────────────────────────────

#[test]
fn renders_inference_types() {
    assert_eq!(var(3).to_display_string(), "?t3");
    assert_eq!(TypeVar(12).to_display_string(), "?t12");
    assert_eq!(int_t().to_display_string(), "Int");
    assert_eq!(InferType::str().to_display_string(), "String");
    assert_eq!(InferType::unit().to_display_string(), "()");
    assert_eq!(InferType::never().to_display_string(), "!");
    assert_eq!(fun(vec![int_t(), var(0)], InferType::bool()).to_display_string(), "fun(Int, ?t0) -> Bool");
    assert_eq!(fun(vec![], int_t()).to_display_string(), "fun() -> Int");
    assert_eq!(InferType::Tuple(vec![int_t(), InferType::float()]).to_display_string(), "(Int, Float)");
    assert_eq!(InferType::Array(Box::new(var(1))).to_display_string(), "?t1[]");
    assert_eq!(named("Perhaps", vec![int_t()]).to_display_string(), "Perhaps<Int>");
    assert_eq!(named("Point", vec![]).to_display_string(), "Point");
}

#[test]
fn renders_resolved_types() {
    assert_eq!(Type::Int.to_display_string(), "Int");
    assert_eq!(Type::Str.to_display_string(), "String");
    assert_eq!(Type::Never.to_display_string(), "!");
    assert_eq!(Type::Tuple(vec![Type::Int, Type::Bool]).to_display_string(), "(Int, Bool)");
    assert_eq!(Type::Array(Box::new(Type::Float)).to_display_string(), "Float[]");
    assert_eq!(Type::Fun(vec![Type::Int], Box::new(Type::Bool)).to_display_string(), "fun(Int) -> Bool");
    assert_eq!(Type::Named("Point".into(), vec![Type::Int]).to_display_string(), "Point<Int>");
    assert_eq!(Type::Perhaps(Box::new(Type::Int)).to_display_string(), "Perhaps<Int>");
    assert_eq!(
        Type::Result(Box::new(Type::Int), Box::new(Type::Str)).to_display_string(),
        "Result<Int, String>"
    );
}

// ── Substitutions ────────────────────────────────────────────────────────────

#[test]
fn empty_substitution_changes_nothing() {
    let s = Substitution::new();
    let t = fun(vec![var(0), named("List", vec![var(1)])], var(2));
    assert_eq!(s.apply(&t), t);
}

#[test]
fn apply_chases_bindings_transitively() {
    let mut s = Substitution::new();
    s.bind(TypeVar(0), var(1));
    s.bind(TypeVar(1), int_t());
    assert_eq!(s.apply(&var(0)), int_t());
    assert_eq!(s.apply(&InferType::Array(Box::new(var(0)))), InferType::Array(Box::new(int_t())));
    assert_eq!(s.lookup(TypeVar(0)), Some(&var(1)));
    assert_eq!(s.lookup(TypeVar(7)), None);
}

#[test]
fn compose_applies_first_then_second() {
    let mut s1 = Substitution::new();
    s1.bind(TypeVar(0), var(1));
    let mut s2 = Substitution::new();
    s2.bind(TypeVar(1), InferType::bool());
    let c = s1.compose(&s2);
    let t = InferType::Tuple(vec![var(0), var(1), var(2)]);
    assert_eq!(c.apply(&t), s2.apply(&s1.apply(&t)));
    assert_eq!(c.apply(&t), InferType::Tuple(vec![InferType::bool(), InferType::bool(), var(2)]));
}

#[test]
fn compose_keeps_first_binding_on_overlap() {
    let mut s1 = Substitution::new();
    s1.bind(TypeVar(0), int_t());
    let mut s2 = Substitution::new();
    s2.bind(TypeVar(0), InferType::bool());
    let c = s1.compose(&s2);
    assert_eq!(c.apply(&var(0)), int_t());
}

// ── Unification ──────────────────────────────────────────────────────────────

#[test]
fn unify_identical_types_needs_no_binding() {
    let t = fun(vec![int_t(), var(4)], named("P", vec![var(5)]));
    let s = unify(&t, &t).unwrap();
    assert_eq!(s.apply(&var(4)), var(4));
    assert_eq!(s.lookup(TypeVar(4)), None);
}

#[test]
fn unify_binds_variable_to_type() {
    let s = unify(&var(0), &int_t()).unwrap();
    assert_eq!(s.apply(&var(0)), int_t());
    let s = unify(&InferType::str(), &var(3)).unwrap();
    assert_eq!(s.apply(&var(3)), InferType::str());
}

#[test]
fn unify_structural_types() {
    let a = fun(vec![var(0), int_t()], var(1));
    let b = fun(vec![InferType::bool(), var(2)], named("Box", vec![var(0)]));
    let s = unify(&a, &b).unwrap();
    assert_eq!(s.apply(&a), s.apply(&b));
    assert_eq!(s.apply(&var(1)), named("Box", vec![InferType::bool()]));
    assert_eq!(s.apply(&var(2)), int_t());
}

#[test]
fn never_unifies_with_anything() {
    let s = unify(&InferType::never(), &fun(vec![int_t()], int_t())).unwrap();
    assert_eq!(s.lookup(TypeVar(0)), None);
    let s = unify(&var(0), &InferType::never()).unwrap();
    assert_eq!(s.lookup(TypeVar(0)), None);
}

fn internal_message(e: GustError) -> String {
    match e {
        GustError::Internal { code, message } => {
            assert_eq!(code, InternalErrorCode::I0001);
            message
        }
        other => panic!("expected an internal error, got {other:?}"),
    }
}

#[test]
fn unify_mismatch_reports_both_types() {
    let e = unify(&int_t(), &InferType::bool()).unwrap_err();
    assert_eq!(internal_message(e), "cannot unify Int with Bool");
    let e = unify(&named("A", vec![]), &named("B", vec![])).unwrap_err();
    assert_eq!(internal_message(e), "cannot unify A with B");
    let e = unify(&fun(vec![int_t()], int_t()), &fun(vec![], int_t())).unwrap_err();
    assert_eq!(internal_message(e), "cannot unify fun(Int) -> Int with fun() -> Int");
}

#[test]
fn unify_occurs_check_rejects_infinite_type() {
    let e = unify(&var(0), &InferType::Array(Box::new(var(0)))).unwrap_err();
    assert_eq!(internal_message(e), "occurs check failed: ?t0 occurs in ?t0[]");
}

// ── Constraint solving ───────────────────────────────────────────────────────

#[test]
fn solve_threads_bindings_through_constraints() {
    let cs = vec![
        Constraint::new(var(0), var(1), span("a")),
        Constraint::new(var(1), int_t(), span("b")),
        Constraint::new(var(2), fun(vec![var(0)], var(1)), span("c")),
    ];
    let s = solve_constraints(cs).unwrap();
    assert_eq!(s.apply(&var(0)), int_t());
    assert_eq!(s.apply(&var(2)), fun(vec![int_t()], int_t()));
}

#[test]
fn solve_no_constraints_is_empty() {
    let s = solve_constraints(vec![]).unwrap();
    assert_eq!(s.lookup(TypeVar(0)), None);
}

#[test]
fn solve_reports_first_failing_constraint_span() {
    let cs = vec![
        Constraint::new(var(0), int_t(), span("first")),
        Constraint::new(var(0), InferType::bool(), span("second")),
    ];
    let e = solve_constraints(cs).unwrap_err();
    match e {
        GustError::TypeError { code, message, filename, start, end, .. } => {
            assert_eq!(code, TypeErrorCode::T0001);
            assert_eq!(message, "cannot unify Int with Bool");
            assert_eq!(filename, "second");
            assert_eq!((start, end), (1, 2));
        }
        other => panic!("expected a type error, got {other:?}"),
    }
}

// ── Schemes ──────────────────────────────────────────────────────────────────

#[test]
fn free_vars_collects_every_variable() {
    let t = fun(vec![var(3), named("P", vec![var(1)])], InferType::Tuple(vec![var(3), int_t()]));
    let fv = free_vars(&t);
    let expected: HashSet<u32> = [1, 3].into_iter().collect();
    assert_eq!(fv, expected);
    assert!(free_vars(&int_t()).is_empty());
}

#[test]
fn generalize_quantifies_vars_not_in_env_sorted() {
    let t = fun(vec![var(5), var(2)], var(9));
    let env: HashSet<u32> = [9].into_iter().collect();
    let s = generalize(t.clone(), &env);
    assert_eq!(s.quantified_vars, vec![TypeVar(2), TypeVar(5)]);
    assert_eq!(s.ty, t);
}

#[test]
fn mono_scheme_quantifies_nothing() {
    let s = TypeScheme::mono(int_t());
    assert!(s.quantified_vars.is_empty());
    assert_eq!(s.ty, int_t());
}

#[test]
fn instantiate_replaces_quantified_with_fresh() {
    let scheme = TypeScheme { quantified_vars: vec![TypeVar(0), TypeVar(1)], ty: fun(vec![var(0)], var(1)) };
    let mut g = TypeVarGenerator::with_counter(10);
    let t = instantiate(&scheme, &mut g);
    assert_eq!(t, fun(vec![var(10)], var(11)));
    assert_eq!(g.counter(), 12);
    let t2 = instantiate(&scheme, &mut g);
    assert_eq!(t2, fun(vec![var(12)], var(13)));
}

#[test]
fn instantiate_leaves_free_variables() {
    let scheme = TypeScheme { quantified_vars: vec![TypeVar(0)], ty: fun(vec![var(0)], var(7)) };
    let mut g = TypeVarGenerator::with_counter(20);
    assert_eq!(instantiate(&scheme, &mut g), fun(vec![var(20)], var(7)));
}

// ── Generality ───────────────────────────────────────────────────────────────

#[test]
fn unification_is_most_general() {
    // Any substitution that equates the two sides factors through the result.
    let a = InferType::Tuple(vec![var(0), var(1)]);
    let b = InferType::Tuple(vec![var(1), var(2)]);
    let s = unify(&a, &b).unwrap();
    let mut m = Substitution::new();
    m.bind(TypeVar(0), int_t());
    m.bind(TypeVar(1), int_t());
    m.bind(TypeVar(2), int_t());
    assert_eq!(m.apply(&a), m.apply(&b));
    for t in [var(0), var(1), var(2), a.clone(), b.clone()] {
        assert_eq!(m.apply(&s.apply(&t)), m.apply(&t));
    }
    // The result commits to no concrete type: every variable maps to a variable.
    let left_free = [var(0), var(1), var(2)].iter().map(|v| s.apply(v)).filter(|t| matches!(t, InferType::Var(_))).count();
    assert_eq!(left_free, 3);
    assert_eq!(s.apply(&var(0)), s.apply(&var(2)));
}

#[test]
fn unification_fails_only_without_an_equating_substitution() {
    // No substitution makes `(a, a)` equal to `(Int, Bool)`.
    assert!(unify(&InferType::Tuple(vec![var(0), var(0)]), &InferType::Tuple(vec![int_t(), InferType::bool()])).is_err());
    // Constraints that some substitution satisfies are always solved.
    let cs = vec![
        Constraint::new(var(0), fun(vec![var(1)], var(2)), span("a")),
        Constraint::new(var(1), int_t(), span("b")),
        Constraint::new(var(0), fun(vec![int_t()], InferType::bool()), span("c")),
    ];
    let s = solve_constraints(cs).unwrap();
    assert_eq!(s.apply(&var(0)), fun(vec![int_t()], InferType::bool()));
    assert_eq!(s.apply(&var(2)), InferType::bool());
}

#[test]
fn unification_result_equates_unifiable_types() {
    let a = InferType::Fun(vec![var(0), InferType::bool()], Box::new(InferType::integer()));
    let b = InferType::Fun(vec![InferType::str(), var(1)], Box::new(var(2)));
    let s = unify(&a, &b).unwrap();
    assert_eq!(s.apply(&a), s.apply(&b));
    assert_eq!(s.apply(&b), InferType::Fun(vec![InferType::str(), InferType::bool()], Box::new(InferType::integer())));
    // No substitution makes `fun(?t0) -> Int` equal to `fun(Bool) -> Bool`.
    let c = InferType::Fun(vec![var(0)], Box::new(InferType::integer()));
    let d = InferType::Fun(vec![InferType::bool()], Box::new(InferType::bool()));
    assert!(unify(&c, &d).is_err());
}
