//! The mathematical model of inference types and substitutions, with the
//! lemmas that the engine's proofs rest on.

use vstd::prelude::*;

use crate::types::TypeView;

verus! {

/// Mathematical model of an inference type: type variables are their ids.
pub enum InferTypeView {
    Concrete(TypeView),
    Var(u32),
    Never,
    Fun(Seq<InferTypeView>, Box<InferTypeView>),
    Tuple(Seq<InferTypeView>),
    Array(Box<InferTypeView>),
    Named(Seq<char>, Seq<InferTypeView>),
}

// ── Occurrence of variables ──────────────────────────────────────────────────

/// `v` appears somewhere inside `t`.
pub open spec fn occurs(v: u32, t: InferTypeView) -> bool
    decreases t, 0nat,
{
    match t {
        InferTypeView::Var(w) => v == w,
        InferTypeView::Fun(ps, r) => occurs_seq(v, ps) || occurs(v, *r),
        InferTypeView::Tuple(ts) => occurs_seq(v, ts),
        InferTypeView::Array(e) => occurs(v, *e),
        InferTypeView::Named(_, args) => occurs_seq(v, args),
        _ => false,
    }
}

/// `v` appears inside some element of `s`.
pub open spec fn occurs_seq(v: u32, s: Seq<InferTypeView>) -> bool
    decreases s, 1nat,
{
    if s.len() == 0 {
        false
    } else {
        occurs_seq(v, s.drop_last()) || occurs(v, s.last())
    }
}

/// The free type variables of `t`.
pub open spec fn fv(t: InferTypeView) -> Set<u32> {
    Set::new(|v: u32| occurs(v, t))
}

pub proof fn lemma_occurs_seq(v: u32, s: Seq<InferTypeView>)
    ensures
        occurs_seq(v, s) <==> exists|i: int| 0 <= i < s.len() && #[trigger] occurs(v, s[i]),
    decreases s.len(),
{
    if s.len() > 0 {
        lemma_occurs_seq(v, s.drop_last());
        if occurs(v, s.last()) {
            assert(occurs(v, s[s.len() - 1]));
        }
        if exists|i: int| 0 <= i < s.len() && #[trigger] occurs(v, s[i]) {
            let i = choose|i: int| 0 <= i < s.len() && #[trigger] occurs(v, s[i]);
            if i < s.len() - 1 {
                assert(s.drop_last()[i] == s[i]);
            }
        }
    }
}

// ── Substitution with chasing ────────────────────────────────────────────────

/// Applies the bindings of `m` to `t`, chasing bound variables through `m`;
/// `fuel` bounds the number of variables chased along any one path. `None`
/// when the fuel runs out (a long or cyclic chain of bindings).
pub open spec fn apply_f(m: Map<u32, InferTypeView>, t: InferTypeView, fuel: nat) -> Option<
    InferTypeView,
>
    decreases fuel, t, 0nat,
{
    match t {
        InferTypeView::Var(v) => if m.contains_key(v) {
            if fuel == 0 {
                None
            } else {
                apply_f(m, m[v], (fuel - 1) as nat)
            }
        } else {
            Some(t)
        },
        InferTypeView::Fun(ps, r) => match (apply_seq_f(m, ps, fuel), apply_f(m, *r, fuel)) {
            (Some(ps2), Some(r2)) => Some(InferTypeView::Fun(ps2, Box::new(r2))),
            _ => None,
        },
        InferTypeView::Tuple(ts) => match apply_seq_f(m, ts, fuel) {
            Some(ts2) => Some(InferTypeView::Tuple(ts2)),
            None => None,
        },
        InferTypeView::Array(e) => match apply_f(m, *e, fuel) {
            Some(e2) => Some(InferTypeView::Array(Box::new(e2))),
            None => None,
        },
        InferTypeView::Named(n, args) => match apply_seq_f(m, args, fuel) {
            Some(args2) => Some(InferTypeView::Named(n, args2)),
            None => None,
        },
        _ => Some(t),
    }
}

/// [`apply_f`] on each element of `s`.
pub open spec fn apply_seq_f(m: Map<u32, InferTypeView>, s: Seq<InferTypeView>, fuel: nat) -> Option<
    Seq<InferTypeView>,
>
    decreases fuel, s, 1nat,
{
    if s.len() == 0 {
        Some(Seq::empty())
    } else {
        match (apply_seq_f(m, s.drop_last(), fuel), apply_f(m, s.last(), fuel)) {
            (Some(a), Some(b)) => Some(a.push(b)),
            _ => None,
        }
    }
}

/// Chasing the bindings of `m` through `t` comes to an end.
pub open spec fn terminates(m: Map<u32, InferTypeView>, t: InferTypeView) -> bool {
    exists|fuel: nat| #[trigger] apply_f(m, t, fuel) is Some
}

/// The result of applying `m` to `t`, chasing bindings to the end
/// (meaningful where [`terminates`] holds).
pub open spec fn apply_spec(m: Map<u32, InferTypeView>, t: InferTypeView) -> InferTypeView {
    apply_f(m, t, choose|fuel: nat| #[trigger] apply_f(m, t, fuel) is Some).unwrap()
}

/// The substitution that applies `m1` first and then `m2`: `m1`'s bindings
/// with `m2` applied to them, plus `m2`'s bindings of variables `m1` leaves free.
pub open spec fn compose_spec(m1: Map<u32, InferTypeView>, m2: Map<u32, InferTypeView>) -> Map<
    u32,
    InferTypeView,
> {
    Map::new(
        |v: u32| m1.contains_key(v) || m2.contains_key(v),
        |v: u32|
            if m1.contains_key(v) {
                apply_spec(m2, m1[v])
            } else {
                m2[v]
            },
    )
}

/// One-step substitution: each bound variable of `t` is replaced by its
/// binding, without looking into the replacement.
pub open spec fn subst1(m: Map<u32, InferTypeView>, t: InferTypeView) -> InferTypeView
    decreases t, 0nat,
{
    match t {
        InferTypeView::Var(v) => if m.contains_key(v) {
            m[v]
        } else {
            t
        },
        InferTypeView::Fun(ps, r) => InferTypeView::Fun(subst1_seq(m, ps), Box::new(subst1(m, *r))),
        InferTypeView::Tuple(ts) => InferTypeView::Tuple(subst1_seq(m, ts)),
        InferTypeView::Array(e) => InferTypeView::Array(Box::new(subst1(m, *e))),
        InferTypeView::Named(n, args) => InferTypeView::Named(n, subst1_seq(m, args)),
        _ => t,
    }
}

pub open spec fn subst1_seq(m: Map<u32, InferTypeView>, s: Seq<InferTypeView>) -> Seq<InferTypeView>
    decreases s, 1nat,
{
    if s.len() == 0 {
        Seq::empty()
    } else {
        subst1_seq(m, s.drop_last()).push(subst1(m, s.last()))
    }
}

/// No bound variable of `m` occurs in any binding of `m`: applying `m` once
/// resolves everything it can.
pub open spec fn idempotent(m: Map<u32, InferTypeView>) -> bool {
    forall|v: u32, w: u32| #[trigger] m.contains_key(v) && #[trigger] occurs(w, m[v]) ==> !m.contains_key(w)
}

/// Every variable bound by `m`, or occurring in one of its bindings, is in `vs`.
pub open spec fn vars_within(m: Map<u32, InferTypeView>, vs: Set<u32>) -> bool {
    &&& forall|v: u32| #[trigger] m.contains_key(v) ==> vs.contains(v)
    &&& forall|v: u32, w: u32| #[trigger] m.contains_key(v) && #[trigger] occurs(w, m[v]) ==> vs.contains(w)
}

pub proof fn lemma_subst1_seq(m: Map<u32, InferTypeView>, s: Seq<InferTypeView>)
    ensures
        subst1_seq(m, s).len() == s.len(),
        forall|i: int| 0 <= i < s.len() ==> #[trigger] subst1_seq(m, s)[i] == subst1(m, s[i]),
    decreases s.len(),
{
    if s.len() > 0 {
        lemma_subst1_seq(m, s.drop_last());
    }
}

pub proof fn lemma_apply_seq_f(m: Map<u32, InferTypeView>, s: Seq<InferTypeView>, fuel: nat)
    ensures
        apply_seq_f(m, s, fuel) is Some <==> forall|i: int| 0 <= i < s.len() ==> #[trigger] apply_f(m, s[i], fuel) is Some,
        apply_seq_f(m, s, fuel) is Some ==> apply_seq_f(m, s, fuel).unwrap().len() == s.len() && forall|i: int|
            0 <= i < s.len() ==> Some(#[trigger] apply_seq_f(m, s, fuel).unwrap()[i]) == apply_f(m, s[i], fuel),
    decreases s.len(),
{
    if s.len() > 0 {
        lemma_apply_seq_f(m, s.drop_last(), fuel);
        if !(apply_seq_f(m, s, fuel) is Some) {
            if apply_seq_f(m, s.drop_last(), fuel) is None {
                let i = choose|i: int| 0 <= i < s.len() - 1 && !(#[trigger] apply_f(m, s.drop_last()[i], fuel) is Some);
                assert(s.drop_last()[i] == s[i]);
            } else {
                assert(!(apply_f(m, s[s.len() - 1], fuel) is Some));
            }
        } else {
            assert forall|i: int| 0 <= i < s.len() implies #[trigger] apply_f(m, s[i], fuel) is Some by {
                if i < s.len() - 1 {
                    assert(s.drop_last()[i] == s[i]);
                }
            }
            assert forall|i: int| 0 <= i < s.len() implies Some(#[trigger] apply_seq_f(m, s, fuel).unwrap()[i]) == apply_f(m, s[i], fuel) by {
                if i < s.len() - 1 {
                    assert(s.drop_last()[i] == s[i]);
                }
            }
        }
    }
}

/// More fuel does not change a result that was reached.
pub proof fn lemma_apply_fuel_mono(m: Map<u32, InferTypeView>, t: InferTypeView, f1: nat, f2: nat)
    requires
        apply_f(m, t, f1) is Some,
        f1 <= f2,
    ensures
        apply_f(m, t, f2) == apply_f(m, t, f1),
    decreases f1, t, 0nat,
{
    match t {
        InferTypeView::Var(v) => {
            if m.contains_key(v) {
                lemma_apply_fuel_mono(m, m[v], (f1 - 1) as nat, (f2 - 1) as nat);
            }
        },
        InferTypeView::Fun(ps, r) => {
            lemma_apply_seq_fuel_mono(m, ps, f1, f2);
            lemma_apply_fuel_mono(m, *r, f1, f2);
        },
        InferTypeView::Tuple(ts) => {
            lemma_apply_seq_fuel_mono(m, ts, f1, f2);
        },
        InferTypeView::Array(e) => {
            lemma_apply_fuel_mono(m, *e, f1, f2);
        },
        InferTypeView::Named(_, args) => {
            lemma_apply_seq_fuel_mono(m, args, f1, f2);
        },
        _ => {},
    }
}

pub proof fn lemma_apply_seq_fuel_mono(m: Map<u32, InferTypeView>, s: Seq<InferTypeView>, f1: nat, f2: nat)
    requires
        apply_seq_f(m, s, f1) is Some,
        f1 <= f2,
    ensures
        apply_seq_f(m, s, f2) == apply_seq_f(m, s, f1),
    decreases f1, s, 1nat,
{
    if s.len() > 0 {
        lemma_apply_seq_fuel_mono(m, s.drop_last(), f1, f2);
        lemma_apply_fuel_mono(m, s.last(), f1, f2);
    }
}

/// Any fuel that reaches a result reaches the result of [`apply_spec`].
pub proof fn lemma_apply_spec(m: Map<u32, InferTypeView>, t: InferTypeView, fuel: nat)
    requires
        apply_f(m, t, fuel) is Some,
    ensures
        terminates(m, t),
        apply_f(m, t, fuel) == Some(apply_spec(m, t)),
{
    let f0 = choose|fuel: nat| #[trigger] apply_f(m, t, fuel) is Some;
    if f0 <= fuel {
        lemma_apply_fuel_mono(m, t, f0, fuel);
    } else {
        lemma_apply_fuel_mono(m, t, fuel, f0);
    }
}

/// A finished application leaves no bound variable behind.
pub proof fn lemma_apply_result_unbound(m: Map<u32, InferTypeView>, t: InferTypeView, fuel: nat)
    requires
        apply_f(m, t, fuel) is Some,
    ensures
        forall|w: u32| #[trigger] occurs(w, apply_f(m, t, fuel).unwrap()) ==> !m.contains_key(w),
    decreases fuel, t, 0nat,
{
    match t {
        InferTypeView::Var(v) => {
            if m.contains_key(v) {
                assert(fuel > 0);
                let f1 = (fuel - 1) as nat;
                lemma_apply_result_unbound(m, m[v], f1);
                assert(apply_f(m, t, fuel) == apply_f(m, m[v], f1));
                assert forall|w: u32| #[trigger] occurs(w, apply_f(m, t, fuel).unwrap()) implies !m.contains_key(w) by {
                    assert(occurs(w, apply_f(m, m[v], f1).unwrap()));
                }
            } else {
                assert(apply_f(m, t, fuel) == Some(t));
                assert forall|w: u32| #[trigger] occurs(w, apply_f(m, t, fuel).unwrap()) implies !m.contains_key(w) by {
                    assert(occurs(w, t));
                    assert(w == v);
                }
            }
        },
        InferTypeView::Fun(ps, r) => {
            lemma_apply_seq_result_unbound(m, ps, fuel);
            lemma_apply_result_unbound(m, *r, fuel);
            let ps2 = apply_seq_f(m, ps, fuel).unwrap();
            let r2 = apply_f(m, *r, fuel).unwrap();
            assert(apply_f(m, t, fuel).unwrap() == InferTypeView::Fun(ps2, Box::new(r2)));
            assert forall|w: u32| #[trigger] occurs(w, apply_f(m, t, fuel).unwrap()) implies !m.contains_key(w) by {
                assert(occurs(w, InferTypeView::Fun(ps2, Box::new(r2))) == (occurs_seq(w, ps2) || occurs(w, r2)));
            }
        },
        InferTypeView::Tuple(ts) => {
            lemma_apply_seq_result_unbound(m, ts, fuel);
            let ts2 = apply_seq_f(m, ts, fuel).unwrap();
            assert(apply_f(m, t, fuel).unwrap() == InferTypeView::Tuple(ts2));
            assert forall|w: u32| #[trigger] occurs(w, apply_f(m, t, fuel).unwrap()) implies !m.contains_key(w) by {
                assert(occurs(w, InferTypeView::Tuple(ts2)) == occurs_seq(w, ts2));
            }
        },
        InferTypeView::Array(e) => {
            lemma_apply_result_unbound(m, *e, fuel);
            let e2 = apply_f(m, *e, fuel).unwrap();
            assert(apply_f(m, t, fuel).unwrap() == InferTypeView::Array(Box::new(e2)));
            assert forall|w: u32| #[trigger] occurs(w, apply_f(m, t, fuel).unwrap()) implies !m.contains_key(w) by {
                assert(occurs(w, InferTypeView::Array(Box::new(e2))) == occurs(w, e2));
            }
        },
        InferTypeView::Named(n, args) => {
            lemma_apply_seq_result_unbound(m, args, fuel);
            let a2 = apply_seq_f(m, args, fuel).unwrap();
            assert(apply_f(m, t, fuel).unwrap() == InferTypeView::Named(n, a2));
            assert forall|w: u32| #[trigger] occurs(w, apply_f(m, t, fuel).unwrap()) implies !m.contains_key(w) by {
                assert(occurs(w, InferTypeView::Named(n, a2)) == occurs_seq(w, a2));
            }
        },
        _ => {
            assert(apply_f(m, t, fuel).unwrap() == t);
        },
    }
}

pub proof fn lemma_apply_seq_result_unbound(m: Map<u32, InferTypeView>, s: Seq<InferTypeView>, fuel: nat)
    requires
        apply_seq_f(m, s, fuel) is Some,
    ensures
        forall|w: u32| #[trigger] occurs_seq(w, apply_seq_f(m, s, fuel).unwrap()) ==> !m.contains_key(w),
    decreases fuel, s, 1nat,
{
    if s.len() > 0 {
        lemma_apply_seq_result_unbound(m, s.drop_last(), fuel);
        lemma_apply_result_unbound(m, s.last(), fuel);
        let a = apply_seq_f(m, s.drop_last(), fuel).unwrap();
        let b = apply_f(m, s.last(), fuel).unwrap();
        assert(apply_seq_f(m, s, fuel) == Some(a.push(b)));
        assert(a.push(b).drop_last() =~= a);
        assert(a.push(b).last() == b);
        assert forall|w: u32| #[trigger] occurs_seq(w, a.push(b)) implies !m.contains_key(w) by {
            assert(occurs_seq(w, a.push(b)) == (occurs_seq(w, a.push(b).drop_last()) || occurs(w, a.push(b).last())));
        }
    }
}

/// Where no variable of `t` is bound, applying changes nothing.
pub proof fn lemma_apply_unbound(m: Map<u32, InferTypeView>, t: InferTypeView, fuel: nat)
    requires
        forall|w: u32| #[trigger] occurs(w, t) ==> !m.contains_key(w),
    ensures
        apply_f(m, t, fuel) == Some(t),
        subst1(m, t) == t,
    decreases t, 0nat,
{
    match t {
        InferTypeView::Fun(ps, r) => {
            assert forall|w: u32| #[trigger] occurs_seq(w, ps) implies !m.contains_key(w) by {
                assert(occurs(w, t));
            }
            assert forall|w: u32| #[trigger] occurs(w, *r) implies !m.contains_key(w) by {
                assert(occurs(w, t));
            }
            lemma_apply_seq_unbound(m, ps, fuel);
            lemma_apply_unbound(m, *r, fuel);
        },
        InferTypeView::Tuple(ts) => {
            assert forall|w: u32| #[trigger] occurs_seq(w, ts) implies !m.contains_key(w) by {
                assert(occurs(w, t));
            }
            lemma_apply_seq_unbound(m, ts, fuel);
        },
        InferTypeView::Array(e) => {
            assert forall|w: u32| #[trigger] occurs(w, *e) implies !m.contains_key(w) by {
                assert(occurs(w, t));
            }
            lemma_apply_unbound(m, *e, fuel);
        },
        InferTypeView::Named(_, args) => {
            assert forall|w: u32| #[trigger] occurs_seq(w, args) implies !m.contains_key(w) by {
                assert(occurs(w, t));
            }
            lemma_apply_seq_unbound(m, args, fuel);
        },
        InferTypeView::Var(v) => {
            assert(occurs(v, t));
        },
        _ => {},
    }
}

pub proof fn lemma_apply_seq_unbound(m: Map<u32, InferTypeView>, s: Seq<InferTypeView>, fuel: nat)
    requires
        forall|w: u32| #[trigger] occurs_seq(w, s) ==> !m.contains_key(w),
    ensures
        apply_seq_f(m, s, fuel) == Some(s),
        subst1_seq(m, s) == s,
    decreases s, 1nat,
{
    if s.len() > 0 {
        assert forall|w: u32| #[trigger] occurs_seq(w, s.drop_last()) implies !m.contains_key(w) by {
            assert(occurs_seq(w, s));
        }
        assert forall|w: u32| #[trigger] occurs(w, s.last()) implies !m.contains_key(w) by {
            assert(occurs_seq(w, s));
        }
        lemma_apply_seq_unbound(m, s.drop_last(), fuel);
        lemma_apply_unbound(m, s.last(), fuel);
        assert(s.drop_last().push(s.last()) =~= s);
    }
}

/// For an idempotent substitution, one unit of fuel suffices and the result is
/// the one-step substitution.
pub proof fn lemma_apply_idempotent(m: Map<u32, InferTypeView>, t: InferTypeView)
    requires
        idempotent(m),
    ensures
        apply_f(m, t, 1) == Some(subst1(m, t)),
        terminates(m, t),
        apply_spec(m, t) == subst1(m, t),
    decreases t, 0nat,
{
    match t {
        InferTypeView::Var(v) => {
            if m.contains_key(v) {
                lemma_apply_unbound(m, m[v], 0);
            }
        },
        InferTypeView::Fun(ps, r) => {
            lemma_apply_seq_idempotent(m, ps);
            lemma_apply_idempotent(m, *r);
        },
        InferTypeView::Tuple(ts) => {
            lemma_apply_seq_idempotent(m, ts);
        },
        InferTypeView::Array(e) => {
            lemma_apply_idempotent(m, *e);
        },
        InferTypeView::Named(_, args) => {
            lemma_apply_seq_idempotent(m, args);
        },
        _ => {},
    }
    lemma_apply_spec(m, t, 1);
}

pub proof fn lemma_apply_seq_idempotent(m: Map<u32, InferTypeView>, s: Seq<InferTypeView>)
    requires
        idempotent(m),
    ensures
        apply_seq_f(m, s, 1) == Some(subst1_seq(m, s)),
    decreases s, 1nat,
{
    if s.len() > 0 {
        lemma_apply_seq_idempotent(m, s.drop_last());
        lemma_apply_idempotent(m, s.last());
    }
}


// ── Types without `Never` ────────────────────────────────────────────────────

/// `Never` appears nowhere inside `t`.
pub open spec fn never_free(t: InferTypeView) -> bool
    decreases t, 0nat,
{
    match t {
        InferTypeView::Never => false,
        InferTypeView::Fun(ps, r) => never_free_seq(ps) && never_free(*r),
        InferTypeView::Tuple(ts) => never_free_seq(ts),
        InferTypeView::Array(e) => never_free(*e),
        InferTypeView::Named(_, args) => never_free_seq(args),
        _ => true,
    }
}

/// `Never` appears inside no element of `s`.
pub open spec fn never_free_seq(s: Seq<InferTypeView>) -> bool
    decreases s, 1nat,
{
    s.len() == 0 || (never_free_seq(s.drop_last()) && never_free(s.last()))
}

/// No binding of `m` mentions `Never`.
pub open spec fn ranges_never_free(m: Map<u32, InferTypeView>) -> bool {
    forall|v: u32| #[trigger] m.contains_key(v) ==> never_free(m[v])
}

/// Substituting types without `Never` into a type without `Never` gives one.
pub proof fn lemma_subst1_never_free(m: Map<u32, InferTypeView>, t: InferTypeView)
    requires
        ranges_never_free(m),
        never_free(t),
    ensures
        never_free(subst1(m, t)),
    decreases t, 0nat,
{
    match t {
        InferTypeView::Fun(ps, r) => {
            lemma_subst1_seq_never_free(m, ps);
            lemma_subst1_never_free(m, *r);
        },
        InferTypeView::Tuple(ts) => lemma_subst1_seq_never_free(m, ts),
        InferTypeView::Array(e) => lemma_subst1_never_free(m, *e),
        InferTypeView::Named(_, args) => lemma_subst1_seq_never_free(m, args),
        _ => {},
    }
}

pub proof fn lemma_subst1_seq_never_free(m: Map<u32, InferTypeView>, s: Seq<InferTypeView>)
    requires
        ranges_never_free(m),
        never_free_seq(s),
    ensures
        never_free_seq(subst1_seq(m, s)),
    decreases s, 1nat,
{
    if s.len() > 0 {
        lemma_subst1_seq_never_free(m, s.drop_last());
        lemma_subst1_never_free(m, s.last());
        let a = subst1_seq(m, s.drop_last());
        let b = subst1(m, s.last());
        assert(a.push(b).drop_last() =~= a);
    }
}

/// Each element of a sequence without `Never` is without `Never`.
pub proof fn lemma_never_free_seq_index(s: Seq<InferTypeView>, i: int)
    requires
        never_free_seq(s),
        0 <= i < s.len(),
    ensures
        never_free(s[i]),
    decreases s.len(),
{
    if i < s.len() - 1 {
        lemma_never_free_seq_index(s.drop_last(), i);
        assert(s.drop_last()[i] == s[i]);
    }
}

/// Composing with an idempotent substitution keeps `Never` out of the bindings.
pub proof fn lemma_compose_never_free(m1: Map<u32, InferTypeView>, m2: Map<u32, InferTypeView>)
    requires
        ranges_never_free(m1),
        ranges_never_free(m2),
        idempotent(m2),
    ensures
        ranges_never_free(compose_spec(m1, m2)),
{
    assert forall|v: u32| #[trigger] compose_spec(m1, m2).contains_key(v) implies never_free(compose_spec(m1, m2)[v]) by {
        if m1.contains_key(v) {
            lemma_apply_idempotent(m2, m1[v]);
            lemma_subst1_never_free(m2, m1[v]);
        }
    }
}

/// Compatible types without `Never` are equal.
pub proof fn lemma_compat_never_free(a: InferTypeView, b: InferTypeView)
    requires
        compat(a, b),
        never_free(a),
        never_free(b),
    ensures
        a == b,
    decreases a, 0nat,
{
    match (a, b) {
        (InferTypeView::Fun(p1, r1), InferTypeView::Fun(p2, r2)) => {
            lemma_compat_seq_never_free(p1, p2);
            lemma_compat_never_free(*r1, *r2);
        },
        (InferTypeView::Tuple(x), InferTypeView::Tuple(y)) => lemma_compat_seq_never_free(x, y),
        (InferTypeView::Array(x), InferTypeView::Array(y)) => lemma_compat_never_free(*x, *y),
        (InferTypeView::Named(_, x), InferTypeView::Named(_, y)) => lemma_compat_seq_never_free(x, y),
        _ => {},
    }
}

pub proof fn lemma_compat_seq_never_free(x: Seq<InferTypeView>, y: Seq<InferTypeView>)
    requires
        compat_seq(x, y),
        never_free_seq(x),
        never_free_seq(y),
    ensures
        x == y,
    decreases x, 1nat,
{
    if x.len() > 0 {
        lemma_compat_seq_never_free(x.drop_last(), y.drop_last());
        lemma_compat_never_free(x.last(), y.last());
        assert(x =~= x.drop_last().push(x.last()));
        assert(y =~= y.drop_last().push(y.last()));
    } else {
        assert(x =~= y);
    }
}

// ── Compatibility: equality with `Never` as a wildcard ───────────────────────

/// `a` and `b` are the same type, except that `Never` on either side matches
/// anything (the bottom type coerces to any type).
pub open spec fn compat(a: InferTypeView, b: InferTypeView) -> bool
    decreases a, 0nat,
{
    match (a, b) {
        (InferTypeView::Never, _) => true,
        (_, InferTypeView::Never) => true,
        (InferTypeView::Concrete(x), InferTypeView::Concrete(y)) => x == y,
        (InferTypeView::Var(v), InferTypeView::Var(w)) => v == w,
        (InferTypeView::Fun(p1, r1), InferTypeView::Fun(p2, r2)) => compat_seq(p1, p2) && compat(*r1, *r2),
        (InferTypeView::Tuple(x), InferTypeView::Tuple(y)) => compat_seq(x, y),
        (InferTypeView::Array(x), InferTypeView::Array(y)) => compat(*x, *y),
        (InferTypeView::Named(n1, a1), InferTypeView::Named(n2, a2)) => n1 == n2 && compat_seq(a1, a2),
        _ => false,
    }
}

/// Element-wise [`compat`] of two sequences of the same length.
pub open spec fn compat_seq(x: Seq<InferTypeView>, y: Seq<InferTypeView>) -> bool
    decreases x, 1nat,
{
    x.len() == y.len() && (x.len() == 0 || (compat_seq(x.drop_last(), y.drop_last()) && compat(x.last(), y.last())))
}

pub proof fn lemma_compat_seq(x: Seq<InferTypeView>, y: Seq<InferTypeView>)
    ensures
        compat_seq(x, y) <==> (x.len() == y.len() && forall|i: int| 0 <= i < x.len() ==> #[trigger] compat(x[i], y[i])),
    decreases x.len(),
{
    if x.len() > 0 && x.len() == y.len() {
        lemma_compat_seq(x.drop_last(), y.drop_last());
        if forall|i: int| 0 <= i < x.len() ==> #[trigger] compat(x[i], y[i]) {
            assert forall|i: int| 0 <= i < x.drop_last().len() implies #[trigger] compat(x.drop_last()[i], y.drop_last()[i]) by {
                assert(compat(x[i], y[i]));
            }
            assert(compat(x[x.len() - 1], y[y.len() - 1]));
        }
        if compat_seq(x, y) {
            assert forall|i: int| 0 <= i < x.len() implies #[trigger] compat(x[i], y[i]) by {
                if i < x.len() - 1 {
                    assert(compat(x.drop_last()[i], y.drop_last()[i]));
                }
            }
        }
    }
}

pub proof fn lemma_compat_refl(t: InferTypeView)
    ensures
        compat(t, t),
    decreases t, 0nat,
{
    match t {
        InferTypeView::Fun(ps, r) => {
            lemma_compat_seq_refl(ps);
            lemma_compat_refl(*r);
        },
        InferTypeView::Tuple(ts) => lemma_compat_seq_refl(ts),
        InferTypeView::Array(e) => lemma_compat_refl(*e),
        InferTypeView::Named(_, args) => lemma_compat_seq_refl(args),
        _ => {},
    }
}

pub proof fn lemma_compat_seq_refl(s: Seq<InferTypeView>)
    ensures
        compat_seq(s, s),
    decreases s, 1nat,
{
    if s.len() > 0 {
        lemma_compat_seq_refl(s.drop_last());
        lemma_compat_refl(s.last());
    }
}

/// Applying one substitution to both sides keeps them compatible.
pub proof fn lemma_compat_subst1(m: Map<u32, InferTypeView>, a: InferTypeView, b: InferTypeView)
    requires
        compat(a, b),
    ensures
        compat(subst1(m, a), subst1(m, b)),
    decreases a, 0nat,
{
    match (a, b) {
        (InferTypeView::Never, _) => {},
        (_, InferTypeView::Never) => {},
        (InferTypeView::Var(v), InferTypeView::Var(w)) => {
            lemma_compat_refl(subst1(m, a));
        },
        (InferTypeView::Fun(p1, r1), InferTypeView::Fun(p2, r2)) => {
            lemma_compat_subst1_seq(m, p1, p2);
            lemma_compat_subst1(m, *r1, *r2);
        },
        (InferTypeView::Tuple(x), InferTypeView::Tuple(y)) => {
            lemma_compat_subst1_seq(m, x, y);
        },
        (InferTypeView::Array(x), InferTypeView::Array(y)) => {
            lemma_compat_subst1(m, *x, *y);
        },
        (InferTypeView::Named(_, x), InferTypeView::Named(_, y)) => {
            lemma_compat_subst1_seq(m, x, y);
        },
        _ => {},
    }
}

pub proof fn lemma_compat_subst1_seq(m: Map<u32, InferTypeView>, x: Seq<InferTypeView>, y: Seq<InferTypeView>)
    requires
        compat_seq(x, y),
    ensures
        compat_seq(subst1_seq(m, x), subst1_seq(m, y)),
    decreases x, 1nat,
{
    lemma_subst1_seq(m, x);
    lemma_subst1_seq(m, y);
    if x.len() > 0 {
        lemma_compat_subst1_seq(m, x.drop_last(), y.drop_last());
        lemma_compat_subst1(m, x.last(), y.last());
        let a = subst1_seq(m, x.drop_last());
        let b = subst1_seq(m, y.drop_last());
        assert(a.push(subst1(m, x.last())).drop_last() =~= a);
        assert(b.push(subst1(m, y.last())).drop_last() =~= b);
    }
}

// ── Variables after substitution ─────────────────────────────────────────────

/// A variable in `subst1(m, t)` either stayed from `t` unbound, or came from
/// the binding of a variable of `t`.
pub proof fn lemma_subst1_occurs(m: Map<u32, InferTypeView>, t: InferTypeView, w: u32)
    requires
        occurs(w, subst1(m, t)),
    ensures
        (occurs(w, t) && !m.contains_key(w)) || exists|v: u32| #[trigger] m.contains_key(v) && occurs(v, t) && occurs(w, m[v]),
    decreases t, 0nat,
{
    match t {
        InferTypeView::Var(v) => {
            if m.contains_key(v) {
                assert(occurs(v, t));
            }
        },
        InferTypeView::Fun(ps, r) => {
            if occurs_seq(w, subst1_seq(m, ps)) {
                lemma_subst1_occurs_seq(m, ps, w);
                if exists|v: u32| #[trigger] m.contains_key(v) && occurs_seq(v, ps) && occurs(w, m[v]) {
                    let v = choose|v: u32| #[trigger] m.contains_key(v) && occurs_seq(v, ps) && occurs(w, m[v]);
                    assert(occurs(v, t));
                }
            } else {
                lemma_subst1_occurs(m, *r, w);
                if exists|v: u32| #[trigger] m.contains_key(v) && occurs(v, *r) && occurs(w, m[v]) {
                    let v = choose|v: u32| #[trigger] m.contains_key(v) && occurs(v, *r) && occurs(w, m[v]);
                    assert(occurs(v, t));
                }
            }
        },
        InferTypeView::Tuple(ts) => {
            lemma_subst1_occurs_seq(m, ts, w);
            if exists|v: u32| #[trigger] m.contains_key(v) && occurs_seq(v, ts) && occurs(w, m[v]) {
                let v = choose|v: u32| #[trigger] m.contains_key(v) && occurs_seq(v, ts) && occurs(w, m[v]);
                assert(occurs(v, t));
            }
        },
        InferTypeView::Array(e) => {
            lemma_subst1_occurs(m, *e, w);
            if exists|v: u32| #[trigger] m.contains_key(v) && occurs(v, *e) && occurs(w, m[v]) {
                let v = choose|v: u32| #[trigger] m.contains_key(v) && occurs(v, *e) && occurs(w, m[v]);
                assert(occurs(v, t));
            }
        },
        InferTypeView::Named(_, args) => {
            lemma_subst1_occurs_seq(m, args, w);
            if exists|v: u32| #[trigger] m.contains_key(v) && occurs_seq(v, args) && occurs(w, m[v]) {
                let v = choose|v: u32| #[trigger] m.contains_key(v) && occurs_seq(v, args) && occurs(w, m[v]);
                assert(occurs(v, t));
            }
        },
        _ => {},
    }
}

pub proof fn lemma_subst1_occurs_seq(m: Map<u32, InferTypeView>, s: Seq<InferTypeView>, w: u32)
    requires
        occurs_seq(w, subst1_seq(m, s)),
    ensures
        (occurs_seq(w, s) && !m.contains_key(w)) || exists|v: u32| #[trigger] m.contains_key(v) && occurs_seq(v, s) && occurs(w, m[v]),
    decreases s, 1nat,
{
    if s.len() > 0 {
        let d = subst1_seq(m, s.drop_last());
        assert(subst1_seq(m, s).drop_last() =~= d);
        if occurs_seq(w, d) {
            lemma_subst1_occurs_seq(m, s.drop_last(), w);
            if exists|v: u32| #[trigger] m.contains_key(v) && occurs_seq(v, s.drop_last()) && occurs(w, m[v]) {
                let v = choose|v: u32| #[trigger] m.contains_key(v) && occurs_seq(v, s.drop_last()) && occurs(w, m[v]);
                assert(occurs_seq(v, s));
            }
        } else {
            lemma_subst1_occurs(m, s.last(), w);
            if exists|v: u32| #[trigger] m.contains_key(v) && occurs(v, s.last()) && occurs(w, m[v]) {
                let v = choose|v: u32| #[trigger] m.contains_key(v) && occurs(v, s.last()) && occurs(w, m[v]);
                assert(occurs_seq(v, s));
            }
        }
    }
}

/// After an idempotent substitution, no bound variable is left.
pub proof fn lemma_subst1_resolves(m: Map<u32, InferTypeView>, t: InferTypeView, w: u32)
    requires
        idempotent(m),
        occurs(w, subst1(m, t)),
    ensures
        !m.contains_key(w),
{
    lemma_subst1_occurs(m, t, w);
}

/// After a substitution whose variables lie in `vs`, the variables of a type
/// whose variables lie in `vs` still lie in `vs`.
pub proof fn lemma_subst1_within(m: Map<u32, InferTypeView>, t: InferTypeView, vs: Set<u32>, w: u32)
    requires
        vars_within(m, vs),
        forall|u: u32| #[trigger] occurs(u, t) ==> vs.contains(u),
        occurs(w, subst1(m, t)),
    ensures
        vs.contains(w),
{
    lemma_subst1_occurs(m, t, w);
}

// ── Composition ──────────────────────────────────────────────────────────────

/// Applying the composition once equals applying `m1`, then `m2`.
pub proof fn lemma_compose_subst1(m1: Map<u32, InferTypeView>, m2: Map<u32, InferTypeView>, t: InferTypeView)
    requires
        idempotent(m2),
    ensures
        subst1(compose_spec(m1, m2), t) == subst1(m2, subst1(m1, t)),
    decreases t, 0nat,
{
    match t {
        InferTypeView::Var(v) => {
            if m1.contains_key(v) {
                lemma_apply_idempotent(m2, m1[v]);
            }
        },
        InferTypeView::Fun(ps, r) => {
            lemma_compose_subst1_seq(m1, m2, ps);
            lemma_compose_subst1(m1, m2, *r);
        },
        InferTypeView::Tuple(ts) => lemma_compose_subst1_seq(m1, m2, ts),
        InferTypeView::Array(e) => lemma_compose_subst1(m1, m2, *e),
        InferTypeView::Named(_, args) => lemma_compose_subst1_seq(m1, m2, args),
        _ => {},
    }
}

pub proof fn lemma_compose_subst1_seq(m1: Map<u32, InferTypeView>, m2: Map<u32, InferTypeView>, s: Seq<InferTypeView>)
    requires
        idempotent(m2),
    ensures
        subst1_seq(compose_spec(m1, m2), s) == subst1_seq(m2, subst1_seq(m1, s)),
    decreases s, 1nat,
{
    if s.len() > 0 {
        lemma_compose_subst1_seq(m1, m2, s.drop_last());
        lemma_compose_subst1(m1, m2, s.last());
        let a = subst1_seq(m1, s.drop_last());
        let b = subst1(m1, s.last());
        assert(a.push(b).drop_last() =~= a);
    }
}

/// The composition of two idempotent substitutions is idempotent when the
/// second binds nothing to a variable the first binds.
pub proof fn lemma_compose_idempotent(m1: Map<u32, InferTypeView>, m2: Map<u32, InferTypeView>)
    requires
        idempotent(m1),
        idempotent(m2),
        forall|u: u32, w: u32| #[trigger] m2.contains_key(u) && #[trigger] occurs(w, m2[u]) ==> !m1.contains_key(w),
    ensures
        idempotent(compose_spec(m1, m2)),
{
    let c = compose_spec(m1, m2);
    assert forall|v: u32, w: u32| #[trigger] c.contains_key(v) && #[trigger] occurs(w, c[v]) implies !c.contains_key(w) by {
        if m1.contains_key(v) {
            lemma_apply_idempotent(m2, m1[v]);
            lemma_subst1_occurs(m2, m1[v], w);
        }
    }
}

/// The composition of substitutions whose variables lie in `vs` keeps its variables in `vs`.
pub proof fn lemma_compose_within(m1: Map<u32, InferTypeView>, m2: Map<u32, InferTypeView>, vs: Set<u32>)
    requires
        vars_within(m1, vs),
        vars_within(m2, vs),
        idempotent(m2),
    ensures
        vars_within(compose_spec(m1, m2), vs),
{
    let c = compose_spec(m1, m2);
    assert forall|v: u32, w: u32| #[trigger] c.contains_key(v) && #[trigger] occurs(w, c[v]) implies vs.contains(w) by {
        if m1.contains_key(v) {
            lemma_apply_idempotent(m2, m1[v]);
            lemma_subst1_occurs(m2, m1[v], w);
        }
    }
}

/// Composing with the empty substitution on the left gives the right one.
pub proof fn lemma_compose_empty(m: Map<u32, InferTypeView>)
    ensures
        compose_spec(Map::empty(), m) == m,
{
    assert(compose_spec(Map::empty(), m) =~= m);
}


// ── Measures for the termination of unification ──────────────────────────────

/// The free type variables of the elements of `s`.
pub open spec fn fv_seq(s: Seq<InferTypeView>) -> Set<u32> {
    Set::new(|v: u32| occurs_seq(v, s))
}

/// The variables of a pair of types.
pub open spec fn pair_vars(a: InferTypeView, b: InferTypeView) -> Set<u32> {
    fv(a).union(fv(b))
}

/// The number of constructors in a type.
pub open spec fn size(t: InferTypeView) -> nat
    decreases t, 0nat,
{
    match t {
        InferTypeView::Fun(ps, r) => 1 + size_seq(ps) + size(*r),
        InferTypeView::Tuple(ts) => 1 + size_seq(ts),
        InferTypeView::Array(e) => 1 + size(*e),
        InferTypeView::Named(_, args) => 1 + size_seq(args),
        _ => 1,
    }
}

pub open spec fn size_seq(s: Seq<InferTypeView>) -> nat
    decreases s, 1nat,
{
    if s.len() == 0 {
        0
    } else {
        size_seq(s.drop_last()) + size(s.last())
    }
}

pub proof fn lemma_size_seq_elem(s: Seq<InferTypeView>, i: int)
    requires
        0 <= i < s.len(),
    ensures
        size(s[i]) <= size_seq(s),
    decreases s.len(),
{
    if i < s.len() - 1 {
        lemma_size_seq_elem(s.drop_last(), i);
    }
}

pub proof fn lemma_fv_finite(t: InferTypeView)
    ensures
        fv(t).finite(),
    decreases t, 0nat,
{
    match t {
        InferTypeView::Var(v) => {
            assert(fv(t) =~= Set::empty().insert(v));
        },
        InferTypeView::Fun(ps, r) => {
            lemma_fv_seq_finite(ps);
            lemma_fv_finite(*r);
            assert(fv(t) =~= fv_seq(ps).union(fv(*r)));
        },
        InferTypeView::Tuple(ts) => {
            lemma_fv_seq_finite(ts);
            assert(fv(t) =~= fv_seq(ts));
        },
        InferTypeView::Array(e) => {
            lemma_fv_finite(*e);
            assert(fv(t) =~= fv(*e));
        },
        InferTypeView::Named(_, args) => {
            lemma_fv_seq_finite(args);
            assert(fv(t) =~= fv_seq(args));
        },
        _ => {
            assert(fv(t) =~= Set::empty());
        },
    }
}

pub proof fn lemma_fv_seq_finite(s: Seq<InferTypeView>)
    ensures
        fv_seq(s).finite(),
    decreases s, 1nat,
{
    if s.len() == 0 {
        assert(fv_seq(s) =~= Set::empty());
    } else {
        lemma_fv_seq_finite(s.drop_last());
        lemma_fv_finite(s.last());
        assert(fv_seq(s) =~= fv_seq(s.drop_last()).union(fv(s.last())));
    }
}

/// Substituting both sides of a pair by an idempotent substitution whose
/// variables lie in `vs` either leaves the pair unchanged (no variable of it is
/// bound) or strictly shrinks its variables below `vs`.
pub proof fn lemma_vars_shrink(m: Map<u32, InferTypeView>, x: InferTypeView, y: InferTypeView, vs: Set<u32>)
    requires
        idempotent(m),
        vars_within(m, vs),
        vs.finite(),
        forall|u: u32| #[trigger] occurs(u, x) ==> vs.contains(u),
        forall|u: u32| #[trigger] occurs(u, y) ==> vs.contains(u),
    ensures
        pair_vars(subst1(m, x), subst1(m, y)).subset_of(vs),
        pair_vars(subst1(m, x), subst1(m, y)).finite(),
        pair_vars(subst1(m, x), subst1(m, y)).len() <= vs.len(),
        (exists|u: u32| #[trigger] m.contains_key(u) && (occurs(u, x) || occurs(u, y))) ==> pair_vars(
            subst1(m, x),
            subst1(m, y),
        ).len() < vs.len(),
        !(exists|u: u32| #[trigger] m.contains_key(u) && (occurs(u, x) || occurs(u, y))) ==> subst1(m, x)
            == x && subst1(m, y) == y,
{
    let x2 = subst1(m, x);
    let y2 = subst1(m, y);
    let p = pair_vars(x2, y2);
    assert forall|w: u32| #[trigger] p.contains(w) implies vs.contains(w) && !m.contains_key(w) by {
        if occurs(w, x2) {
            lemma_subst1_within(m, x, vs, w);
            lemma_subst1_resolves(m, x, w);
        } else {
            lemma_subst1_within(m, y, vs, w);
            lemma_subst1_resolves(m, y, w);
        }
    }
    vstd::set_lib::lemma_set_subset_finite(vs, p);
    vstd::set_lib::lemma_len_subset(p, vs);
    if exists|u: u32| #[trigger] m.contains_key(u) && (occurs(u, x) || occurs(u, y)) {
        let u = choose|u: u32| #[trigger] m.contains_key(u) && (occurs(u, x) || occurs(u, y));
        assert(vs.contains(u));
        p.lemma_subset_not_in_lt(vs, u);
    } else {
        assert forall|w: u32| #[trigger] occurs(w, x) implies !m.contains_key(w) by {}
        assert forall|w: u32| #[trigger] occurs(w, y) implies !m.contains_key(w) by {}
        lemma_apply_unbound(m, x, 0);
        lemma_apply_unbound(m, y, 0);
    }
}


/// The empty substitution changes nothing.
pub proof fn lemma_apply_empty(t: InferTypeView)
    ensures
        terminates(Map::empty(), t),
        apply_spec(Map::empty(), t) == t,
        subst1(Map::empty(), t) == t,
        idempotent(Map::<u32, InferTypeView>::empty()),
{
    lemma_apply_unbound(Map::empty(), t, 0);
    lemma_apply_spec(Map::empty(), t, 0);
}

/// A subset of a finite set is no larger.
pub proof fn lemma_subset_len(s1: Set<u32>, s2: Set<u32>)
    requires
        s1.subset_of(s2),
        s2.finite(),
    ensures
        s1.finite(),
        s1.len() <= s2.len(),
{
    vstd::set_lib::lemma_set_subset_finite(s2, s1);
    vstd::set_lib::lemma_len_subset(s1, s2);
}

/// The one-step substitution that sends each variable `m` binds to what
/// chasing `m`'s bindings from it gives.
pub open spec fn closure(m: Map<u32, InferTypeView>) -> Map<u32, InferTypeView> {
    Map::new(|v: u32| m.contains_key(v), |v: u32| apply_spec(m, InferTypeView::Var(v)))
}

proof fn lemma_apply_f_closure(m: Map<u32, InferTypeView>, t: InferTypeView, fuel: nat)
    requires
        apply_f(m, t, fuel) is Some,
    ensures
        apply_f(m, t, fuel)->Some_0 == subst1(closure(m), t),
    decreases fuel, t, 0nat,
{
    match t {
        InferTypeView::Var(v) => {
            if m.contains_key(v) {
                lemma_apply_spec(m, t, fuel);
            }
        },
        InferTypeView::Fun(ps, r) => {
            lemma_apply_seq_f_closure(m, ps, fuel);
            lemma_apply_f_closure(m, *r, fuel);
        },
        InferTypeView::Tuple(ts) => {
            lemma_apply_seq_f_closure(m, ts, fuel);
        },
        InferTypeView::Array(e) => {
            lemma_apply_f_closure(m, *e, fuel);
        },
        InferTypeView::Named(n, args) => {
            lemma_apply_seq_f_closure(m, args, fuel);
        },
        _ => {},
    }
}

proof fn lemma_apply_seq_f_closure(m: Map<u32, InferTypeView>, s: Seq<InferTypeView>, fuel: nat)
    requires
        apply_seq_f(m, s, fuel) is Some,
    ensures
        apply_seq_f(m, s, fuel)->Some_0 == subst1_seq(closure(m), s),
    decreases fuel, s, 1nat,
{
    if s.len() > 0 {
        lemma_apply_seq_f_closure(m, s.drop_last(), fuel);
        lemma_apply_f_closure(m, s.last(), fuel);
    }
}

/// Chasing the bindings of `m` through `t` replaces each variable in one
/// step by what the chase gives from it.
pub proof fn lemma_apply_closure(m: Map<u32, InferTypeView>, t: InferTypeView)
    requires
        terminates(m, t),
    ensures
        apply_spec(m, t) == subst1(closure(m), t),
{
    let fuel = choose|fuel: nat| #[trigger] apply_f(m, t, fuel) is Some;
    lemma_apply_spec(m, t, fuel);
    lemma_apply_f_closure(m, t, fuel);
}

} // verus!
