//! Properties of the inference engine that relate several of its operations.

use vstd::prelude::*;

use super::model::{
    InferTypeView, apply_f, apply_seq_f, apply_spec, compose_spec, idempotent, occurs, subst1, terminates,
    lemma_apply_empty, lemma_apply_idempotent, lemma_apply_result_unbound, lemma_apply_spec, lemma_apply_unbound,
    lemma_compose_subst1, lemma_compose_idempotent,
};
use super::context::find_scoped;
use super::registry::names_of;
use super::{Constraint, InferType, TypeScheme, TypeVar, TypeVarGenerator, inst_map, var_fresh, solve_spec, lemma_solve_sides};
use super::context::{
    InferContext, break_popped, break_pushed, constraint_added, enum_registered, mono_bound, poly_bound, return_popped,
    return_pushed, scope_popped, scope_pushed, struct_registered, struct_scope_popped, struct_scope_pushed, var_drawn,
};
use super::registry::EnumInfo;
use crate::ast::Span;

verus! {

/// Applying the empty substitution leaves every type unchanged.
pub proof fn law_apply_empty(t: InferTypeView)
    ensures
        terminates(Map::empty(), t),
        apply_spec(Map::empty(), t) == t,
{
    lemma_apply_empty(t);
}

/// Applying a substitution twice is applying it once: wherever chasing the
/// bindings of `m` through `t` comes to an end (no cycle of bindings is
/// reachable from `t`), no variable bound by `m` occurs in the result, so a
/// second application terminates at once and changes nothing.
pub proof fn law_apply_twice(m: Map<u32, InferTypeView>, t: InferTypeView)
    requires
        terminates(m, t),
    ensures
        forall|w: u32| #[trigger] occurs(w, apply_spec(m, t)) ==> !m.contains_key(w),
        terminates(m, apply_spec(m, t)),
        apply_spec(m, apply_spec(m, t)) == apply_spec(m, t),
{
    let fuel = choose|fuel: nat| #[trigger] apply_f(m, t, fuel) is Some;
    lemma_apply_spec(m, t, fuel);
    lemma_apply_result_unbound(m, t, fuel);
    let r = apply_spec(m, t);
    lemma_apply_unbound(m, r, 0);
    lemma_apply_spec(m, r, 0);
}

/// Composition is sequencing: for idempotent substitutions where the second
/// binds nothing to a variable the first binds (as in every step of
/// unification and constraint solving), applying `compose(s1, s2)` equals
/// applying `s1` and then `s2`; and the composition is again idempotent.
pub proof fn law_compose_is_sequencing(
    s1: Map<u32, InferTypeView>,
    s2: Map<u32, InferTypeView>,
    t: InferTypeView,
)
    requires
        idempotent(s1),
        idempotent(s2),
        forall|u: u32, w: u32| #[trigger] s2.contains_key(u) && #[trigger] occurs(w, s2[u]) ==> !s1.contains_key(w),
    ensures
        idempotent(compose_spec(s1, s2)),
        terminates(compose_spec(s1, s2), t),
        apply_spec(compose_spec(s1, s2), t) == apply_spec(s2, apply_spec(s1, t)),
{
    lemma_compose_idempotent(s1, s2);
    lemma_apply_idempotent(compose_spec(s1, s2), t);
    lemma_apply_idempotent(s1, t);
    lemma_apply_idempotent(s2, subst1(s1, t));
    lemma_compose_subst1(s1, s2, t);
}

/// Instantiating with a generator past every quantified variable (the
/// documented invariant on generators) replaces each quantified variable by a
/// fresh one, `start + i` for its last position `i`, resolving in one step;
/// every variable it introduces is at least `start`.
pub proof fn law_instantiate_fresh(qs: Seq<TypeVar>, start: nat, t: InferTypeView)
    requires
        forall|i: int| 0 <= i < qs.len() ==> (#[trigger] qs[i]).0 < start,
        start + qs.len() <= u32::MAX,
    ensures
        idempotent(inst_map(qs, start)),
        terminates(inst_map(qs, start), t),
        apply_spec(inst_map(qs, start), t) == subst1(inst_map(qs, start), t),
        forall|v: u32| #[trigger] inst_map(qs, start).contains_key(v) ==> exists|i: int|
            0 <= i < qs.len() && qs[i].0 == v,
        forall|v: u32, w: u32| #[trigger] inst_map(qs, start).contains_key(v) && #[trigger] occurs(
            w,
            inst_map(qs, start)[v],
        ) ==> start <= w < start + qs.len(),
{
    lemma_inst_map(qs, start);
    lemma_apply_idempotent(inst_map(qs, start), t);
}

proof fn lemma_inst_map(qs: Seq<TypeVar>, start: nat)
    requires
        forall|i: int| 0 <= i < qs.len() ==> (#[trigger] qs[i]).0 < start,
        start + qs.len() <= u32::MAX,
    ensures
        forall|v: u32| #[trigger] inst_map(qs, start).contains_key(v) ==> exists|i: int|
            0 <= i < qs.len() && qs[i].0 == v,
        forall|v: u32, w: u32| #[trigger] inst_map(qs, start).contains_key(v) && #[trigger] occurs(
            w,
            inst_map(qs, start)[v],
        ) ==> start <= w < start + qs.len(),
        idempotent(inst_map(qs, start)),
    decreases qs.len(),
{
    if qs.len() > 0 {
        let d = qs.drop_last();
        assert forall|i: int| 0 <= i < d.len() implies (#[trigger] d[i]).0 < start by {
            assert(d[i] == qs[i]);
        }
        lemma_inst_map(d, start);
        let m = inst_map(qs, start);
        assert forall|v: u32| #[trigger] m.contains_key(v) implies exists|i: int| 0 <= i < qs.len() && qs[i].0 == v by {
            if v != qs.last().0 {
                let i = choose|i: int| 0 <= i < d.len() && d[i].0 == v;
                assert(qs[i].0 == v);
            } else {
                assert(qs[qs.len() - 1].0 == v);
            }
        }
        assert forall|v: u32, w: u32| #[trigger] m.contains_key(v) && #[trigger] occurs(w, m[v]) implies !m.contains_key(w) by {
            if m.contains_key(w) {
                let i = choose|i: int| 0 <= i < qs.len() && qs[i].0 == w;
                assert(qs[i].0 < start);
            }
        }
    }
}

/// After binding `k` in the innermost scope, looking `k` up finds that binding.
pub proof fn law_bind_then_find<V>(scopes: Seq<Map<Seq<char>, V>>, k: Seq<char>, v: V)
    requires
        scopes.len() > 0,
    ensures
        find_scoped(scopes.update(scopes.len() - 1, scopes.last().insert(k, v)), k) == Some(v),
{
}

/// A binding in an inner scope disappears with the scope: entering a scope,
/// binding there and leaving it again restores the scopes.
pub proof fn law_scope_push_pop<V>(scopes: Seq<Map<Seq<char>, V>>, k: Seq<char>, v: V)
    ensures
        ({
            let inner = scopes.push(Map::empty());
            inner.update(inner.len() - 1, inner.last().insert(k, v)).drop_last() == scopes
        }),
{
    let inner = scopes.push(Map::empty());
    assert(inner.update(inner.len() - 1, inner.last().insert(k, v)).drop_last() =~= scopes);
}

/// A struct registered inside a scope is forgotten when the scope closes:
/// registering `n` and then removing the names of a scope that holds only `n`
/// leaves the structs as before, without `n`.
pub proof fn law_scoped_struct_forgotten<V>(structs: Map<Seq<char>, V>, n: String, fields: V)
    ensures
        structs.insert(n@, fields).remove_keys(names_of(seq![n])) == structs.remove(n@),
{
    assert(names_of(seq![n]) =~= Set::empty().insert(n@)) by {
        assert forall|k: Seq<char>| names_of(seq![n]).contains(k) <==> k == n@ by {
            if k == n@ {
                assert(seq![n][0]@ == k);
            }
        }
    }
    assert(structs.insert(n@, fields).remove_keys(names_of(seq![n])) =~= structs.remove(n@));
}

/// The structs after registering each of `regs`, in order.
pub open spec fn register_all<V>(structs: Map<Seq<char>, V>, regs: Seq<(String, V)>) -> Map<Seq<char>, V>
    decreases regs.len(),
{
    if regs.len() == 0 {
        structs
    } else {
        register_all(structs, regs.drop_last()).insert(regs.last().0@, regs.last().1)
    }
}

/// The names of a list of registrations, in order.
pub open spec fn reg_names<V>(regs: Seq<(String, V)>) -> Seq<String> {
    regs.map_values(|r: (String, V)| r.0)
}

/// Every struct registered inside a scope is forgotten when the scope
/// closes, and nothing else is: after registering `regs` (which the scope
/// records by name) and removing the recorded names, the structs are those
/// from before, without those names.
pub proof fn law_scoped_structs_forgotten<V>(structs: Map<Seq<char>, V>, regs: Seq<(String, V)>)
    ensures
        register_all(structs, regs).remove_keys(names_of(reg_names(regs))) == structs.remove_keys(
            names_of(reg_names(regs)),
        ),
    decreases regs.len(),
{
    if regs.len() > 0 {
        let prev = regs.drop_last();
        law_scoped_structs_forgotten(structs, prev);
        let n = names_of(reg_names(regs));
        let n0 = names_of(reg_names(prev));
        let kl = regs.last().0@;
        assert forall|k: Seq<char>| n.contains(k) <==> (n0.contains(k) || k == kl) by {
            if n.contains(k) {
                let i = choose|i: int| 0 <= i < reg_names(regs).len() && #[trigger] reg_names(regs)[i]@ == k;
                if i < prev.len() {
                    assert(reg_names(prev)[i] == reg_names(regs)[i]);
                }
            }
            if n0.contains(k) {
                let i = choose|i: int| 0 <= i < reg_names(prev).len() && #[trigger] reg_names(prev)[i]@ == k;
                assert(reg_names(prev)[i] == reg_names(regs)[i]);
            }
            if k == kl {
                assert(reg_names(regs)[regs.len() - 1]@ == k);
            }
        }
        let r0 = register_all(structs, prev);
        assert(r0.remove_keys(n0) == structs.remove_keys(n0));
        assert forall|k: Seq<char>| !n.contains(k) implies (r0.contains_key(k) <==> structs.contains_key(k)) by {
            assert(r0.remove_keys(n0).contains_key(k) == r0.contains_key(k));
            assert(structs.remove_keys(n0).contains_key(k) == structs.contains_key(k));
        }
        assert forall|k: Seq<char>| !n.contains(k) && r0.contains_key(k) implies r0[k] == structs[k] by {
            assert(r0.remove_keys(n0)[k] == r0[k]);
            assert(structs.remove_keys(n0)[k] == structs[k]);
        }
        assert(register_all(structs, regs).remove_keys(n) =~= structs.remove_keys(n));
    }
}

/// One operation of an inference context inside a lexical scope: binding a
/// monomorphic or a polymorphic name in the innermost scope, drawing a fresh
/// type variable, or recording a constraint.
pub enum ScopeStep {
    BindMono(String, InferType, bool),
    BindPoly(String, TypeScheme),
    FreshVar,
    Constrain(Constraint),
}

/// The monomorphic scopes, polymorphic scopes, next variable and constraints
/// of a context, as those operations change them.
pub type StepState = (Seq<Map<Seq<char>, (InferType, bool)>>, Seq<Map<Seq<char>, TypeScheme>>, nat, Seq<Constraint>);

/// The effect of one operation, as the context's methods state it.
pub open spec fn step_effect(st: StepState, s: ScopeStep) -> StepState {
    let (ms, ps, n, cs) = st;
    match s {
        ScopeStep::BindMono(k, t, m) => (ms.update(ms.len() - 1, ms.last().insert(k@, (t, m))), ps, n, cs),
        ScopeStep::BindPoly(k, sc) => (ms, ps.update(ps.len() - 1, ps.last().insert(k@, sc)), n, cs),
        ScopeStep::FreshVar => (ms, ps, n + 1, cs),
        ScopeStep::Constrain(c) => (ms, ps, n, cs.push(c)),
    }
}

/// The effect of the operations `steps`, in order.
pub open spec fn run_steps(st: StepState, steps: Seq<ScopeStep>) -> StepState
    decreases steps.len(),
{
    if steps.len() == 0 {
        st
    } else {
        step_effect(run_steps(st, steps.drop_last()), steps.last())
    }
}

/// The number of fresh variables `steps` draw.
pub open spec fn fresh_count(steps: Seq<ScopeStep>) -> nat
    decreases steps.len(),
{
    if steps.len() == 0 {
        0
    } else {
        fresh_count(steps.drop_last()) + if steps.last() is FreshVar { 1nat } else { 0nat }
    }
}

/// The constraints `steps` record, in order.
pub open spec fn recorded(steps: Seq<ScopeStep>) -> Seq<Constraint>
    decreases steps.len(),
{
    if steps.len() == 0 {
        Seq::empty()
    } else {
        match steps.last() {
            ScopeStep::Constrain(c) => recorded(steps.drop_last()).push(c),
            _ => recorded(steps.drop_last()),
        }
    }
}

proof fn lemma_run_steps(st: StepState, steps: Seq<ScopeStep>)
    requires
        st.0.len() >= 1,
        st.1.len() >= 1,
    ensures
        run_steps(st, steps).0.len() == st.0.len(),
        run_steps(st, steps).1.len() == st.1.len(),
        run_steps(st, steps).0.drop_last() == st.0.drop_last(),
        run_steps(st, steps).1.drop_last() == st.1.drop_last(),
        run_steps(st, steps).2 == st.2 + fresh_count(steps),
        run_steps(st, steps).3 == st.3 + recorded(steps),
    decreases steps.len(),
{
    if steps.len() == 0 {
        assert(st.3 + Seq::<Constraint>::empty() =~= st.3);
    } else {
        lemma_run_steps(st, steps.drop_last());
        let r = run_steps(st, steps.drop_last());
        assert(r.0.update(r.0.len() - 1, r.0.last()).drop_last() =~= r.0.drop_last());
        match steps.last() {
            ScopeStep::BindMono(k, t, m) => {
                assert(r.0.update(r.0.len() - 1, r.0.last().insert(k@, (t, m))).drop_last() =~= r.0.drop_last());
            },
            ScopeStep::BindPoly(k, sc) => {
                assert(r.1.update(r.1.len() - 1, r.1.last().insert(k@, sc)).drop_last() =~= r.1.drop_last());
            },
            ScopeStep::Constrain(c) => {
                assert(st.3 + recorded(steps.drop_last()).push(c) =~= (st.3 + recorded(steps.drop_last())).push(c));
            },
            _ => {},
        }
    }
}

/// Scopes nest: entering a scope, then binding names, drawing fresh
/// variables and recording constraints in any order, and leaving the scope
/// again restores both scope stacks; the variable counter keeps the fresh
/// variables drawn inside and the constraint list the constraints recorded
/// there, in order.
pub proof fn law_scope_round_trip(
    ms: Seq<Map<Seq<char>, (InferType, bool)>>,
    ps: Seq<Map<Seq<char>, TypeScheme>>,
    n: nat,
    cs: Seq<Constraint>,
    steps: Seq<ScopeStep>,
)
    ensures
        ({
            let r = run_steps((ms.push(Map::empty()), ps.push(Map::empty()), n, cs), steps);
            &&& r.0.drop_last() == ms
            &&& r.1.drop_last() == ps
            &&& r.2 == n + fresh_count(steps)
            &&& r.3 == cs + recorded(steps)
        }),
{
    lemma_run_steps((ms.push(Map::empty()), ps.push(Map::empty()), n, cs), steps);
    assert(ms.push(Map::empty()).drop_last() =~= ms);
    assert(ps.push(Map::empty()).drop_last() =~= ps);
}

/// `r` keeps every node of `t` that is not a variable: the same
/// constructor, the same name, the same number of children, and each child
/// kept in turn.
pub open spec fn keeps_nodes(t: InferTypeView, r: InferTypeView) -> bool
    decreases t, 0nat,
{
    match t {
        InferTypeView::Var(_) => true,
        InferTypeView::Fun(ps, rt) => r matches InferTypeView::Fun(ps2, r2) && keeps_all(ps, ps2) && keeps_nodes(*rt, *r2),
        InferTypeView::Tuple(ts) => r matches InferTypeView::Tuple(ts2) && keeps_all(ts, ts2),
        InferTypeView::Array(e) => r matches InferTypeView::Array(e2) && keeps_nodes(*e, *e2),
        InferTypeView::Named(n, args) => r matches InferTypeView::Named(n2, a2) && n2 == n && keeps_all(args, a2),
        _ => r == t,
    }
}

/// Each of `s` is kept by the element of `s2` at its place (see
/// [`keeps_nodes`]).
pub open spec fn keeps_all(s: Seq<InferTypeView>, s2: Seq<InferTypeView>) -> bool
    decreases s, 1nat,
{
    &&& s2.len() == s.len()
    &&& s.len() > 0 ==> keeps_all(s.drop_last(), s2.drop_last()) && keeps_nodes(s.last(), s2.last())
}

proof fn lemma_apply_f_keeps(m: Map<u32, InferTypeView>, t: InferTypeView, fuel: nat)
    requires
        apply_f(m, t, fuel) is Some,
    ensures
        keeps_nodes(t, apply_f(m, t, fuel)->Some_0),
    decreases fuel, t, 0nat,
{
    match t {
        InferTypeView::Fun(ps, r) => {
            lemma_apply_seq_f_keeps(m, ps, fuel);
            lemma_apply_f_keeps(m, *r, fuel);
        },
        InferTypeView::Tuple(ts) => {
            lemma_apply_seq_f_keeps(m, ts, fuel);
        },
        InferTypeView::Array(e) => {
            lemma_apply_f_keeps(m, *e, fuel);
        },
        InferTypeView::Named(n, args) => {
            lemma_apply_seq_f_keeps(m, args, fuel);
        },
        _ => {},
    }
}

proof fn lemma_apply_seq_f_keeps(m: Map<u32, InferTypeView>, s: Seq<InferTypeView>, fuel: nat)
    requires
        apply_seq_f(m, s, fuel) is Some,
    ensures
        keeps_all(s, apply_seq_f(m, s, fuel)->Some_0),
    decreases fuel, s, 1nat,
{
    if s.len() > 0 {
        lemma_apply_seq_f_keeps(m, s.drop_last(), fuel);
        lemma_apply_f_keeps(m, s.last(), fuel);
        let a = apply_seq_f(m, s.drop_last(), fuel)->Some_0;
        let b = apply_f(m, s.last(), fuel)->Some_0;
        assert(a.push(b).drop_last() =~= a);
    }
}

/// Applying a substitution replaces variables only: wherever the chase of
/// its bindings comes to an end, every node of the type that is not a
/// variable is kept, with its name and its number of children.
pub proof fn law_apply_keeps_nodes(m: Map<u32, InferTypeView>, t: InferTypeView)
    requires
        terminates(m, t),
    ensures
        keeps_nodes(t, apply_spec(m, t)),
{
    let fuel = choose|fuel: nat| #[trigger] apply_f(m, t, fuel) is Some;
    lemma_apply_spec(m, t, fuel);
    lemma_apply_f_keeps(m, t, fuel);
}

// ── Laws over the context's operations ───────────────────────────────────────

/// One operation on a context inside a lexical scope.
pub enum CtxOp {
    BindMono(Seq<char>, InferType, bool),
    BindPoly(Seq<char>, TypeScheme),
    FreshVar(InferType),
    Constrain(InferTypeView, InferTypeView, Span),
}

/// `c1` is what operation `op` makes of `c0`, as its method states it.
pub open spec fn ctx_op(c0: InferContext, op: CtxOp, c1: InferContext) -> bool {
    match op {
        CtxOp::BindMono(n, t, m) => mono_bound(c0, n, t, m, c1),
        CtxOp::BindPoly(n, sc) => poly_bound(c0, n, sc, c1),
        CtxOp::FreshVar(t) => var_drawn(c0, t, c1),
        CtxOp::Constrain(l, r, sp) => constraint_added(c0, l, r, sp, c1),
    }
}

/// How many fresh variables `ops` draw.
pub open spec fn op_draws(ops: Seq<CtxOp>) -> nat
    decreases ops.len(),
{
    if ops.len() == 0 {
        0
    } else {
        op_draws(ops.drop_last()) + if ops.last() is FreshVar { 1nat } else { 0nat }
    }
}

/// How many constraints `ops` record.
pub open spec fn op_constraints(ops: Seq<CtxOp>) -> nat
    decreases ops.len(),
{
    if ops.len() == 0 {
        0
    } else {
        op_constraints(ops.drop_last()) + if ops.last() is Constrain { 1nat } else { 0nat }
    }
}

proof fn lemma_ops_inside_scope(cs: Seq<InferContext>, ops: Seq<CtxOp>, k: int)
    requires
        cs.len() == ops.len() + 3,
        cs[0].wf(),
        scope_pushed(cs[0], cs[1]),
        forall|i: int| 0 <= i < ops.len() ==> ctx_op(cs[i + 1], #[trigger] ops[i], cs[i + 2]),
        1 <= k <= ops.len() + 1,
    ensures
        cs[k].mono_scopes().len() == cs[0].mono_scopes().len() + 1,
        cs[k].mono_scopes().drop_last() == cs[0].mono_scopes(),
        cs[k].poly_scopes().len() == cs[0].poly_scopes().len() + 1,
        cs[k].poly_scopes().drop_last() == cs[0].poly_scopes(),
        cs[k].next_var() == cs[0].next_var() + op_draws(ops.take(k - 1)),
        cs[k].constraint_list().len() == cs[0].constraint_list().len() + op_constraints(ops.take(k - 1)),
        cs[k].constraint_list().take(cs[0].constraint_list().len() as int) == cs[0].constraint_list(),
        cs[k].return_type() == cs[0].return_type(),
        cs[k].break_type() == cs[0].break_type(),
        cs[k].reg() == cs[0].reg(),
    decreases k,
{
    let l0 = cs[0].constraint_list().len() as int;
    if k == 1 {
        assert(ops.take(0) =~= Seq::<CtxOp>::empty());
        assert(cs[0].mono_scopes().push(Map::empty()).drop_last() =~= cs[0].mono_scopes());
        assert(cs[0].poly_scopes().push(Map::empty()).drop_last() =~= cs[0].poly_scopes());
        assert(cs[0].constraint_list().take(l0) =~= cs[0].constraint_list());
    } else {
        lemma_ops_inside_scope(cs, ops, k - 1);
        let c = cs[k - 1];
        let op = ops[k - 2];
        assert(ctx_op(cs[k - 1], ops[k - 2], cs[k]));
        assert(ops.take(k - 1).drop_last() =~= ops.take(k - 2));
        assert(ops.take(k - 1).last() == op);
        match op {
            CtxOp::BindMono(n, t, m) => {
                assert(cs[k].mono_scopes().drop_last() =~= c.mono_scopes().drop_last());
            },
            CtxOp::BindPoly(n, sc) => {
                assert(cs[k].poly_scopes().drop_last() =~= c.poly_scopes().drop_last());
            },
            CtxOp::Constrain(l, r, sp) => {
                assert(cs[k].constraint_list().take(l0) =~= c.constraint_list().take(l0));
            },
            _ => {},
        }
    }
}

/// Scopes nest, over the context's own operations: after `push_scope`, any
/// bindings, fresh variables and constraints, and `pop_scope`, both scope
/// stacks are as they were, so every name looks up as before; the counter
/// has moved past the variables drawn inside, and the constraints recorded
/// inside follow the earlier ones.
pub proof fn law_context_scope_round_trip(cs: Seq<InferContext>, ops: Seq<CtxOp>)
    requires
        cs.len() == ops.len() + 3,
        cs[0].wf(),
        scope_pushed(cs[0], cs[1]),
        forall|i: int| 0 <= i < ops.len() ==> ctx_op(cs[i + 1], #[trigger] ops[i], cs[i + 2]),
        scope_popped(cs[ops.len() + 1int], cs[ops.len() + 2int]),
    ensures
        cs.last().mono_scopes() == cs[0].mono_scopes(),
        cs.last().poly_scopes() == cs[0].poly_scopes(),
        cs.last().next_var() == cs[0].next_var() + op_draws(ops),
        cs.last().constraint_list().len() == cs[0].constraint_list().len() + op_constraints(ops),
        cs.last().constraint_list().take(cs[0].constraint_list().len() as int) == cs[0].constraint_list(),
        cs.last().return_type() == cs[0].return_type(),
        cs.last().break_type() == cs[0].break_type(),
        cs.last().reg() == cs[0].reg(),
{
    lemma_ops_inside_scope(cs, ops, ops.len() + 1int);
    assert(ops.take(ops.len() as int) =~= ops);
}

/// One registration of a type inside a struct scope.
pub enum TypeOp {
    Struct(String, Vec<(String, InferType)>),
    Enum(String, EnumInfo),
}

/// `c1` is what registration `op` makes of `c0`, as its method states it.
pub open spec fn type_op(c0: InferContext, op: TypeOp, c1: InferContext) -> bool {
    match op {
        TypeOp::Struct(n, f) => struct_registered(c0, n, f, c1),
        TypeOp::Enum(n, i) => enum_registered(c0, n, i, c1),
    }
}

/// The names of the structs `ops` register, in order.
pub open spec fn struct_names(ops: Seq<TypeOp>) -> Seq<String>
    decreases ops.len(),
{
    if ops.len() == 0 {
        Seq::empty()
    } else {
        match ops.last() {
            TypeOp::Struct(n, _) => struct_names(ops.drop_last()).push(n),
            TypeOp::Enum(..) => struct_names(ops.drop_last()),
        }
    }
}

proof fn lemma_types_inside_scope(cs: Seq<InferContext>, ops: Seq<TypeOp>, k: int)
    requires
        cs.len() == ops.len() + 3,
        cs[0].wf(),
        struct_scope_pushed(cs[0], cs[1]),
        forall|i: int| 0 <= i < ops.len() ==> type_op(cs[i + 1], #[trigger] ops[i], cs[i + 2]),
        1 <= k <= ops.len() + 1,
    ensures
        cs[k].reg().scopes().len() == cs[0].reg().scopes().len() + 1,
        cs[k].reg().scopes().drop_last() == cs[0].reg().scopes(),
        cs[k].reg().scopes().last() == struct_names(ops.take(k - 1)),
        cs[k].reg().structs().remove_keys(names_of(struct_names(ops.take(k - 1)))) == cs[0].reg().structs().remove_keys(
            names_of(struct_names(ops.take(k - 1))),
        ),
        cs[k].same_but_registry(&cs[0]),
        cs[k].wf(),
    decreases k,
{
    if k == 1 {
        assert(ops.take(0) =~= Seq::<TypeOp>::empty());
        assert(cs[0].reg().scopes().push(Seq::empty()).drop_last() =~= cs[0].reg().scopes());
    } else {
        lemma_types_inside_scope(cs, ops, k - 1);
        let c = cs[k - 1];
        let op = ops[k - 2];
        assert(type_op(cs[k - 1], ops[k - 2], cs[k]));
        assert(ops.take(k - 1).drop_last() =~= ops.take(k - 2));
        assert(ops.take(k - 1).last() == op);
        let prev = struct_names(ops.take(k - 2));
        match op {
            TypeOp::Struct(n, f) => {
                assert(cs[k].reg().scopes().drop_last() =~= c.reg().scopes().drop_last());
                let now = prev.push(n);
                assert(names_of(now) =~= names_of(prev).insert(n@)) by {
                    assert forall|x: Seq<char>| names_of(now).contains(x) <==> names_of(prev).insert(n@).contains(x) by {
                        if names_of(now).contains(x) {
                            let i = choose|i: int| 0 <= i < now.len() && now[i]@ == x;
                            if i < prev.len() {
                                assert(prev[i] == now[i]);
                            }
                        }
                        if names_of(prev).contains(x) {
                            let i = choose|i: int| 0 <= i < prev.len() && prev[i]@ == x;
                            assert(now[i] == prev[i]);
                        }
                        if x == n@ {
                            assert(now[prev.len() as int] == n);
                        }
                    }
                }
                assert(cs[k].reg().structs().remove_keys(names_of(now)) =~= c.reg().structs().remove_keys(names_of(prev)).remove(n@));
                assert(cs[0].reg().structs().remove_keys(names_of(now)) =~= cs[0].reg().structs().remove_keys(names_of(prev)).remove(n@));
            },
            TypeOp::Enum(..) => {},
        }
    }
}

/// A struct scope forgets exactly the structs registered in it, over the
/// context's own operations: after `push_struct_scope`, struct and enum
/// registrations, and `pop_struct_scope`, the structs are those from
/// before, less every name registered inside (a struct that a registered
/// one shadowed is gone too); the enums registered inside stay, and nothing
/// but the registry has changed.
pub proof fn law_context_struct_scope(cs: Seq<InferContext>, ops: Seq<TypeOp>)
    requires
        cs.len() == ops.len() + 3,
        cs[0].wf(),
        struct_scope_pushed(cs[0], cs[1]),
        forall|i: int| 0 <= i < ops.len() ==> type_op(cs[i + 1], #[trigger] ops[i], cs[i + 2]),
        struct_scope_popped(cs[ops.len() + 1int], cs[ops.len() + 2int]),
    ensures
        cs.last().reg().structs() == cs[0].reg().structs().remove_keys(names_of(struct_names(ops))),
        cs.last().reg().scopes() == cs[0].reg().scopes(),
        cs.last().reg().enums() == cs[ops.len() + 1int].reg().enums(),
        cs.last().same_but_registry(&cs[0]),
{
    lemma_types_inside_scope(cs, ops, ops.len() + 1int);
    assert(ops.take(ops.len() as int) =~= ops);
}

/// Return types nest: `push_return_type` hands back the type in force, and
/// `pop_return_type` with it restores that type, whatever happened in
/// between; neither touches the scopes, the constraints or the break type.
pub proof fn law_return_type_restored(
    c0: InferContext,
    t: InferType,
    prev: Option<InferType>,
    c1: InferContext,
    c2: InferContext,
    c3: InferContext,
)
    requires
        return_pushed(c0, t, prev, c1),
        return_popped(c2, prev, c3),
    ensures
        c1.return_type() == Some(t),
        c3.return_type() == c0.return_type(),
        c1.mono_scopes() == c0.mono_scopes() && c1.constraint_list() == c0.constraint_list() && c1.break_type()
            == c0.break_type(),
        c3.mono_scopes() == c2.mono_scopes() && c3.constraint_list() == c2.constraint_list() && c3.break_type()
            == c2.break_type(),
{
}

/// Break types nest as return types do (see [`law_return_type_restored`]).
pub proof fn law_break_type_restored(
    c0: InferContext,
    t: InferType,
    prev: Option<InferType>,
    c1: InferContext,
    c2: InferContext,
    c3: InferContext,
)
    requires
        break_pushed(c0, t, prev, c1),
        break_popped(c2, prev, c3),
    ensures
        c1.break_type() == Some(t),
        c3.break_type() == c0.break_type(),
        c1.mono_scopes() == c0.mono_scopes() && c1.constraint_list() == c0.constraint_list() && c1.return_type()
            == c0.return_type(),
        c3.mono_scopes() == c2.mono_scopes() && c3.constraint_list() == c2.constraint_list() && c3.return_type()
            == c2.return_type(),
{
}

// ── Fresh variables ──────────────────────────────────────────────────────────

/// Successive fresh variables are distinct: `k` calls of `fresh` from a
/// generator at `s` hand out `s`, `s + 1`, …, `s + k - 1` in order, and leave
/// the generator at `s + k`, past every one of them.
pub proof fn law_fresh_sequence(gs: Seq<TypeVarGenerator>, vs: Seq<TypeVar>)
    requires
        gs.len() == vs.len() + 1,
        forall|i: int| 0 <= i < vs.len() ==> var_fresh(gs[i], #[trigger] vs[i], gs[i + 1]),
    ensures
        gs.last().next_id() == gs[0].next_id() + vs.len(),
        forall|i: int| 0 <= i < vs.len() ==> #[trigger] vs[i].0 == gs[0].next_id() + i,
        forall|i: int, j: int| 0 <= i < j < vs.len() ==> #[trigger] vs[i].0 < #[trigger] vs[j].0,
        forall|i: int| 0 <= i < vs.len() ==> #[trigger] vs[i].0 < gs.last().next_id(),
    decreases vs.len(),
{
    if vs.len() > 0 {
        let gs0 = gs.drop_last();
        let vs0 = vs.drop_last();
        assert forall|i: int| 0 <= i < vs0.len() implies var_fresh(gs0[i], #[trigger] vs0[i], gs0[i + 1]) by {
            assert(var_fresh(gs[i], vs[i], gs[i + 1]));
        }
        law_fresh_sequence(gs0, vs0);
        assert(var_fresh(gs[vs.len() - 1], vs[vs.len() - 1], gs[vs.len() as int]));
        assert forall|i: int| 0 <= i < vs.len() implies #[trigger] vs[i].0 == gs[0].next_id() + i by {
            if i < vs.len() - 1 {
                assert(vs0[i] == vs[i]);
            }
        }
    }
}

/// Successive fresh variables drawn from a context are distinct in the same
/// way: `k` calls of `fresh_var` give the variables `n`, …, `n + k - 1` of
/// the context's counter `n`, which then stands at `n + k`.
pub proof fn law_fresh_vars(cs: Seq<InferContext>, ts: Seq<InferType>)
    requires
        cs.len() == ts.len() + 1,
        forall|i: int| 0 <= i < ts.len() ==> var_drawn(cs[i], #[trigger] ts[i], cs[i + 1]),
    ensures
        cs.last().next_var() == cs[0].next_var() + ts.len(),
        forall|i: int| 0 <= i < ts.len() ==> #[trigger] ts[i]@ == InferTypeView::Var((cs[0].next_var() + i) as u32),
        cs.last().mono_scopes() == cs[0].mono_scopes() && cs.last().constraint_list() == cs[0].constraint_list(),
    decreases ts.len(),
{
    if ts.len() > 0 {
        let cs0 = cs.drop_last();
        let ts0 = ts.drop_last();
        assert forall|i: int| 0 <= i < ts0.len() implies var_drawn(cs0[i], #[trigger] ts0[i], cs0[i + 1]) by {
            assert(var_drawn(cs[i], ts[i], cs[i + 1]));
        }
        law_fresh_vars(cs0, ts0);
        assert(var_drawn(cs[ts.len() - 1], ts[ts.len() - 1], cs[ts.len() as int]));
        assert forall|i: int| 0 <= i < ts.len() implies #[trigger] ts[i]@ == InferTypeView::Var((cs[0].next_var() + i) as u32) by {
            if i < ts.len() - 1 {
                assert(ts0[i] == ts[i]);
            }
        }
    }
}

// ── Constraints ──────────────────────────────────────────────────────────────

/// Recording a constraint and then solving is solving the list extended by
/// it: after `add_constraint(lhs, rhs, span)`, what solving the context's
/// constraints gives is what solving the earlier constraints followed by
/// that one gives, in order, nothing dropped; the failing constraint's place
/// is the same in both.
pub proof fn law_add_then_solve(c0: InferContext, lhs: InferTypeView, rhs: InferTypeView, span: Span, c1: InferContext, c: Constraint)
    requires
        constraint_added(c0, lhs, rhs, span, c1),
        c.lhs@ == lhs,
        c.rhs@ == rhs,
        c.span == span,
    ensures
        solve_spec(c1.constraint_list()) == solve_spec(c0.constraint_list().push(c)),
        c1.constraint_list().len() == c0.constraint_list().push(c).len(),
        forall|j: int| 0 <= j < c1.constraint_list().len() ==> (#[trigger] c1.constraint_list()[j]).span == c0.constraint_list().push(c)[j].span,
{
    let cs = c1.constraint_list();
    let ds = c0.constraint_list().push(c);
    assert forall|j: int| 0 <= j < cs.len() implies #[trigger] cs[j].lhs@ == ds[j].lhs@ && cs[j].rhs@ == ds[j].rhs@ && cs[j].span == ds[j].span by {
        if j < cs.len() - 1 {
            assert(cs[j] == cs.drop_last()[j]);
        }
    }
    lemma_solve_sides(cs, ds);
}

// ── Return and break types ───────────────────────────────────────────────────

/// One step of a sequence on the return type: `push_return_type(t)`, with
/// the place of the pop that matches it, `pop_return_type(prev)`, or an
/// operation that leaves the return type.
pub enum RetOp {
    Push(InferType, int),
    Pop(Option<InferType>),
    Keep,
}

/// `cs[i + 1]` is what `ops[i]` makes of `cs[i]`.
pub open spec fn ret_step(cs: Seq<InferContext>, ops: Seq<RetOp>, i: int) -> bool {
    match ops[i] {
        RetOp::Push(t, _) => return_pushed(cs[i], t, cs[i].return_type(), cs[i + 1]),
        RetOp::Pop(prev) => return_popped(cs[i], prev, cs[i + 1]),
        RetOp::Keep => cs[i + 1].return_type() == cs[i].return_type(),
    }
}

/// `ops[i..j]` is balanced: each push is matched by a later pop that hands
/// back what the push returned, with a balanced sequence between them.
pub open spec fn ret_balanced(cs: Seq<InferContext>, ops: Seq<RetOp>, i: int, j: int) -> bool
    decreases j - i,
{
    if j <= i {
        true
    } else {
        match ops[i] {
            RetOp::Keep => ret_balanced(cs, ops, i + 1, j),
            RetOp::Pop(_) => false,
            RetOp::Push(_, k) => i < k < j && ops[k] == RetOp::Pop(cs[i].return_type()) && ret_balanced(cs, ops, i + 1, k)
                && ret_balanced(cs, ops, k + 1, j),
        }
    }
}

/// Return types nest: along a balanced sequence of `push_return_type` and
/// `pop_return_type` calls, each pop handed what its push returned, and
/// operations that leave the return type, the return type at the end is the
/// one at the start.
pub proof fn law_balanced_return_types(cs: Seq<InferContext>, ops: Seq<RetOp>, i: int, j: int)
    requires
        0 <= i <= j <= ops.len(),
        cs.len() == ops.len() + 1,
        forall|x: int| i <= x < j ==> #[trigger] ret_step(cs, ops, x),
        ret_balanced(cs, ops, i, j),
    ensures
        cs[j].return_type() == cs[i].return_type(),
    decreases j - i,
{
    if i < j {
        assert(ret_step(cs, ops, i));
        match ops[i] {
            RetOp::Keep => {
                law_balanced_return_types(cs, ops, i + 1, j);
            },
            RetOp::Push(t, k) => {
                law_balanced_return_types(cs, ops, i + 1, k);
                assert(ret_step(cs, ops, k));
                law_balanced_return_types(cs, ops, k + 1, j);
            },
            RetOp::Pop(_) => {},
        }
    }
}

/// One step of a sequence on the break type (see [`RetOp`]).
pub enum BreakOp {
    Push(InferType, int),
    Pop(Option<InferType>),
    Keep,
}

/// `cs[i + 1]` is what `ops[i]` makes of `cs[i]`.
pub open spec fn break_step(cs: Seq<InferContext>, ops: Seq<BreakOp>, i: int) -> bool {
    match ops[i] {
        BreakOp::Push(t, _) => break_pushed(cs[i], t, cs[i].break_type(), cs[i + 1]),
        BreakOp::Pop(prev) => break_popped(cs[i], prev, cs[i + 1]),
        BreakOp::Keep => cs[i + 1].break_type() == cs[i].break_type(),
    }
}

/// `ops[i..j]` is balanced (see [`ret_balanced`]).
pub open spec fn break_balanced(cs: Seq<InferContext>, ops: Seq<BreakOp>, i: int, j: int) -> bool
    decreases j - i,
{
    if j <= i {
        true
    } else {
        match ops[i] {
            BreakOp::Keep => break_balanced(cs, ops, i + 1, j),
            BreakOp::Pop(_) => false,
            BreakOp::Push(_, k) => i < k < j && ops[k] == BreakOp::Pop(cs[i].break_type()) && break_balanced(cs, ops, i + 1, k)
                && break_balanced(cs, ops, k + 1, j),
        }
    }
}

/// Break types nest as return types do (see [`law_balanced_return_types`]).
pub proof fn law_balanced_break_types(cs: Seq<InferContext>, ops: Seq<BreakOp>, i: int, j: int)
    requires
        0 <= i <= j <= ops.len(),
        cs.len() == ops.len() + 1,
        forall|x: int| i <= x < j ==> #[trigger] break_step(cs, ops, x),
        break_balanced(cs, ops, i, j),
    ensures
        cs[j].break_type() == cs[i].break_type(),
    decreases j - i,
{
    if i < j {
        assert(break_step(cs, ops, i));
        match ops[i] {
            BreakOp::Keep => {
                law_balanced_break_types(cs, ops, i + 1, j);
            },
            BreakOp::Push(t, k) => {
                law_balanced_break_types(cs, ops, i + 1, k);
                assert(break_step(cs, ops, k));
                law_balanced_break_types(cs, ops, k + 1, j);
            },
            BreakOp::Pop(_) => {},
        }
    }
}

} // verus!
