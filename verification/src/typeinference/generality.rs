//! How general a substitution is: a substitution `s` is at least as general
//! as `m` when applying `s` first changes nothing `m` then does. These are
//! the lemmas behind the statement that unification and constraint solving
//! succeed whenever some substitution makes the two sides equal.

use vstd::prelude::*;

use super::model::{
    InferTypeView, compose_spec, idempotent, lemma_apply_empty, lemma_compose_subst1, lemma_occurs_seq,
    lemma_size_seq_elem, lemma_subst1_seq, occurs, size, size_seq, subst1, subst1_seq,
};

verus! {

/// `s` is at least as general as `m`: applying `s` before `m` gives what
/// `m` alone gives, on every type.
pub open spec fn absorbs(m: Map<u32, InferTypeView>, s: Map<u32, InferTypeView>) -> bool {
    forall|t: InferTypeView| #[trigger] subst1(m, subst1(s, t)) == subst1(m, t)
}

/// `m` makes the two sides of every pair equal.
pub open spec fn unifies_all(m: Map<u32, InferTypeView>, xs: Seq<InferTypeView>, ys: Seq<InferTypeView>) -> bool {
    forall|j: int| 0 <= j < xs.len() ==> #[trigger] subst1(m, xs[j]) == subst1(m, ys[j])
}

/// Agreement on variables gives agreement on every type.
proof fn lemma_absorb_term(m: Map<u32, InferTypeView>, s: Map<u32, InferTypeView>, t: InferTypeView)
    requires
        forall|w: u32| #[trigger] subst1(m, subst1(s, InferTypeView::Var(w))) == subst1(m, InferTypeView::Var(w)),
    ensures
        subst1(m, subst1(s, t)) == subst1(m, t),
    decreases t, 0nat,
{
    match t {
        InferTypeView::Var(w) => {
            assert(subst1(m, subst1(s, InferTypeView::Var(w))) == subst1(m, InferTypeView::Var(w)));
        },
        InferTypeView::Fun(ps, r) => {
            lemma_absorb_seq(m, s, ps);
            lemma_absorb_term(m, s, *r);
        },
        InferTypeView::Tuple(ts) => lemma_absorb_seq(m, s, ts),
        InferTypeView::Array(e) => lemma_absorb_term(m, s, *e),
        InferTypeView::Named(_, args) => lemma_absorb_seq(m, s, args),
        _ => {},
    }
}

proof fn lemma_absorb_seq(m: Map<u32, InferTypeView>, s: Map<u32, InferTypeView>, ts: Seq<InferTypeView>)
    requires
        forall|w: u32| #[trigger] subst1(m, subst1(s, InferTypeView::Var(w))) == subst1(m, InferTypeView::Var(w)),
    ensures
        subst1_seq(m, subst1_seq(s, ts)) == subst1_seq(m, ts),
    decreases ts, 1nat,
{
    if ts.len() > 0 {
        lemma_absorb_seq(m, s, ts.drop_last());
        lemma_absorb_term(m, s, ts.last());
        let a = subst1_seq(s, ts.drop_last());
        let b = subst1(s, ts.last());
        assert(a.push(b).drop_last() =~= a);
    }
}

/// The empty substitution is at least as general as any.
pub proof fn lemma_absorbs_empty(m: Map<u32, InferTypeView>)
    ensures
        absorbs(m, Map::empty()),
{
    assert forall|t: InferTypeView| #[trigger] subst1(m, subst1(Map::empty(), t)) == subst1(m, t) by {
        lemma_apply_empty(t);
    }
}

/// Binding `v` to `t` is at least as general as any `m` that makes `v` and
/// `t` equal.
pub proof fn lemma_absorbs_single(m: Map<u32, InferTypeView>, v: u32, t: InferTypeView)
    requires
        subst1(m, InferTypeView::Var(v)) == subst1(m, t),
    ensures
        absorbs(m, Map::empty().insert(v, t)),
{
    let s = Map::<u32, InferTypeView>::empty().insert(v, t);
    assert forall|w: u32| #[trigger] subst1(m, subst1(s, InferTypeView::Var(w))) == subst1(m, InferTypeView::Var(w)) by {}
    assert forall|u: InferTypeView| #[trigger] subst1(m, subst1(s, u)) == subst1(m, u) by {
        lemma_absorb_term(m, s, u);
    }
}

/// Composing two substitutions at least as general as `m` (the second
/// idempotent) gives one at least as general as `m`.
pub proof fn lemma_absorbs_compose(m: Map<u32, InferTypeView>, s1: Map<u32, InferTypeView>, s2: Map<u32, InferTypeView>)
    requires
        absorbs(m, s1),
        absorbs(m, s2),
        idempotent(s2),
    ensures
        absorbs(m, compose_spec(s1, s2)),
{
    assert forall|t: InferTypeView| #[trigger] subst1(m, subst1(compose_spec(s1, s2), t)) == subst1(m, t) by {
        lemma_compose_subst1(s1, s2, t);
        assert(subst1(m, subst1(s2, subst1(s1, t))) == subst1(m, subst1(s1, t)));
        assert(subst1(m, subst1(s1, t)) == subst1(m, t));
    }
}

/// A type in which `v` occurs is, after any substitution, at least as large
/// as `v` after it; strictly larger unless the type is `v` itself.
proof fn lemma_occurs_size(m: Map<u32, InferTypeView>, v: u32, t: InferTypeView)
    requires
        occurs(v, t),
    ensures
        size(subst1(m, t)) >= size(subst1(m, InferTypeView::Var(v))),
        t != InferTypeView::Var(v) ==> size(subst1(m, t)) > size(subst1(m, InferTypeView::Var(v))),
    decreases t, 0nat,
{
    match t {
        InferTypeView::Var(w) => {},
        InferTypeView::Fun(ps, r) => {
            lemma_subst1_seq(m, ps);
            if occurs(v, *r) {
                lemma_occurs_size(m, v, *r);
            } else {
                lemma_occurs_elem_size(m, v, ps);
            }
        },
        InferTypeView::Tuple(ts) => {
            lemma_subst1_seq(m, ts);
            lemma_occurs_elem_size(m, v, ts);
        },
        InferTypeView::Array(e) => lemma_occurs_size(m, v, *e),
        InferTypeView::Named(_, args) => {
            lemma_subst1_seq(m, args);
            lemma_occurs_elem_size(m, v, args);
        },
        _ => {},
    }
}

proof fn lemma_occurs_elem_size(m: Map<u32, InferTypeView>, v: u32, ts: Seq<InferTypeView>)
    requires
        crate::typeinference::model::occurs_seq(v, ts),
    ensures
        size_seq(subst1_seq(m, ts)) >= size(subst1(m, InferTypeView::Var(v))),
    decreases ts, 1nat,
{
    lemma_occurs_seq(v, ts);
    let i = choose|i: int| 0 <= i < ts.len() && #[trigger] occurs(v, ts[i]);
    lemma_subst1_seq(m, ts);
    lemma_occurs_size(m, v, ts[i]);
    lemma_size_seq_elem(subst1_seq(m, ts), i);
}

/// No substitution makes a variable equal to a larger type it occurs in.
pub proof fn lemma_occurs_no_unifier(m: Map<u32, InferTypeView>, v: u32, t: InferTypeView)
    requires
        occurs(v, t),
        t != InferTypeView::Var(v),
    ensures
        subst1(m, InferTypeView::Var(v)) != subst1(m, t),
{
    lemma_occurs_size(m, v, t);
}

/// Substitution works element-wise: a substitution making two sequences
/// equal makes each pair of elements equal.
pub proof fn lemma_unifies_elements(m: Map<u32, InferTypeView>, xs: Seq<InferTypeView>, ys: Seq<InferTypeView>)
    requires
        subst1_seq(m, xs) == subst1_seq(m, ys),
        xs.len() == ys.len(),
    ensures
        unifies_all(m, xs, ys),
{
    lemma_subst1_seq(m, xs);
    lemma_subst1_seq(m, ys);
    assert forall|j: int| 0 <= j < xs.len() implies #[trigger] subst1(m, xs[j]) == subst1(m, ys[j]) by {
        let a = subst1_seq(m, xs);
        let b = subst1_seq(m, ys);
        assert(a[j] == subst1(m, xs[j]));
        assert(b[j] == subst1(m, ys[j]));
        assert(a[j] == b[j]);
    }
}

} // verus!
