//! Properties that relate the module loader, the name resolver and the type
//! conversions to one another, of the match exhaustiveness check, of the
//! evaluation of binary operations and literal patterns, and of the types
//! both passes give binary operations.

use vstd::prelude::*;

use crate::ast::{BinOp, ImportTree, Literal, PathRoot, Pattern, Span};
use crate::evaluator::{BinopOutcome, BinopValue, RtValue, ScalarValue, abs_int, binop_outcome, match_spec, trunc_div, trunc_rem};
use crate::module_loader::{child_base, import_segments_spec, tree_segments};
use crate::name_resolver::{BindingView, absolute_base_spec, import_group_spec, import_tree_spec};
use crate::typechecker::inference::{PatState, appended, binop_constraints, binop_result, elem_vars, pat_effect, pats_effect, span_view};
use crate::typechecker::construction::binop_type;
use crate::typeinference::{Constraint, equates_all, satisfies_all};
use crate::typechecker::matching::{
    ArmPattern, bool_literal, catch_all, catch_all_seq, covers_variant, exhaustive, some_bool, some_catch_all,
    some_covers,
};
use crate::typechecker::conversions::{infer_to_type, infers_to_types, type_to_infer_spec, types_to_infer_spec};
use crate::typeinference::model::{InferTypeView, apply_f, apply_spec, compat, fv, subst1};
use crate::typeinference::EnumInfo;
use crate::types::TypeView;

verus! {

/// The loader and the resolver agree on where an import points: for every
/// root but `std` (which no file provides), the module path the loader gives
/// the imported file, followed by the names left after the file's segments,
/// is the resolver's absolute base followed by the tree's names.
pub proof fn law_loader_paths_match_resolver(parent: Seq<Seq<char>>, root: PathRoot, tree: &ImportTree)
    requires
        !(root is Std),
    ensures
        import_segments_spec(root, tree) is Some,
        child_base(parent, root) + import_segments_spec(root, tree).unwrap()
            == absolute_base_spec(root, parent) + tree_segments(tree),
{
    match root {
        PathRoot::Name(n) => {
            assert(parent + (seq![n@] + tree_segments(tree)) =~= parent.push(n@) + tree_segments(tree));
        },
        _ => {},
    }
}

/// Importing never rebinds a name already bound in the scope, and never
/// drops a glob source: every earlier binding and glob is still there,
/// unchanged, after a successful import.
pub proof fn law_imports_never_rebind(
    ex: Map<Seq<char>, BindingView>,
    globs: Seq<Seq<Seq<char>>>,
    base: Seq<Seq<char>>,
    tree: &ImportTree,
    known: Set<Seq<Seq<char>>>,
)
    ensures
        import_tree_spec(ex, globs, base, tree, known) matches Ok((ex2, g2)) ==> {
            &&& forall|k: Seq<char>| #[trigger] ex.contains_key(k) ==> ex2.contains_key(k) && ex2[k] == ex[k]
            &&& g2.len() >= globs.len()
            &&& g2.take(globs.len() as int) == globs
        },
    decreases tree, 0nat,
{
    match tree {
        ImportTree::Path { name, tree: rest } => {
            law_imports_never_rebind(ex, globs, base.push(name@), rest, known);
        },
        ImportTree::Group(items) => {
            lemma_group_never_rebinds(ex, globs, base, items@, known);
        },
        ImportTree::Glob => {
            assert(globs.push(base).take(globs.len() as int) =~= globs);
        },
        _ => {
            assert(globs.take(globs.len() as int) =~= globs);
        },
    }
}

proof fn lemma_group_never_rebinds(
    ex: Map<Seq<char>, BindingView>,
    globs: Seq<Seq<Seq<char>>>,
    base: Seq<Seq<char>>,
    items: Seq<ImportTree>,
    known: Set<Seq<Seq<char>>>,
)
    ensures
        import_group_spec(ex, globs, base, items, known) matches Ok((ex2, g2)) ==> {
            &&& forall|k: Seq<char>| #[trigger] ex.contains_key(k) ==> ex2.contains_key(k) && ex2[k] == ex[k]
            &&& g2.len() >= globs.len()
            &&& g2.take(globs.len() as int) == globs
        },
    decreases items, 1nat,
{
    if items.len() == 0 {
        assert(globs.take(globs.len() as int) =~= globs);
    } else {
        lemma_group_never_rebinds(ex, globs, base, items.drop_last(), known);
        match import_group_spec(ex, globs, base, items.drop_last(), known) {
            Ok((e2, g2)) => {
                law_imports_never_rebind(e2, g2, base, &items.last(), known);
                match import_tree_spec(e2, g2, base, &items.last(), known) {
                    Ok((e3, g3)) => {
                        assert(g3.take(globs.len() as int) =~= g3.take(g2.len() as int).take(globs.len() as int));
                    },
                    Err(_) => {},
                }
            },
            Err(_) => {},
        }
    }
}

/// A resolved type survives the trip through inference types: it has no
/// type variables there, and converting back gives the same type.
pub proof fn law_resolved_type_round_trip(t: TypeView)
    ensures
        fv(type_to_infer_spec(t)) == Set::<u32>::empty(),
        infer_to_type(type_to_infer_spec(t)) == t,
    decreases t, 0nat,
{
    crate::typechecker::conversions::lemma_type_to_infer_closed_all(t);
    match t {
        TypeView::Array(e) => law_resolved_type_round_trip(*e),
        TypeView::Tuple(ts) => lemma_types_round_trip(ts),
        TypeView::Fun(ps, r) => {
            lemma_types_round_trip(ps);
            law_resolved_type_round_trip(*r);
        },
        TypeView::Named(_, args) => lemma_types_round_trip(args),
        _ => {},
    }
}

proof fn lemma_types_round_trip(s: Seq<TypeView>)
    ensures
        infers_to_types(types_to_infer_spec(s)) == s,
    decreases s, 1nat,
{
    if s.len() > 0 {
        lemma_types_round_trip(s.drop_last());
        law_resolved_type_round_trip(s.last());
        let m = types_to_infer_spec(s);
        assert(m.drop_last() =~= types_to_infer_spec(s.drop_last()));
        assert(infers_to_types(m) =~= s);
    } else {
        assert(types_to_infer_spec(s) =~= Seq::<crate::typeinference::model::InferTypeView>::empty());
        assert(infers_to_types(types_to_infer_spec(s)) =~= s);
    }
}

/// A guarded arm never decides whether a match is exhaustive: adding one to
/// the arms leaves the verdict unchanged, whatever the scrutinee's type.
pub proof fn law_guarded_arm_irrelevant(
    arms: Seq<ArmPattern>,
    extra: ArmPattern,
    ty: TypeView,
    enums: Map<Seq<char>, EnumInfo>,
)
    requires
        extra.guarded,
    ensures
        exhaustive(arms.push(extra), ty, enums) == exhaustive(arms, ty, enums),
{
    let more = arms.push(extra);
    assert forall|i: int| 0 <= i < arms.len() implies #[trigger] more[i] == arms[i] by {}
    assert(some_catch_all(more) == some_catch_all(arms)) by {
        if some_catch_all(more) {
            let i = choose|i: int| 0 <= i < more.len() && !more[i].guarded && #[trigger] catch_all(more[i].pattern);
            assert(i < arms.len());
            assert(catch_all(arms[i].pattern));
        }
        if some_catch_all(arms) {
            let i = choose|i: int| 0 <= i < arms.len() && !arms[i].guarded && #[trigger] catch_all(arms[i].pattern);
            assert(more[i] == arms[i]);
            assert(catch_all(more[i].pattern));
        }
    }
    assert forall|b: bool| #[trigger] some_bool(more, b) == some_bool(arms, b) by {
        if some_bool(more, b) {
            let i = choose|i: int| 0 <= i < more.len() && !more[i].guarded && #[trigger] bool_literal(more[i].pattern, b);
            assert(i < arms.len());
            assert(bool_literal(arms[i].pattern, b));
        }
        if some_bool(arms, b) {
            let i = choose|i: int| 0 <= i < arms.len() && !arms[i].guarded && #[trigger] bool_literal(arms[i].pattern, b);
            assert(more[i] == arms[i]);
            assert(bool_literal(more[i].pattern, b));
        }
    }
    assert forall|e: Seq<char>, v: Seq<char>| #[trigger] some_covers(more, e, v) == some_covers(arms, e, v) by {
        if some_covers(more, e, v) {
            let i = choose|i: int| 0 <= i < more.len() && !more[i].guarded && #[trigger] covers_variant(more[i].pattern, e, v);
            assert(i < arms.len());
            assert(covers_variant(arms[i].pattern, e, v));
        }
        if some_covers(arms, e, v) {
            let i = choose|i: int| 0 <= i < arms.len() && !arms[i].guarded && #[trigger] covers_variant(arms[i].pattern, e, v);
            assert(more[i] == arms[i]);
            assert(covers_variant(more[i].pattern, e, v));
        }
    }
    if let TypeView::Named(n, _) = ty {
        if enums.contains_key(n) {
            let vs = enums[n].variants@;
            assert((forall|k: int| 0 <= k < vs.len() ==> #[trigger] some_covers(more, n, vs[k].name@))
                == (forall|k: int| 0 <= k < vs.len() ==> #[trigger] some_covers(arms, n, vs[k].name@))) by {
                assert forall|k: int| 0 <= k < vs.len() implies some_covers(more, n, vs[k].name@) == some_covers(arms, n, vs[k].name@) by {}
            }
        }
    }
}

/// A pattern the exhaustiveness check counts as matching every value (`_`,
/// a binding, or a tuple of such patterns) is never rejected when its
/// types are inferred, whatever the scrutinee's type and the state.
pub proof fn law_catch_all_patterns_infer(
    p: Pattern,
    scrut: InferTypeView,
    st: PatState,
    enums: Map<Seq<char>, EnumInfo>,
)
    requires
        catch_all(p),
    ensures
        pat_effect(p, scrut, st, enums).1 is None,
    decreases p, 0nat,
{
    if let Pattern::Tuple(ps, s) = p {
        let vars = elem_vars(st.next, ps@.len());
        let first = PatState {
            cs: st.cs.push((scrut, InferTypeView::Tuple(vars), span_view(s))),
            scope: st.scope,
            next: st.next + ps@.len(),
        };
        lemma_catch_all_elements_infer(ps@, vars, first, enums);
    }
}

proof fn lemma_catch_all_elements_infer(
    ps: Seq<Pattern>,
    tys: Seq<InferTypeView>,
    st: PatState,
    enums: Map<Seq<char>, EnumInfo>,
)
    requires
        catch_all_seq(ps),
    ensures
        pats_effect(ps, tys, st, enums).1 is None,
    decreases ps, 1nat,
{
    if ps.len() > 0 {
        lemma_catch_all_elements_infer(ps.drop_last(), tys, st, enums);
        let mid = pats_effect(ps.drop_last(), tys, st, enums).0;
        law_catch_all_patterns_infer(ps.last(), tys[ps.len() - 1], mid, enums);
    }
}

/// Integer division and remainder fit together: for a nonzero divisor (and
/// the one overflowing quotient aside), the quotient times the divisor plus
/// the remainder gives back the dividend, and the remainder is smaller than
/// the divisor and takes the dividend's sign.
pub proof fn law_div_rem_recombine(a: i64, b: i64)
    requires
        b != 0,
        !(a == i64::MIN && b == -1),
    ensures
        binop_outcome(BinOp::Div, ScalarValue::Int(a), ScalarValue::Int(b)) matches BinopOutcome::Value(
            BinopValue::Int(q),
        ) && binop_outcome(BinOp::Rem, ScalarValue::Int(a), ScalarValue::Int(b)) matches BinopOutcome::Value(
            BinopValue::Int(r),
        ) && q * b + r == a && abs_int(r as int) < abs_int(b as int) && (r != 0 ==> (r < 0) == (a < 0)),
{
    let x = a as int;
    let d = b as int;
    let ax = abs_int(x);
    let ad = abs_int(d);
    vstd::arithmetic::div_mod::lemma_fundamental_div_mod(ax, ad);
    assert(0 <= ax % ad < ad) by (nonlinear_arith)
        requires ad > 0, ax >= 0;
    assert(0 <= ax / ad <= ax) by (nonlinear_arith)
        requires ad > 0, ax >= 0;
    assert(ad >= 2 ==> 2 * (ax / ad) <= ax) by (nonlinear_arith)
        requires ad > 0, ax >= 0;
    let q = trunc_div(x, d);
    let r = trunc_rem(x, d);
    assert(q * d + r == x) by (nonlinear_arith)
        requires
            ax == ad * (ax / ad) + ax % ad,
            ax == (if x < 0 { -x } else { x }),
            ad == (if d < 0 { -d } else { d }),
            q == (if (x < 0) != (d < 0) { -(ax / ad) } else { ax / ad }),
            r == (if x < 0 { -(ax % ad) } else { ax % ad }),
    ;
    assert(i64::MIN <= q <= i64::MAX) by (nonlinear_arith)
        requires
            q == (if (x < 0) != (d < 0) { -(ax / ad) } else { ax / ad }),
            0 <= ax / ad <= ax,
            ax == (if x < 0 { -x } else { x }),
            ad == (if d < 0 { -d } else { d }),
            ad >= 1,
            i64::MIN <= x <= i64::MAX,
            !(x == i64::MIN && d == -1),
            ad >= 2 ==> 2 * (ax / ad) <= ax,
    ;
}


/// The module file a lookup settles on is the longest prefix of the
/// segments that has a file: with `candidate_prefixes` giving the prefixes
/// longest first and `first_existing` picking the first candidate whose
/// file is among `found`, the pick is a prefix with a file and no longer
/// prefix has one; nothing is picked exactly when no non-empty prefix has a
/// file.
pub proof fn law_longest_existing_prefix(
    segs: Seq<Seq<char>>,
    cands: Seq<Seq<Seq<char>>>,
    found: Set<Seq<Seq<char>>>,
    exists: Seq<bool>,
    r: Option<usize>,
)
    requires
        cands.len() == segs.len(),
        forall|k: int| 0 <= k < cands.len() ==> #[trigger] cands[k] == segs.take(segs.len() - k),
        exists.len() == cands.len(),
        forall|k: int| 0 <= k < exists.len() ==> #[trigger] exists[k] == found.contains(cands[k]),
        match r {
            Some(k) => k < exists.len() && exists[k as int] && forall|i: int| 0 <= i < k ==> !exists[i],
            None => forall|i: int| 0 <= i < exists.len() ==> !exists[i],
        },
    ensures
        match r {
            Some(k) => found.contains(segs.take(segs.len() - k)) && forall|m: int|
                segs.len() - k < m <= segs.len() ==> !#[trigger] found.contains(segs.take(m)),
            None => forall|m: int| 1 <= m <= segs.len() ==> !#[trigger] found.contains(segs.take(m)),
        },
{
    match r {
        Some(k) => {
            assert(exists[k as int] == found.contains(cands[k as int]));
            assert forall|m: int| segs.len() - k < m <= segs.len() implies !#[trigger] found.contains(segs.take(m)) by {
                let i = segs.len() - m;
                assert(cands[i] == segs.take(segs.len() - i));
                assert(exists[i] == found.contains(cands[i]));
            }
        },
        None => {
            assert forall|m: int| 1 <= m <= segs.len() implies !#[trigger] found.contains(segs.take(m)) by {
                let i = segs.len() - m;
                assert(cands[i] == segs.take(segs.len() - i));
                assert(exists[i] == found.contains(cands[i]));
            }
        },
    }
}

/// A match on a `Result` that no unguarded catch-all arm covers is
/// exhaustive only when an unguarded arm names `Result::Ok` and another
/// names `Result::Err`: with no unguarded `Err` arm (or no unguarded `Ok`
/// arm) the match is refused, and with both it is accepted.
pub proof fn law_result_match_needs_ok_and_err(
    arms: Seq<ArmPattern>,
    t: TypeView,
    e: TypeView,
    enums: Map<Seq<char>, EnumInfo>,
)
    requires
        forall|i: int| 0 <= i < arms.len() && !arms[i].guarded ==> !#[trigger] catch_all(arms[i].pattern),
    ensures
        exhaustive(arms, TypeView::Result(Box::new(t), Box::new(e)), enums) <==> (exists|i: int|
            0 <= i < arms.len() && !arms[i].guarded && (#[trigger] arms[i].pattern matches Pattern::EnumVariant {
                path,
                ..
            } && path.len() >= 2 && path@[0]@ == "Result"@ && path@[1]@ == "Ok"@)) && (exists|i: int|
            0 <= i < arms.len() && !arms[i].guarded && (#[trigger] arms[i].pattern matches Pattern::EnumVariant {
                path,
                ..
            } && path.len() >= 2 && path@[0]@ == "Result"@ && path@[1]@ == "Err"@)),
{
    assert(!some_catch_all(arms));
    let ok_named = exists|i: int|
        0 <= i < arms.len() && !arms[i].guarded && (#[trigger] arms[i].pattern matches Pattern::EnumVariant {
            path,
            ..
        } && path.len() >= 2 && path@[0]@ == "Result"@ && path@[1]@ == "Ok"@);
    let err_named = exists|i: int|
        0 <= i < arms.len() && !arms[i].guarded && (#[trigger] arms[i].pattern matches Pattern::EnumVariant {
            path,
            ..
        } && path.len() >= 2 && path@[0]@ == "Result"@ && path@[1]@ == "Err"@);
    assert(some_covers(arms, "Result"@, "Ok"@) <==> ok_named) by {
        if some_covers(arms, "Result"@, "Ok"@) {
            let i = choose|i: int| 0 <= i < arms.len() && !arms[i].guarded && #[trigger] covers_variant(arms[i].pattern, "Result"@, "Ok"@);
            assert(!(arms[i].pattern is Nope)) by {
                if arms[i].pattern is Nope {
                    assert("Result"@ != "Perhaps"@) by {
                        reveal_strlit("Result");
                        reveal_strlit("Perhaps");
                        assert("Result"@[0] != "Perhaps"@[0]);
                    }
                }
            }
        }
        if ok_named {
            let i = choose|i: int|
                0 <= i < arms.len() && !arms[i].guarded && (#[trigger] arms[i].pattern matches Pattern::EnumVariant {
                    path,
                    ..
                } && path.len() >= 2 && path@[0]@ == "Result"@ && path@[1]@ == "Ok"@);
            assert(covers_variant(arms[i].pattern, "Result"@, "Ok"@));
        }
    }
    assert(some_covers(arms, "Result"@, "Err"@) <==> err_named) by {
        if some_covers(arms, "Result"@, "Err"@) {
            let i = choose|i: int| 0 <= i < arms.len() && !arms[i].guarded && #[trigger] covers_variant(arms[i].pattern, "Result"@, "Err"@);
            assert(!(arms[i].pattern is Nope)) by {
                if arms[i].pattern is Nope {
                    assert("Result"@ != "Perhaps"@) by {
                        reveal_strlit("Result");
                        reveal_strlit("Perhaps");
                        assert("Result"@[0] != "Perhaps"@[0]);
                    }
                }
            }
        }
        if err_named {
            let i = choose|i: int|
                0 <= i < arms.len() && !arms[i].guarded && (#[trigger] arms[i].pattern matches Pattern::EnumVariant {
                    path,
                    ..
                } && path.len() >= 2 && path@[0]@ == "Result"@ && path@[1]@ == "Err"@);
            assert(covers_variant(arms[i].pattern, "Result"@, "Err"@));
        }
    }
}

/// The six integer comparisons agree with the order of the integers: `<`
/// and `==` are the mathematical ones, `<=` is `<` or `==` (so every integer
/// is `<=` itself), `>` and `>=` are `<` and `<=` with the operands swapped,
/// and `!=` is the negation of `==`.
pub proof fn law_int_comparisons_agree(a: i64, b: i64)
    ensures
        binop_outcome(BinOp::Lt, ScalarValue::Int(a), ScalarValue::Int(b)) == BinopOutcome::Value(BinopValue::Bool(a < b)),
        binop_outcome(BinOp::Eq, ScalarValue::Int(a), ScalarValue::Int(b)) == BinopOutcome::Value(BinopValue::Bool(a == b)),
        binop_outcome(BinOp::Le, ScalarValue::Int(a), ScalarValue::Int(b)) == BinopOutcome::Value(BinopValue::Bool(a <= b)),
        binop_outcome(BinOp::Le, ScalarValue::Int(a), ScalarValue::Int(a)) == BinopOutcome::Value(BinopValue::Bool(true)),
        binop_outcome(BinOp::Lt, ScalarValue::Int(a), ScalarValue::Int(a)) == BinopOutcome::Value(BinopValue::Bool(false)),
        binop_outcome(BinOp::Gt, ScalarValue::Int(a), ScalarValue::Int(b)) == binop_outcome(
            BinOp::Lt,
            ScalarValue::Int(b),
            ScalarValue::Int(a),
        ),
        binop_outcome(BinOp::Ge, ScalarValue::Int(a), ScalarValue::Int(b)) == binop_outcome(
            BinOp::Le,
            ScalarValue::Int(b),
            ScalarValue::Int(a),
        ),
        binop_outcome(BinOp::Ne, ScalarValue::Int(a), ScalarValue::Int(b)) == BinopOutcome::Value(BinopValue::Bool(a != b)),
        binop_outcome(BinOp::Le, ScalarValue::Int(a), ScalarValue::Int(b)) == BinopOutcome::Value(
            BinopValue::Bool(a < b || a == b),
        ),
        binop_outcome(BinOp::Ge, ScalarValue::Int(a), ScalarValue::Int(b)) == BinopOutcome::Value(BinopValue::Bool(a >= b)),
{
}

/// A literal pattern binds nothing and matches exactly the values equal to
/// its literal: `true` matches `true` and not `false`, `false` the other
/// way round, so of the two boolean literals exactly one matches a boolean;
/// an integer literal matches only that integer and a string literal only
/// that string.
pub proof fn law_literal_patterns_match_equal_values(sp: Span, a: bool, b: bool, n: i64, k: i64, x: String, y: String)
    ensures
        match_spec(Pattern::Literal(Literal::Bool(a), sp), RtValue::Bool(b)) == (if a == b {
            Some(Seq::<(Seq<char>, RtValue)>::empty())
        } else {
            None
        }),
        match_spec(Pattern::Literal(Literal::Bool(true), sp), RtValue::Bool(b)) is Some != match_spec(
            Pattern::Literal(Literal::Bool(false), sp),
            RtValue::Bool(b),
        ) is Some,
        match_spec(Pattern::Literal(Literal::Int(n), sp), RtValue::Int(k)) is Some <==> n == k,
        match_spec(Pattern::Literal(Literal::Str(x), sp), RtValue::Str(y)) is Some <==> x@ == y@,
        match_spec(Pattern::Literal(Literal::Int(n), sp), RtValue::Int(k)) matches Some(bs) ==> bs.len() == 0,
        match_spec(Pattern::Literal(Literal::Str(x), sp), RtValue::Str(y)) matches Some(bs) ==> bs.len() == 0,
{
}

/// Every comparison (`==`, `!=`, `<`, `<=`, `>`, `>=`) ties its operand
/// types together: once its constraints are added, every substitution that
/// satisfies the constraints makes the two operand types compatible, and
/// every one that equates them makes them equal. So when the operands have
/// two different concrete types, no substitution satisfies the
/// constraints, and solving them fails.
pub proof fn law_comparisons_equate_operands(
    op: BinOp,
    l: InferTypeView,
    r: InferTypeView,
    next: u32,
    before: Seq<Constraint>,
    after: Seq<Constraint>,
    span: Span,
    m: Map<u32, InferTypeView>,
)
    requires
        op == BinOp::Eq || op == BinOp::Ne || op == BinOp::Lt || op == BinOp::Le || op == BinOp::Gt || op == BinOp::Ge,
        appended(before, after, binop_constraints(op, l, r, next), span),
    ensures
        satisfies_all(m, after) ==> compat(apply_spec(m, l), apply_spec(m, r)),
        equates_all(m, after) ==> subst1(m, l) == subst1(m, r),
        (l matches InferTypeView::Concrete(x) && r matches InferTypeView::Concrete(y) && x != y) ==> !satisfies_all(
            m,
            after,
        ),
{
    let pairs = binop_constraints(op, l, r, next);
    assert(pairs.len() == 1 && pairs[0] == (l, r));
    let c = after[before.len() + 0int];
    assert(c.lhs@ == l && c.rhs@ == r);
    if satisfies_all(m, after) {
        assert(compat(apply_spec(m, after[before.len() as int].lhs@), apply_spec(m, after[before.len() as int].rhs@)));
    }
    if equates_all(m, after) {
        assert(subst1(m, after[before.len() as int].lhs@) == subst1(m, after[before.len() as int].rhs@));
    }
    if l matches InferTypeView::Concrete(x) {
        assert(apply_f(m, l, 0) is Some);
        assert(apply_spec(m, l) == l);
    }
    if r matches InferTypeView::Concrete(y) {
        assert(apply_f(m, r, 0) is Some);
        assert(apply_spec(m, r) == r);
    }
}

/// Both passes give an arithmetic operation (`+`, `-`, `*`, `/`, `%`) the
/// type of its left operand: the second pass gives that type itself, and
/// the first pass a result that every substitution equating its constraints
/// makes equal to it. A comparison or `&&`/`||` is a `Bool` in both.
pub proof fn law_arithmetic_keeps_left_type(
    op: BinOp,
    lhs: TypeView,
    l: InferTypeView,
    r: InferTypeView,
    next: u32,
    before: Seq<Constraint>,
    after: Seq<Constraint>,
    span: Span,
    m: Map<u32, InferTypeView>,
)
    requires
        appended(before, after, binop_constraints(op, l, r, next), span),
    ensures
        (op == BinOp::Add || op == BinOp::Sub || op == BinOp::Mul || op == BinOp::Div || op == BinOp::Rem) ==> binop_type(
            op,
            lhs,
        ) == lhs,
        (op == BinOp::Add || op == BinOp::Sub || op == BinOp::Mul || op == BinOp::Div || op == BinOp::Rem) && equates_all(
            m,
            after,
        ) ==> subst1(m, binop_result(op, next)) == subst1(m, l),
        (op == BinOp::Add || op == BinOp::Sub || op == BinOp::Mul || op == BinOp::Div || op == BinOp::Rem) && equates_all(
            m,
            after,
        ) ==> subst1(m, l) == subst1(m, r),
        (op == BinOp::Eq || op == BinOp::Ne || op == BinOp::Lt || op == BinOp::Le || op == BinOp::Gt || op == BinOp::Ge
            || op == BinOp::And || op == BinOp::Or) ==> binop_type(op, lhs) == TypeView::Bool && binop_result(op, next)
            == InferTypeView::Concrete(TypeView::Bool),
        (op == BinOp::And || op == BinOp::Or) && equates_all(m, after) ==> subst1(m, l) == InferTypeView::Concrete(
            TypeView::Bool,
        ) && subst1(m, r) == InferTypeView::Concrete(TypeView::Bool),
{
    if (op == BinOp::Add || op == BinOp::Sub || op == BinOp::Mul || op == BinOp::Div || op == BinOp::Rem) && equates_all(m, after) {
        let pairs = binop_constraints(op, l, r, next);
        assert(pairs[0] == (l, InferTypeView::Var(next)));
        assert(after[before.len() + 0int].lhs@ == l);
        assert(subst1(m, after[before.len() as int].lhs@) == subst1(m, after[before.len() as int].rhs@));
        assert(after[before.len() + 1int].lhs@ == r);
        assert(subst1(m, after[before.len() + 1int].lhs@) == subst1(m, after[before.len() + 1int].rhs@));
    }
    if (op == BinOp::And || op == BinOp::Or) && equates_all(m, after) {
        assert(after[before.len() + 0int].lhs@ == l);
        assert(subst1(m, after[before.len() + 0int].lhs@) == subst1(m, after[before.len() + 0int].rhs@));
        assert(after[before.len() + 1int].lhs@ == r);
        assert(subst1(m, after[before.len() + 1int].lhs@) == subst1(m, after[before.len() + 1int].rhs@));
    }
}

/// A match on a boolean that no unguarded catch-all arm covers is
/// exhaustive exactly when unguarded arms give both literals `true` and
/// `false`; one on a `Perhaps` exactly when unguarded arms name
/// `Perhaps::Some` and `Perhaps::Nope` (or are `nope`).
pub proof fn law_bool_and_perhaps_matches_need_both(arms: Seq<ArmPattern>, t: TypeView, enums: Map<Seq<char>, EnumInfo>)
    requires
        forall|i: int| 0 <= i < arms.len() && !arms[i].guarded ==> !#[trigger] catch_all(arms[i].pattern),
    ensures
        exhaustive(arms, TypeView::Bool, enums) <==> (exists|i: int|
            0 <= i < arms.len() && !arms[i].guarded && (#[trigger] arms[i].pattern matches Pattern::Literal(
                Literal::Bool(true),
                _,
            ))) && (exists|i: int|
            0 <= i < arms.len() && !arms[i].guarded && (#[trigger] arms[i].pattern matches Pattern::Literal(
                Literal::Bool(false),
                _,
            ))),
        exhaustive(arms, TypeView::Perhaps(Box::new(t)), enums) <==> (exists|i: int|
            0 <= i < arms.len() && !arms[i].guarded && (#[trigger] arms[i].pattern matches Pattern::EnumVariant {
                path,
                ..
            } && path.len() >= 2 && path@[0]@ == "Perhaps"@ && path@[1]@ == "Some"@)) && (exists|i: int|
            0 <= i < arms.len() && !arms[i].guarded && (#[trigger] arms[i].pattern is Nope || (arms[i].pattern matches Pattern::EnumVariant {
                path,
                ..
            } && path.len() >= 2 && path@[0]@ == "Perhaps"@ && path@[1]@ == "Nope"@))),
{
    assert(!some_catch_all(arms));
    let t_lit = exists|i: int|
        0 <= i < arms.len() && !arms[i].guarded && (#[trigger] arms[i].pattern matches Pattern::Literal(Literal::Bool(true), _));
    let f_lit = exists|i: int|
        0 <= i < arms.len() && !arms[i].guarded && (#[trigger] arms[i].pattern matches Pattern::Literal(Literal::Bool(false), _));
    assert(some_bool(arms, true) <==> t_lit) by {
        if t_lit {
            let i = choose|i: int|
                0 <= i < arms.len() && !arms[i].guarded && (#[trigger] arms[i].pattern matches Pattern::Literal(Literal::Bool(true), _));
            assert(bool_literal(arms[i].pattern, true));
        }
    }
    assert(some_bool(arms, false) <==> f_lit) by {
        if f_lit {
            let i = choose|i: int|
                0 <= i < arms.len() && !arms[i].guarded && (#[trigger] arms[i].pattern matches Pattern::Literal(Literal::Bool(false), _));
            assert(bool_literal(arms[i].pattern, false));
        }
    }
    let some_named = exists|i: int|
        0 <= i < arms.len() && !arms[i].guarded && (#[trigger] arms[i].pattern matches Pattern::EnumVariant {
            path,
            ..
        } && path.len() >= 2 && path@[0]@ == "Perhaps"@ && path@[1]@ == "Some"@);
    let nope_named = exists|i: int|
        0 <= i < arms.len() && !arms[i].guarded && (#[trigger] arms[i].pattern is Nope || (arms[i].pattern matches Pattern::EnumVariant {
            path,
            ..
        } && path.len() >= 2 && path@[0]@ == "Perhaps"@ && path@[1]@ == "Nope"@));
    assert(some_covers(arms, "Perhaps"@, "Some"@) <==> some_named) by {
        if some_covers(arms, "Perhaps"@, "Some"@) {
            let i = choose|i: int| 0 <= i < arms.len() && !arms[i].guarded && #[trigger] covers_variant(arms[i].pattern, "Perhaps"@, "Some"@);
            assert(!(arms[i].pattern is Nope)) by {
                if arms[i].pattern is Nope {
                    assert("Some"@ != "Nope"@) by {
                        reveal_strlit("Some");
                        reveal_strlit("Nope");
                        assert("Some"@[0] != "Nope"@[0]);
                    }
                }
            }
        }
        if some_named {
            let i = choose|i: int|
                0 <= i < arms.len() && !arms[i].guarded && (#[trigger] arms[i].pattern matches Pattern::EnumVariant {
                    path,
                    ..
                } && path.len() >= 2 && path@[0]@ == "Perhaps"@ && path@[1]@ == "Some"@);
            assert(covers_variant(arms[i].pattern, "Perhaps"@, "Some"@));
        }
    }
    assert(some_covers(arms, "Perhaps"@, "Nope"@) <==> nope_named) by {
        if some_covers(arms, "Perhaps"@, "Nope"@) {
            let i = choose|i: int| 0 <= i < arms.len() && !arms[i].guarded && #[trigger] covers_variant(arms[i].pattern, "Perhaps"@, "Nope"@);
            assert(arms[i].pattern is Nope || (arms[i].pattern matches Pattern::EnumVariant {
                path,
                ..
            } && path.len() >= 2 && path@[0]@ == "Perhaps"@ && path@[1]@ == "Nope"@));
        }
        if nope_named {
            let i = choose|i: int|
                0 <= i < arms.len() && !arms[i].guarded && (#[trigger] arms[i].pattern is Nope || (arms[i].pattern matches Pattern::EnumVariant {
                    path,
                    ..
                } && path.len() >= 2 && path@[0]@ == "Perhaps"@ && path@[1]@ == "Nope"@));
            assert(covers_variant(arms[i].pattern, "Perhaps"@, "Nope"@));
        }
    }
}

/// Integer arithmetic on values that do not overflow is that of the
/// integers: `+` and `*` commute, and `-` undoes `+`.
pub proof fn law_int_arithmetic(a: i64, b: i64)
    requires
        i64::MIN <= a + b <= i64::MAX,
        i64::MIN <= a - b <= i64::MAX,
        i64::MIN <= a * b <= i64::MAX,
    ensures
        binop_outcome(BinOp::Add, ScalarValue::Int(a), ScalarValue::Int(b)) == BinopOutcome::Value(BinopValue::Int((a + b) as i64)),
        binop_outcome(BinOp::Sub, ScalarValue::Int(a), ScalarValue::Int(b)) == BinopOutcome::Value(BinopValue::Int((a - b) as i64)),
        binop_outcome(BinOp::Mul, ScalarValue::Int(a), ScalarValue::Int(b)) == BinopOutcome::Value(BinopValue::Int((a * b) as i64)),
        binop_outcome(BinOp::Add, ScalarValue::Int(a), ScalarValue::Int(b)) == binop_outcome(
            BinOp::Add,
            ScalarValue::Int(b),
            ScalarValue::Int(a),
        ),
        binop_outcome(BinOp::Mul, ScalarValue::Int(a), ScalarValue::Int(b)) == binop_outcome(
            BinOp::Mul,
            ScalarValue::Int(b),
            ScalarValue::Int(a),
        ),
        binop_outcome(BinOp::Sub, ScalarValue::Int((a + b) as i64), ScalarValue::Int(b)) == BinopOutcome::Value(
            BinopValue::Int(a),
        ),
{
    assert(a * b == b * a) by (nonlinear_arith);
}

/// `==` and `!=` on booleans and on strings say whether the operands are
/// equal, and are each other's negation; booleans and strings have no
/// other binary operation.
pub proof fn law_bool_and_string_equality(op: BinOp, a: bool, b: bool, x: String, y: String)
    ensures
        binop_outcome(BinOp::Eq, ScalarValue::Bool(a), ScalarValue::Bool(b)) == BinopOutcome::Value(BinopValue::Bool(a == b)),
        binop_outcome(BinOp::Ne, ScalarValue::Bool(a), ScalarValue::Bool(b)) == BinopOutcome::Value(BinopValue::Bool(a != b)),
        binop_outcome(BinOp::Eq, ScalarValue::Str(x), ScalarValue::Str(y)) == BinopOutcome::Value(BinopValue::Bool(x@ == y@)),
        binop_outcome(BinOp::Ne, ScalarValue::Str(x), ScalarValue::Str(y)) == BinopOutcome::Value(BinopValue::Bool(x@ != y@)),
        op != BinOp::Eq && op != BinOp::Ne ==> binop_outcome(op, ScalarValue::Bool(a), ScalarValue::Bool(b))
            is Unsupported && binop_outcome(op, ScalarValue::Str(x), ScalarValue::Str(y)) is Unsupported,
{
}

} // verus!
