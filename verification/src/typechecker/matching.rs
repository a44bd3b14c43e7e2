//! Whether the arms of a match cover every value of the scrutinee's type.

use vstd::prelude::*;

use crate::ast::{Literal, Pattern, Span};
use crate::error::{GustError, TypeErrorCode, is_type_error};
use crate::strmap::StrMap;
use crate::text::str_eq;
use crate::typeinference::EnumInfo;
use crate::types::{Type, TypeView};

verus! {

broadcast use vstd::string::group_string_axioms;

/// What the exhaustiveness check reads of a match arm: its pattern and
/// whether a guard restricts it.
#[derive(Debug)]
pub struct ArmPattern {
    pub pattern: Pattern,
    pub guarded: bool,
}

/// A pattern that every value matches: `_`, a binding, or a tuple of such
/// patterns.
pub open spec fn catch_all(p: Pattern) -> bool
    decreases p, 0nat,
{
    match p {
        Pattern::Wildcard(_) => true,
        Pattern::Binding(_, _) => true,
        Pattern::Tuple(ps, _) => catch_all_seq(ps@),
        _ => false,
    }
}

/// Every pattern of `ps` is a catch-all.
pub open spec fn catch_all_seq(ps: Seq<Pattern>) -> bool
    decreases ps, 1nat,
{
    if ps.len() == 0 {
        true
    } else {
        catch_all_seq(ps.drop_last()) && catch_all(ps.last())
    }
}

/// `p` is the boolean literal `b`.
pub open spec fn bool_literal(p: Pattern, b: bool) -> bool {
    p matches Pattern::Literal(Literal::Bool(x), _) && x == b
}

/// `p` covers the variant `v` of the enum `e`: `nope` covers `Perhaps`'s
/// `Nope`, and a variant pattern covers the variant its path names.
pub open spec fn covers_variant(p: Pattern, e: Seq<char>, v: Seq<char>) -> bool {
    match p {
        Pattern::Nope(_) => e == "Perhaps"@ && v == "Nope"@,
        Pattern::EnumVariant { path, .. } => path.len() >= 2 && path@[0]@ == e && path@[1]@ == v,
        _ => false,
    }
}

/// Some unguarded arm is a catch-all.
pub open spec fn some_catch_all(arms: Seq<ArmPattern>) -> bool {
    exists|i: int| 0 <= i < arms.len() && !arms[i].guarded && #[trigger] catch_all(arms[i].pattern)
}

/// Some unguarded arm is the boolean literal `b`.
pub open spec fn some_bool(arms: Seq<ArmPattern>, b: bool) -> bool {
    exists|i: int| 0 <= i < arms.len() && !arms[i].guarded && #[trigger] bool_literal(arms[i].pattern, b)
}

/// Some unguarded arm covers the variant `v` of the enum `e`.
pub open spec fn some_covers(arms: Seq<ArmPattern>, e: Seq<char>, v: Seq<char>) -> bool {
    exists|i: int| 0 <= i < arms.len() && !arms[i].guarded && #[trigger] covers_variant(arms[i].pattern, e, v)
}

/// The arms cover every value of `ty`: an unguarded catch-all covers any
/// type; otherwise `Bool` needs both literals, `Perhaps` both `Some` and
/// `Nope`, `Result` both `Ok` and `Err`, a declared enum each of its
/// variants, and `Never` nothing. No other type is covered.
pub open spec fn exhaustive(arms: Seq<ArmPattern>, ty: TypeView, enums: Map<Seq<char>, EnumInfo>) -> bool {
    if some_catch_all(arms) {
        true
    } else {
        match ty {
            TypeView::Bool => some_bool(arms, true) && some_bool(arms, false),
            TypeView::Perhaps(_) => some_covers(arms, "Perhaps"@, "Some"@) && some_covers(arms, "Perhaps"@, "Nope"@),
            TypeView::Result(_, _) => some_covers(arms, "Result"@, "Ok"@) && some_covers(arms, "Result"@, "Err"@),
            TypeView::Named(n, _) => enums.contains_key(n) && forall|j: int|
                0 <= j < enums[n].variants.len() ==> #[trigger] some_covers(arms, n, enums[n].variants@[j].name@),
            TypeView::Never => true,
            _ => false,
        }
    }
}

/// Whether every value matches `pattern` (see [`catch_all`]).
pub fn is_catch_all_pattern(pattern: &Pattern) -> (r: bool)
    ensures
        r == catch_all(*pattern),
    decreases pattern, 0nat,
{
    match pattern {
        Pattern::Wildcard(_) | Pattern::Binding(_, _) => true,
        Pattern::Tuple(pats, _) => all_catch_all(pats),
        _ => false,
    }
}

fn all_catch_all(pats: &Vec<Pattern>) -> (r: bool)
    ensures
        r == catch_all_seq(pats@),
    decreases pats, 1nat,
{
    let mut i: usize = 0;
    assert(pats@.take(0) =~= Seq::<Pattern>::empty());
    while i < pats.len()
        invariant
            i <= pats.len(),
            catch_all_seq(pats@.take(i as int)),
        decreases pats.len() - i,
    {
        assert(pats@.take(i + 1).drop_last() =~= pats@.take(i as int));
        if !is_catch_all_pattern(&pats[i]) {
            proof { lemma_catch_all_prefix(pats@, i + 1); }
            return false;
        }
        i += 1;
    }
    assert(pats@.take(pats.len() as int) =~= pats@);
    true
}

proof fn lemma_catch_all_prefix(ps: Seq<Pattern>, k: int)
    requires
        0 < k <= ps.len(),
        !catch_all(ps[k - 1]),
    ensures
        !catch_all_seq(ps),
    decreases ps.len(),
{
    if k < ps.len() {
        assert(ps.drop_last()[k - 1] == ps[k - 1]);
        lemma_catch_all_prefix(ps.drop_last(), k);
    }
}

/// Whether `pattern` is the boolean literal `expected`.
pub fn is_bool_literal_pattern(pattern: &Pattern, expected: bool) -> (r: bool)
    ensures
        r == bool_literal(*pattern, expected),
{
    match pattern {
        Pattern::Literal(Literal::Bool(b), _) => *b == expected,
        _ => false,
    }
}

/// Whether `pattern` covers the variant `variant_name` of the enum
/// `enum_name` (see [`covers_variant`]).
pub fn pattern_covers_variant(pattern: &Pattern, enum_name: &str, variant_name: &str) -> (r: bool)
    ensures
        r == covers_variant(*pattern, enum_name@, variant_name@),
{
    match pattern {
        Pattern::Nope(_) => str_eq(enum_name, "Perhaps") && str_eq(variant_name, "Nope"),
        Pattern::EnumVariant { path, .. } => {
            path.len() >= 2 && str_eq(path[0].as_str(), enum_name) && str_eq(path[1].as_str(), variant_name)
        },
        _ => false,
    }
}

fn arms_catch_all(arms: &Vec<ArmPattern>) -> (r: bool)
    ensures
        r == some_catch_all(arms@),
{
    let mut i: usize = 0;
    while i < arms.len()
        invariant
            i <= arms.len(),
            forall|j: int| 0 <= j < i ==> !(!arms@[j].guarded && #[trigger] catch_all(arms@[j].pattern)),
        decreases arms.len() - i,
    {
        if !arms[i].guarded && is_catch_all_pattern(&arms[i].pattern) {
            return true;
        }
        i += 1;
    }
    false
}

fn arms_bool(arms: &Vec<ArmPattern>, b: bool) -> (r: bool)
    ensures
        r == some_bool(arms@, b),
{
    let mut i: usize = 0;
    while i < arms.len()
        invariant
            i <= arms.len(),
            forall|j: int| 0 <= j < i ==> !(!arms@[j].guarded && #[trigger] bool_literal(arms@[j].pattern, b)),
        decreases arms.len() - i,
    {
        if !arms[i].guarded && is_bool_literal_pattern(&arms[i].pattern, b) {
            return true;
        }
        i += 1;
    }
    false
}

fn arms_cover(arms: &Vec<ArmPattern>, enum_name: &str, variant_name: &str) -> (r: bool)
    ensures
        r == some_covers(arms@, enum_name@, variant_name@),
{
    let mut i: usize = 0;
    while i < arms.len()
        invariant
            i <= arms.len(),
            forall|j: int| 0 <= j < i ==> !(!arms@[j].guarded && #[trigger] covers_variant(arms@[j].pattern, enum_name@, variant_name@)),
        decreases arms.len() - i,
    {
        if !arms[i].guarded && pattern_covers_variant(&arms[i].pattern, enum_name, variant_name) {
            return true;
        }
        i += 1;
    }
    false
}

/// Reject a match whose arms do not cover every value of the scrutinee's
/// type (see [`exhaustive`]) with `T0008` at the match's span.
pub fn check_match_exhaustiveness(
    arms: &Vec<ArmPattern>,
    scrutinee_ty: &Type,
    enum_env: &StrMap<EnumInfo>,
    span: &Span,
) -> (r: Result<(), GustError>)
    requires
        enum_env.wf(),
    ensures
        r is Ok <==> exhaustive(arms@, scrutinee_ty@, enum_env.view()),
        r matches Err(e) ==> is_type_error(
            e,
            TypeErrorCode::T0008,
            "non-exhaustive match: not all cases are covered"@,
            *span,
        ),
{
    if arms_catch_all(arms) {
        return Ok(());
    }
    let ok = match scrutinee_ty {
        Type::Bool => arms_bool(arms, true) && arms_bool(arms, false),
        Type::Perhaps(_) => arms_cover(arms, "Perhaps", "Some") && arms_cover(arms, "Perhaps", "Nope"),
        Type::Result(_, _) => arms_cover(arms, "Result", "Ok") && arms_cover(arms, "Result", "Err"),
        Type::Named(name, _) => match enum_env.get(name.as_str()) {
            Some(info) => {
                let mut all = true;
                let mut j: usize = 0;
                while j < info.variants.len() && all
                    invariant
                        j <= info.variants.len(),
                        all ==> forall|k: int| 0 <= k < j ==> #[trigger] some_covers(arms@, name@, info.variants@[k].name@),
                        !all ==> j >= 1 && !some_covers(arms@, name@, info.variants@[j - 1].name@),
                    decreases info.variants.len() - j,
                {
                    if !arms_cover(arms, name.as_str(), info.variants[j].name.as_str()) {
                        all = false;
                    }
                    j += 1;
                }
                all
            },
            None => false,
        },
        Type::Never => true,
        _ => false,
    };
    if !ok {
        return Err(GustError::type_error(
            TypeErrorCode::T0008,
            "non-exhaustive match: not all cases are covered".to_string(),
            span,
        ));
    }
    Ok(())
}

} // verus!
