//! Pieces of the first pass: the name a type is known by for method lookup,
//! and what an enum-variant pattern binds and requires of its scrutinee.

use vstd::prelude::*;

use crate::ast::{BinOp, DeclHeader, DeclKind, Literal, Pattern, Span, UnaryOp, same_span};
use crate::pathmap::{join_path, join_spec, pv};
use crate::error::{GustError, TypeErrorCode, is_type_error};
use crate::text::push_str;
use crate::types::{Type, TypeView};
use crate::typeinference::model::{InferTypeView, apply_spec, subst1, terminates, lemma_apply_idempotent};
use crate::typeinference::{
    Constraint, EnumInfo, InferContext, InferType, Substitution, TypeVar, VariantInfo, clone_infer, clone_infers, inst_map, infers_model,
    lemma_infers_model, lemma_infers_model_push, solve_error, solve_spec, TypeRegistry,
};

verus! {

broadcast use vstd::string::group_string_axioms;

/// The name a type is known by when looking up its methods: a named type's
/// own name, and `String`, `Int`, `Float`, `Bool` for those built-in types.
pub open spec fn named_type_name_spec(t: InferTypeView) -> Option<Seq<char>> {
    match t {
        InferTypeView::Named(n, _) => Some(n),
        InferTypeView::Concrete(TypeView::Str) => Some("String"@),
        InferTypeView::Concrete(TypeView::Int) => Some("Int"@),
        InferTypeView::Concrete(TypeView::Float) => Some("Float"@),
        InferTypeView::Concrete(TypeView::Bool) => Some("Bool"@),
        _ => None,
    }
}

/// The name a type is known by when looking up its methods (see
/// [`named_type_name_spec`]).
pub fn named_type_name(ty: &InferType) -> (r: Option<String>)
    ensures
        match named_type_name_spec(ty@) {
            Some(n) => r matches Some(s) && s@ == n,
            None => r is None,
        },
{
    match ty {
        InferType::Named(name, _) => Some(name.clone()),
        InferType::Concrete(Type::Str) => Some("String".to_string()),
        InferType::Concrete(Type::Int) => Some("Int".to_string()),
        InferType::Concrete(Type::Float) => Some("Float".to_string()),
        InferType::Concrete(Type::Bool) => Some("Bool".to_string()),
        _ => None,
    }
}

/// The index of the first variant named `k`.
pub open spec fn first_variant(vs: Seq<VariantInfo>, k: Seq<char>) -> Option<int>
    decreases vs.len(),
{
    if vs.len() == 0 {
        None
    } else if vs[0].name@ == k {
        Some(0)
    } else {
        match first_variant(vs.drop_first(), k) {
            Some(i) => Some(i + 1),
            None => None,
        }
    }
}

/// The fields of a variant, by their models.
pub open spec fn fields_view(fs: Seq<(String, InferType)>) -> Seq<(Seq<char>, InferTypeView)> {
    fs.map_values(|e: (String, InferType)| (e.0@, e.1@))
}

/// The index of the first field named `k`.
pub open spec fn first_field(fs: Seq<(Seq<char>, InferTypeView)>, k: Seq<char>) -> Option<int>
    decreases fs.len(),
{
    if fs.len() == 0 {
        None
    } else if fs[0].0 == k {
        Some(0)
    } else {
        match first_field(fs.drop_first(), k) {
            Some(i) => Some(i + 1),
            None => None,
        }
    }
}

pub(crate) proof fn lemma_first_variant(vs: Seq<VariantInfo>, k: Seq<char>)
    ensures
        match first_variant(vs, k) {
            Some(i) => 0 <= i < vs.len() && vs[i].name@ == k && forall|j: int| 0 <= j < i ==> vs[j].name@ != k,
            None => forall|j: int| 0 <= j < vs.len() ==> vs[j].name@ != k,
        },
    decreases vs.len(),
{
    if vs.len() > 0 {
        lemma_first_variant(vs.drop_first(), k);
        if vs[0].name@ != k {
            assert forall|j: int| 0 < j < vs.len() implies vs[j] == vs.drop_first()[j - 1] by {}
        }
    }
}

pub(crate) proof fn lemma_first_field(fs: Seq<(Seq<char>, InferTypeView)>, k: Seq<char>)
    ensures
        match first_field(fs, k) {
            Some(i) => 0 <= i < fs.len() && fs[i].0 == k && forall|j: int| 0 <= j < i ==> fs[j].0 != k,
            None => forall|j: int| 0 <= j < fs.len() ==> fs[j].0 != k,
        },
    decreases fs.len(),
{
    if fs.len() > 0 {
        lemma_first_field(fs.drop_first(), k);
        if fs[0].0 != k {
            assert forall|j: int| 0 < j < fs.len() implies fs[j] == fs.drop_first()[j - 1] by {}
        }
    }
}

pub(crate) fn find_variant(vs: &Vec<VariantInfo>, k: &str) -> (r: Option<usize>)
    ensures
        match first_variant(vs@, k@) {
            Some(i) => r matches Some(u) && u == i,
            None => r is None,
        },
{
    proof { lemma_first_variant(vs@, k@); }
    let mut i: usize = 0;
    while i < vs.len()
        invariant
            i <= vs.len(),
            forall|j: int| 0 <= j < i ==> vs@[j].name@ != k@,
        decreases vs.len() - i,
    {
        if crate::text::str_eq(vs[i].name.as_str(), k) {
            proof { lemma_first_variant(vs@, k@); }
            return Some(i);
        }
        i += 1;
    }
    None
}

pub(crate) fn find_field(fs: &Vec<(String, InferType)>, k: &str) -> (r: Option<usize>)
    ensures
        match first_field(fields_view(fs@), k@) {
            Some(i) => r matches Some(u) && u == i,
            None => r is None,
        },
{
    let ghost fv = fields_view(fs@);
    proof { lemma_first_field(fv, k@); }
    let mut i: usize = 0;
    while i < fs.len()
        invariant
            i <= fs.len(),
            fv == fields_view(fs@),
            forall|j: int| 0 <= j < i ==> fv[j].0 != k@,
        decreases fs.len() - i,
    {
        if crate::text::str_eq(fs[i].0.as_str(), k) {
            proof {
                lemma_first_field(fv, k@);
                assert(fv[i as int].0 == k@);
            }
            return Some(i);
        }
        i += 1;
    }
    None
}

/// The type a pattern binds a field to: a field whose declared type is one
/// of the enum's type parameters gets that parameter's fresh variable;
/// any other declared type is taken as it is.
pub open spec fn pattern_field_type(raw: InferTypeView, remap: Map<u32, InferTypeView>) -> InferTypeView {
    match raw {
        InferTypeView::Var(v) => if remap.contains_key(v) {
            remap[v]
        } else {
            raw
        },
        _ => raw,
    }
}

/// A monomorphic scope with its types taken by their models.
pub open spec fn mono_view(m: Map<Seq<char>, (InferType, bool)>) -> Map<Seq<char>, (InferTypeView, bool)> {
    m.map_values(|e: (InferType, bool)| (e.0@, e.1))
}

/// The index of the first of `names` that the variant's fields lack.
pub open spec fn first_missing(names: Seq<String>, vfields: Seq<(Seq<char>, InferTypeView)>) -> Option<int>
    decreases names.len(),
{
    if names.len() == 0 {
        None
    } else if first_field(vfields, names[0]@) is None {
        Some(0)
    } else {
        match first_missing(names.drop_first(), vfields) {
            Some(i) => Some(i + 1),
            None => None,
        }
    }
}

proof fn lemma_first_missing(names: Seq<String>, vfields: Seq<(Seq<char>, InferTypeView)>)
    ensures
        match first_missing(names, vfields) {
            Some(i) => 0 <= i < names.len() && first_field(vfields, names[i]@) is None
                && forall|j: int| 0 <= j < i ==> first_field(vfields, #[trigger] names[j]@) is Some,
            None => forall|j: int| 0 <= j < names.len() ==> first_field(vfields, #[trigger] names[j]@) is Some,
        },
    decreases names.len(),
{
    if names.len() > 0 {
        lemma_first_missing(names.drop_first(), vfields);
        if first_field(vfields, names[0]@) is Some {
            assert forall|j: int| 0 < j < names.len() implies names[j] == names.drop_first()[j - 1] by {}
        }
    }
}

/// The scope `m` after binding each of `names`, in order, to its field's
/// pattern type (immutably).
pub open spec fn bind_fields(
    m: Map<Seq<char>, (InferTypeView, bool)>,
    names: Seq<String>,
    vfields: Seq<(Seq<char>, InferTypeView)>,
    remap: Map<u32, InferTypeView>,
) -> Map<Seq<char>, (InferTypeView, bool)>
    decreases names.len(),
{
    if names.len() == 0 {
        m
    } else {
        let f = names.last()@;
        let i = first_field(vfields, f).unwrap();
        bind_fields(m, names.drop_last(), vfields, remap).insert(f, (pattern_field_type(vfields[i].1, remap), false))
    }
}

/// The type arguments an enum pattern requires of its scrutinee: each type
/// parameter's fresh variable.
pub open spec fn pattern_type_args(qs: Seq<TypeVar>, remap: Map<u32, InferTypeView>) -> Seq<InferTypeView> {
    qs.map_values(|tp: TypeVar| remap[tp.0])
}

proof fn lemma_inst_map_has(qs: Seq<TypeVar>, start: nat, j: int)
    requires
        0 <= j < qs.len(),
    ensures
        inst_map(qs, start).contains_key(qs[j].0),
    decreases qs.len(),
{
    if j < qs.len() - 1 {
        lemma_inst_map_has(qs.drop_last(), start, j);
    }
}

/// Infer an enum-variant pattern `E::V { f, .. }` against a scrutinee type:
/// give each type parameter of `E` a fresh variable, require the scrutinee
/// to be `E` over those variables, and bind each named field to its type.
///
/// Errors (`T0003`): an unknown enum or variant (nothing changes), or a field
/// the variant lacks (the constraint and the fields before it are recorded).
#[verifier::loop_isolation(false)]
pub fn infer_enum_variant_pattern(
    enum_name: &str,
    variant_name: &str,
    fields: &Vec<String>,
    scrutinee_ty: &InferType,
    pat_span: &Span,
    ctx: &mut InferContext,
) -> (r: Result<(), GustError>)
    requires
        old(ctx).wf(),
        old(ctx).reg().enums().contains_key(enum_name@) ==> old(ctx).next_var()
            + old(ctx).reg().enums()[enum_name@].type_params.len() <= u32::MAX,
    ensures
        final(ctx).wf(),
        final(ctx).return_type() == old(ctx).return_type(),
        final(ctx).break_type() == old(ctx).break_type(),
        !old(ctx).reg().enums().contains_key(enum_name@) ==> (r matches Err(e) && is_type_error(
            e,
            TypeErrorCode::T0003,
            "unknown enum `"@ + enum_name@ + "` in pattern"@,
            *pat_span,
        ) && *final(ctx) == *old(ctx)),
        old(ctx).reg().enums().contains_key(enum_name@) ==> ({
            let info = old(ctx).reg().enums()[enum_name@];
            match first_variant(info.variants@, variant_name@) {
                None => r matches Err(e) && is_type_error(
                    e,
                    TypeErrorCode::T0003,
                    "no variant `"@ + variant_name@ + "` on `"@ + enum_name@ + "`"@,
                    *pat_span,
                ) && *final(ctx) == *old(ctx),
                Some(vi) => {
                    let vfields = fields_view(info.variants@[vi].fields@);
                    let qs = info.type_params@;
                    let remap = inst_map(qs, old(ctx).next_var() as nat);
                    let n = match first_missing(fields@, vfields) {
                        Some(k) => k,
                        None => fields@.len() as int,
                    };
                    &&& final(ctx).next_var() == old(ctx).next_var() + qs.len()
                    &&& final(ctx).constraint_list().len() == old(ctx).constraint_list().len() + 1
                    &&& final(ctx).constraint_list().drop_last() == old(ctx).constraint_list()
                    &&& final(ctx).constraint_list().last().lhs@ == scrutinee_ty@
                    &&& final(ctx).constraint_list().last().rhs@ == InferTypeView::Named(
                        enum_name@,
                        pattern_type_args(qs, remap),
                    )
                    &&& same_span(final(ctx).constraint_list().last().span, *pat_span)
                    &&& final(ctx).mono_scopes().len() == old(ctx).mono_scopes().len()
                    &&& final(ctx).mono_scopes().drop_last() == old(ctx).mono_scopes().drop_last()
                    &&& mono_view(final(ctx).mono_scopes().last()) == bind_fields(
                        mono_view(old(ctx).mono_scopes().last()),
                        fields@.take(n),
                        vfields,
                        remap,
                    )
                    &&& final(ctx).poly_scopes() == old(ctx).poly_scopes()
                    &&& final(ctx).reg() == old(ctx).reg()
                    &&& match first_missing(fields@, vfields) {
                        None => r is Ok,
                        Some(k) => r matches Err(e) && is_type_error(
                            e,
                            TypeErrorCode::T0003,
                            "no field `"@ + fields@[k]@ + "` on `"@ + enum_name@ + "::"@ + variant_name@ + "`"@,
                            *pat_span,
                        ),
                    }
                },
            }
        }),
{
    let enum_info = match ctx.get_enum(enum_name) {
        Some(info) => info,
        None => {
            let mut msg = String::new();
            push_str(&mut msg, "unknown enum `");
            push_str(&mut msg, enum_name);
            push_str(&mut msg, "` in pattern");
            return Err(GustError::type_error(TypeErrorCode::T0003, msg, pat_span));
        },
    };
    let vi = match find_variant(&enum_info.variants, variant_name) {
        Some(i) => i,
        None => {
            let mut msg = String::new();
            push_str(&mut msg, "no variant `");
            push_str(&mut msg, variant_name);
            push_str(&mut msg, "` on `");
            push_str(&mut msg, enum_name);
            push_str(&mut msg, "`");
            return Err(GustError::type_error(TypeErrorCode::T0003, msg, pat_span));
        },
    };
    proof {
        lemma_first_variant(enum_info.variants@, variant_name@);
    }
    // Copy what is needed of the enum before the context changes.
    let ghost vf0 = fields_view(enum_info.variants@[vi as int].fields@);
    let ghost qs0 = enum_info.type_params@;
    let mut type_params: Vec<TypeVar> = Vec::new();
    let mut c: usize = 0;
    while c < enum_info.type_params.len()
        invariant
            c <= qs0.len(),
            qs0 == enum_info.type_params@,
            type_params@ == qs0.take(c as int),
        decreases qs0.len() - c,
    {
        type_params.push(enum_info.type_params[c]);
        assert(qs0.take(c as int + 1) =~= qs0.take(c as int).push(qs0[c as int]));
        c += 1;
    }
    assert(qs0.take(qs0.len() as int) =~= qs0);
    let mut vfields: Vec<(String, InferType)> = Vec::new();
    let src = &enum_info.variants[vi].fields;
    let mut c: usize = 0;
    while c < src.len()
        invariant
            c <= src.len(),
            vf0 == fields_view(src@),
            fields_view(vfields@) == vf0.take(c as int),
        decreases src.len() - c,
    {
        let ghost before = vfields@;
        vfields.push((src[c].0.clone(), clone_infer(&src[c].1)));
        assert(fields_view(vfields@) =~= fields_view(before).push((src@[c as int].0@, src@[c as int].1@)));
        assert(vf0.take(c as int + 1) =~= vf0.take(c as int).push(vf0[c as int]));
        c += 1;
    }
    assert(vf0.take(src.len() as int) =~= vf0);
    let ghost start = ctx.next_var();
    let ghost qs = type_params@;
    let mut remap = Substitution::new();
    let mut i: usize = 0;
    while i < type_params.len()
        invariant
            i <= qs.len(),
            qs == type_params@,
            start + qs.len() <= u32::MAX,
            ctx.wf(),
            ctx.next_var() == start + i,
            ctx.same_envs(old(ctx)),
            remap@ == inst_map(qs.take(i as int), start as nat),
        decreases qs.len() - i,
    {
        let tp = type_params[i];
        let fresh = ctx.fresh_var();
        remap.bind(tp, fresh);
        proof {
            assert(qs.take(i as int + 1).drop_last() =~= qs.take(i as int));
        }
        i += 1;
    }
    assert(qs.take(qs.len() as int) =~= qs);
    let mut type_args: Vec<InferType> = Vec::new();
    let mut j: usize = 0;
    while j < type_params.len()
        invariant
            j <= qs.len(),
            qs == type_params@,
            remap@ == inst_map(qs, start as nat),
            infers_model(type_args@) == pattern_type_args(qs, remap@).take(j as int),
        decreases qs.len() - j,
    {
        proof { lemma_inst_map_has(qs, start as nat, j as int); }
        let t = match remap.lookup(type_params[j]) {
            Some(t) => clone_infer(t),
            None => InferType::Never,
        };
        proof {
            lemma_infers_model_push(type_args@, t);
            assert(pattern_type_args(qs, remap@).take(j as int + 1) =~= pattern_type_args(qs, remap@).take(j as int).push(t@));
        }
        type_args.push(t);
        j += 1;
    }
    assert(pattern_type_args(qs, remap@).take(qs.len() as int) =~= pattern_type_args(qs, remap@));
    let mut en = String::new();
    push_str(&mut en, enum_name);
    ctx.add_constraint(clone_infer(scrutinee_ty), InferType::Named(en, type_args), pat_span.clone());
    let ghost mid = *ctx;
    let ghost ms0 = ctx.mono_scopes();
    proof {
        ctx.lemma_wf_scopes();
        lemma_first_missing(fields@, fields_view(vfields@));
        assert(fields@.take(0) =~= Seq::<String>::empty());
    }
    let mut f: usize = 0;
    while f < fields.len()
        invariant
            f <= fields.len(),
            ctx.wf(),
            ms0 == mid.mono_scopes(),
            ms0.len() >= 1,
            ctx.mono_scopes().len() == ms0.len(),
            ctx.mono_scopes().drop_last() == ms0.drop_last(),
            mono_view(ctx.mono_scopes().last()) == bind_fields(mono_view(ms0.last()), fields@.take(f as int), fields_view(vfields@), remap@),
            ctx.poly_scopes() == mid.poly_scopes(),
            ctx.next_var() == mid.next_var(),
            ctx.constraint_list() == mid.constraint_list(),
            ctx.reg() == mid.reg(),
            ctx.return_type() == mid.return_type(),
            ctx.break_type() == mid.break_type(),
            forall|k: int| 0 <= k < f ==> first_field(fields_view(vfields@), #[trigger] fields@[k]@) is Some,
        decreases fields.len() - f,
    {
        let name = &fields[f];
        let fi = match find_field(&vfields, name.as_str()) {
            Some(k) => k,
            None => {
                proof {
                    lemma_first_missing(fields@, fields_view(vfields@));
                    assert(first_missing(fields@, fields_view(vfields@)) == Some(f as int));
                    assert(ms0 == old(ctx).mono_scopes());
                    assert(fields_view(vfields@) == fields_view(old(ctx).reg().enums()[enum_name@].variants@[vi as int].fields@));
                    assert(remap@ == inst_map(old(ctx).reg().enums()[enum_name@].type_params@, old(ctx).next_var() as nat));
                    assert(first_variant(old(ctx).reg().enums()[enum_name@].variants@, variant_name@) == Some(vi as int));
                }
                let mut msg = String::new();
                push_str(&mut msg, "no field `");
                push_str(&mut msg, name.as_str());
                push_str(&mut msg, "` on `");
                push_str(&mut msg, enum_name);
                push_str(&mut msg, "::");
                push_str(&mut msg, variant_name);
                push_str(&mut msg, "`");
                return Err(GustError::type_error(TypeErrorCode::T0003, msg, pat_span));
            },
        };
        proof {
            lemma_first_field(fields_view(vfields@), name@);
            assert(fields_view(vfields@)[fi as int] == (vfields@[fi as int].0@, vfields@[fi as int].1@));
        }
        let raw = &vfields[fi].1;
        let field_ty = match raw {
            InferType::Var(v) => match remap.lookup(*v) {
                Some(t) => clone_infer(t),
                None => clone_infer(raw),
            },
            _ => clone_infer(raw),
        };
        assert(field_ty@ == pattern_field_type(fields_view(vfields@)[fi as int].1, remap@));
        let ghost before = ctx.mono_scopes();
        proof { ctx.lemma_wf_scopes(); }
        ctx.bind_mono(name.clone(), field_ty, false);
        proof {
            assert(fields@.take(f as int + 1).drop_last() =~= fields@.take(f as int));
            assert(ctx.mono_scopes().drop_last() =~= before.drop_last());
            assert(mono_view(ctx.mono_scopes().last()) =~= mono_view(before.last()).insert(
                name@,
                (pattern_field_type(fields_view(vfields@)[fi as int].1, remap@), false),
            ));
        }
        f += 1;
    }
    proof {
        lemma_first_missing(fields@, fields_view(vfields@));
        assert(first_missing(fields@, fields_view(vfields@)) is None);
        assert(fields@.take(fields.len() as int) =~= fields@);
        assert(ms0 == old(ctx).mono_scopes());
        assert(fields_view(vfields@) == fields_view(old(ctx).reg().enums()[enum_name@].variants@[vi as int].fields@));
        assert(remap@ == inst_map(old(ctx).reg().enums()[enum_name@].type_params@, old(ctx).next_var() as nat));
        assert(first_variant(old(ctx).reg().enums()[enum_name@].variants@, variant_name@) == Some(vi as int));
    }
    Ok(())
}

// ── Hoisting, literals and operators ──────────────────────────────────────────

/// How many of `decls` are non-generic function declarations.
pub open spec fn hoist_count(decls: Seq<DeclHeader>) -> nat
    decreases decls.len(),
{
    if decls.len() == 0 {
        0
    } else {
        hoist_count(decls.drop_last()) + if hoists(decls.last()) { 1nat } else { 0nat }
    }
}

/// A declaration is hoisted when it is a function without generic parameters.
pub open spec fn hoists(d: DeclHeader) -> bool {
    d.kind == DeclKind::Fun && d.generics.len() == 0
}

/// The innermost scope after hoisting `decls` into `scope`: each non-generic
/// function is bound, immutably, to the next fresh variable from `start`.
pub open spec fn hoist_scope(
    scope: Map<Seq<char>, (InferType, bool)>,
    decls: Seq<DeclHeader>,
    start: nat,
) -> Map<Seq<char>, (InferType, bool)>
    decreases decls.len(),
{
    if decls.len() == 0 {
        scope
    } else {
        let prev = hoist_scope(scope, decls.drop_last(), start);
        if hoists(decls.last()) {
            prev.insert(
                decls.last().name@,
                (InferType::Var(TypeVar((start + hoist_count(decls.drop_last())) as u32)), false),
            )
        } else {
            prev
        }
    }
}

/// Bind the name of every non-generic function of `decls` to a fresh type
/// variable in the innermost scope, so that forward references and mutual
/// recursion work.
pub fn hoist_fun_decls(decls: &Vec<DeclHeader>, ctx: &mut InferContext)
    requires
        old(ctx).wf(),
        old(ctx).next_var() + hoist_count(decls@) <= u32::MAX,
    ensures
        final(ctx).wf(),
        final(ctx).mono_scopes() == old(ctx).mono_scopes().update(
            old(ctx).mono_scopes().len() - 1,
            hoist_scope(old(ctx).mono_scopes().last(), decls@, old(ctx).next_var() as nat),
        ),
        final(ctx).next_var() == old(ctx).next_var() + hoist_count(decls@),
        final(ctx).poly_scopes() == old(ctx).poly_scopes(),
        final(ctx).constraint_list() == old(ctx).constraint_list(),
        final(ctx).return_type() == old(ctx).return_type(),
        final(ctx).break_type() == old(ctx).break_type(),
        final(ctx).reg() == old(ctx).reg(),
{
    proof { ctx.lemma_wf_scopes(); }
    let ghost start = ctx.next_var() as nat;
    let ghost scopes0 = ctx.mono_scopes();
    let mut i: usize = 0;
    assert(decls@.take(0) =~= Seq::<DeclHeader>::empty());
    while i < decls.len()
        invariant
            i <= decls.len(),
            ctx.wf(),
            scopes0 == old(ctx).mono_scopes(),
            scopes0.len() >= 1,
            start == old(ctx).next_var() as nat,
            start + hoist_count(decls@) <= u32::MAX,
            ctx.mono_scopes() == scopes0.update(
                scopes0.len() - 1,
                hoist_scope(scopes0.last(), decls@.take(i as int), start),
            ),
            ctx.next_var() == start + hoist_count(decls@.take(i as int)),
            ctx.poly_scopes() == old(ctx).poly_scopes(),
            ctx.constraint_list() == old(ctx).constraint_list(),
            ctx.return_type() == old(ctx).return_type(),
            ctx.break_type() == old(ctx).break_type(),
            ctx.reg() == old(ctx).reg(),
        decreases decls.len() - i,
    {
        proof {
            assert(decls@.take(i + 1).drop_last() =~= decls@.take(i as int));
            assert(decls@.take(i + 1).last() == decls@[i as int]);
            lemma_hoist_count_prefix(decls@, i + 1);
        }
        let d = &decls[i];
        let is_fun = match d.kind {
            DeclKind::Fun => true,
            _ => false,
        };
        if is_fun && d.generics.len() == 0 {
            let fresh = ctx.fresh_var();
            ctx.bind_mono(d.name.clone(), fresh, false);
            proof {
                ctx.lemma_wf_scopes();
            }
        }
        assert(ctx.mono_scopes() =~= scopes0.update(
            scopes0.len() - 1,
            hoist_scope(scopes0.last(), decls@.take(i + 1), start),
        ));
        i += 1;
    }
    assert(decls@.take(decls.len() as int) =~= decls@);
}

proof fn lemma_hoist_count_prefix(decls: Seq<DeclHeader>, k: int)
    requires
        0 <= k <= decls.len(),
    ensures
        hoist_count(decls.take(k)) <= hoist_count(decls),
    decreases decls.len(),
{
    if k < decls.len() {
        assert(decls.drop_last().take(k) =~= decls.take(k));
        lemma_hoist_count_prefix(decls.drop_last(), k);
    } else {
        assert(decls.take(k) =~= decls);
    }
}

/// The type a literal is given: its own concrete type, and for `nope` a
/// `Perhaps` of the fresh variable `next`.
pub open spec fn literal_infer_type(lit: Literal, next: u32) -> InferTypeView {
    match lit {
        Literal::Int(_) => InferTypeView::Concrete(TypeView::Int),
        Literal::Float(_) => InferTypeView::Concrete(TypeView::Float),
        Literal::Bool(_) => InferTypeView::Concrete(TypeView::Bool),
        Literal::Str(_) => InferTypeView::Concrete(TypeView::Str),
        Literal::Unit => InferTypeView::Concrete(TypeView::Unit),
        Literal::Nope => InferTypeView::Named("Perhaps"@, seq![InferTypeView::Var(next)]),
    }
}

/// The type of a literal (see [`literal_infer_type`]); only `nope` draws a
/// fresh variable.
pub fn infer_literal(lit: &Literal, ctx: &mut InferContext) -> (t: InferType)
    requires
        *lit is Nope ==> old(ctx).next_var() < u32::MAX,
    ensures
        t@ == literal_infer_type(*lit, old(ctx).next_var()),
        final(ctx).next_var() == old(ctx).next_var() + if *lit is Nope { 1int } else { 0int },
        final(ctx).same_envs(old(ctx)),
        final(ctx).wf() == old(ctx).wf(),
{
    match lit {
        Literal::Int(_) => InferType::integer(),
        Literal::Float(_) => InferType::float(),
        Literal::Bool(_) => InferType::bool(),
        Literal::Str(_) => InferType::str(),
        Literal::Unit => InferType::unit(),
        Literal::Nope => {
            let v = ctx.fresh_var();
            let mut args: Vec<InferType> = Vec::new();
            args.push(v);
            let t = InferType::Named("Perhaps".to_string(), args);
            proof {
                lemma_infers_model(args@);
                assert(infers_model(args@) =~= seq![InferTypeView::Var(old(ctx).next_var())]);
            }
            t
        },
    }
}

/// The operators whose result is a fresh variable both operands must equal.
pub open spec fn is_arith(op: BinOp) -> bool {
    op == BinOp::Add || op == BinOp::Sub || op == BinOp::Mul || op == BinOp::Div || op == BinOp::Rem
}

/// The operators that compare two operands of one type.
pub open spec fn is_comparison(op: BinOp) -> bool {
    op == BinOp::Eq || op == BinOp::Ne || op == BinOp::Lt || op == BinOp::Le || op == BinOp::Gt || op == BinOp::Ge
}

/// The type of a binary operation whose operands have types `l` and `r`,
/// with `next` the next fresh variable.
pub open spec fn binop_result(op: BinOp, next: u32) -> InferTypeView {
    if is_arith(op) {
        InferTypeView::Var(next)
    } else if op == BinOp::Range || op == BinOp::RangeInclusive {
        InferTypeView::Named("Range"@, seq![InferTypeView::Concrete(TypeView::Int)])
    } else {
        InferTypeView::Concrete(TypeView::Bool)
    }
}

/// The constraints a binary operation adds, in order, as pairs of sides:
/// arithmetic ties both operands to its result, a comparison ties them to
/// each other, `&&`/`||` make both `Bool` and a range makes both `Int`.
pub open spec fn binop_constraints(op: BinOp, l: InferTypeView, r: InferTypeView, next: u32) -> Seq<
    (InferTypeView, InferTypeView),
> {
    if is_arith(op) {
        seq![(l, InferTypeView::Var(next)), (r, InferTypeView::Var(next))]
    } else if is_comparison(op) {
        seq![(l, r)]
    } else if op == BinOp::And || op == BinOp::Or {
        seq![(l, InferTypeView::Concrete(TypeView::Bool)), (r, InferTypeView::Concrete(TypeView::Bool))]
    } else {
        seq![(l, InferTypeView::Concrete(TypeView::Int)), (r, InferTypeView::Concrete(TypeView::Int))]
    }
}

/// `after` is `before` with one constraint for each pair of `pairs`, in
/// order, each at `span`.
pub open spec fn appended(before: Seq<Constraint>, after: Seq<Constraint>, pairs: Seq<(InferTypeView, InferTypeView)>, span: Span) -> bool {
    &&& after.len() == before.len() + pairs.len()
    &&& after.take(before.len() as int) == before
    &&& forall|k: int| 0 <= k < pairs.len() ==> {
        &&& (#[trigger] after[before.len() + k]).lhs@ == pairs[k].0
        &&& after[before.len() + k].rhs@ == pairs[k].1
        &&& same_span(after[before.len() + k].span, span)
    }
}

/// The type of a binary operation whose operands were inferred as `lhs_ty`
/// and `rhs_ty` (see [`binop_result`]), adding the constraints of
/// [`binop_constraints`] at `span`.
pub fn infer_binop(lhs_ty: InferType, op: &BinOp, rhs_ty: InferType, span: &Span, ctx: &mut InferContext) -> (t: InferType)
    requires
        is_arith(*op) ==> old(ctx).next_var() < u32::MAX,
    ensures
        t@ == binop_result(*op, old(ctx).next_var()),
        appended(
            old(ctx).constraint_list(),
            final(ctx).constraint_list(),
            binop_constraints(*op, lhs_ty@, rhs_ty@, old(ctx).next_var()),
            *span,
        ),
        final(ctx).next_var() == old(ctx).next_var() + if is_arith(*op) { 1int } else { 0int },
        final(ctx).mono_scopes() == old(ctx).mono_scopes(),
        final(ctx).poly_scopes() == old(ctx).poly_scopes(),
        final(ctx).return_type() == old(ctx).return_type(),
        final(ctx).break_type() == old(ctx).break_type(),
        final(ctx).reg() == old(ctx).reg(),
        final(ctx).wf() == old(ctx).wf(),
{
    let ghost before = ctx.constraint_list();
    let ghost n = ctx.next_var();
    match op {
        BinOp::Add | BinOp::Sub | BinOp::Mul | BinOp::Div | BinOp::Rem => {
            let result = ctx.fresh_var();
            ctx.add_constraint(lhs_ty, clone_infer(&result), span.clone());
            ctx.add_constraint(rhs_ty, clone_infer(&result), span.clone());
            proof { lemma_two_appended(before, ctx.constraint_list()); }
            result
        },
        BinOp::Eq | BinOp::Ne | BinOp::Lt | BinOp::Le | BinOp::Gt | BinOp::Ge => {
            ctx.add_constraint(lhs_ty, rhs_ty, span.clone());
            InferType::bool()
        },
        BinOp::And | BinOp::Or => {
            ctx.add_constraint(lhs_ty, InferType::bool(), span.clone());
            ctx.add_constraint(rhs_ty, InferType::bool(), span.clone());
            proof { lemma_two_appended(before, ctx.constraint_list()); }
            InferType::bool()
        },
        BinOp::Range | BinOp::RangeInclusive => {
            ctx.add_constraint(lhs_ty, InferType::integer(), span.clone());
            ctx.add_constraint(rhs_ty, InferType::integer(), span.clone());
            proof { lemma_two_appended(before, ctx.constraint_list()); }
            let mut args: Vec<InferType> = Vec::new();
            args.push(InferType::integer());
            proof {
                lemma_infers_model(args@);
                assert(infers_model(args@) =~= seq![InferTypeView::Concrete(TypeView::Int)]);
            }
            InferType::Named("Range".to_string(), args)
        },
    }
}

proof fn lemma_two_appended(before: Seq<Constraint>, after: Seq<Constraint>)
    requires
        after.len() == before.len() + 2,
        after.drop_last().drop_last() == before,
    ensures
        after.take(before.len() as int) == before,
        after[before.len() + 1int] == after.last(),
        after[before.len() as int] == after.drop_last().last(),
{
    assert(after.take(before.len() as int) =~= after.drop_last().drop_last());
}

/// The type of a unary operation whose operand was inferred as `ty`: `-`
/// keeps it, `!` requires `Bool` (one constraint at `span`) and gives `Bool`.
pub fn infer_unaryop(op: &UnaryOp, ty: InferType, span: &Span, ctx: &mut InferContext) -> (t: InferType)
    ensures
        *op == UnaryOp::Neg ==> t@ == ty@ && final(ctx).constraint_list() == old(ctx).constraint_list(),
        *op == UnaryOp::Not ==> t@ == InferTypeView::Concrete(TypeView::Bool) && appended(
            old(ctx).constraint_list(),
            final(ctx).constraint_list(),
            seq![(ty@, InferTypeView::Concrete(TypeView::Bool))],
            *span,
        ),
        final(ctx).next_var() == old(ctx).next_var(),
        final(ctx).mono_scopes() == old(ctx).mono_scopes(),
        final(ctx).poly_scopes() == old(ctx).poly_scopes(),
        final(ctx).return_type() == old(ctx).return_type(),
        final(ctx).break_type() == old(ctx).break_type(),
        final(ctx).reg() == old(ctx).reg(),
        final(ctx).wf() == old(ctx).wf(),
{
    match op {
        UnaryOp::Neg => ty,
        UnaryOp::Not => {
            let ghost before = ctx.constraint_list();
            ctx.add_constraint(ty, InferType::bool(), span.clone());
            assert(ctx.constraint_list().take(before.len() as int) =~= ctx.constraint_list().drop_last());
            InferType::bool()
        },
    }
}

/// The span a pattern was written at.
pub open spec fn pattern_span_spec(p: Pattern) -> Span {
    match p {
        Pattern::Wildcard(s) => s,
        Pattern::Nope(s) => s,
        Pattern::Binding(_, s) => s,
        Pattern::Literal(_, s) => s,
        Pattern::Tuple(_, s) => s,
        Pattern::EnumVariant { span, .. } => span,
    }
}

/// The span a pattern was written at.
pub fn pattern_span(pattern: &Pattern) -> (s: &Span)
    ensures
        *s == pattern_span_spec(*pattern),
{
    match pattern {
        Pattern::Wildcard(s) | Pattern::Nope(s) | Pattern::Binding(_, s) | Pattern::Literal(_, s)
        | Pattern::Tuple(_, s) | Pattern::EnumVariant { span: s, .. } => s,
    }
}

// ── Patterns ──────────────────────────────────────────────────────────────────

/// A span by its parts, so that copies of one span compare equal.
pub open spec fn span_view(s: Span) -> (usize, usize, Seq<char>, u32, u32) {
    (s.start, s.end, s.filename@, s.line, s.col)
}

/// A recorded constraint by its two sides and its span.
pub open spec fn constraint_view(c: Constraint) -> (InferTypeView, InferTypeView, (usize, usize, Seq<char>, u32, u32)) {
    (c.lhs@, c.rhs@, span_view(c.span))
}

/// What inferring patterns changes in a context: the recorded constraints,
/// the innermost scope, and the next fresh variable.
pub struct PatState {
    pub cs: Seq<(InferTypeView, InferTypeView, (usize, usize, Seq<char>, u32, u32))>,
    pub scope: Map<Seq<char>, (InferTypeView, bool)>,
    pub next: nat,
}

/// The part of `ctx` that inferring a pattern changes.
pub open spec fn ctx_state(ctx: InferContext) -> PatState {
    PatState {
        cs: ctx.constraint_list().map_values(|c: Constraint| constraint_view(c)),
        scope: mono_view(ctx.mono_scopes().last()),
        next: ctx.next_var() as nat,
    }
}

/// A type error (`T0003`) a pattern is rejected with: its message and span.
pub struct PatError {
    pub msg: Seq<char>,
    pub span: Span,
}

/// The fresh variables inferring `p` draws when it succeeds: one for `nope`,
/// one per element of a tuple besides those of its elements, and one per
/// type parameter of a known enum for a variant pattern.
pub open spec fn pat_vars(p: Pattern, enums: Map<Seq<char>, EnumInfo>) -> nat
    decreases p, 0nat,
{
    match p {
        Pattern::Literal(Literal::Nope, _) => 1,
        Pattern::Nope(_) => 1,
        Pattern::Tuple(ps, _) => ps@.len() + pats_vars(ps@, enums),
        Pattern::EnumVariant { path, .. } => if path.len() == 2 && enums.contains_key(path@[0]@) {
            enums[path@[0]@].type_params@.len()
        } else {
            0
        },
        _ => 0,
    }
}

/// The fresh variables inferring every pattern of `ps` draws.
pub open spec fn pats_vars(ps: Seq<Pattern>, enums: Map<Seq<char>, EnumInfo>) -> nat
    decreases ps, 1nat,
{
    if ps.len() == 0 {
        0
    } else {
        pats_vars(ps.drop_last(), enums) + pat_vars(ps.last(), enums)
    }
}

/// Inferring an enum-variant pattern `e::v { fields }` against `scrut`
/// (the contract of [`infer_enum_variant_pattern`], on a state): the state
/// afterwards, and the error that stopped inference, if any.
pub open spec fn enum_pattern_effect(
    e: Seq<char>,
    v: Seq<char>,
    fields: Seq<String>,
    scrut: InferTypeView,
    span: Span,
    st: PatState,
    enums: Map<Seq<char>, EnumInfo>,
) -> (PatState, Option<PatError>) {
    if !enums.contains_key(e) {
        (st, Some(PatError { msg: "unknown enum `"@ + e + "` in pattern"@, span }))
    } else {
        let info = enums[e];
        match first_variant(info.variants@, v) {
            None => (st, Some(PatError { msg: "no variant `"@ + v + "` on `"@ + e + "`"@, span })),
            Some(vi) => {
                let vfields = fields_view(info.variants@[vi].fields@);
                let qs = info.type_params@;
                let remap = inst_map(qs, st.next);
                let n = match first_missing(fields, vfields) {
                    Some(k) => k,
                    None => fields.len() as int,
                };
                let after = PatState {
                    cs: st.cs.push((scrut, InferTypeView::Named(e, pattern_type_args(qs, remap)), span_view(span))),
                    scope: bind_fields(st.scope, fields.take(n), vfields, remap),
                    next: st.next + qs.len(),
                };
                match first_missing(fields, vfields) {
                    Some(k) => (after, Some(PatError {
                        msg: "no field `"@ + fields[k]@ + "` on `"@ + e + "::"@ + v + "`"@,
                        span,
                    })),
                    None => (after, None),
                }
            },
        }
    }
}

/// The fresh variables `start`, `start + 1`, ... for the `n` elements of a
/// tuple pattern.
pub open spec fn elem_vars(start: nat, n: nat) -> Seq<InferTypeView> {
    Seq::new(n, |i: int| InferTypeView::Var((start + i) as u32))
}

/// What inferring pattern `p` against a scrutinee of type `scrut` does to
/// state `st`, and the error that stopped it, if any: `_` does nothing; a
/// literal requires the scrutinee to have the literal's type; a binding
/// binds the name immutably to the scrutinee's type; `nope` requires a
/// `Perhaps` of a fresh variable; a tuple requires a tuple of fresh
/// variables, one per element, and then infers each element against its
/// variable, in order; a variant pattern needs a path of exactly an enum and
/// a variant (see [`enum_pattern_effect`]). The first error stops inference.
pub open spec fn pat_effect(
    p: Pattern,
    scrut: InferTypeView,
    st: PatState,
    enums: Map<Seq<char>, EnumInfo>,
) -> (PatState, Option<PatError>)
    decreases p, 0nat,
{
    match p {
        Pattern::Wildcard(_) => (st, None),
        Pattern::Literal(lit, s) => (PatState {
            cs: st.cs.push((scrut, literal_infer_type(lit, st.next as u32), span_view(s))),
            scope: st.scope,
            next: if lit is Nope { st.next + 1 } else { st.next },
        }, None),
        Pattern::Binding(name, _) => (PatState {
            cs: st.cs,
            scope: st.scope.insert(name@, (scrut, false)),
            next: st.next,
        }, None),
        Pattern::Nope(s) => (PatState {
            cs: st.cs.push((
                scrut,
                InferTypeView::Named("Perhaps"@, seq![InferTypeView::Var(st.next as u32)]),
                span_view(s),
            )),
            scope: st.scope,
            next: st.next + 1,
        }, None),
        Pattern::Tuple(ps, s) => {
            let vars = elem_vars(st.next, ps@.len());
            pats_effect(ps@, vars, PatState {
                cs: st.cs.push((scrut, InferTypeView::Tuple(vars), span_view(s))),
                scope: st.scope,
                next: st.next + ps@.len(),
            }, enums)
        },
        Pattern::EnumVariant { path, fields, span } => if path.len() == 2 {
            enum_pattern_effect(path@[0]@, path@[1]@, fields@, scrut, span, st, enums)
        } else {
            (st, Some(PatError { msg: "unresolved pattern path `"@ + join_spec(pv(path), "::"@) + "`"@, span }))
        },
    }
}

/// Inferring each of `ps` against the type at its position in `tys`, in
/// order, from state `st`; the first error stops inference.
pub open spec fn pats_effect(
    ps: Seq<Pattern>,
    tys: Seq<InferTypeView>,
    st: PatState,
    enums: Map<Seq<char>, EnumInfo>,
) -> (PatState, Option<PatError>)
    decreases ps, 1nat,
{
    if ps.len() == 0 {
        (st, None)
    } else {
        let (mid, err) = pats_effect(ps.drop_last(), tys, st, enums);
        if err is Some {
            (mid, err)
        } else {
            pat_effect(ps.last(), tys[ps.len() - 1], mid, enums)
        }
    }
}

proof fn lemma_pats_vars_step(ps: Seq<Pattern>, enums: Map<Seq<char>, EnumInfo>, k: int)
    requires
        0 <= k < ps.len(),
    ensures
        pats_vars(ps.take(k + 1), enums) == pats_vars(ps.take(k), enums) + pat_vars(ps[k], enums),
        pats_vars(ps.take(k + 1), enums) <= pats_vars(ps, enums),
    decreases ps.len(),
{
    assert(ps.take(k + 1).drop_last() =~= ps.take(k));
    if k + 1 < ps.len() {
        assert(ps.drop_last().take(k + 1) =~= ps.take(k + 1));
        assert(ps.drop_last().take(k) =~= ps.take(k));
        lemma_pats_vars_step(ps.drop_last(), enums, k);
    } else {
        assert(ps.take(k + 1) =~= ps);
    }
}

proof fn lemma_pats_effect_step(
    ps: Seq<Pattern>,
    tys: Seq<InferTypeView>,
    st: PatState,
    enums: Map<Seq<char>, EnumInfo>,
    k: int,
)
    requires
        0 <= k < ps.len(),
        pats_effect(ps.take(k), tys, st, enums).1 is None,
    ensures
        pats_effect(ps.take(k + 1), tys, st, enums) == pat_effect(ps[k], tys[k], pats_effect(ps.take(k), tys, st, enums).0, enums),
{
    assert(ps.take(k + 1).drop_last() =~= ps.take(k));
}

proof fn lemma_pats_effect_err(
    ps: Seq<Pattern>,
    tys: Seq<InferTypeView>,
    st: PatState,
    enums: Map<Seq<char>, EnumInfo>,
    k: int,
)
    requires
        0 <= k <= ps.len(),
        pats_effect(ps.take(k), tys, st, enums).1 is Some,
    ensures
        pats_effect(ps, tys, st, enums) == pats_effect(ps.take(k), tys, st, enums),
    decreases ps.len(),
{
    if k == ps.len() {
        assert(ps.take(k) =~= ps);
    } else {
        assert(ps.drop_last().take(k) =~= ps.take(k));
        lemma_pats_effect_err(ps.drop_last(), tys, st, enums, k);
    }
}

proof fn lemma_state_push(old_cs: Seq<Constraint>, new_cs: Seq<Constraint>)
    requires
        new_cs.len() == old_cs.len() + 1,
        new_cs.drop_last() == old_cs,
    ensures
        new_cs.map_values(|c: Constraint| constraint_view(c)) == old_cs.map_values(
            |c: Constraint| constraint_view(c),
        ).push(constraint_view(new_cs.last())),
{
    assert(new_cs.map_values(|c: Constraint| constraint_view(c)) =~= old_cs.map_values(
        |c: Constraint| constraint_view(c),
    ).push(constraint_view(new_cs.last())));
}

proof fn lemma_scope_insert(m: Map<Seq<char>, (InferType, bool)>, k: Seq<char>, t: InferType)
    ensures
        mono_view(m.insert(k, (t, false))) == mono_view(m).insert(k, (t@, false)),
{
    assert(mono_view(m.insert(k, (t, false))) =~= mono_view(m).insert(k, (t@, false)));
}

/// Infer pattern `pattern` against a scrutinee of type `scrutinee_ty` (see
/// [`pat_effect`]): the context's constraints, innermost scope and counter
/// become those the model gives, and the model's error, if any, is
/// returned as a `T0003` type error. Outer scopes, polymorphic bindings,
/// the registry and the return and break types are never changed.
pub fn infer_pattern(pattern: &Pattern, scrutinee_ty: &InferType, ctx: &mut InferContext) -> (r: Result<(), GustError>)
    requires
        old(ctx).wf(),
        old(ctx).next_var() + pat_vars(*pattern, old(ctx).reg().enums()) <= u32::MAX,
    ensures
        final(ctx).wf(),
        final(ctx).reg() == old(ctx).reg(),
        final(ctx).poly_scopes() == old(ctx).poly_scopes(),
        final(ctx).return_type() == old(ctx).return_type(),
        final(ctx).break_type() == old(ctx).break_type(),
        final(ctx).mono_scopes().len() == old(ctx).mono_scopes().len(),
        final(ctx).mono_scopes().drop_last() == old(ctx).mono_scopes().drop_last(),
        ctx_state(*final(ctx)) == pat_effect(*pattern, scrutinee_ty@, ctx_state(*old(ctx)), old(ctx).reg().enums()).0,
        match pat_effect(*pattern, scrutinee_ty@, ctx_state(*old(ctx)), old(ctx).reg().enums()).1 {
            None => r is Ok
                && final(ctx).next_var() == old(ctx).next_var() + pat_vars(*pattern, old(ctx).reg().enums()),
            Some(e) => r matches Err(x) && is_type_error(x, TypeErrorCode::T0003, e.msg, e.span),
        },
    decreases pattern, 0nat,
{
    proof { ctx.lemma_wf_scopes(); }
    let ghost st0 = ctx_state(*ctx);
    match pattern {
        Pattern::Wildcard(_) => Ok(()),
        Pattern::Literal(lit, s) => {
            let lit_ty = infer_literal(lit, ctx);
            let ghost before = ctx.constraint_list();
            ctx.add_constraint(clone_infer(scrutinee_ty), lit_ty, s.clone());
            proof { lemma_state_push(before, ctx.constraint_list()); }
            assert(ctx_state(*ctx).cs =~= st0.cs.push((scrutinee_ty@, literal_infer_type(*lit, st0.next as u32), span_view(*s))));
            Ok(())
        },
        Pattern::Binding(name, _) => {
            let ghost last = ctx.mono_scopes().last();
            let t = clone_infer(scrutinee_ty);
            let ghost tg = t;
            ctx.bind_mono(name.clone(), t, false);
            proof {
                ctx.lemma_wf_scopes();
                lemma_scope_insert(last, name@, tg);
                assert(ctx.mono_scopes().drop_last() =~= old(ctx).mono_scopes().drop_last());
            }
            Ok(())
        },
        Pattern::Nope(s) => {
            let fresh = ctx.fresh_var();
            let mut args: Vec<InferType> = Vec::new();
            args.push(fresh);
            proof {
                lemma_infers_model(args@);
                assert(infers_model(args@) =~= seq![InferTypeView::Var(st0.next as u32)]);
            }
            let ghost before = ctx.constraint_list();
            ctx.add_constraint(clone_infer(scrutinee_ty), InferType::Named("Perhaps".to_string(), args), s.clone());
            proof { lemma_state_push(before, ctx.constraint_list()); }
            Ok(())
        },
        Pattern::Tuple(pats, s) => {
            let ghost enums = ctx.reg().enums();
            let mut vars: Vec<InferType> = Vec::new();
            let mut i: usize = 0;
            while i < pats.len()
                invariant
                    i <= pats.len(),
                    ctx.wf(),
                    ctx.same_envs(old(ctx)),
                    ctx.next_var() == st0.next + i,
                    st0 == ctx_state(*old(ctx)),
                    st0.next + pats.len() + pats_vars(pats@, enums) <= u32::MAX,
                    enums == old(ctx).reg().enums(),
                    infers_model(vars@) =~= elem_vars(st0.next, i as nat),
                decreases pats.len() - i,
            {
                let v = ctx.fresh_var();
                proof { lemma_infers_model_push(vars@, v); }
                vars.push(v);
                i += 1;
            }
            proof { lemma_infers_model(vars@); }
            let ghost before = ctx.constraint_list();
            ctx.add_constraint(clone_infer(scrutinee_ty), InferType::Tuple(clone_infers(&vars)), s.clone());
            proof { lemma_state_push(before, ctx.constraint_list()); }
            let ghost st1 = PatState {
                cs: st0.cs.push((scrutinee_ty@, InferTypeView::Tuple(elem_vars(st0.next, pats@.len())), span_view(*s))),
                scope: st0.scope,
                next: st0.next + pats@.len(),
            };
            assert(ctx_state(*ctx) == st1);
            infer_elements(pats, &vars, ctx, Ghost(st1))
        },
        Pattern::EnumVariant { path, fields, span } => {
            if path.len() != 2 {
                let mut msg = String::new();
                push_str(&mut msg, "unresolved pattern path `");
                let joined = join_path(path, "::");
                push_str(&mut msg, joined.as_str());
                push_str(&mut msg, "`");
                assert(msg@ =~= "unresolved pattern path `"@ + join_spec(pv(*path), "::"@) + "`"@);
                return Err(GustError::type_error(TypeErrorCode::T0003, msg, span));
            }
            let ghost before = *ctx;
            let r = infer_enum_variant_pattern(path[0].as_str(), path[1].as_str(), fields, scrutinee_ty, span, ctx);
            proof {
                if ctx.constraint_list().len() == before.constraint_list().len() + 1 {
                    lemma_state_push(before.constraint_list(), ctx.constraint_list());
                }
                assert(fields@.take(fields@.len() as int) =~= fields@);
                assert(path@[0]@ == path[0]@ && path@[1]@ == path[1]@);
            }
            r
        },
    }
}

fn infer_elements(
    pats: &Vec<Pattern>,
    vars: &Vec<InferType>,
    ctx: &mut InferContext,
    Ghost(st1): Ghost<PatState>,
) -> (r: Result<(), GustError>)
    requires
        old(ctx).wf(),
        vars.len() == pats.len(),
        ctx_state(*old(ctx)) == st1,
        old(ctx).next_var() + pats_vars(pats@, old(ctx).reg().enums()) <= u32::MAX,
    ensures
        final(ctx).wf(),
        final(ctx).reg() == old(ctx).reg(),
        final(ctx).poly_scopes() == old(ctx).poly_scopes(),
        final(ctx).return_type() == old(ctx).return_type(),
        final(ctx).break_type() == old(ctx).break_type(),
        final(ctx).mono_scopes().len() == old(ctx).mono_scopes().len(),
        final(ctx).mono_scopes().drop_last() == old(ctx).mono_scopes().drop_last(),
        ctx_state(*final(ctx)) == pats_effect(pats@, infers_model(vars@), st1, old(ctx).reg().enums()).0,
        match pats_effect(pats@, infers_model(vars@), st1, old(ctx).reg().enums()).1 {
            None => r is Ok
                && final(ctx).next_var() == old(ctx).next_var() + pats_vars(pats@, old(ctx).reg().enums()),
            Some(e) => r matches Err(x) && is_type_error(x, TypeErrorCode::T0003, e.msg, e.span),
        },
    decreases pats, 1nat,
{
    let ghost enums = ctx.reg().enums();
    let ghost tys = infers_model(vars@);
    proof {
        lemma_infers_model(vars@);
        assert(pats@.take(0) =~= Seq::<Pattern>::empty());
    }
    let mut j: usize = 0;
    while j < pats.len()
        invariant
            j <= pats.len(),
            pats.len() == vars.len(),
            ctx.wf(),
            ctx.reg() == old(ctx).reg(),
            ctx.poly_scopes() == old(ctx).poly_scopes(),
            ctx.return_type() == old(ctx).return_type(),
            ctx.break_type() == old(ctx).break_type(),
            ctx.mono_scopes().len() == old(ctx).mono_scopes().len(),
            ctx.mono_scopes().drop_last() == old(ctx).mono_scopes().drop_last(),
            enums == old(ctx).reg().enums(),
            tys == infers_model(vars@),
            tys.len() == vars.len(),
            forall|k: int| 0 <= k < vars.len() ==> #[trigger] tys[k] == vars@[k]@,
            pats_effect(pats@.take(j as int), tys, st1, enums) == (ctx_state(*ctx), None::<PatError>),
            ctx.next_var() == old(ctx).next_var() + pats_vars(pats@.take(j as int), enums),
            old(ctx).next_var() + pats_vars(pats@, enums) <= u32::MAX,
        decreases pats.len() - j,
    {
        proof {
            lemma_pats_vars_step(pats@, enums, j as int);
            lemma_pats_effect_step(pats@, tys, st1, enums, j as int);
        }
        let r = infer_pattern(&pats[j], &vars[j], ctx);
        match r {
            Err(e) => {
                proof { lemma_pats_effect_err(pats@, tys, st1, enums, j + 1); }
                return Err(e);
            },
            Ok(()) => {},
        }
        j += 1;
    }
    proof { assert(pats@.take(pats.len() as int) =~= pats@); }
    Ok(())
}

// ── Field assignment ──────────────────────────────────────────────────────────

/// The bindings of the first `k` type parameters `qs` to the type arguments
/// `args`, in order (a later binding of one parameter replaces an earlier).
pub open spec fn arg_remap(qs: Seq<TypeVar>, args: Seq<InferTypeView>, k: nat) -> Map<u32, InferTypeView>
    decreases k,
{
    if k == 0 {
        Map::empty()
    } else {
        arg_remap(qs, args, (k - 1) as nat).insert(qs[k - 1].0, args[k - 1])
    }
}

/// The type arguments of an object type: a named type's, and none for any
/// other type.
pub open spec fn object_type_args(t: InferTypeView) -> Seq<InferTypeView> {
    match t {
        InferTypeView::Named(_, args) => args,
        _ => Seq::empty(),
    }
}

/// The substitution that instantiates the declared field types of struct
/// `n`, for an object of type `t`: each type parameter bound to the type
/// argument at its position, as far as both lists go.
pub open spec fn field_remap(t: InferTypeView, n: Seq<char>, reg: TypeRegistry) -> Map<u32, InferTypeView> {
    let qs = reg.struct_params()[n]@;
    let args = object_type_args(t);
    arg_remap(qs, args, if qs.len() < args.len() { qs.len() } else { args.len() })
}

/// The type a field assignment `object.field = ...` requires, for an object
/// whose type resolves to `t`: the declared type of the field, with the
/// struct's type parameters instantiated for a generic struct. Errors, as a
/// code and a message: `T0002` when `t` names no type, `T0003` for an
/// unknown type or field.
pub open spec fn field_assign_outcome(t: InferTypeView, field: Seq<char>, reg: TypeRegistry) -> Result<
    InferTypeView,
    (TypeErrorCode, Seq<char>),
> {
    field_outcome(t, field, reg, "assignment"@)
}

/// The type of field `field` of an object whose type resolves to `t`, as
/// [`field_assign_outcome`] describes it, with `what` (an access or an
/// assignment) naming the use in the `T0002` message.
pub open spec fn field_outcome(t: InferTypeView, field: Seq<char>, reg: TypeRegistry, what: Seq<char>) -> Result<
    InferTypeView,
    (TypeErrorCode, Seq<char>),
> {
    match named_type_name_spec(t) {
        None => Err((TypeErrorCode::T0002, "cannot infer struct type for field "@ + what + "; add a type annotation"@)),
        Some(n) => if !reg.structs().contains_key(n) {
            Err((TypeErrorCode::T0003, "unknown type `"@ + n + "`"@))
        } else {
            let fs = fields_view(reg.structs()[n]@);
            match first_field(fs, field) {
                None => Err((TypeErrorCode::T0003, "no field `"@ + field + "` on `"@ + n + "`"@)),
                Some(i) => if reg.struct_params().contains_key(n) {
                    Ok(apply_spec(field_remap(t, n, reg), fs[i].1))
                } else {
                    Ok(fs[i].1)
                },
            }
        }
    }
}

/// Instantiating the field's declared type ends: the substitution has no
/// cycle along the field's type (true unless a type argument refers back to
/// the struct's own type parameters).
pub open spec fn field_assign_ends(t: InferTypeView, field: Seq<char>, reg: TypeRegistry) -> bool {
    match named_type_name_spec(t) {
        Some(n) => reg.structs().contains_key(n) && reg.struct_params().contains_key(n) ==> match first_field(
            fields_view(reg.structs()[n]@),
            field,
        ) {
            Some(i) => terminates(field_remap(t, n, reg), fields_view(reg.structs()[n]@)[i].1),
            None => true,
        },
        None => true,
    }
}

/// The type a field assignment requires, for an object whose type was
/// inferred as `obj_ty`: the constraints so far are solved, the object's
/// type is resolved under the solution, and the field's declared type is
/// instantiated for it (see [`field_assign_outcome`]). A failure to solve
/// is returned as it is.
pub fn infer_field_assign_type(obj_ty: &InferType, field: &str, target_span: &Span, ctx: &InferContext) -> (r: Result<InferType, GustError>)
    requires
        ctx.wf(),
        solve_spec(ctx.constraint_list()) matches Ok(s) ==> field_assign_ends(subst1(s, obj_ty@), field@, ctx.reg()),
    ensures
        match solve_spec(ctx.constraint_list()) {
            Err(f) => r matches Err(e) && solve_error(e, ctx.constraint_list(), f),
            Ok(s) => match field_assign_outcome(subst1(s, obj_ty@), field@, ctx.reg()) {
                Ok(t) => r matches Ok(x) && x@ == t,
                Err(c) => r matches Err(e) && is_type_error(e, c.0, c.1, *target_span),
            },
        },
{
    field_type(obj_ty, field, "assignment", target_span, ctx)
}

/// The type of a field access `object.field`, for an object whose type was
/// inferred as `obj_ty`: as for [`infer_field_assign_type`], the constraints
/// so far are solved and the field's declared type instantiated for the
/// resolved object type (see [`field_outcome`]).
pub fn infer_field_access_type(obj_ty: &InferType, field: &str, span: &Span, ctx: &InferContext) -> (r: Result<InferType, GustError>)
    requires
        ctx.wf(),
        solve_spec(ctx.constraint_list()) matches Ok(s) ==> field_assign_ends(subst1(s, obj_ty@), field@, ctx.reg()),
    ensures
        match solve_spec(ctx.constraint_list()) {
            Err(f) => r matches Err(e) && solve_error(e, ctx.constraint_list(), f),
            Ok(s) => match field_outcome(subst1(s, obj_ty@), field@, ctx.reg(), "access"@) {
                Ok(t) => r matches Ok(x) && x@ == t,
                Err(c) => r matches Err(e) && is_type_error(e, c.0, c.1, *span),
            },
        },
{
    field_type(obj_ty, field, "access", span, ctx)
}

fn field_type(obj_ty: &InferType, field: &str, what: &str, target_span: &Span, ctx: &InferContext) -> (r: Result<InferType, GustError>)
    requires
        ctx.wf(),
        solve_spec(ctx.constraint_list()) matches Ok(s) ==> field_assign_ends(subst1(s, obj_ty@), field@, ctx.reg()),
    ensures
        match solve_spec(ctx.constraint_list()) {
            Err(f) => r matches Err(e) && solve_error(e, ctx.constraint_list(), f),
            Ok(s) => match field_outcome(subst1(s, obj_ty@), field@, ctx.reg(), what@) {
                Ok(t) => r matches Ok(x) && x@ == t,
                Err(c) => r matches Err(e) && is_type_error(e, c.0, c.1, *target_span),
            },
        },
{
    let s = match ctx.solve() {
        Ok(s) => s,
        Err(e) => return Err(e),
    };
    proof { lemma_apply_idempotent(s@, obj_ty@); }
    let obj = s.apply(obj_ty);
    let ghost t = obj@;
    let name = match named_type_name(&obj) {
        Some(n) => n,
        None => {
            let mut msg = String::new();
            push_str(&mut msg, "cannot infer struct type for field ");
            push_str(&mut msg, what);
            push_str(&mut msg, "; add a type annotation");
            return Err(GustError::type_error(TypeErrorCode::T0002, msg, target_span));
        },
    };
    let type_args: Vec<InferType> = match &obj {
        InferType::Named(_, args) => clone_infers(args),
        _ => Vec::new(),
    };
    assert(infers_model(type_args@) == object_type_args(t)) by {
        if !(obj is Named) {
            assert(infers_model(type_args@) =~= Seq::<InferTypeView>::empty());
        }
    }
    let fields = match ctx.get_struct_fields(name.as_str()) {
        Some(f) => f,
        None => {
            let mut msg = String::new();
            push_str(&mut msg, "unknown type `");
            push_str(&mut msg, name.as_str());
            push_str(&mut msg, "`");
            return Err(GustError::type_error(TypeErrorCode::T0003, msg, target_span));
        },
    };
    let fi = match find_field(fields, field) {
        Some(i) => i,
        None => {
            let mut msg = String::new();
            push_str(&mut msg, "no field `");
            push_str(&mut msg, field);
            push_str(&mut msg, "` on `");
            push_str(&mut msg, name.as_str());
            push_str(&mut msg, "`");
            return Err(GustError::type_error(TypeErrorCode::T0003, msg, target_span));
        },
    };
    proof {
        lemma_first_field(fields_view(fields@), field@);
        assert(fields_view(fields@)[fi as int] == (fields@[fi as int].0@, fields@[fi as int].1@));
    }
    let raw = clone_infer(&fields[fi].1);
    match ctx.get_struct_type_params(name.as_str()) {
        Some(params) => {
            let ghost qs = params@;
            let ghost args = infers_model(type_args@);
            proof { lemma_infers_model(type_args@); }
            let n: usize = if params.len() < type_args.len() { params.len() } else { type_args.len() };
            let mut remap = Substitution::new();
            let mut i: usize = 0;
            while i < n
                invariant
                    i <= n,
                    n <= params.len(),
                    n <= type_args.len(),
                    qs == params@,
                    args == infers_model(type_args@),
                    args.len() == type_args.len(),
                    forall|j: int| 0 <= j < type_args.len() ==> #[trigger] args[j] == type_args@[j]@,
                    remap@ == arg_remap(qs, args, i as nat),
                decreases n - i,
            {
                remap.bind(params[i], clone_infer(&type_args[i]));
                i += 1;
            }
            Ok(remap.apply(&raw))
        },
        None => Ok(raw),
    }
}

} // verus!
