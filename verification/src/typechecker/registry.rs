//! Built-in type schemes, the standard prelude, and the registration of
//! built-in methods and aspects.

use vstd::prelude::*;

use crate::strmap::StrMap;
use crate::types::{Type, TypeView};
use crate::typeinference::model::InferTypeView;
use crate::typeinference::{EnumInfo, InferContext, InferType, TypeRegistry, TypeScheme, TypeVar, TypeVarGenerator, VariantInfo};
use crate::typeinference::context::find_scoped;
use crate::ast::{FieldDef, FunSignature, GenericParam, Param, TypeDecl, TypeExpr, TypeExprView, VariantDef, type_exprs_model, lemma_type_exprs_model};
use crate::text::{push_str, str_eq};
use super::conversions::{generic_ids, te_to_infer, type_expr_to_infer, type_expr_to_infer_with_generics};
use super::inference::fields_view;
use crate::types::{types_model, lemma_types_model_push};

verus! {

/// `∀t. fun(t) -> t`, the type of `dbg`.
pub fn dbg_scheme(t: TypeVar) -> (s: TypeScheme)
    ensures
        s.quantified_vars@ == seq![t],
        s.ty@ == InferTypeView::Fun(seq![InferTypeView::Var(t.0)], Box::new(InferTypeView::Var(t.0))),
{
    let mut params: Vec<InferType> = Vec::new();
    params.push(InferType::Var(t));
    let s = TypeScheme { quantified_vars: vec![t], ty: InferType::Fun(params, Box::new(InferType::Var(t))) };
    assert(s.quantified_vars@ =~= seq![t]);
    proof { crate::typeinference::lemma_infers_model(params@); }
    assert(crate::typeinference::infers_model(params@) =~= seq![InferTypeView::Var(t.0)]);
    s
}

/// `∀t. fun(t[], t) -> ()`, the type of `array_push`.
pub fn array_push_scheme(t: TypeVar) -> (s: TypeScheme)
    ensures
        s.quantified_vars@ == seq![t],
        s.ty@ == InferTypeView::Fun(
            seq![InferTypeView::Array(Box::new(InferTypeView::Var(t.0))), InferTypeView::Var(t.0)],
            Box::new(InferTypeView::Concrete(TypeView::Unit)),
        ),
{
    let mut params: Vec<InferType> = Vec::new();
    let elem = InferType::Var(t);
    assert(crate::typeinference::infer_model(&elem) == InferTypeView::Var(t.0));
    let arr = InferType::Array(Box::new(elem));
    assert(crate::typeinference::infer_model(&arr) == InferTypeView::Array(Box::new(InferTypeView::Var(t.0))));
    params.push(arr);
    params.push(InferType::Var(t));
    let s = TypeScheme { quantified_vars: vec![t], ty: InferType::Fun(params, Box::new(InferType::unit())) };
    assert(s.quantified_vars@ =~= seq![t]);
    proof { crate::typeinference::lemma_infers_model(params@); }
    assert(crate::typeinference::infers_model(params@) =~= seq![
        InferTypeView::Array(Box::new(InferTypeView::Var(t.0))),
        InferTypeView::Var(t.0),
    ]) by {
        assert(params@.drop_last().drop_last() =~= Seq::<InferType>::empty());
    }
    s
}

/// `∀t. fun(t[]) -> Int`, the type of `array_len`.
pub fn array_len_scheme(t: TypeVar) -> (s: TypeScheme)
    ensures
        s.quantified_vars@ == seq![t],
        s.ty@ == InferTypeView::Fun(
            seq![InferTypeView::Array(Box::new(InferTypeView::Var(t.0)))],
            Box::new(InferTypeView::Concrete(TypeView::Int)),
        ),
{
    let mut params: Vec<InferType> = Vec::new();
    let elem = InferType::Var(t);
    assert(crate::typeinference::infer_model(&elem) == InferTypeView::Var(t.0));
    let arr = InferType::Array(Box::new(elem));
    assert(crate::typeinference::infer_model(&arr) == InferTypeView::Array(Box::new(InferTypeView::Var(t.0))));
    params.push(arr);
    let s = TypeScheme { quantified_vars: vec![t], ty: InferType::Fun(params, Box::new(InferType::integer())) };
    assert(s.quantified_vars@ =~= seq![t]);
    proof { crate::typeinference::lemma_infers_model(params@); }
    assert(crate::typeinference::infers_model(params@) =~= seq![InferTypeView::Array(Box::new(InferTypeView::Var(t.0)))]);
    s
}

/// `∀t. fun(t) -> ()`, the type of `print` and `println`.
pub fn print_scheme(t: TypeVar) -> (s: TypeScheme)
    ensures
        s.quantified_vars@ == seq![t],
        s.ty@ == InferTypeView::Fun(seq![InferTypeView::Var(t.0)], Box::new(InferTypeView::Concrete(TypeView::Unit))),
{
    let mut params: Vec<InferType> = Vec::new();
    params.push(InferType::Var(t));
    let s = TypeScheme { quantified_vars: vec![t], ty: InferType::Fun(params, Box::new(InferType::unit())) };
    assert(s.quantified_vars@ =~= seq![t]);
    proof { crate::typeinference::lemma_infers_model(params@); }
    assert(crate::typeinference::infers_model(params@) =~= seq![InferTypeView::Var(t.0)]);
    s
}

} // verus!

verus! {

/// `s` is a scheme over `q` of type `ty`.
pub open spec fn scheme_is(s: TypeScheme, q: Seq<TypeVar>, ty: InferTypeView) -> bool {
    s.quantified_vars@ == q && s.ty@ == ty
}

/// Two schemes with the same variables and type.
pub open spec fn scheme_eq(a: TypeScheme, b: TypeScheme) -> bool {
    a.quantified_vars@ == b.quantified_vars@ && a.ty@ == b.ty@
}

/// The monomorphic function type with the given parameter and return types.
pub open spec fn fun_view(params: Seq<InferTypeView>, ret: InferTypeView) -> InferTypeView {
    InferTypeView::Fun(params, Box::new(ret))
}

pub open spec fn int_v() -> InferTypeView {
    InferTypeView::Concrete(TypeView::Int)
}

pub open spec fn str_v() -> InferTypeView {
    InferTypeView::Concrete(TypeView::Str)
}

pub open spec fn bool_v() -> InferTypeView {
    InferTypeView::Concrete(TypeView::Bool)
}

pub open spec fn unit_v() -> InferTypeView {
    InferTypeView::Concrete(TypeView::Unit)
}

/// The built-in function schemes that [`populate_std_schemes`] adds, with
/// `start` the generator's next id: five polymorphic ones over fresh
/// variables `start`..`start + 4`, and five monomorphic ones.
pub open spec fn std_scheme(name: Seq<char>, start: nat, s: TypeScheme) -> bool {
    let t = |i: nat| TypeVar((start + i) as u32);
    let v = |i: nat| InferTypeView::Var((start + i) as u32);
    if name == "print"@ {
        scheme_is(s, seq![t(0)], fun_view(seq![v(0)], unit_v()))
    } else if name == "println"@ {
        scheme_is(s, seq![t(1)], fun_view(seq![v(1)], unit_v()))
    } else if name == "array_push"@ {
        scheme_is(s, seq![t(2)], fun_view(seq![InferTypeView::Array(Box::new(v(2))), v(2)], unit_v()))
    } else if name == "array_len"@ {
        scheme_is(s, seq![t(3)], fun_view(seq![InferTypeView::Array(Box::new(v(3)))], int_v()))
    } else if name == "dbg"@ {
        scheme_is(s, seq![t(4)], fun_view(seq![v(4)], v(4)))
    } else if name == "string_len"@ {
        scheme_is(s, seq![], fun_view(seq![str_v()], int_v()))
    } else if name == "string_concat"@ {
        scheme_is(s, seq![], fun_view(seq![str_v(), str_v()], str_v()))
    } else if name == "clock"@ {
        scheme_is(s, seq![], fun_view(seq![], int_v()))
    } else if name == "assert"@ {
        scheme_is(s, seq![], fun_view(seq![bool_v()], unit_v()))
    } else if name == "assert_msg"@ {
        scheme_is(s, seq![], fun_view(seq![bool_v(), str_v()], unit_v()))
    } else {
        false
    }
}

/// The names of the built-in functions.
pub open spec fn std_names() -> Set<Seq<char>> {
    set![
        "print"@, "println"@, "array_push"@, "array_len"@, "dbg"@, "string_len"@,
        "string_concat"@, "clock"@, "assert"@, "assert_msg"@,
    ]
}

fn mono_fun(params: Vec<InferType>, ret: InferType) -> (s: TypeScheme)
    ensures
        s.quantified_vars@ == Seq::<TypeVar>::empty(),
        s.ty@ == fun_view(crate::typeinference::infers_model(params@), ret@),
{
    TypeScheme::mono(InferType::Fun(params, Box::new(ret)))
}

fn one(a: InferType) -> (v: Vec<InferType>)
    ensures
        crate::typeinference::infers_model(v@) == seq![a@],
{
    let mut v: Vec<InferType> = Vec::new();
    v.push(a);
    proof { crate::typeinference::lemma_infers_model(v@); }
    assert(crate::typeinference::infers_model(v@) =~= seq![a@]);
    v
}

fn two(a: InferType, b: InferType) -> (v: Vec<InferType>)
    ensures
        crate::typeinference::infers_model(v@) == seq![a@, b@],
{
    let mut v: Vec<InferType> = Vec::new();
    v.push(a);
    v.push(b);
    proof { crate::typeinference::lemma_infers_model(v@); }
    assert(crate::typeinference::infers_model(v@) =~= seq![a@, b@]);
    v
}

#[verifier::rlimit(50)]
/// Populate `map` with all built-in function schemes, drawing the variables
/// of the polymorphic ones from `gen`.
pub fn populate_std_schemes(map: &mut StrMap<TypeScheme>, gen: &mut TypeVarGenerator)
    requires
        old(map).wf(),
        old(gen).next_id() + 5 <= u32::MAX,
    ensures
        final(map).wf(),
        final(gen).next_id() == old(gen).next_id() + 5,
        forall|k: Seq<char>| #[trigger] final(map).view().contains_key(k) <==> (old(map).view().contains_key(k)
            || std_names().contains(k)),
        forall|k: Seq<char>| #[trigger] std_names().contains(k) ==> std_scheme(k, old(gen).next_id() as nat, final(map).view()[k]),
        forall|k: Seq<char>| !std_names().contains(k) && #[trigger] old(map).view().contains_key(k) ==> final(map).view()[k]
            == old(map).view()[k],
{
    let ghost start = gen.next_id() as nat;
    let ghost m0 = map.view();
    let t = gen.fresh();
    assert(t == TypeVar((start + 0) as u32));
    map.insert(String::from_str("print"), print_scheme(t));
    let t = gen.fresh();
    assert(t == TypeVar((start + 1) as u32));
    map.insert(String::from_str("println"), print_scheme(t));
    let t = gen.fresh();
    map.insert(String::from_str("array_push"), array_push_scheme(t));
    let t = gen.fresh();
    map.insert(String::from_str("array_len"), array_len_scheme(t));
    let t = gen.fresh();
    map.insert(String::from_str("dbg"), dbg_scheme(t));
    map.insert(String::from_str("string_len"), mono_fun(one(InferType::str()), InferType::integer()));
    map.insert(String::from_str("string_concat"), mono_fun(two(InferType::str(), InferType::str()), InferType::str()));
    map.insert(String::from_str("clock"), mono_fun(Vec::new(), InferType::integer()));
    map.insert(String::from_str("assert"), mono_fun(one(InferType::bool()), InferType::unit()));
    map.insert(String::from_str("assert_msg"), mono_fun(two(InferType::bool(), InferType::str()), InferType::unit()));
    proof {
        reveal_strlit("print");
        reveal_strlit("println");
        reveal_strlit("array_push");
        reveal_strlit("array_len");
        reveal_strlit("dbg");
        reveal_strlit("string_len");
        reveal_strlit("string_concat");
        reveal_strlit("clock");
        reveal_strlit("assert");
        reveal_strlit("assert_msg");
        assert(crate::typeinference::infers_model(Seq::<InferType>::empty()) =~= Seq::<InferTypeView>::empty());
        assert(seq![TypeVar((start + 0) as u32)] == seq![TypeVar(start as u32)]);
        assert("print"@.len() == 5 && "print"@[0] == 'p' && "print"@[4] == 't');
        assert("println"@.len() == 7 && "println"@[0] == 'p' && "println"@[6] == 'n');
        assert("array_push"@.len() == 10 && "array_push"@[0] == 'a' && "array_push"@[9] == 'h');
        assert("array_len"@.len() == 9 && "array_len"@[0] == 'a' && "array_len"@[8] == 'n');
        assert("dbg"@.len() == 3 && "dbg"@[0] == 'd' && "dbg"@[2] == 'g');
        assert("string_len"@.len() == 10 && "string_len"@[0] == 's' && "string_len"@[9] == 'n');
        assert("string_concat"@.len() == 13 && "string_concat"@[0] == 's' && "string_concat"@[12] == 't');
        assert("clock"@.len() == 5 && "clock"@[0] == 'c' && "clock"@[4] == 'k');
        assert("assert"@.len() == 6 && "assert"@[0] == 'a' && "assert"@[5] == 't');
        assert("assert_msg"@.len() == 10 && "assert_msg"@[0] == 'a' && "assert_msg"@[9] == 'g');
        assert(std_scheme("print"@, start, map.view()["print"@]));
        assert(std_scheme("println"@, start, map.view()["println"@]));
        assert(std_scheme("array_push"@, start, map.view()["array_push"@]));
        assert(std_scheme("array_len"@, start, map.view()["array_len"@]));
        assert(std_scheme("dbg"@, start, map.view()["dbg"@]));
        assert(std_scheme("string_len"@, start, map.view()["string_len"@]));
        assert(std_scheme("string_concat"@, start, map.view()["string_concat"@]));
        assert(std_scheme("clock"@, start, map.view()["clock"@]));
        assert(std_scheme("assert"@, start, map.view()["assert"@]));
        assert(std_scheme("assert_msg"@, start, map.view()["assert_msg"@]));
        assert forall|k: Seq<char>| #[trigger] std_names().contains(k) implies std_scheme(k, start, map.view()[k]) by {
            if k == "print"@ { }
            if k == "println"@ { }
            if k == "array_push"@ { }
            if k == "array_len"@ { }
            if k == "dbg"@ { }
            if k == "string_len"@ { }
            if k == "string_concat"@ { }
            if k == "clock"@ { }
            if k == "assert"@ { }
            if k == "assert_msg"@ { }
        }
    }
}

/// Pre-loaded standard library type schemes, seeded before the per-module
/// type-checking loop begins.
#[derive(Debug)]
pub struct StdPrelude {
    schemes: StrMap<TypeScheme>,
}

impl StdPrelude {
    /// The prelude's schemes, by name.
    pub closed spec fn scheme_map(&self) -> Map<Seq<char>, TypeScheme> {
        self.schemes.view()
    }

    pub closed spec fn wf(&self) -> bool {
        self.schemes.wf()
    }

    /// No standard library names pre-loaded.
    pub fn empty() -> (p: Self)
        ensures
            p.wf(),
            p.scheme_map() == Map::<Seq<char>, TypeScheme>::empty(),
    {
        Self { schemes: StrMap::new() }
    }

    /// The standard library prelude: exactly the built-in free functions of
    /// [`populate_std_schemes`], the polymorphic ones quantified over the
    /// variables 0 to 4.
    pub fn default() -> (p: Self)
        ensures
            p.wf(),
            p.scheme_map().dom() == std_names(),
            forall|k: Seq<char>| #[trigger] std_names().contains(k) ==> std_scheme(k, 0, p.scheme_map()[k]),
    {
        let mut schemes: StrMap<TypeScheme> = StrMap::new();
        let mut gen = TypeVarGenerator::new();
        populate_std_schemes(&mut schemes, &mut gen);
        assert(schemes.view().dom() =~= std_names());
        Self { schemes }
    }

    /// The prelude's schemes, taken out of it.
    pub fn into_schemes(self) -> (r: StrMap<TypeScheme>)
        requires
            self.wf(),
        ensures
            r.wf(),
            r.view() == self.scheme_map(),
    {
        self.schemes
    }

    /// The prelude's schemes.
    pub fn schemes(&self) -> (r: &StrMap<TypeScheme>)
        ensures
            r.view() == self.scheme_map(),
            self.wf() ==> r.wf(),
    {
        &self.schemes
    }
}

/// Add all built-in function schemes from `prelude` to `scheme_env`
/// (replacing schemes of the same names).
pub fn register_builtin_schemes(scheme_env: &mut StrMap<TypeScheme>, prelude: &StdPrelude)
    requires
        old(scheme_env).wf(),
        prelude.wf(),
    ensures
        final(scheme_env).wf(),
        forall|k: Seq<char>| #[trigger] final(scheme_env).view().contains_key(k) <==> (old(scheme_env).view().contains_key(k)
            || prelude.scheme_map().contains_key(k)),
        forall|k: Seq<char>| #[trigger] prelude.scheme_map().contains_key(k) ==> scheme_eq(
            final(scheme_env).view()[k],
            prelude.scheme_map()[k],
        ),
        forall|k: Seq<char>| !prelude.scheme_map().contains_key(k) && #[trigger] old(scheme_env).view().contains_key(k)
            ==> final(scheme_env).view()[k] == old(scheme_env).view()[k],
{
    let schemes = prelude.schemes();
    proof { schemes.lemma_keys(); }
    let ghost keys = schemes.keys_seq();
    let mut i: usize = 0;
    while i < schemes.len()
        invariant
            i <= keys.len(),
            schemes.wf(),
            keys == schemes.keys_seq(),
            keys.no_duplicates(),
            schemes.view() == prelude.scheme_map(),
            forall|k: Seq<char>| #[trigger] schemes.view().contains_key(k) <==> keys.contains(k),
            scheme_env.wf(),
            forall|k: Seq<char>| #[trigger] scheme_env.view().contains_key(k) <==> (old(scheme_env).view().contains_key(k)
                || keys.take(i as int).contains(k)),
            forall|k: Seq<char>| #[trigger] keys.take(i as int).contains(k) ==> scheme_eq(
                scheme_env.view()[k],
                prelude.scheme_map()[k],
            ),
            forall|k: Seq<char>| !keys.take(i as int).contains(k) && #[trigger] old(scheme_env).view().contains_key(k)
                ==> scheme_env.view()[k] == old(scheme_env).view()[k],
        decreases keys.len() - i,
    {
        let (name, scheme) = schemes.entry(i);
        proof {
            assert forall|k: Seq<char>| #[trigger] keys.take(i as int + 1).contains(k) <==> (keys.take(i as int).contains(k)
                || k == keys[i as int]) by {
                if keys.take(i as int + 1).contains(k) {
                    let j = choose|j: int| 0 <= j < i + 1 && #[trigger] keys.take(i as int + 1)[j] == k;
                    if j < i {
                        assert(keys.take(i as int)[j] == k);
                    }
                }
                if keys.take(i as int).contains(k) {
                    let j = choose|j: int| 0 <= j < i && #[trigger] keys.take(i as int)[j] == k;
                    assert(keys.take(i as int + 1)[j] == k);
                }
                if k == keys[i as int] {
                    assert(keys.take(i as int + 1)[i as int] == k);
                }
            }
        }
        scheme_env.insert(name.clone(), scheme.clone());
        i += 1;
    }
    proof {
        assert(keys.take(keys.len() as int) =~= keys);
    }
}

} // verus!

verus! {

/// The characters of each string.
pub open spec fn strings_view(v: Seq<String>) -> Seq<Seq<char>> {
    v.map_values(|s: String| s@)
}

/// The method types that [`register_builtins`] registers: `to_string` on
/// `Int`, `Float`, `Bool` and `String`, and `len` on `String`.
pub open spec fn builtin_method(t: Seq<char>, m: Seq<char>) -> Option<InferTypeView> {
    if m == "to_string"@ && t == "Int"@ {
        Some(fun_view(seq![int_v()], str_v()))
    } else if m == "to_string"@ && t == "Float"@ {
        Some(fun_view(seq![InferTypeView::Concrete(TypeView::Float)], str_v()))
    } else if m == "to_string"@ && t == "Bool"@ {
        Some(fun_view(seq![bool_v()], str_v()))
    } else if m == "to_string"@ && t == "String"@ {
        Some(fun_view(seq![str_v()], str_v()))
    } else if m == "len"@ && t == "String"@ {
        Some(fun_view(seq![str_v()], int_v()))
    } else {
        None
    }
}

fn vec_of_one(s: &str) -> (v: Vec<String>)
    ensures
        strings_view(v@) == seq![s@],
{
    let mut v: Vec<String> = Vec::new();
    v.push(String::from_str(s));
    assert(strings_view(v@) =~= seq![s@]);
    v
}

fn register_to_string(ctx: &mut InferContext, owner: &str, self_ty: InferType)
    requires
        old(ctx).wf(),
    ensures
        final(ctx).wf(),
        final(ctx).same_but_registry(old(ctx)),
        final(ctx).reg().same_aspects(&old(ctx).reg()),
        final(ctx).reg().structs() == old(ctx).reg().structs(),
        final(ctx).reg().enums() == old(ctx).reg().enums(),
        forall|t: Seq<char>, m: Seq<char>| #[trigger] final(ctx).reg().method(t, m) == if t == owner@ && m
            == "to_string"@ {
            Some(final(ctx).reg().method(t, m).unwrap())
        } else {
            old(ctx).reg().method(t, m)
        },
        final(ctx).reg().method(owner@, "to_string"@) matches Some(f) && f@ == fun_view(seq![self_ty@], str_v()),
{
    let mut params: Vec<InferType> = Vec::new();
    params.push(self_ty);
    proof { crate::typeinference::lemma_infers_model(params@); }
    assert(crate::typeinference::infers_model(params@) =~= seq![self_ty@]);
    ctx.register_method(String::from_str(owner), String::from_str("to_string"), InferType::Fun(params, Box::new(InferType::str())));
}

/// Seed `ctx` with all built-in free-function bindings from `prelude`
/// (in the current polymorphic scope), plus the built-in methods and the
/// built-in aspects `Display` (`to_string`), `Iterable` (`next`) and `From`
/// (`from`).
pub fn register_builtins(ctx: &mut InferContext, prelude: &StdPrelude)
    requires
        old(ctx).wf(),
        prelude.wf(),
    ensures
        final(ctx).wf(),
        final(ctx).mono_scopes() == old(ctx).mono_scopes(),
        final(ctx).next_var() == old(ctx).next_var(),
        final(ctx).constraint_list() == old(ctx).constraint_list(),
        final(ctx).return_type() == old(ctx).return_type(),
        final(ctx).break_type() == old(ctx).break_type(),
        final(ctx).poly_scopes().len() == old(ctx).poly_scopes().len(),
        final(ctx).poly_scopes().drop_last() == old(ctx).poly_scopes().drop_last(),
        forall|k: Seq<char>| #[trigger] final(ctx).poly_scopes().last().contains_key(k) <==> (old(
            ctx,
        ).poly_scopes().last().contains_key(k) || prelude.scheme_map().contains_key(k)),
        forall|k: Seq<char>| #[trigger] prelude.scheme_map().contains_key(k) ==> scheme_eq(
            final(ctx).poly_scopes().last()[k],
            prelude.scheme_map()[k],
        ),
        forall|k: Seq<char>| !prelude.scheme_map().contains_key(k) && #[trigger] old(ctx).poly_scopes().last().contains_key(
            k,
        ) ==> final(ctx).poly_scopes().last()[k] == old(ctx).poly_scopes().last()[k],
        forall|t: Seq<char>, m: Seq<char>| #[trigger] final(ctx).reg().method(t, m) == (match builtin_method(t, m) {
            Some(_) => Some(final(ctx).reg().method(t, m).unwrap()),
            None => old(ctx).reg().method(t, m),
        }),
        forall|t: Seq<char>, m: Seq<char>| #[trigger] builtin_method(t, m) matches Some(f) ==> (final(ctx).reg().method(t, m) matches Some(g) && g@ == f),
        final(ctx).reg().structs() == old(ctx).reg().structs(),
        final(ctx).reg().enums() == old(ctx).reg().enums(),
        final(ctx).reg().aspect_impl_list() == old(ctx).reg().aspect_impl_list(),
        final(ctx).reg().aspects().dom() == old(ctx).reg().aspects().dom().insert("Display"@).insert("Iterable"@).insert("From"@),
        strings_view(final(ctx).reg().aspects()["Display"@]@) == seq!["to_string"@],
        strings_view(final(ctx).reg().aspects()["Iterable"@]@) == seq!["next"@],
        strings_view(final(ctx).reg().aspects()["From"@]@) == seq!["from"@],
{
    let schemes = prelude.schemes();
    proof { schemes.lemma_keys(); }
    let ghost keys = schemes.keys_seq();
    proof { ctx.lemma_wf_scopes(); }
    let ghost last0 = ctx.poly_scopes().last();
    let mut i: usize = 0;
    while i < schemes.len()
        invariant
            i <= keys.len(),
            schemes.wf(),
            keys == schemes.keys_seq(),
            keys.no_duplicates(),
            schemes.view() == prelude.scheme_map(),
            forall|k: Seq<char>| #[trigger] schemes.view().contains_key(k) <==> keys.contains(k),
            ctx.wf(),
            ctx.mono_scopes() == old(ctx).mono_scopes(),
            ctx.next_var() == old(ctx).next_var(),
            ctx.constraint_list() == old(ctx).constraint_list(),
            ctx.return_type() == old(ctx).return_type(),
            ctx.break_type() == old(ctx).break_type(),
            ctx.reg() == old(ctx).reg(),
            ctx.poly_scopes().len() == old(ctx).poly_scopes().len(),
            ctx.poly_scopes().drop_last() == old(ctx).poly_scopes().drop_last(),
            last0 == old(ctx).poly_scopes().last(),
            forall|k: Seq<char>| #[trigger] ctx.poly_scopes().last().contains_key(k) <==> (last0.contains_key(k)
                || keys.take(i as int).contains(k)),
            forall|k: Seq<char>| #[trigger] keys.take(i as int).contains(k) ==> scheme_eq(
                ctx.poly_scopes().last()[k],
                prelude.scheme_map()[k],
            ),
            forall|k: Seq<char>| !keys.take(i as int).contains(k) && #[trigger] last0.contains_key(k)
                ==> ctx.poly_scopes().last()[k] == last0[k],
        decreases keys.len() - i,
    {
        let (name, scheme) = schemes.entry(i);
        proof {
            assert forall|k: Seq<char>| #[trigger] keys.take(i as int + 1).contains(k) <==> (keys.take(i as int).contains(k)
                || k == keys[i as int]) by {
                if keys.take(i as int + 1).contains(k) {
                    let j = choose|j: int| 0 <= j < i + 1 && #[trigger] keys.take(i as int + 1)[j] == k;
                    if j < i {
                        assert(keys.take(i as int)[j] == k);
                    }
                }
                if keys.take(i as int).contains(k) {
                    let j = choose|j: int| 0 <= j < i && #[trigger] keys.take(i as int)[j] == k;
                    assert(keys.take(i as int + 1)[j] == k);
                }
                if k == keys[i as int] {
                    assert(keys.take(i as int + 1)[i as int] == k);
                }
            }
        }
        let ghost before = ctx.poly_scopes();
        proof { ctx.lemma_wf_scopes(); }
        ctx.bind_poly(name.clone(), scheme.clone());
        proof {
            ctx.lemma_wf_scopes();
            assert(ctx.poly_scopes().drop_last() =~= before.drop_last());
        }
        i += 1;
    }
    proof {
        assert(keys.take(keys.len() as int) =~= keys);
    }
    let ghost poly_done = ctx.poly_scopes();
    register_to_string(ctx, "Int", InferType::integer());
    register_to_string(ctx, "Float", InferType::float());
    register_to_string(ctx, "Bool", InferType::bool());
    register_to_string(ctx, "String", InferType::str());
    let mut params: Vec<InferType> = Vec::new();
    params.push(InferType::str());
    proof { crate::typeinference::lemma_infers_model(params@); }
    assert(crate::typeinference::infers_model(params@) =~= seq![str_v()]);
    ctx.register_method(String::from_str("String"), String::from_str("len"), InferType::Fun(params, Box::new(InferType::integer())));
    ctx.register_aspect(String::from_str("Display"), vec_of_one("to_string"));
    ctx.register_aspect(String::from_str("Iterable"), vec_of_one("next"));
    ctx.register_aspect(String::from_str("From"), vec_of_one("from"));
    proof {
        reveal_strlit("Int");
        reveal_strlit("Float");
        reveal_strlit("Bool");
        reveal_strlit("String");
        reveal_strlit("to_string");
        reveal_strlit("len");
        reveal_strlit("Display");
        reveal_strlit("Iterable");
        reveal_strlit("From");
        assert("Int"@.len() == 3 && "Float"@.len() == 5 && "Bool"@.len() == 4 && "String"@.len() == 6);
        assert("to_string"@.len() == 9 && "len"@.len() == 3);
        assert("Display"@.len() == 7 && "Iterable"@.len() == 8 && "From"@.len() == 4);
        assert(ctx.reg().aspects().dom() =~= old(ctx).reg().aspects().dom().insert("Display"@).insert("Iterable"@).insert("From"@));
    }
}

/// Record the built-in aspect implementations: `Iterable<Int>` for `Range`
/// and `RangeInclusive`, `From<Float>` for `Int`, `From<Int>` for `Float`, and
/// `Display` for `Int`, `Float`, `Bool` and `String`, in that order.
pub fn register_builtin_aspect_impls(registry: &mut TypeRegistry)
    requires
        old(registry).wf(),
    ensures
        final(registry).wf(),
        final(registry).aspect_impl_list().len() == old(registry).aspect_impl_list().len() + 8,
        final(registry).aspect_impl_list().take(old(registry).aspect_impl_list().len() as int)
            == old(registry).aspect_impl_list(),
        impl_views(final(registry).aspect_impl_list().skip(old(registry).aspect_impl_list().len() as int))
            == builtin_impls(),
        final(registry).aspects() == old(registry).aspects(),
        final(registry).structs() == old(registry).structs(),
        final(registry).struct_params() == old(registry).struct_params(),
        final(registry).scopes() == old(registry).scopes(),
        final(registry).enums() == old(registry).enums(),
        forall|t: Seq<char>, m: Seq<char>| #[trigger] final(registry).method(t, m) == old(registry).method(t, m),
{
    let ghost l0 = registry.aspect_impl_list();
    registry.register_aspect_impl(String::from_str("Range"), String::from_str("Iterable"), vec![Type::Int]);
    registry.register_aspect_impl(String::from_str("RangeInclusive"), String::from_str("Iterable"), vec![Type::Int]);
    registry.register_aspect_impl(String::from_str("Int"), String::from_str("From"), vec![Type::Float]);
    registry.register_aspect_impl(String::from_str("Float"), String::from_str("From"), vec![Type::Int]);
    registry.register_aspect_impl(String::from_str("Int"), String::from_str("Display"), Vec::new());
    registry.register_aspect_impl(String::from_str("Float"), String::from_str("Display"), Vec::new());
    registry.register_aspect_impl(String::from_str("Bool"), String::from_str("Display"), Vec::new());
    registry.register_aspect_impl(String::from_str("String"), String::from_str("Display"), Vec::new());
    proof {
        let l = registry.aspect_impl_list();
        assert(l.take(l0.len() as int) =~= l0);
        let tail = l.skip(l0.len() as int);
        assert forall|i: int| 0 <= i < tail.len() implies #[trigger] crate::types::types_model(tail[i].2@) == builtin_impls()[i].2 by {
            crate::types::lemma_types_model(tail[i].2@);
        }
        assert(impl_views(tail) =~= builtin_impls());
    }
}

/// The characters of the names and the models of the type arguments of
/// aspect implementations.
pub open spec fn impl_views(s: Seq<(String, String, Vec<Type>)>) -> Seq<(Seq<char>, Seq<char>, Seq<TypeView>)> {
    s.map_values(|e: (String, String, Vec<Type>)| (e.0@, e.1@, crate::types::types_model(e.2@)))
}

/// The built-in aspect implementations, in registration order.
pub open spec fn builtin_impls() -> Seq<(Seq<char>, Seq<char>, Seq<TypeView>)> {
    seq![
        ("Range"@, "Iterable"@, seq![TypeView::Int]),
        ("RangeInclusive"@, "Iterable"@, seq![TypeView::Int]),
        ("Int"@, "From"@, seq![TypeView::Float]),
        ("Float"@, "From"@, seq![TypeView::Int]),
        ("Int"@, "Display"@, seq![]),
        ("Float"@, "Display"@, seq![]),
        ("Bool"@, "Display"@, seq![]),
        ("String"@, "Display"@, seq![]),
    ]
}

// ── Methods of impl blocks ──────────────────────────────────────────────────

/// Whether a method parameter gets a fresh type variable: it is not `self`
/// and has no annotation.
pub open spec fn takes_fresh(p: Param) -> bool {
    p.name@ != "self"@ && p.type_ann is None
}

/// How many of the parameters `ps` get a fresh type variable.
pub open spec fn fresh_count(ps: Seq<Param>) -> nat
    decreases ps.len(),
{
    if ps.len() == 0 {
        0
    } else {
        fresh_count(ps.drop_last()) + if takes_fresh(ps.last()) { 1nat } else { 0nat }
    }
}

/// The type a method parameter is registered with: the impl's target type
/// for `self`, its annotation when it has one, else the fresh variable `next`.
pub open spec fn method_param_type(target: Seq<char>, p: Param, next: nat) -> InferTypeView {
    if p.name@ == "self"@ {
        InferTypeView::Named(target, Seq::empty())
    } else {
        match p.type_ann {
            Some(a) => te_to_infer(a@, Map::empty()),
            None => InferTypeView::Var(next as u32),
        }
    }
}

/// The parameter types of a method whose fresh variables start at `start`.
pub open spec fn method_param_types(target: Seq<char>, ps: Seq<Param>, start: nat) -> Seq<InferTypeView>
    decreases ps.len(),
{
    if ps.len() == 0 {
        Seq::empty()
    } else {
        method_param_types(target, ps.drop_last(), start).push(
            method_param_type(target, ps.last(), start + fresh_count(ps.drop_last())),
        )
    }
}

/// The registered type of a method: a function of its parameter types to
/// its declared return type, or to `()` when it declares none.
pub open spec fn method_sig_type(target: Seq<char>, m: FunSignature, start: nat) -> InferTypeView {
    InferTypeView::Fun(
        method_param_types(target, m.params@, start),
        Box::new(
            match m.return_type {
                Some(t) => te_to_infer(t@, Map::empty()),
                None => unit_v(),
            },
        ),
    )
}

/// How many fresh variables the methods `ms` take in all.
pub open spec fn methods_fresh(ms: Seq<FunSignature>) -> nat
    decreases ms.len(),
{
    if ms.len() == 0 {
        0
    } else {
        methods_fresh(ms.drop_last()) + fresh_count(ms.last().params@)
    }
}

/// The registered type of each method of `ms`, in order (a later method of
/// the same name wins), fresh variables counting up from `start`.
pub open spec fn method_types(target: Seq<char>, ms: Seq<FunSignature>, start: nat) -> Map<Seq<char>, InferTypeView>
    decreases ms.len(),
{
    if ms.len() == 0 {
        Map::empty()
    } else {
        method_types(target, ms.drop_last(), start).insert(
            ms.last().name@,
            method_sig_type(target, ms.last(), start + methods_fresh(ms.drop_last())),
        )
    }
}

/// The type of one method, taking fresh variables from `gen`.
fn method_type_of(m: &FunSignature, target_name: &str, gen: &mut TypeVarGenerator) -> (t: InferType)
    requires
        old(gen).next_id() + fresh_count(m.params@) <= u32::MAX,
    ensures
        final(gen).next_id() == old(gen).next_id() + fresh_count(m.params@),
        t@ == method_sig_type(target_name@, *m, old(gen).next_id() as nat),
{
    let ghost start = gen.next_id() as nat;
    let ghost ps = m.params@;
    let mut param_types: Vec<InferType> = Vec::new();
    let mut i: usize = 0;
    proof {
        reveal_strlit("self");
        assert(ps.take(0) =~= Seq::<Param>::empty());
    }
    while i < m.params.len()
        invariant
            i <= ps.len(),
            ps == m.params@,
            start + fresh_count(ps) <= u32::MAX,
            gen.next_id() == start + fresh_count(ps.take(i as int)),
            crate::typeinference::infers_model(param_types@) == method_param_types(target_name@, ps.take(i as int), start),
        decreases ps.len() - i,
    {
        let p = &m.params[i];
        proof {
            assert(ps.take(i + 1).drop_last() =~= ps.take(i as int));
            assert(ps.take(i + 1).last() == ps[i as int]);
            lemma_fresh_count_mono(ps, i as int + 1);
        }
        let pt = if str_eq(p.name.as_str(), "self") {
            let mut n = String::new();
            push_str(&mut n, target_name);
            let no_args: Vec<InferType> = Vec::new();
            assert(crate::typeinference::infers_model(no_args@) =~= Seq::<InferTypeView>::empty());
            InferType::Named(n, no_args)
        } else {
            match &p.type_ann {
                Some(ann) => type_expr_to_infer(ann),
                None => InferType::Var(gen.fresh()),
            }
        };
        proof {
            crate::typeinference::lemma_infers_model_push(param_types@, pt);
        }
        param_types.push(pt);
        i += 1;
    }
    assert(ps.take(ps.len() as int) =~= ps);
    let ret_ty = match &m.return_type {
        Some(t) => type_expr_to_infer(t),
        None => InferType::unit(),
    };
    InferType::Fun(param_types, Box::new(ret_ty))
}

proof fn lemma_fresh_count_mono(ps: Seq<Param>, k: int)
    requires
        0 <= k <= ps.len(),
    ensures
        fresh_count(ps.take(k)) <= fresh_count(ps),
    decreases ps.len(),
{
    if k < ps.len() {
        assert(ps.drop_last().take(k) =~= ps.take(k));
        lemma_fresh_count_mono(ps.drop_last(), k);
    } else {
        assert(ps.take(k) =~= ps);
    }
}

proof fn lemma_methods_fresh_mono(ms: Seq<FunSignature>, k: int)
    requires
        0 <= k <= ms.len(),
    ensures
        methods_fresh(ms.take(k)) + (if k < ms.len() { fresh_count(ms[k].params@) } else { 0 }) <= methods_fresh(ms),
    decreases ms.len(),
{
    if k < ms.len() {
        assert(ms.take(k + 1).drop_last() =~= ms.take(k));
        if k + 1 < ms.len() {
            assert(ms.drop_last().take(k + 1) =~= ms.take(k + 1));
            assert(ms.drop_last()[k] == ms[k]);
            lemma_methods_fresh_mono(ms.drop_last(), k + 1);
        } else {
            assert(ms.take(k + 1) =~= ms);
        }
    } else {
        assert(ms.take(k) =~= ms);
    }
}

/// Register the methods of an impl block for `target_name`, in order: each
/// gets the function type of its parameters (`self` as the target type, an
/// annotated parameter as annotated, any other a fresh variable) to its
/// declared return type.
pub fn register_impl_methods(
    methods: &Vec<FunSignature>,
    target_name: &str,
    gen: &mut TypeVarGenerator,
    registry: &mut TypeRegistry,
)
    requires
        old(registry).wf(),
        old(gen).next_id() + methods_fresh(methods@) <= u32::MAX,
    ensures
        final(registry).wf(),
        final(gen).next_id() == old(gen).next_id() + methods_fresh(methods@),
        forall|t: Seq<char>, m: Seq<char>|
            #![trigger final(registry).method(t, m)]
            if t == target_name@ && method_types(target_name@, methods@, old(gen).next_id() as nat).contains_key(m) {
                final(registry).method(t, m) matches Some(x)
                    && x@ == method_types(target_name@, methods@, old(gen).next_id() as nat)[m]
            } else {
                final(registry).method(t, m) == old(registry).method(t, m)
            },
        final(registry).same_aspects(old(registry)),
        final(registry).structs() == old(registry).structs(),
        final(registry).struct_params() == old(registry).struct_params(),
        final(registry).scopes() == old(registry).scopes(),
        final(registry).enums() == old(registry).enums(),
{
    let ghost start = gen.next_id() as nat;
    let ghost ms = methods@;
    proof {
        assert(ms.take(0) =~= Seq::<FunSignature>::empty());
    }
    let mut i: usize = 0;
    while i < methods.len()
        invariant
            i <= ms.len(),
            ms == methods@,
            registry.wf(),
            start + methods_fresh(ms) <= u32::MAX,
            gen.next_id() == start + methods_fresh(ms.take(i as int)),
            forall|t: Seq<char>, m: Seq<char>|
                #![trigger registry.method(t, m)]
                if t == target_name@ && method_types(target_name@, ms.take(i as int), start).contains_key(m) {
                    registry.method(t, m) matches Some(x) && x@ == method_types(target_name@, ms.take(i as int), start)[m]
                } else {
                    registry.method(t, m) == old(registry).method(t, m)
                },
            registry.same_aspects(old(registry)),
            registry.structs() == old(registry).structs(),
            registry.struct_params() == old(registry).struct_params(),
            registry.scopes() == old(registry).scopes(),
            registry.enums() == old(registry).enums(),
        decreases ms.len() - i,
    {
        proof {
            lemma_methods_fresh_mono(ms, i as int);
            assert(ms.take(i + 1).drop_last() =~= ms.take(i as int));
            assert(ms.take(i + 1).last() == ms[i as int]);
        }
        let method = &methods[i];
        let fun_ty = method_type_of(method, target_name, gen);
        let mut owner = String::new();
        push_str(&mut owner, target_name);
        let ghost before = *registry;
        registry.register_method(owner, method.name.clone(), fun_ty);
        proof {
            assert forall|t: Seq<char>, m: Seq<char>|
                #![trigger registry.method(t, m)]
                (if t == target_name@ && method_types(target_name@, ms.take(i + 1), start).contains_key(m) {
                    registry.method(t, m) matches Some(x) && x@ == method_types(target_name@, ms.take(i + 1), start)[m]
                } else {
                    registry.method(t, m) == old(registry).method(t, m)
                }) by {
                assert(registry.method(t, m) == if t == target_name@ && m == method.name@ {
                    Some(fun_ty)
                } else {
                    before.method(t, m)
                });
                assert(before.method(t, m) == before.method(t, m));
            }
        }
        i += 1;
    }
    assert(ms.take(ms.len() as int) =~= ms);
}

// ── The registry of a program's type declarations ───────────────────────────

/// Model of a registered enum.
pub struct EnumView {
    pub type_params: Seq<TypeVar>,
    pub variants: Seq<(Seq<char>, Seq<(Seq<char>, InferTypeView)>)>,
}

/// The model of a registered enum.
pub open spec fn enum_view(e: EnumInfo) -> EnumView {
    EnumView {
        type_params: e.type_params@,
        variants: e.variants@.map_values(|v: VariantInfo| (v.name@, fields_view(v.fields@))),
    }
}

/// Model of a registry's definitions.
pub struct RegView {
    pub structs: Map<Seq<char>, Seq<(Seq<char>, InferTypeView)>>,
    pub struct_params: Map<Seq<char>, Seq<TypeVar>>,
    pub methods: Map<(Seq<char>, Seq<char>), InferTypeView>,
    pub enums: Map<Seq<char>, EnumView>,
    pub aspects: Map<Seq<char>, Seq<Seq<char>>>,
    pub impls: Seq<(Seq<char>, Seq<char>, Seq<TypeView>)>,
}

/// The method types of a registry, by (type, method).
pub open spec fn methods_view(r: TypeRegistry) -> Map<(Seq<char>, Seq<char>), InferTypeView> {
    Map::new(
        |k: (Seq<char>, Seq<char>)| r.method(k.0, k.1) is Some,
        |k: (Seq<char>, Seq<char>)| r.method(k.0, k.1).unwrap()@,
    )
}

/// The model of a registry's definitions.
pub open spec fn reg_view(r: TypeRegistry) -> RegView {
    RegView {
        structs: r.structs().map_values(|fs: Vec<(String, InferType)>| fields_view(fs@)),
        struct_params: r.struct_params().map_values(|ps: Vec<TypeVar>| ps@),
        methods: methods_view(r),
        enums: r.enums().map_values(|e: EnumInfo| enum_view(e)),
        aspects: r.aspects().map_values(|ms: Vec<String>| ms@.map_values(|s: String| s@)),
        impls: impl_views(r.aspect_impl_list()),
    }
}

/// The type variables generic parameters receive, counting up from `next`:
/// each name to its variable (a later repeat of a name wins).
pub open spec fn generic_map(gps: Seq<GenericParam>, next: nat) -> Map<Seq<char>, u32>
    decreases gps.len(),
{
    if gps.len() == 0 {
        Map::empty()
    } else {
        generic_map(gps.drop_last(), next).insert(gps.last().name@, (next + gps.len() - 1) as u32)
    }
}

/// The `k` fresh variables counting up from `next`.
pub open spec fn fresh_vars(next: nat, k: nat) -> Seq<TypeVar> {
    Seq::new(k, |i: int| TypeVar((next + i) as u32))
}

/// The registered fields of a declaration, with generic names `g`.
pub open spec fn field_defs_view(fs: Seq<FieldDef>, g: Map<Seq<char>, u32>) -> Seq<(Seq<char>, InferTypeView)> {
    fs.map_values(|f: FieldDef| (f.name@, te_to_infer(f.type_ann@, g)))
}

/// The registered variants of an enum declaration, with generic names `g`.
pub open spec fn variants_view(vs: Seq<VariantDef>, g: Map<Seq<char>, u32>) -> Seq<(Seq<char>, Seq<(Seq<char>, InferTypeView)>)> {
    vs.map_values(|v: VariantDef| (v.name@, field_defs_view(v.fields@, g)))
}

/// The concrete types an impl's aspect arguments register: a concrete type
/// as it is, a named type by its bare name, anything else dropped.
pub open spec fn impl_arg_types(tes: Seq<TypeExprView>) -> Seq<TypeView>
    decreases tes.len(),
{
    if tes.len() == 0 {
        Seq::empty()
    } else {
        let prev = impl_arg_types(tes.drop_last());
        match te_to_infer(tes.last(), Map::empty()) {
            InferTypeView::Concrete(t) => prev.push(t),
            InferTypeView::Named(n, _) => prev.push(TypeView::Named(n, Seq::empty())),
            _ => prev,
        }
    }
}

/// `methods` with the method types `mt` of `target` registered over it.
pub open spec fn with_methods(
    methods: Map<(Seq<char>, Seq<char>), InferTypeView>,
    target: Seq<char>,
    mt: Map<Seq<char>, InferTypeView>,
) -> Map<(Seq<char>, Seq<char>), InferTypeView> {
    Map::new(
        |k: (Seq<char>, Seq<char>)| methods.contains_key(k) || (k.0 == target && mt.contains_key(k.1)),
        |k: (Seq<char>, Seq<char>)| if k.0 == target && mt.contains_key(k.1) {
            mt[k.1]
        } else {
            methods[k]
        },
    )
}

/// What registering one declaration does to the registry's model, and the
/// next fresh variable after it.
pub open spec fn decl_step(v: RegView, d: TypeDecl, next: nat) -> (RegView, nat) {
    match d {
        TypeDecl::Struct(sd) => if sd.generics@.len() == 0 {
            (
                RegView {
                    structs: v.structs.insert(sd.name@, field_defs_view(sd.fields@, Map::empty())),
                    struct_params: v.struct_params,
                    methods: v.methods,
                    enums: v.enums,
                    aspects: v.aspects,
                    impls: v.impls,
                },
                next,
            )
        } else {
            let k = sd.generics@.len();
            (
                RegView {
                    structs: v.structs.insert(sd.name@, field_defs_view(sd.fields@, generic_map(sd.generics@, next))),
                    struct_params: v.struct_params.insert(sd.name@, fresh_vars(next, k)),
                    methods: v.methods,
                    enums: v.enums,
                    aspects: v.aspects,
                    impls: v.impls,
                },
                next + k,
            )
        },
        TypeDecl::Enum(ed) => {
            let k = ed.generics@.len();
            (
                RegView {
                    structs: v.structs,
                    struct_params: v.struct_params,
                    methods: v.methods,
                    enums: v.enums.insert(
                        ed.name@,
                        EnumView {
                            type_params: fresh_vars(next, k),
                            variants: variants_view(ed.variants@, generic_map(ed.generics@, next)),
                        },
                    ),
                    aspects: v.aspects,
                    impls: v.impls,
                },
                next + k,
            )
        },
        TypeDecl::Aspect(ad) => (
            RegView {
                structs: v.structs,
                struct_params: v.struct_params,
                methods: v.methods,
                enums: v.enums,
                aspects: v.aspects.insert(ad.name@, ad.methods@.map_values(|m: FunSignature| m.name@)),
                impls: v.impls,
            },
            next,
        ),
        TypeDecl::Impl(ib) => match ib.target_type {
            TypeExpr::Named(n, _) => (
                RegView {
                    structs: v.structs,
                    struct_params: v.struct_params,
                    methods: with_methods(v.methods, n@, method_types(n@, ib.methods@, next)),
                    enums: v.enums,
                    aspects: v.aspects,
                    impls: match ib.aspect_name {
                        Some(a) => v.impls.push((n@, a@, impl_arg_types(type_exprs_model(ib.aspect_type_args@)))),
                        None => v.impls,
                    },
                },
                next + methods_fresh(ib.methods@),
            ),
            _ => (v, next),
        },
    }
}

/// The registry's model after registering `ds` in order, and the next fresh
/// variable after them.
pub open spec fn decls_after(v: RegView, ds: Seq<TypeDecl>, next: nat) -> (RegView, nat)
    decreases ds.len(),
{
    if ds.len() == 0 {
        (v, next)
    } else {
        let (v1, n1) = decls_after(v, ds.drop_last(), next);
        decl_step(v1, ds.last(), n1)
    }
}

/// The built-in definitions, with the type parameters of `Perhaps` and
/// `Result` taken from `next` on.
pub open spec fn builtin_reg(next: nat) -> RegView {
    let t = next as u32;
    let r = (next + 1) as u32;
    let e = (next + 2) as u32;
    RegView {
        structs: Map::empty(),
        struct_params: Map::empty(),
        methods: Map::empty(),
        enums: map![
            "Perhaps"@ => EnumView {
                type_params: seq![TypeVar(t)],
                variants: seq![("Some"@, seq![("value"@, InferTypeView::Var(t))]), ("None"@, Seq::empty())],
            },
            "Result"@ => EnumView {
                type_params: seq![TypeVar(r), TypeVar(e)],
                variants: seq![("Ok"@, seq![("value"@, InferTypeView::Var(r))]), ("Err"@, seq![("error"@, InferTypeView::Var(e))])],
            }
        ],
        aspects: Map::empty(),
        impls: builtin_impls(),
    }
}

proof fn lemma_decls_after_mono(v: RegView, ds: Seq<TypeDecl>, next: nat, k: int)
    requires
        0 <= k <= ds.len(),
    ensures
        next <= decls_after(v, ds.take(k), next).1 <= decls_after(v, ds, next).1,
    decreases ds.len(),
{
    if k < ds.len() {
        assert(ds.drop_last().take(k) =~= ds.take(k));
        lemma_decls_after_mono(v, ds.drop_last(), next, k);
    } else {
        assert(ds.take(k) =~= ds);
        if ds.len() > 0 {
            assert(ds.drop_last().take(ds.len() - 1) =~= ds.drop_last());
            lemma_decls_after_mono(v, ds.drop_last(), next, ds.len() - 1);
        }
    }
}

/// The registered fields of a struct or variant, each annotation converted
/// with the generic parameters `g` in scope.
pub(crate) fn field_entries(fs: &Vec<FieldDef>, g: &StrMap<TypeVar>) -> (r: Vec<(String, InferType)>)
    requires
        g.wf(),
    ensures
        fields_view(r@) == field_defs_view(fs@, generic_ids(g.view())),
{
    let mut r: Vec<(String, InferType)> = Vec::new();
    let mut i: usize = 0;
    while i < fs.len()
        invariant
            i <= fs.len(),
            g.wf(),
            fields_view(r@) == field_defs_view(fs@.take(i as int), generic_ids(g.view())),
        decreases fs.len() - i,
    {
        let ghost before = r@;
        r.push((fs[i].name.clone(), type_expr_to_infer_with_generics(&fs[i].type_ann, g)));
        proof {
            assert(fields_view(r@) =~= fields_view(before).push((fs@[i as int].name@, te_to_infer(fs@[i as int].type_ann@, generic_ids(g.view())))));
            assert(field_defs_view(fs@.take(i + 1), generic_ids(g.view())) =~= field_defs_view(fs@.take(i as int), generic_ids(g.view())).push(
                (fs@[i as int].name@, te_to_infer(fs@[i as int].type_ann@, generic_ids(g.view()))),
            ));
        }
        i += 1;
    }
    assert(fs@.take(fs.len() as int) =~= fs@);
    r
}

/// The variants of an enum's declaration, their fields' types read with the
/// generic parameters `g`.
pub(crate) fn variant_entries(vs: &Vec<VariantDef>, g: &StrMap<TypeVar>) -> (r: Vec<VariantInfo>)
    requires
        g.wf(),
    ensures
        r@.map_values(|v: VariantInfo| (v.name@, fields_view(v.fields@))) == variants_view(vs@, generic_ids(g.view())),
{
    let ghost gi = generic_ids(g.view());
    let mut variants: Vec<VariantInfo> = Vec::new();
    let mut j: usize = 0;
    while j < vs.len()
        invariant
            j <= vs.len(),
            g.wf(),
            gi == generic_ids(g.view()),
            variants@.map_values(|v: VariantInfo| (v.name@, fields_view(v.fields@))) == variants_view(vs@.take(j as int), gi),
        decreases vs.len() - j,
    {
        let fields = field_entries(&vs[j].fields, g);
        let ghost vb = variants@;
        variants.push(VariantInfo { name: vs[j].name.clone(), fields });
        proof {
            assert(variants@.map_values(|v: VariantInfo| (v.name@, fields_view(v.fields@))) =~= vb.map_values(
                |v: VariantInfo| (v.name@, fields_view(v.fields@)),
            ).push((vs@[j as int].name@, field_defs_view(vs@[j as int].fields@, gi))));
            assert(variants_view(vs@.take(j + 1), gi) =~= variants_view(vs@.take(j as int), gi).push(
                (vs@[j as int].name@, field_defs_view(vs@[j as int].fields@, gi)),
            ));
        }
        j += 1;
    }
    assert(vs@.take(vs.len() as int) =~= vs@);
    variants
}


/// Fresh variables for generic parameters, in order, and the map from each
/// parameter's name to its variable.
fn generic_vars(gps: &Vec<GenericParam>, gen: &mut TypeVarGenerator) -> (r: (StrMap<TypeVar>, Vec<TypeVar>))
    requires
        old(gen).next_id() + gps.len() <= u32::MAX,
    ensures
        r.0.wf(),
        generic_ids(r.0.view()) == generic_map(gps@, old(gen).next_id() as nat),
        r.1@ == fresh_vars(old(gen).next_id() as nat, gps.len() as nat),
        final(gen).next_id() == old(gen).next_id() + gps.len(),
{
    let ghost start = gen.next_id() as nat;
    let mut map: StrMap<TypeVar> = StrMap::new();
    let mut vars: Vec<TypeVar> = Vec::new();
    proof {
        assert(generic_ids(map.view()) =~= Map::<Seq<char>, u32>::empty());
        assert(gps@.take(0) =~= Seq::<GenericParam>::empty());
        assert(vars@ =~= fresh_vars(start, 0));
    }
    let mut i: usize = 0;
    while i < gps.len()
        invariant
            i <= gps.len(),
            start + gps.len() <= u32::MAX,
            gen.next_id() == start + i,
            map.wf(),
            generic_ids(map.view()) == generic_map(gps@.take(i as int), start),
            vars@ == fresh_vars(start, i as nat),
        decreases gps.len() - i,
    {
        let tv = gen.fresh();
        let ghost before = map.view();
        map.insert(gps[i].name.clone(), tv);
        vars.push(tv);
        proof {
            assert(gps@.take(i + 1).drop_last() =~= gps@.take(i as int));
            assert(generic_ids(map.view()) =~= generic_ids(before).insert(gps@[i as int].name@, tv.0));
            assert(vars@ =~= fresh_vars(start, (i + 1) as nat));
        }
        i += 1;
    }
    assert(gps@.take(gps.len() as int) =~= gps@);
    (map, vars)
}

/// The concrete types an impl's aspect arguments register (see [`impl_arg_types`]).
fn impl_type_args(tes: &Vec<TypeExpr>) -> (r: Vec<Type>)
    ensures
        types_model(r@) == impl_arg_types(type_exprs_model(tes@)),
{
    let ghost m = type_exprs_model(tes@);
    proof { lemma_type_exprs_model(tes@); }
    let mut r: Vec<Type> = Vec::new();
    let mut i: usize = 0;
    proof {
        assert(m.take(0) =~= Seq::<TypeExprView>::empty());
        assert(types_model(r@) =~= Seq::<TypeView>::empty());
    }
    while i < tes.len()
        invariant
            i <= tes.len(),
            m == type_exprs_model(tes@),
            m.len() == tes.len(),
            forall|j: int| 0 <= j < tes.len() ==> #[trigger] m[j] == tes@[j]@,
            types_model(r@) == impl_arg_types(m.take(i as int)),
        decreases tes.len() - i,
    {
        proof {
            assert(m.take(i + 1).drop_last() =~= m.take(i as int));
            assert(m.take(i + 1).last() == tes@[i as int]@);
        }
        match type_expr_to_infer(&tes[i]) {
            InferType::Concrete(t) => {
                proof { lemma_types_model_push(r@, t); }
                r.push(t);
            },
            InferType::Named(n, _) => {
                let no_args: Vec<Type> = Vec::new();
                let t = Type::Named(n, no_args);
                proof {
                    lemma_types_model_push(r@, t);
                    assert(types_model(no_args@) =~= Seq::<TypeView>::empty());
                }
                r.push(t);
            },
            _ => {},
        }
        i += 1;
    }
    assert(m.take(tes.len() as int) =~= m);
    r
}

/// Build the registry of type definitions: the built-in aspect
/// implementations and the built-in enums `Perhaps` and `Result`, then each
/// declaration in order — structs (a generic one with fresh variables for its
/// parameters), enums, aspects, and the methods and aspect implementations of
/// impl blocks for named types. Type variables come from `gen`.
#[verifier::rlimit(50)]
pub fn build_registry(decls: &Vec<TypeDecl>, gen: &mut TypeVarGenerator) -> (r: TypeRegistry)
    requires
        old(gen).next_id() + 3 <= u32::MAX,
        decls_after(builtin_reg(old(gen).next_id() as nat), decls@, (old(gen).next_id() + 3) as nat).1 <= u32::MAX,
    ensures
        r.wf(),
        r.scopes() == Seq::<Seq<String>>::empty(),
        reg_view(r) == decls_after(builtin_reg(old(gen).next_id() as nat), decls@, (old(gen).next_id() + 3) as nat).0,
        final(gen).next_id() == decls_after(builtin_reg(old(gen).next_id() as nat), decls@, (old(gen).next_id() + 3) as nat).1,
{
    let ghost n0 = gen.next_id() as nat;
    let mut registry = TypeRegistry::new();
    register_builtin_aspect_impls(&mut registry);
    assert(registry.aspect_impl_list().skip(0) =~= registry.aspect_impl_list());
    assert(impl_views(registry.aspect_impl_list()) == builtin_impls());
    let t = gen.fresh();
    let mut some_fields: Vec<(String, InferType)> = Vec::new();
    some_fields.push(("value".to_string(), InferType::Var(t)));
    proof { reveal_strlit("value"); }
    assert(fields_view(some_fields@) =~= seq![("value"@, InferTypeView::Var(t.0))]);
    let mut perhaps_variants: Vec<VariantInfo> = Vec::new();
    perhaps_variants.push(VariantInfo { name: "Some".to_string(), fields: some_fields });
    let none_fields: Vec<(String, InferType)> = Vec::new();
    assert(fields_view(none_fields@) =~= Seq::<(Seq<char>, InferTypeView)>::empty());
    perhaps_variants.push(VariantInfo { name: "None".to_string(), fields: none_fields });
    let mut tps: Vec<TypeVar> = Vec::new();
    tps.push(t);
    proof { reveal_strlit("Some"); reveal_strlit("None"); }
    assert(perhaps_variants@.map_values(|v: VariantInfo| (v.name@, fields_view(v.fields@))) =~= seq![
        ("Some"@, seq![("value"@, InferTypeView::Var(t.0))]),
        ("None"@, Seq::<(Seq<char>, InferTypeView)>::empty()),
    ]);
    registry.register_enum("Perhaps".to_string(), EnumInfo { type_params: tps, variants: perhaps_variants });
    let t = gen.fresh();
    let e = gen.fresh();
    let mut ok_fields: Vec<(String, InferType)> = Vec::new();
    ok_fields.push(("value".to_string(), InferType::Var(t)));
    let mut err_fields: Vec<(String, InferType)> = Vec::new();
    err_fields.push(("error".to_string(), InferType::Var(e)));
    proof { reveal_strlit("error"); }
    assert(fields_view(ok_fields@) =~= seq![("value"@, InferTypeView::Var(t.0))]);
    assert(fields_view(err_fields@) =~= seq![("error"@, InferTypeView::Var(e.0))]);
    let mut result_variants: Vec<VariantInfo> = Vec::new();
    result_variants.push(VariantInfo { name: "Ok".to_string(), fields: ok_fields });
    result_variants.push(VariantInfo { name: "Err".to_string(), fields: err_fields });
    let mut tps: Vec<TypeVar> = Vec::new();
    tps.push(t);
    tps.push(e);
    assert(tps@ =~= seq![TypeVar((n0 + 1) as u32), TypeVar((n0 + 2) as u32)]);
    proof { reveal_strlit("Ok"); reveal_strlit("Err"); }
    assert(result_variants@.map_values(|v: VariantInfo| (v.name@, fields_view(v.fields@))) =~= seq![
        ("Ok"@, seq![("value"@, InferTypeView::Var(t.0))]),
        ("Err"@, seq![("error"@, InferTypeView::Var(e.0))]),
    ]);
    registry.register_enum("Result".to_string(), EnumInfo { type_params: tps, variants: result_variants });
    proof {
        reveal_strlit("Perhaps");
        reveal_strlit("Result");
        reveal_strlit("Some");
        reveal_strlit("None");
        reveal_strlit("Ok");
        reveal_strlit("Err");
        reveal_strlit("value");
        reveal_strlit("error");
        let b = builtin_reg(n0);
        let rv = reg_view(registry);
        assert(rv.structs =~= b.structs);
        assert(rv.struct_params =~= b.struct_params);
        assert(rv.methods =~= b.methods);
        assert(rv.aspects =~= b.aspects);
        assert(rv.enums["Perhaps"@].variants =~= b.enums["Perhaps"@].variants);
        assert(rv.enums["Result"@].variants =~= b.enums["Result"@].variants);
        assert(rv.enums["Perhaps"@] == b.enums["Perhaps"@]);
        assert(rv.enums["Result"@] == b.enums["Result"@]);
        assert(rv.enums.dom() =~= b.enums.dom());
        assert(rv.enums =~= b.enums);
        assert(rv.impls == b.impls);
        assert(rv == b);
        assert(decls@.take(0) =~= Seq::<TypeDecl>::empty());
    }
    let ghost v0 = builtin_reg(n0);
    let mut i: usize = 0;
    while i < decls.len()
        invariant
            i <= decls.len(),
            registry.wf(),
            registry.scopes() == Seq::<Seq<String>>::empty(),
            decls_after(v0, decls@, n0 + 3).1 <= u32::MAX,
            reg_view(registry) == decls_after(v0, decls@.take(i as int), n0 + 3).0,
            gen.next_id() == decls_after(v0, decls@.take(i as int), n0 + 3).1,
        decreases decls.len() - i,
    {
        proof {
            lemma_decls_after_mono(v0, decls@, n0 + 3, i + 1);
            assert(decls@.take(i + 1).drop_last() =~= decls@.take(i as int));
            assert(decls@.take(i + 1).last() == decls@[i as int]);
        }
        let ghost before = reg_view(registry);
        let ghost next = gen.next_id() as nat;
        match &decls[i] {
            TypeDecl::Struct(sd) => {
                if sd.generics.len() == 0 {
                    let empty: StrMap<TypeVar> = StrMap::new();
                    assert(generic_ids(empty.view()) =~= Map::<Seq<char>, u32>::empty());
                    let fields = field_entries(&sd.fields, &empty);
                    let ghost fv = fields_view(fields@);
                    registry.register_struct_fields(sd.name.clone(), fields);
                    proof {
                        let rv = reg_view(registry);
                        assert(rv.structs =~= before.structs.insert(sd.name@, fv));
                        assert(rv.methods =~= before.methods);
                    }
                } else {
                    let (gmap, type_params) = generic_vars(&sd.generics, gen);
                    let fields = field_entries(&sd.fields, &gmap);
                    let ghost fv = fields_view(fields@);
                    let ghost tpv = type_params@;
                    registry.register_struct_fields(sd.name.clone(), fields);
                    registry.register_struct_type_params(sd.name.clone(), type_params);
                    proof {
                        let rv = reg_view(registry);
                        assert(rv.structs =~= before.structs.insert(sd.name@, fv));
                        assert(rv.struct_params =~= before.struct_params.insert(sd.name@, tpv));
                        assert(rv.methods =~= before.methods);
                    }
                }
            },
            TypeDecl::Enum(ed) => {
                let (gmap, type_params) = generic_vars(&ed.generics, gen);
                let ghost g = generic_ids(gmap.view());
                let mut variants: Vec<VariantInfo> = Vec::new();
                let mut j: usize = 0;
                while j < ed.variants.len()
                    invariant
                        j <= ed.variants.len(),
                        gmap.wf(),
                        g == generic_ids(gmap.view()),
                        variants@.map_values(|v: VariantInfo| (v.name@, fields_view(v.fields@)))
                            == variants_view(ed.variants@.take(j as int), g),
                    decreases ed.variants.len() - j,
                {
                    let fields = field_entries(&ed.variants[j].fields, &gmap);
                    let ghost vb = variants@;
                    variants.push(VariantInfo { name: ed.variants[j].name.clone(), fields });
                    proof {
                        assert(variants@.map_values(|v: VariantInfo| (v.name@, fields_view(v.fields@))) =~= vb.map_values(
                            |v: VariantInfo| (v.name@, fields_view(v.fields@)),
                        ).push((ed.variants@[j as int].name@, field_defs_view(ed.variants@[j as int].fields@, g))));
                        assert(variants_view(ed.variants@.take(j + 1), g) =~= variants_view(ed.variants@.take(j as int), g).push(
                            (ed.variants@[j as int].name@, field_defs_view(ed.variants@[j as int].fields@, g)),
                        ));
                    }
                    j += 1;
                }
                assert(ed.variants@.take(ed.variants.len() as int) =~= ed.variants@);
                let info = EnumInfo { type_params, variants };
                let ghost ev = enum_view(info);
                registry.register_enum(ed.name.clone(), info);
                proof {
                    let rv = reg_view(registry);
                    assert(rv.enums =~= before.enums.insert(ed.name@, ev));
                    assert(rv.methods =~= before.methods);
                }
            },
            TypeDecl::Aspect(ad) => {
                let mut names: Vec<String> = Vec::new();
                let mut j: usize = 0;
                while j < ad.methods.len()
                    invariant
                        j <= ad.methods.len(),
                        names@.map_values(|s: String| s@) == ad.methods@.take(j as int).map_values(|m: FunSignature| m.name@),
                    decreases ad.methods.len() - j,
                {
                    let ghost nb = names@;
                    names.push(ad.methods[j].name.clone());
                    proof {
                        assert(names@.map_values(|s: String| s@) =~= nb.map_values(|s: String| s@).push(ad.methods@[j as int].name@));
                        assert(ad.methods@.take(j + 1).map_values(|m: FunSignature| m.name@) =~= ad.methods@.take(j as int).map_values(
                            |m: FunSignature| m.name@,
                        ).push(ad.methods@[j as int].name@));
                    }
                    j += 1;
                }
                assert(ad.methods@.take(ad.methods.len() as int) =~= ad.methods@);
                let ghost nv = names@.map_values(|s: String| s@);
                registry.register_aspect(ad.name.clone(), names);
                proof {
                    let rv = reg_view(registry);
                    assert(rv.aspects =~= before.aspects.insert(ad.name@, nv));
                    assert(rv.methods =~= before.methods);
                }
            },
            TypeDecl::Impl(ib) => {
                match &ib.target_type {
                    TypeExpr::Named(target_name, _) => {
                        let ghost r0 = registry;
                        register_impl_methods(&ib.methods, target_name.as_str(), gen, &mut registry);
                        proof {
                            let mt = method_types(target_name@, ib.methods@, next);
                            assert(methods_view(registry) =~= with_methods(before.methods, target_name@, mt)) by {
                                assert forall|k: (Seq<char>, Seq<char>)| #[trigger] methods_view(registry).contains_key(k)
                                    == with_methods(before.methods, target_name@, mt).contains_key(k) by {
                                    assert(registry.method(k.0, k.1) == registry.method(k.0, k.1));
                                    assert(r0.method(k.0, k.1) == r0.method(k.0, k.1));
                                }
                                assert forall|k: (Seq<char>, Seq<char>)| #[trigger] methods_view(registry).contains_key(k)
                                    implies methods_view(registry)[k] == with_methods(before.methods, target_name@, mt)[k] by {
                                    assert(registry.method(k.0, k.1) == registry.method(k.0, k.1));
                                    assert(r0.method(k.0, k.1) == r0.method(k.0, k.1));
                                }
                            }
                        }
                        match &ib.aspect_name {
                            Some(aspect_name) => {
                                let type_args = impl_type_args(&ib.aspect_type_args);
                                let ghost ta = types_model(type_args@);
                                let ghost r1 = reg_view(registry);
                                registry.register_aspect_impl(target_name.clone(), aspect_name.clone(), type_args);
                                proof {
                                    let rv = reg_view(registry);
                                    assert(rv.impls =~= r1.impls.push((target_name@, aspect_name@, ta)));
                                    assert(rv.methods =~= r1.methods);
                                }
                            },
                            None => {},
                        }
                    },
                    _ => {},
                }
            },
        }
        i += 1;
    }
    assert(decls@.take(decls.len() as int) =~= decls@);
    registry
}

} // verus!
