//! The second pass's type computations: instantiating a generic callee
//! against the types of its arguments, and the type arguments of a
//! resolved type.

use vstd::prelude::*;

use crate::ast::{BinOp, Literal, Pattern, Span, UnaryOp};
use crate::strmap::StrMap;
use crate::typeinference::context::find_scoped;
use crate::typeinference::EnumInfo;
use crate::typeinference::generality::{absorbs, lemma_absorbs_compose, lemma_absorbs_empty};
use super::inference::{fields_view, first_field, first_variant, lemma_first_variant, lemma_first_field, find_variant, find_field};
use crate::error::{GustError, TypeErrorCode, is_internal, is_type_error};
use crate::text::push_str;
use crate::types::{Type, TypeView, clone_type, type_model, types_model, lemma_types_model, lemma_types_model_push, clone_types};
use crate::typeinference::model::{
    InferTypeView, apply_spec, compat, compose_spec, fv, idempotent, subst1, terminates,
    lemma_apply_idempotent, lemma_apply_unbound, lemma_compat_subst1, lemma_compose_subst1,
};
use crate::typeinference::{
    InferType, Substitution, TypeScheme, TypeVarGenerator, inst_map, instantiate, infers_model, unify_spec,
    lemma_infers_model, lemma_pair_step, unify,
};
use super::conversions::{
    cannot_infer_text, infer_to_type, infer_type_to_type, type_to_infer, type_to_infer_spec,
    types_to_infer_spec, lemma_type_to_infer_closed, lemma_types_to_infer_spec,
};

verus! {

/// `m` is idempotent and makes the first `k` parameter types `ps` agree
/// with the argument types `args`.
pub open spec fn arg_unifier(m: Map<u32, InferTypeView>, ps: Seq<InferTypeView>, args: Seq<InferTypeView>, k: int) -> bool {
    &&& idempotent(m)
    &&& forall|j: int| 0 <= j < k ==> #[trigger] compat(subst1(m, ps[j]), subst1(m, args[j]))
}

/// After `m`, no type variable is left in the parameter types `ps` or in
/// the return type `ret`.
pub open spec fn all_resolved(m: Map<u32, InferTypeView>, ps: Seq<InferTypeView>, ret: InferTypeView) -> bool {
    &&& forall|j: int| 0 <= j < ps.len() ==> #[trigger] fv(subst1(m, ps[j])) == Set::<u32>::empty()
    &&& fv(subst1(m, ret)) == Set::<u32>::empty()
}

/// The instance of a callee's scheme that [`instantiate_scheme_for_call`] works on.
pub open spec fn call_instance(scheme: TypeScheme, next: u32) -> InferTypeView {
    apply_spec(inst_map(scheme.quantified_vars@, next as nat), scheme.ty@)
}

/// The number of parameters that are unified with an argument: as many as
/// both lists have.
pub open spec fn paired(ps: Seq<InferTypeView>, args: Seq<InferTypeView>) -> int {
    if ps.len() < args.len() { ps.len() as int } else { args.len() as int }
}

/// `t` is the function type that the parameter types `ps` and the return
/// type `ret` resolve to under `m`.
pub open spec fn resolved_fun(m: Map<u32, InferTypeView>, ps: Seq<InferTypeView>, ret: InferTypeView, t: TypeView) -> bool {
    t matches TypeView::Fun(tps, tr) && tps.len() == ps.len()
        && (forall|j: int| 0 <= j < ps.len() ==> #[trigger] tps[j] == infer_to_type(subst1(m, ps[j])))
        && *tr == infer_to_type(subst1(m, ret))
}

/// `m` makes each paired parameter type equal to its argument's type.
pub open spec fn equates_paired(m: Map<u32, InferTypeView>, ps: Seq<InferTypeView>, args: Seq<InferTypeView>) -> bool {
    forall|j: int| 0 <= j < paired(ps, args) ==> #[trigger] subst1(m, ps[j]) == subst1(m, args[j])
}

/// The substitution that unifying the first `n` parameter types `ps` with
/// the argument types `args` gives, each parameter under the substitution
/// the earlier ones gave; `None` when one of them does not unify.
pub open spec fn call_subst(ps: Seq<InferTypeView>, args: Seq<InferTypeView>, n: nat) -> Option<Map<u32, InferTypeView>>
    decreases n,
{
    if n == 0 {
        Some(Map::empty())
    } else {
        match call_subst(ps, args, (n - 1) as nat) {
            None => None,
            Some(s) => match unify_spec(subst1(s, ps[n - 1]), args[n - 1]) {
                Ok(s2) => Some(compose_spec(s, s2)),
                Err(_) => None,
            },
        }
    }
}

/// What [`instantiate_scheme_for_call`] returns for a scheme instantiated
/// from the variable `next` on, against the argument types `arg_types`:
/// `T0001` when a paired parameter does not unify with its argument, the
/// function type the parameters and return type resolve to, or `T0002`
/// when one of them is left unresolved.
pub open spec fn call_outcome(scheme: TypeScheme, next: u32, arg_types: Seq<Type>, span: Span, r: Result<Type, GustError>) -> bool {
    match call_instance(scheme, next) {
        InferTypeView::Fun(ps, ret) => {
            let args = types_to_infer_spec(types_model(arg_types));
            match call_subst(ps, args, paired(ps, args) as nat) {
                None => r matches Err(e) && is_type_error(e, TypeErrorCode::T0001, "argument type mismatch"@, span),
                Some(s) => if all_resolved(s, ps, *ret) {
                    r matches Ok(t) && resolved_fun(s, ps, *ret, t@)
                } else {
                    r matches Err(e) && is_type_error(e, TypeErrorCode::T0002, cannot_infer_text(), span)
                },
            }
        },
        _ => r matches Err(e) && is_internal(e, "scheme type is not a function"@),
    }
}

/// How the outcome relates to every substitution that equates the paired
/// parameters with the arguments: `T0001` comes only when there is none,
/// and a resolved call type is the one each of them gives.
pub open spec fn call_general(scheme: TypeScheme, next: u32, arg_types: Seq<Type>, r: Result<Type, GustError>) -> bool {
    match call_instance(scheme, next) {
        InferTypeView::Fun(ps, ret) => {
            let args = types_to_infer_spec(types_model(arg_types));
            &&& (call_subst(ps, args, paired(ps, args) as nat) is None ==> forall|m: Map<u32, InferTypeView>|
                !#[trigger] equates_paired(m, ps, args))
            &&& (r matches Ok(t) ==> forall|m: Map<u32, InferTypeView>|
                #[trigger] equates_paired(m, ps, args) ==> resolved_fun(m, ps, *ret, t@))
        },
        _ => true,
    }
}

proof fn lemma_call_subst_none(ps: Seq<InferTypeView>, args: Seq<InferTypeView>, k: nat, n: nat)
    requires
        k <= n,
        call_subst(ps, args, k) is None,
    ensures
        call_subst(ps, args, n) is None,
    decreases n - k,
{
    if k < n {
        lemma_call_subst_none(ps, args, k, (n - 1) as nat);
    }
}

/// Resolve a generic callee's type at a call site: instantiate its scheme
/// with fresh variables, unify each parameter with the type of the argument
/// at its position (in order, as far as both lists go), and resolve the
/// parameter and return types under the resulting substitution.
///
/// Errors: internal if the scheme is not a function type; `T0001` when an
/// argument does not unify with its parameter; `T0002` when a type is left
/// unresolved.
#[verifier::loop_isolation(false)]
pub fn instantiate_scheme_for_call(
    scheme: &TypeScheme,
    arg_types: &Vec<Type>,
    span: &Span,
    gen: &mut TypeVarGenerator,
) -> (r: Result<Type, GustError>)
    requires
        old(gen).next_id() + scheme.quantified_vars.len() <= u32::MAX,
        terminates(inst_map(scheme.quantified_vars@, old(gen).next_id() as nat), scheme.ty@),
    ensures
        final(gen).next_id() == old(gen).next_id() + scheme.quantified_vars.len(),
        call_outcome(*scheme, old(gen).next_id(), arg_types@, *span, r),
        call_general(*scheme, old(gen).next_id(), arg_types@, r),
{
    let instance = instantiate(scheme, gen);
    let (params, ret) = match instance {
        InferType::Fun(p, r) => (p, r),
        _ => {
            let mut msg = String::new();
            push_str(&mut msg, "scheme type is not a function");
            return Err(GustError::internal(msg));
        },
    };
    let ghost ps = infers_model(params@);
    assert(call_instance(*scheme, old(gen).next_id()) == InferTypeView::Fun(ps, Box::new(ret@)));
    let ghost args = types_to_infer_spec(types_model(arg_types@));
    proof {
        lemma_infers_model(params@);
        lemma_types_model(arg_types@);
        lemma_types_to_infer_spec(types_model(arg_types@));
    }
    let n: usize = if params.len() < arg_types.len() { params.len() } else { arg_types.len() };
    let ghost nn: int = paired(ps, args);
    assert(nn == n as int);
    let mut subst = Substitution::new();
    proof {
        assert forall|m: Map<u32, InferTypeView>| #[trigger] equates_paired(m, ps, args) implies absorbs(m, subst@) by {
            lemma_absorbs_empty(m);
        }
    }
    let mut i: usize = 0;
    while i < n
        invariant
            forall|m: Map<u32, InferTypeView>| #[trigger] equates_paired(m, ps, args) ==> absorbs(m, subst@),
            call_subst(ps, args, i as nat) == Some(subst@),
            i <= n,
            n <= params.len(),
            n <= arg_types.len(),
            ps == infers_model(params@),
            ps.len() == params.len(),
            forall|j: int| 0 <= j < params.len() ==> #[trigger] ps[j] == params@[j]@,
            args == types_to_infer_spec(types_model(arg_types@)),
            args.len() == arg_types.len(),
            forall|j: int| 0 <= j < arg_types.len() ==> #[trigger] args[j] == type_to_infer_spec(arg_types@[j]@),
            arg_unifier(subst@, ps, args, i as int),
        decreases n - i,
    {
        let arg_infer = type_to_infer(&arg_types[i]);
        proof {
            lemma_apply_idempotent(subst@, ps[i as int]);
        }
        let lhs = subst.apply(&params[i]);
        let ur = unify(&lhs, &arg_infer);
        proof {
            assert forall|m: Map<u32, InferTypeView>| #[trigger] equates_paired(m, ps, args) implies (ur matches Ok(s) && absorbs(m, compose_spec(subst@, s@))) by {
                assert(subst1(m, ps[i as int]) == subst1(m, args[i as int]));
                assert(subst1(m, subst1(subst@, ps[i as int])) == subst1(m, ps[i as int]));
                assert(subst1(m, lhs@) == subst1(m, arg_infer@));
                if let Ok(s) = ur {
                    lemma_absorbs_compose(m, subst@, s@);
                }
            }
        }
        match ur {
            Ok(s) => {
                proof {
                    assert forall|w: u32| #[trigger] crate::typeinference::model::occurs(w, args[i as int]) implies !subst@.contains_key(w) by {
                        lemma_type_to_infer_closed(arg_types@[i as int]@, w);
                    }
                    lemma_apply_unbound(subst@, args[i as int], 0);
                    lemma_pair_step(subst@, s@, ps[i as int], args[i as int], Set::full());
                    let m = compose_spec(subst@, s@);
                    assert forall|j: int| 0 <= j < i + 1 implies #[trigger] compat(subst1(m, ps[j]), subst1(m, args[j])) by {
                        lemma_compose_subst1(subst@, s@, ps[j]);
                        lemma_compose_subst1(subst@, s@, args[j]);
                        if j < i {
                            lemma_compat_subst1(s@, subst1(subst@, ps[j]), subst1(subst@, args[j]));
                        }
                    }
                    assert forall|v: u32| #[trigger] subst@.contains_key(v) implies terminates(s@, subst@[v]) by {
                        lemma_apply_idempotent(s@, subst@[v]);
                    }
                }
                subst = subst.compose(&s);
            },
            Err(_) => {
                let mut msg = String::new();
                push_str(&mut msg, "argument type mismatch");
                assert forall|m: Map<u32, InferTypeView>| !#[trigger] equates_paired(m, ps, args) by {}
                proof { lemma_call_subst_none(ps, args, (i + 1) as nat, n as nat); }
                return Err(GustError::type_error(TypeErrorCode::T0001, msg, span));
            },
        }
        i += 1;
    }
    let mut concrete_params: Vec<Type> = Vec::new();
    let mut j: usize = 0;
    while j < params.len()
        invariant
            j <= params.len(),
            ps == infers_model(params@),
            ps.len() == params.len(),
            forall|k: int| 0 <= k < params.len() ==> #[trigger] ps[k] == params@[k]@,
            arg_unifier(subst@, ps, args, n as int),
            concrete_params.len() == j,
            forall|k: int| 0 <= k < j ==> fv(subst1(subst@, ps[k])) == Set::<u32>::empty(),
            forall|k: int| 0 <= k < j ==> #[trigger] concrete_params@[k]@ == infer_to_type(subst1(subst@, ps[k])),
        decreases params.len() - j,
    {
        proof {
            lemma_apply_idempotent(subst@, ps[j as int]);
        }
        let applied = subst.apply(&params[j]);
        match infer_type_to_type(&applied, span) {
            Ok(t) => {
                concrete_params.push(t);
            },
            Err(e) => {
                proof {
                    assert(!all_resolved(subst@, ps, ret@));
                }
                return Err(e);
            },
        }
        j += 1;
    }
    proof {
        lemma_apply_idempotent(subst@, ret@);
    }
    let applied_ret = subst.apply(&ret);
    let concrete_ret = match infer_type_to_type(&applied_ret, span) {
        Ok(t) => t,
        Err(e) => {
            proof {
                assert(!all_resolved(subst@, ps, ret@));
            }
            return Err(e);
        },
    };
    let result = Type::Fun(concrete_params, Box::new(concrete_ret));
    proof {
        lemma_types_model(concrete_params@);
        assert(all_resolved(subst@, ps, ret@));
        assert(types_model(concrete_params@).len() == ps.len());
        assert forall|k: int| 0 <= k < ps.len() implies #[trigger] types_model(concrete_params@)[k] == infer_to_type(subst1(subst@, ps[k])) by {
            assert(concrete_params@[k]@ == infer_to_type(subst1(subst@, ps[k])));
        }
        assert forall|m: Map<u32, InferTypeView>| #[trigger] equates_paired(m, ps, args) implies resolved_fun(m, ps, ret@, result@) by {
            assert forall|k: int| 0 <= k < ps.len() implies subst1(m, ps[k]) == subst1(subst@, ps[k]) by {
                lemma_subst1_closed(m, subst1(subst@, ps[k]));
                assert(subst1(m, subst1(subst@, ps[k])) == subst1(m, ps[k]));
            }
            lemma_subst1_closed(m, subst1(subst@, ret@));
            assert(subst1(m, subst1(subst@, ret@)) == subst1(m, ret@));
            assert forall|k: int| 0 <= k < ps.len() implies #[trigger] types_model(concrete_params@)[k] == infer_to_type(subst1(m, ps[k])) by {
                assert(types_model(concrete_params@)[k] == infer_to_type(subst1(subst@, ps[k])));
                assert(subst1(m, ps[k]) == subst1(subst@, ps[k]));
            }
        }
    }
    Ok(result)
}

/// The type arguments of a resolved type: the payload of a `Perhaps`, the
/// two sides of a `Result`, the arguments of a named type; none otherwise.
pub open spec fn type_args_of(t: TypeView) -> Seq<TypeView> {
    match t {
        TypeView::Perhaps(e) => seq![*e],
        TypeView::Result(a, b) => seq![*a, *b],
        TypeView::Named(_, args) => args,
        _ => Seq::empty(),
    }
}

/// The type arguments of a resolved type (see [`type_args_of`]).
pub fn extract_type_args_from_type(ty: &Type) -> (r: Vec<Type>)
    ensures
        types_model(r@) == type_args_of(ty@),
{
    match ty {
        Type::Perhaps(t) => {
            let mut v: Vec<Type> = Vec::new();
            let c = clone_type(t);
            proof { lemma_types_model_push(v@, c); }
            v.push(c);
            assert(types_model(v@) =~= seq![type_model(t)]);
            v
        },
        Type::Result(t, e) => {
            let mut v: Vec<Type> = Vec::new();
            let c1 = clone_type(t);
            proof { lemma_types_model_push(v@, c1); }
            v.push(c1);
            let c2 = clone_type(e);
            proof { lemma_types_model_push(v@, c2); }
            v.push(c2);
            assert(types_model(v@) =~= seq![type_model(t), type_model(e)]);
            v
        },
        Type::Named(_, args) => clone_types(args),
        _ => {
            let v: Vec<Type> = Vec::new();
            assert(types_model(v@) =~= Seq::<TypeView>::empty());
            v
        },
    }
}

// ── The second pass's scoped context ────────────────────────────────────────

/// A scope of resolved types, by their models.
pub open spec fn type_scope_view(m: Map<Seq<char>, Type>) -> Map<Seq<char>, TypeView> {
    m.map_values(|t: Type| t@)
}

/// `fun(params) -> ret` as a model.
pub open spec fn fun_t(params: Seq<TypeView>, ret: TypeView) -> TypeView {
    TypeView::Fun(params, Box::new(ret))
}

/// The built-in functions the second pass knows before any declaration,
/// with their resolved types.
pub open spec fn construct_builtins() -> Map<Seq<char>, TypeView> {
    map![
        "print"@ => fun_t(seq![TypeView::Str], TypeView::Unit),
        "println"@ => fun_t(seq![TypeView::Str], TypeView::Unit),
        "print_int"@ => fun_t(seq![TypeView::Int], TypeView::Unit),
        "println_int"@ => fun_t(seq![TypeView::Int], TypeView::Unit),
        "print_float"@ => fun_t(seq![TypeView::Float], TypeView::Unit),
        "println_float"@ => fun_t(seq![TypeView::Float], TypeView::Unit),
        "int_to_string"@ => fun_t(seq![TypeView::Int], TypeView::Str),
        "float_to_string"@ => fun_t(seq![TypeView::Float], TypeView::Str),
        "bool_to_string"@ => fun_t(seq![TypeView::Bool], TypeView::Str),
        "string_len"@ => fun_t(seq![TypeView::Str], TypeView::Int),
        "string_concat"@ => fun_t(seq![TypeView::Str, TypeView::Str], TypeView::Str),
        "clock"@ => fun_t(Seq::empty(), TypeView::Int),
        "assert"@ => fun_t(seq![TypeView::Bool], TypeView::Unit),
        "assert_msg"@ => fun_t(seq![TypeView::Bool, TypeView::Str], TypeView::Unit)
    ]
}

/// Scope-aware context for the second pass. Mirrors `InferContext`'s scope
/// management but holds concrete `Type` values; no constraint emission.
pub struct ConstructCtx<'a> {
    subst: &'a Substitution,
    scheme_env: &'a StrMap<TypeScheme>,
    env: Vec<StrMap<Type>>,
    struct_scopes: Vec<StrMap<Vec<(String, Type)>>>,
    /// Raw (InferType) fields and type params for generic structs, for field-type resolution.
    generic_struct_raw: &'a StrMap<Vec<(String, InferType)>>,
    generic_struct_type_params: &'a StrMap<Vec<crate::typeinference::TypeVar>>,
    method_env: StrMap<StrMap<Type>>,
    enum_env: &'a StrMap<EnumInfo>,
    /// Shared generator continued from the first pass; keeps type variable identities globally unique.
    gen: TypeVarGenerator,
    /// Return type of the innermost enclosing function (None = unit / unknown).
    current_return_ty: Option<Type>,
    /// Break value type of the innermost enclosing `loop` (None = no loop or bare break).
    current_break_ty: Option<Type>,
}

impl<'a> ConstructCtx<'a> {
    /// Every scope map is well formed, and so is the enum table.
    pub closed spec fn wf(&self) -> bool {
        &&& forall|i: int| 0 <= i < self.env@.len() ==> (#[trigger] self.env@[i]).wf()
        &&& forall|i: int| 0 <= i < self.struct_scopes@.len() ==> (#[trigger] self.struct_scopes@[i]).wf()
        &&& self.enum_env.wf()
        &&& idempotent(self.subst@)
        &&& self.scheme_env.wf()
        &&& self.method_env.wf()
        &&& forall|k: Seq<char>| #[trigger] self.method_env.view().contains_key(k) ==> self.method_env.view()[k].wf()
        &&& self.generic_struct_raw.wf()
        &&& self.generic_struct_type_params.wf()
    }

    /// The substitution the first pass solved.
    pub closed spec fn subst_map(&self) -> Map<u32, InferTypeView> {
        self.subst@
    }

    /// The schemes of the program's functions.
    pub closed spec fn schemes(&self) -> Map<Seq<char>, TypeScheme> {
        self.scheme_env.view()
    }

    /// The resolved methods of each type.
    pub closed spec fn methods(&self) -> Map<Seq<char>, Map<Seq<char>, Type>> {
        self.method_env.view().map_values(|m: StrMap<Type>| m.view())
    }

    /// The type parameters of each generic struct.
    pub closed spec fn gen_params(&self) -> Map<Seq<char>, Vec<crate::typeinference::TypeVar>> {
        self.generic_struct_type_params.view()
    }

    /// The declared field types of each generic struct.
    pub closed spec fn gen_raw(&self) -> Map<Seq<char>, Vec<(String, InferType)>> {
        self.generic_struct_raw.view()
    }

    /// The value scopes, outermost first, by their models.
    pub closed spec fn scopes(&self) -> Seq<Map<Seq<char>, TypeView>> {
        self.env@.map_values(|m: StrMap<Type>| type_scope_view(m.view()))
    }

    /// The struct scopes, outermost first.
    pub closed spec fn struct_scope_maps(&self) -> Seq<Map<Seq<char>, Vec<(String, Type)>>> {
        self.struct_scopes@.map_values(|m: StrMap<Vec<(String, Type)>>| m.view())
    }

    /// The enums the context resolves patterns against.
    pub closed spec fn enums(&self) -> Map<Seq<char>, EnumInfo> {
        self.enum_env.view()
    }

    /// The next id of the context's generator.
    pub closed spec fn next_id(&self) -> u32 {
        self.gen.next_id()
    }

    pub closed spec fn return_ty(&self) -> Option<Type> {
        self.current_return_ty
    }

    pub closed spec fn break_ty(&self) -> Option<Type> {
        self.current_break_ty
    }

    /// A context whose single value scope holds the built-in functions and
    /// whose single struct scope is `struct_env`.
    pub fn new(
        subst: &'a Substitution,
        scheme_env: &'a StrMap<TypeScheme>,
        struct_env: StrMap<Vec<(String, Type)>>,
        generic_struct_raw: &'a StrMap<Vec<(String, InferType)>>,
        generic_struct_type_params: &'a StrMap<Vec<crate::typeinference::TypeVar>>,
        method_env: StrMap<StrMap<Type>>,
        enum_env: &'a StrMap<EnumInfo>,
        gen: TypeVarGenerator,
    ) -> (ctx: Self)
        requires
            struct_env.wf(),
            enum_env.wf(),
            idempotent(subst@),
            scheme_env.wf(),
            method_env.wf(),
            forall|k: Seq<char>| #[trigger] method_env.view().contains_key(k) ==> method_env.view()[k].wf(),
            generic_struct_raw.wf(),
            generic_struct_type_params.wf(),
        ensures
            ctx.wf(),
            ctx.subst_map() == subst@,
            ctx.schemes() == scheme_env.view(),
            ctx.gen_params() == generic_struct_type_params.view(),
            ctx.gen_raw() == generic_struct_raw.view(),
            ctx.scopes() == seq![construct_builtins()],
            ctx.struct_scope_maps() == seq![struct_env.view()],
            ctx.return_ty() is None,
            ctx.break_ty() is None,
            ctx.enums() == enum_env.view(),
            ctx.next_id() == gen.next_id(),
    {
        let ghost sv = struct_env.view();
        let mut env0: Vec<StrMap<Type>> = Vec::new();
        env0.push(StrMap::new());
        let mut scopes0: Vec<StrMap<Vec<(String, Type)>>> = Vec::new();
        scopes0.push(struct_env);
        let mut ctx = ConstructCtx {
            subst,
            scheme_env,
            env: env0,
            struct_scopes: scopes0,
            generic_struct_raw,
            generic_struct_type_params,
            method_env,
            enum_env,
            gen,
            current_return_ty: None,
            current_break_ty: None,
        };
        ctx.bind("print".to_string(), mono_t(one_t(Type::Str), Type::Unit));
        ctx.bind("println".to_string(), mono_t(one_t(Type::Str), Type::Unit));
        ctx.bind("print_int".to_string(), mono_t(one_t(Type::Int), Type::Unit));
        ctx.bind("println_int".to_string(), mono_t(one_t(Type::Int), Type::Unit));
        ctx.bind("print_float".to_string(), mono_t(one_t(Type::Float), Type::Unit));
        ctx.bind("println_float".to_string(), mono_t(one_t(Type::Float), Type::Unit));
        ctx.bind("int_to_string".to_string(), mono_t(one_t(Type::Int), Type::Str));
        ctx.bind("float_to_string".to_string(), mono_t(one_t(Type::Float), Type::Str));
        ctx.bind("bool_to_string".to_string(), mono_t(one_t(Type::Bool), Type::Str));
        ctx.bind("string_len".to_string(), mono_t(one_t(Type::Str), Type::Int));
        ctx.bind("string_concat".to_string(), mono_t(two_t(Type::Str, Type::Str), Type::Str));
        let no_params: Vec<Type> = Vec::new();
        assert(types_model(no_params@) =~= Seq::<TypeView>::empty());
        ctx.bind("clock".to_string(), mono_t(no_params, Type::Int));
        ctx.bind("assert".to_string(), mono_t(one_t(Type::Bool), Type::Unit));
        ctx.bind("assert_msg".to_string(), mono_t(two_t(Type::Bool, Type::Str), Type::Unit));
        proof {
            reveal_strlit("print");
            reveal_strlit("println");
            reveal_strlit("print_int");
            reveal_strlit("println_int");
            reveal_strlit("print_float");
            reveal_strlit("println_float");
            reveal_strlit("int_to_string");
            reveal_strlit("float_to_string");
            reveal_strlit("bool_to_string");
            reveal_strlit("string_len");
            reveal_strlit("string_concat");
            reveal_strlit("clock");
            reveal_strlit("assert");
            reveal_strlit("assert_msg");
            assert(ctx.scopes()[0] =~= construct_builtins());
            assert(ctx.scopes() =~= seq![construct_builtins()]);
            assert(ctx.struct_scope_maps() =~= seq![sv]);
        }
        ctx
    }

    /// Opens a value scope.
    pub fn push_scope(&mut self)
        requires
            old(self).wf(),
        ensures
            final(self).wf(),
            final(self).scopes() == old(self).scopes().push(Map::empty()),
            final(self).struct_scope_maps() == old(self).struct_scope_maps(),
            final(self).return_ty() == old(self).return_ty(),
            final(self).break_ty() == old(self).break_ty(),
            same_consts(*old(self), *final(self)),
            final(self).next_id() == old(self).next_id(),
    {
        let m: StrMap<Type> = StrMap::new();
        self.env.push(m);
        assert(type_scope_view(Map::<Seq<char>, Type>::empty()) =~= Map::empty());
        assert(self.scopes() =~= old(self).scopes().push(Map::empty()));
    }

    /// Closes the innermost value scope, if any.
    pub fn pop_scope(&mut self)
        requires
            old(self).wf(),
        ensures
            final(self).wf(),
            final(self).scopes() == if old(self).scopes().len() > 0 {
                old(self).scopes().drop_last()
            } else {
                old(self).scopes()
            },
            final(self).struct_scope_maps() == old(self).struct_scope_maps(),
            final(self).return_ty() == old(self).return_ty(),
            final(self).break_ty() == old(self).break_ty(),
            same_consts(*old(self), *final(self)),
            final(self).next_id() == old(self).next_id(),
    {
        let _ = self.env.pop();
        assert(self.scopes() =~= if old(self).scopes().len() > 0 {
            old(self).scopes().drop_last()
        } else {
            old(self).scopes()
        });
    }

    /// Opens a struct scope.
    pub fn push_struct_scope(&mut self)
        requires
            old(self).wf(),
        ensures
            final(self).wf(),
            final(self).struct_scope_maps() == old(self).struct_scope_maps().push(Map::empty()),
            final(self).scopes() == old(self).scopes(),
            final(self).return_ty() == old(self).return_ty(),
            final(self).break_ty() == old(self).break_ty(),
            same_consts(*old(self), *final(self)),
            final(self).next_id() == old(self).next_id(),
    {
        self.struct_scopes.push(StrMap::new());
        assert(self.struct_scope_maps() =~= old(self).struct_scope_maps().push(Map::empty()));
    }

    /// Closes the innermost struct scope, if any.
    pub fn pop_struct_scope(&mut self)
        requires
            old(self).wf(),
        ensures
            final(self).wf(),
            final(self).struct_scope_maps() == if old(self).struct_scope_maps().len() > 0 {
                old(self).struct_scope_maps().drop_last()
            } else {
                old(self).struct_scope_maps()
            },
            final(self).scopes() == old(self).scopes(),
            final(self).return_ty() == old(self).return_ty(),
            final(self).break_ty() == old(self).break_ty(),
            same_consts(*old(self), *final(self)),
            final(self).next_id() == old(self).next_id(),
    {
        let _ = self.struct_scopes.pop();
        assert(self.struct_scope_maps() =~= if old(self).struct_scope_maps().len() > 0 {
            old(self).struct_scope_maps().drop_last()
        } else {
            old(self).struct_scope_maps()
        });
    }

    /// Records a struct declared in the innermost struct scope.
    pub fn register_local_struct(&mut self, name: String, fields: Vec<(String, Type)>)
        requires
            old(self).wf(),
            old(self).struct_scope_maps().len() > 0,
        ensures
            final(self).wf(),
            final(self).struct_scope_maps() == old(self).struct_scope_maps().update(
                old(self).struct_scope_maps().len() - 1,
                old(self).struct_scope_maps().last().insert(name@, fields),
            ),
            final(self).scopes() == old(self).scopes(),
            final(self).return_ty() == old(self).return_ty(),
            final(self).break_ty() == old(self).break_ty(),
            same_consts(*old(self), *final(self)),
            final(self).next_id() == old(self).next_id(),
    {
        let ghost nv = name@;
        let ghost fv = fields;
        let mut scope = self.struct_scopes.pop().unwrap();
        scope.insert(name, fields);
        self.struct_scopes.push(scope);
        assert(self.struct_scope_maps() =~= old(self).struct_scope_maps().update(
            old(self).struct_scope_maps().len() - 1,
            old(self).struct_scope_maps().last().insert(nv, fv),
        ));
    }

    /// The fields of the struct `name` declared in the innermost struct
    /// scope that declares it.
    pub fn get_struct_fields(&self, name: &str) -> (r: Option<&Vec<(String, Type)>>)
        requires
            self.wf(),
        ensures
            match find_scoped(self.struct_scope_maps(), name@) {
                Some(f) => r matches Some(x) && *x == f,
                None => r is None,
            },
    {
        let ghost ms = self.struct_scope_maps();
        let mut j: usize = self.struct_scopes.len();
        while j > 0
            invariant
                j <= self.struct_scopes@.len(),
                self.wf(),
                ms == self.struct_scope_maps(),
                ms.len() == self.struct_scopes@.len(),
                forall|k: int| j <= k < ms.len() ==> !(#[trigger] ms[k]).contains_key(name@),
            decreases j,
        {
            j = j - 1;
            assert(ms[j as int] == self.struct_scopes@[j as int].view());
            if let Some(fields) = self.struct_scopes[j].get(name) {
                proof {
                    crate::typeinference::context::lemma_find_scoped_prefix(ms, name@, j as int + 1);
                    assert(ms.take(j as int + 1).last() == ms[j as int]);
                }
                return Some(fields);
            }
        }
        proof {
            crate::typeinference::context::lemma_find_scoped_prefix(ms, name@, 0);
        }
        None
    }

    /// Binds `name` to `ty` in the innermost value scope.
    pub fn bind(&mut self, name: String, ty: Type)
        requires
            old(self).wf(),
            old(self).scopes().len() > 0,
        ensures
            final(self).wf(),
            final(self).scopes() == old(self).scopes().update(
                old(self).scopes().len() - 1,
                old(self).scopes().last().insert(name@, ty@),
            ),
            final(self).struct_scope_maps() == old(self).struct_scope_maps(),
            final(self).return_ty() == old(self).return_ty(),
            final(self).break_ty() == old(self).break_ty(),
            final(self).enums() == old(self).enums(),
            final(self).next_id() == old(self).next_id(),
            same_consts(*old(self), *final(self)),
    {
        let ghost nv = name@;
        let ghost tv = ty@;
        let mut scope = self.env.pop().unwrap();
        let ghost before = scope.view();
        scope.insert(name, ty);
        assert(type_scope_view(scope.view()) =~= type_scope_view(before).insert(nv, tv));
        self.env.push(scope);
        assert(self.scopes() =~= old(self).scopes().update(
            old(self).scopes().len() - 1,
            old(self).scopes().last().insert(nv, tv),
        ));
    }

    /// The type of `name` in the innermost value scope that binds it.
    pub fn lookup(&self, name: &str) -> (r: Option<&Type>)
        requires
            self.wf(),
        ensures
            match find_scoped(self.scopes(), name@) {
                Some(t) => r matches Some(x) && x@ == t,
                None => r is None,
            },
    {
        let ghost ms = self.scopes();
        let mut j: usize = self.env.len();
        while j > 0
            invariant
                j <= self.env@.len(),
                self.wf(),
                ms == self.scopes(),
                ms.len() == self.env@.len(),
                forall|k: int| j <= k < ms.len() ==> !(#[trigger] ms[k]).contains_key(name@),
            decreases j,
        {
            j = j - 1;
            assert(ms[j as int] == type_scope_view(self.env@[j as int].view()));
            if let Some(t) = self.env[j].get(name) {
                proof {
                    crate::typeinference::context::lemma_find_scoped_prefix(ms, name@, j as int + 1);
                    assert(ms.take(j as int + 1).last() == ms[j as int]);
                }
                return Some(t);
            }
        }
        proof {
            crate::typeinference::context::lemma_find_scoped_prefix(ms, name@, 0);
        }
        None
    }

    /// Sets the return type of the function being entered; returns the
    /// previous one, for [`Self::pop_return_type`].
    pub fn push_return_type(&mut self, ty: Option<Type>) -> (prev: Option<Type>)
        ensures
            prev == old(self).return_ty(),
            final(self).return_ty() == ty,
            final(self).scopes() == old(self).scopes(),
            final(self).struct_scope_maps() == old(self).struct_scope_maps(),
            final(self).break_ty() == old(self).break_ty(),
            final(self).wf() == old(self).wf(),
            same_consts(*old(self), *final(self)),
            final(self).next_id() == old(self).next_id(),
    {
        let prev = self.current_return_ty.take();
        self.current_return_ty = ty;
        proof { lemma_ctx_wf_same(&*self, &*old(self)); }
        prev
    }

    /// Restores the return type saved by [`Self::push_return_type`].
    pub fn pop_return_type(&mut self, prev: Option<Type>)
        ensures
            final(self).return_ty() == prev,
            final(self).scopes() == old(self).scopes(),
            final(self).struct_scope_maps() == old(self).struct_scope_maps(),
            final(self).break_ty() == old(self).break_ty(),
            final(self).wf() == old(self).wf(),
            same_consts(*old(self), *final(self)),
            final(self).next_id() == old(self).next_id(),
    {
        self.current_return_ty = prev;
        proof { lemma_ctx_wf_same(&*self, &*old(self)); }
    }

    /// Sets the break type of the loop being entered; returns the previous
    /// one, for [`Self::pop_break_type`].
    pub fn push_break_type(&mut self, ty: Option<Type>) -> (prev: Option<Type>)
        ensures
            prev == old(self).break_ty(),
            final(self).break_ty() == ty,
            final(self).scopes() == old(self).scopes(),
            final(self).struct_scope_maps() == old(self).struct_scope_maps(),
            final(self).return_ty() == old(self).return_ty(),
            final(self).wf() == old(self).wf(),
            same_consts(*old(self), *final(self)),
            final(self).next_id() == old(self).next_id(),
    {
        let prev = self.current_break_ty.take();
        self.current_break_ty = ty;
        proof { lemma_ctx_wf_same(&*self, &*old(self)); }
        prev
    }

    /// The next id of the context's generator.
    pub fn next_id_now(&self) -> (r: u32)
        ensures
            r == self.next_id(),
    {
        self.gen.counter()
    }

    /// A copy of the current return type.
    pub fn return_type_now(&self) -> (r: Option<Type>)
        ensures
            match self.return_ty() {
                Some(t) => r matches Some(x) && x@ == t@,
                None => r is None,
            },
    {
        match &self.current_return_ty {
            Some(t) => Some(clone_type(t)),
            None => None,
        }
    }

    /// A copy of the current break type.
    pub fn break_type_now(&self) -> (r: Option<Type>)
        ensures
            match self.break_ty() {
                Some(t) => r matches Some(x) && x@ == t@,
                None => r is None,
            },
    {
        match &self.current_break_ty {
            Some(t) => Some(clone_type(t)),
            None => None,
        }
    }

    /// A well-formed context's substitution is idempotent.
    pub proof fn lemma_wf_subst(&self)
        requires
            self.wf(),
        ensures
            idempotent(self.subst_map()),
    {
    }

    /// The substitution the first pass solved.
    pub fn subst(&self) -> (r: &'a Substitution)
        ensures
            r@ == self.subst_map(),
    {
        self.subst
    }

    /// The scheme of function `name`, if any.
    pub fn scheme(&self, name: &str) -> (r: Option<&'a TypeScheme>)
        requires
            self.wf(),
        ensures
            r is Some <==> self.schemes().contains_key(name@),
            r matches Some(x) ==> *x == self.schemes()[name@],
    {
        let m: &'a StrMap<TypeScheme> = self.scheme_env;
        m.get(name)
    }

    /// The resolved type of method `method` of `owner`, if any.
    pub fn method_type(&self, owner: &str, method: &str) -> (r: Option<&Type>)
        requires
            self.wf(),
        ensures
            r is Some <==> (self.methods().contains_key(owner@) && self.methods()[owner@].contains_key(method@)),
            r matches Some(x) ==> *x == self.methods()[owner@][method@],
    {
        match self.method_env.get(owner) {
            Some(ms) => ms.get(method),
            None => None,
        }
    }

    /// The type parameters of generic struct `name`, if it is one.
    pub fn struct_params(&self, name: &str) -> (r: Option<&'a Vec<crate::typeinference::TypeVar>>)
        requires
            self.wf(),
        ensures
            r is Some <==> self.gen_params().contains_key(name@),
            r matches Some(x) ==> *x == self.gen_params()[name@],
    {
        let m: &'a StrMap<Vec<crate::typeinference::TypeVar>> = self.generic_struct_type_params;
        m.get(name)
    }

    /// The declared field types of generic struct `name`, if it is one.
    pub fn struct_raw(&self, name: &str) -> (r: Option<&'a Vec<(String, InferType)>>)
        requires
            self.wf(),
        ensures
            r is Some <==> self.gen_raw().contains_key(name@),
            r matches Some(x) ==> *x == self.gen_raw()[name@],
    {
        let m: &'a StrMap<Vec<(String, InferType)>> = self.generic_struct_raw;
        m.get(name)
    }

    /// Enum `name`, if declared.
    pub fn enum_info(&self, name: &str) -> (r: Option<&'a EnumInfo>)
        requires
            self.wf(),
        ensures
            r is Some <==> self.enums().contains_key(name@),
            r matches Some(x) ==> *x == self.enums()[name@],
    {
        let m: &'a StrMap<EnumInfo> = self.enum_env;
        m.get(name)
    }

    /// The concrete type of a call of a function of scheme `scheme` on
    /// arguments of types `arg_types` (see [`instantiate_scheme_for_call`]),
    /// with fresh variables from the context's generator.
    pub fn instantiate_call(&mut self, scheme: &TypeScheme, arg_types: &Vec<Type>, span: &Span) -> (r: Result<Type, GustError>)
        requires
            old(self).next_id() + scheme.quantified_vars.len() <= u32::MAX,
            terminates(inst_map(scheme.quantified_vars@, old(self).next_id() as nat), scheme.ty@),
        ensures
            final(self).next_id() == old(self).next_id() + scheme.quantified_vars.len(),
            call_outcome(*scheme, old(self).next_id(), arg_types@, *span, r),
            call_general(*scheme, old(self).next_id(), arg_types@, r),
            final(self).wf() == old(self).wf(),
            final(self).scopes() == old(self).scopes(),
            final(self).struct_scope_maps() == old(self).struct_scope_maps(),
            final(self).return_ty() == old(self).return_ty(),
            final(self).break_ty() == old(self).break_ty(),
            same_consts(*old(self), *final(self)),
    {
        let r = instantiate_scheme_for_call(scheme, arg_types, span, &mut self.gen);
        proof { lemma_ctx_wf_same(&*self, &*old(self)); }
        r
    }

    /// A fresh type variable from the context's generator.
    pub fn fresh(&mut self) -> (v: crate::typeinference::TypeVar)
        requires
            old(self).next_id() < u32::MAX,
        ensures
            v.0 == old(self).next_id(),
            final(self).next_id() == old(self).next_id() + 1,
            final(self).wf() == old(self).wf(),
            final(self).scopes() == old(self).scopes(),
            final(self).struct_scope_maps() == old(self).struct_scope_maps(),
            final(self).return_ty() == old(self).return_ty(),
            final(self).break_ty() == old(self).break_ty(),
            same_consts(*old(self), *final(self)),
    {
        let v = self.gen.fresh();
        proof { lemma_ctx_wf_same(&*self, &*old(self)); }
        v
    }

    /// Restores the break type saved by [`Self::push_break_type`].
    pub fn pop_break_type(&mut self, prev: Option<Type>)
        ensures
            final(self).break_ty() == prev,
            final(self).scopes() == old(self).scopes(),
            final(self).struct_scope_maps() == old(self).struct_scope_maps(),
            final(self).return_ty() == old(self).return_ty(),
            final(self).wf() == old(self).wf(),
            same_consts(*old(self), *final(self)),
            final(self).next_id() == old(self).next_id(),
    {
        self.current_break_ty = prev;
        proof { lemma_ctx_wf_same(&*self, &*old(self)); }
    }
}

/// `b` has `a`'s substitution, schemes, methods, generic structs and
/// enums: what the second pass reads and never changes.
pub open spec fn same_consts(a: ConstructCtx, b: ConstructCtx) -> bool {
    &&& b.subst_map() == a.subst_map()
    &&& b.schemes() == a.schemes()
    &&& b.methods() == a.methods()
    &&& b.gen_params() == a.gen_params()
    &&& b.gen_raw() == a.gen_raw()
    &&& b.enums() == a.enums()
}

proof fn lemma_ctx_wf_same(a: &ConstructCtx, b: &ConstructCtx)
    requires
        a.env == b.env,
        a.struct_scopes == b.struct_scopes,
        a.enum_env == b.enum_env,
        a.subst == b.subst,
        a.scheme_env == b.scheme_env,
        a.method_env == b.method_env,
        a.generic_struct_raw == b.generic_struct_raw,
        a.generic_struct_type_params == b.generic_struct_type_params,
    ensures
        a.wf() == b.wf(),
{
}

fn one_t(a: Type) -> (v: Vec<Type>)
    ensures
        types_model(v@) == seq![a@],
{
    let mut v: Vec<Type> = Vec::new();
    v.push(a);
    proof { lemma_types_model(v@); }
    assert(types_model(v@) =~= seq![a@]);
    v
}

fn two_t(a: Type, b: Type) -> (v: Vec<Type>)
    ensures
        types_model(v@) == seq![a@, b@],
{
    let mut v: Vec<Type> = Vec::new();
    v.push(a);
    v.push(b);
    proof { lemma_types_model(v@); }
    assert(types_model(v@) =~= seq![a@, b@]);
    v
}

fn mono_t(params: Vec<Type>, ret: Type) -> (t: Type)
    ensures
        t@ == fun_t(types_model(params@), ret@),
{
    Type::Fun(params, Box::new(ret))
}

// ── Enum patterns in the second pass ────────────────────────────────────────

/// The substitution sending each of the first `k` type parameters `qs` to
/// the concrete type argument at its position (a later repeat wins).
pub open spec fn remap_of(qs: Seq<crate::typeinference::TypeVar>, args: Seq<TypeView>, k: nat) -> Map<u32, InferTypeView>
    decreases k,
{
    if k == 0 {
        Map::empty()
    } else {
        remap_of(qs, args, (k - 1) as nat).insert(qs[k - 1].0, InferTypeView::Concrete(args[k - 1]))
    }
}

/// How many type parameters receive an argument: as many as both lists have.
pub open spec fn zipped(a: nat, b: nat) -> nat {
    if a < b { a } else { b }
}

/// The index of the first of `names` that the variant lacks or whose type
/// the remap leaves unresolved.
pub open spec fn first_bad(
    names: Seq<String>,
    vfields: Seq<(Seq<char>, InferTypeView)>,
    remap: Map<u32, InferTypeView>,
) -> Option<int>
    decreases names.len(),
{
    if names.len() == 0 {
        None
    } else if (match first_field(vfields, names[0]@) {
        None => true,
        Some(i) => fv(subst1(remap, vfields[i].1)) != Set::<u32>::empty(),
    }) {
        Some(0)
    } else {
        match first_bad(names.drop_first(), vfields, remap) {
            Some(i) => Some(i + 1),
            None => None,
        }
    }
}

proof fn lemma_first_bad(names: Seq<String>, vfields: Seq<(Seq<char>, InferTypeView)>, remap: Map<u32, InferTypeView>)
    ensures
        match first_bad(names, vfields, remap) {
            Some(k) => 0 <= k < names.len() && field_ok(names[k]@, vfields, remap) == false
                && forall|j: int| 0 <= j < k ==> field_ok(#[trigger] names[j]@, vfields, remap),
            None => forall|j: int| 0 <= j < names.len() ==> field_ok(#[trigger] names[j]@, vfields, remap),
        },
    decreases names.len(),
{
    if names.len() > 0 {
        lemma_first_bad(names.drop_first(), vfields, remap);
        if field_ok(names[0]@, vfields, remap) {
            assert forall|j: int| 0 < j < names.len() implies names[j] == names.drop_first()[j - 1] by {}
        }
    }
}

/// The variant has a field named `f` and its type resolves under `remap`.
pub open spec fn field_ok(f: Seq<char>, vfields: Seq<(Seq<char>, InferTypeView)>, remap: Map<u32, InferTypeView>) -> bool {
    match first_field(vfields, f) {
        None => false,
        Some(i) => fv(subst1(remap, vfields[i].1)) == Set::<u32>::empty(),
    }
}

/// The scope `m` after binding each of `names`, in order, to its field's
/// resolved type.
pub open spec fn bind_concrete_fields(
    m: Map<Seq<char>, TypeView>,
    names: Seq<String>,
    vfields: Seq<(Seq<char>, InferTypeView)>,
    remap: Map<u32, InferTypeView>,
) -> Map<Seq<char>, TypeView>
    decreases names.len(),
{
    if names.len() == 0 {
        m
    } else {
        let f = names.last()@;
        let i = first_field(vfields, f).unwrap();
        bind_concrete_fields(m, names.drop_last(), vfields, remap).insert(f, infer_to_type(subst1(remap, vfields[i].1)))
    }
}

/// `e` is a type error with code `c` and message `msg` at no source location.
pub open spec fn is_unplaced_error(e: GustError, c: TypeErrorCode, msg: Seq<char>) -> bool {
    e matches GustError::TypeError { code, message, start, end, filename, line, col } && code == c
        && message@ == msg && start == 0 && end == 0 && filename@ == Seq::<char>::empty() && line == 0 && col == 0
}

/// Bind the fields named by an enum-variant pattern to their concrete types:
/// the variant's declared field types with the enum's type parameters
/// replaced by the scrutinee's type arguments.
///
/// Errors: internal for an unknown enum, variant or field (nothing is bound
/// for the first two); `T0002`, at no source location, for a field type left
/// unresolved. Fields before the failing one are bound.
#[verifier::loop_isolation(false)]
pub fn bind_enum_variant_fields(
    enum_name: &str,
    variant_name: &str,
    fields: &Vec<String>,
    scrutinee_ty: &Type,
    ctx: &mut ConstructCtx,
) -> (r: Result<(), GustError>)
    requires
        old(ctx).wf(),
        old(ctx).scopes().len() > 0,
    ensures
        same_consts(*old(ctx), *final(ctx)),
        final(ctx).wf(),
        final(ctx).enums() == old(ctx).enums(),
        final(ctx).next_id() == old(ctx).next_id(),
        final(ctx).struct_scope_maps() == old(ctx).struct_scope_maps(),
        final(ctx).return_ty() == old(ctx).return_ty(),
        final(ctx).break_ty() == old(ctx).break_ty(),
        final(ctx).scopes().len() == old(ctx).scopes().len(),
        final(ctx).scopes().drop_last() == old(ctx).scopes().drop_last(),
        !old(ctx).enums().contains_key(enum_name@) ==> (r matches Err(e) && is_internal(e, "unknown enum `"@ + enum_name@ + "`"@)
            && final(ctx).scopes() == old(ctx).scopes()),
        old(ctx).enums().contains_key(enum_name@) ==> ({
            let info = old(ctx).enums()[enum_name@];
            match first_variant(info.variants@, variant_name@) {
                None => r matches Err(e) && is_internal(e, "unknown variant `"@ + variant_name@ + "`"@)
                    && final(ctx).scopes() == old(ctx).scopes(),
                Some(vi) => {
                    let vf = fields_view(info.variants@[vi].fields@);
                    let args = type_args_of(scrutinee_ty@);
                    let remap = remap_of(info.type_params@, args, zipped(info.type_params@.len(), args.len()));
                    let n = match first_bad(fields@, vf, remap) {
                        Some(k) => k,
                        None => fields@.len() as int,
                    };
                    &&& final(ctx).scopes().last() == bind_concrete_fields(old(ctx).scopes().last(), fields@.take(n), vf, remap)
                    &&& match first_bad(fields@, vf, remap) {
                        None => r is Ok,
                        Some(k) => if first_field(vf, fields@[k]@) is None {
                            r matches Err(e) && is_internal(
                                e,
                                "no field `"@ + fields@[k]@ + "` on variant `"@ + variant_name@ + "`"@,
                            )
                        } else {
                            r matches Err(e) && is_unplaced_error(e, TypeErrorCode::T0002, cannot_infer_text())
                        },
                    }
                },
            }
        }),
{
    let enum_env = ctx.enum_env;
    let enum_info = match enum_env.get(enum_name) {
        Some(info) => info,
        None => {
            let mut msg = String::new();
            push_str(&mut msg, "unknown enum `");
            push_str(&mut msg, enum_name);
            push_str(&mut msg, "`");
            return Err(GustError::internal(msg));
        },
    };
    let vi = match find_variant(&enum_info.variants, variant_name) {
        Some(i) => i,
        None => {
            let mut msg = String::new();
            push_str(&mut msg, "unknown variant `");
            push_str(&mut msg, variant_name);
            push_str(&mut msg, "`");
            return Err(GustError::internal(msg));
        },
    };
    proof {
        lemma_first_variant(enum_info.variants@, variant_name@);
    }
    let variant = &enum_info.variants[vi];
    let type_args = extract_type_args_from_type(scrutinee_ty);
    let ghost qs = enum_info.type_params@;
    let ghost args = type_args_of(scrutinee_ty@);
    proof { lemma_types_model(type_args@); }
    let mut remap = Substitution::new();
    let mut i: usize = 0;
    while i < enum_info.type_params.len() && i < type_args.len()
        invariant
            i <= qs.len(),
            i <= type_args.len(),
            qs == enum_info.type_params@,
            types_model(type_args@) == args,
            remap@ == remap_of(qs, args, i as nat),
            forall|v: u32| #[trigger] remap@.contains_key(v) ==> remap@[v] is Concrete,
        decreases qs.len() - i,
    {
        let c = clone_type(&type_args[i]);
        remap.bind(enum_info.type_params[i], InferType::Concrete(c));
        i += 1;
    }
    assert(i as nat == zipped(qs.len(), args.len()));
    let ghost rm = remap@;
    assert(idempotent(rm));
    let dummy = Span::new(0, 0, String::new());
    let ghost vf = fields_view(variant.fields@);
    let ghost s0 = ctx.scopes();
    proof {
        lemma_first_bad(fields@, vf, rm);
        assert(fields@.take(0) =~= Seq::<String>::empty());
    }
    let mut f: usize = 0;
    while f < fields.len()
        invariant
            f <= fields.len(),
            ctx.wf(),
            ctx.scopes().len() == s0.len(),
            s0.len() > 0,
            ctx.scopes().drop_last() == s0.drop_last(),
            ctx.scopes().last() == bind_concrete_fields(s0.last(), fields@.take(f as int), vf, rm),
            forall|k: int| 0 <= k < f ==> field_ok(#[trigger] fields@[k]@, vf, rm),
            ctx.enums() == old(ctx).enums(),
            ctx.next_id() == old(ctx).next_id(),
            ctx.struct_scope_maps() == old(ctx).struct_scope_maps(),
            ctx.return_ty() == old(ctx).return_ty(),
            ctx.break_ty() == old(ctx).break_ty(),
            same_consts(*old(ctx), *ctx),
        decreases fields.len() - f,
    {
        let name = &fields[f];
        let fi = match find_field(&variant.fields, name.as_str()) {
            Some(k) => k,
            None => {
                proof {
                    lemma_first_bad(fields@, vf, rm);
                    assert(first_bad(fields@, vf, rm) == Some(f as int));
                }
                let mut msg = String::new();
                push_str(&mut msg, "no field `");
                push_str(&mut msg, name.as_str());
                push_str(&mut msg, "` on variant `");
                push_str(&mut msg, variant_name);
                push_str(&mut msg, "`");
                return Err(GustError::internal(msg));
            },
        };
        proof {
            lemma_first_field(vf, name@);
            assert(vf[fi as int].1 == variant.fields@[fi as int].1@);
            lemma_apply_idempotent(rm, vf[fi as int].1);
        }
        let applied = remap.apply(&variant.fields[fi].1);
        let concrete = match infer_type_to_type(&applied, &dummy) {
            Ok(t) => t,
            Err(e) => {
                proof {
                    lemma_first_bad(fields@, vf, rm);
                    assert(first_bad(fields@, vf, rm) == Some(f as int));
                }
                return Err(e);
            },
        };
        let ghost before = ctx.scopes();
        let mut key = String::new();
        push_str(&mut key, name.as_str());
        ctx.bind(key, concrete);
        proof {
            assert(fields@.take(f as int + 1).drop_last() =~= fields@.take(f as int));
            assert(ctx.scopes().drop_last() =~= before.drop_last());
        }
        f += 1;
    }
    proof {
        lemma_first_bad(fields@, vf, rm);
        assert(first_bad(fields@, vf, rm) is None);
        assert(fields@.take(fields.len() as int) =~= fields@);
    }
    Ok(())
}

// ── Literals and operators ────────────────────────────────────────────────────

/// The type of a literal other than `nope`.
pub open spec fn literal_type(lit: Literal) -> TypeView {
    match lit {
        Literal::Int(_) => TypeView::Int,
        Literal::Float(_) => TypeView::Float,
        Literal::Bool(_) => TypeView::Bool,
        Literal::Str(_) => TypeView::Str,
        _ => TypeView::Unit,
    }
}

/// The resolved type of a literal: its own type, and for `nope` the type
/// expected of it; with none expected, `T0002` at `span`.
pub fn construct_literal_type(lit: &Literal, expected_ty: Option<&Type>, span: &Span) -> (r: Result<Type, GustError>)
    ensures
        !(*lit is Nope) ==> (r matches Ok(t) && t@ == literal_type(*lit)),
        *lit is Nope ==> match expected_ty {
            Some(e) => r matches Ok(t) && t@ == e@,
            None => r matches Err(e) && is_type_error(
                e,
                TypeErrorCode::T0002,
                "cannot infer type of `nope`; add a type annotation"@,
                *span,
            ),
        },
{
    match lit {
        Literal::Int(_) => Ok(Type::Int),
        Literal::Float(_) => Ok(Type::Float),
        Literal::Bool(_) => Ok(Type::Bool),
        Literal::Str(_) => Ok(Type::Str),
        Literal::Unit => Ok(Type::Unit),
        Literal::Nope => match expected_ty {
            Some(t) => Ok(clone_type(t)),
            None => Err(GustError::type_error(
                TypeErrorCode::T0002,
                "cannot infer type of `nope`; add a type annotation".to_string(),
                span,
            )),
        },
    }
}

/// The resolved type of a binary operation whose left operand has type
/// `lhs`: arithmetic keeps it, comparisons and `&&`/`||` give `Bool`, and a
/// range gives `Range<Int>`.
pub open spec fn binop_type(op: BinOp, lhs: TypeView) -> TypeView {
    match op {
        BinOp::Add | BinOp::Sub | BinOp::Mul | BinOp::Div | BinOp::Rem => lhs,
        BinOp::Range | BinOp::RangeInclusive => TypeView::Named("Range"@, seq![TypeView::Int]),
        _ => TypeView::Bool,
    }
}

/// The resolved type of a binary operation (see [`binop_type`]).
pub fn construct_binop_type(op: &BinOp, lhs_ty: &Type) -> (t: Type)
    ensures
        t@ == binop_type(*op, lhs_ty@),
{
    match op {
        BinOp::Add | BinOp::Sub | BinOp::Mul | BinOp::Div | BinOp::Rem => clone_type(lhs_ty),
        BinOp::Eq | BinOp::Ne | BinOp::Lt | BinOp::Le | BinOp::Gt | BinOp::Ge => Type::Bool,
        BinOp::And | BinOp::Or => Type::Bool,
        BinOp::Range | BinOp::RangeInclusive => {
            let mut args: Vec<Type> = Vec::new();
            args.push(Type::Int);
            proof {
                lemma_types_model(args@);
                assert(types_model(args@) =~= seq![TypeView::Int]);
            }
            Type::Named("Range".to_string(), args)
        },
    }
}

/// The resolved type of a unary operation on an operand of type
/// `operand_ty`: `-` keeps it and `!` gives `Bool`.
pub fn construct_unaryop_type(op: &UnaryOp, operand_ty: &Type) -> (t: Type)
    ensures
        *op == UnaryOp::Neg ==> t@ == operand_ty@,
        *op == UnaryOp::Not ==> t@ == TypeView::Bool,
{
    match op {
        UnaryOp::Neg => clone_type(operand_ty),
        UnaryOp::Not => Type::Bool,
    }
}

// ── Pattern bindings ──────────────────────────────────────────────────────────

/// Why binding a pattern's names failed: an internal error with its message,
/// or a field type left unresolved (`T0002` at no location).
pub enum BindError {
    Internal(Seq<char>),
    Unresolved,
}

/// `e` is the error `b` describes.
pub open spec fn bind_error_is(e: GustError, b: BindError) -> bool {
    match b {
        BindError::Internal(m) => is_internal(e, m),
        BindError::Unresolved => is_unplaced_error(e, TypeErrorCode::T0002, cannot_infer_text()),
    }
}

/// Binding the fields of an enum-variant pattern `e::v { fields }` against a
/// scrutinee of type `ty` in scope `m` (the contract of
/// [`bind_enum_variant_fields`], on a scope): the scope afterwards, and the
/// error that stopped binding, if any.
pub open spec fn enum_bindings(
    e: Seq<char>,
    v: Seq<char>,
    fields: Seq<String>,
    ty: TypeView,
    m: Map<Seq<char>, TypeView>,
    enums: Map<Seq<char>, EnumInfo>,
) -> (Map<Seq<char>, TypeView>, Option<BindError>) {
    if !enums.contains_key(e) {
        (m, Some(BindError::Internal("unknown enum `"@ + e + "`"@)))
    } else {
        let info = enums[e];
        match first_variant(info.variants@, v) {
            None => (m, Some(BindError::Internal("unknown variant `"@ + v + "`"@))),
            Some(vi) => {
                let vf = fields_view(info.variants@[vi].fields@);
                let args = type_args_of(ty);
                let remap = remap_of(info.type_params@, args, zipped(info.type_params@.len(), args.len()));
                match first_bad(fields, vf, remap) {
                    None => (bind_concrete_fields(m, fields, vf, remap), None),
                    Some(k) => (
                        bind_concrete_fields(m, fields.take(k), vf, remap),
                        Some(if first_field(vf, fields[k]@) is None {
                            BindError::Internal("no field `"@ + fields[k]@ + "` on variant `"@ + v + "`"@)
                        } else {
                            BindError::Unresolved
                        }),
                    ),
                }
            },
        }
    }
}

/// The innermost scope after binding the names of pattern `p` against a
/// scrutinee of resolved type `ty`, and the error that stopped binding, if
/// any: `_`, literals and `nope` bind nothing; a binding binds its name to
/// `ty`; a tuple pattern needs a tuple type and binds its elements against
/// the element types, pairing them as far as both go; a variant pattern
/// needs a path of an enum and a variant (see [`enum_bindings`]). The first
/// error stops binding.
pub open spec fn pattern_bindings(
    p: Pattern,
    ty: TypeView,
    m: Map<Seq<char>, TypeView>,
    enums: Map<Seq<char>, EnumInfo>,
) -> (Map<Seq<char>, TypeView>, Option<BindError>)
    decreases p, 0nat,
{
    match p {
        Pattern::Binding(name, _) => (m.insert(name@, ty), None),
        Pattern::Tuple(ps, _) => match ty {
            TypeView::Tuple(ts) => elements_bindings(ps@, ts, m, enums),
            _ => (m, Some(BindError::Internal("tuple pattern on non-tuple"@))),
        },
        Pattern::EnumVariant { path, fields, .. } => if path.len() == 2 {
            enum_bindings(path@[0]@, path@[1]@, fields@, ty, m, enums)
        } else {
            (m, Some(BindError::Internal("invalid pattern path"@)))
        },
        _ => (m, None),
    }
}

/// Binding each of `ps` against the type at its position in `ts`, in
/// order, for the positions both have.
pub open spec fn elements_bindings(
    ps: Seq<Pattern>,
    ts: Seq<TypeView>,
    m: Map<Seq<char>, TypeView>,
    enums: Map<Seq<char>, EnumInfo>,
) -> (Map<Seq<char>, TypeView>, Option<BindError>)
    decreases ps, 1nat,
{
    if ps.len() == 0 {
        (m, None)
    } else {
        let (mid, err) = elements_bindings(ps.drop_last(), ts, m, enums);
        if err is Some || ps.len() - 1 >= ts.len() {
            (mid, err)
        } else {
            pattern_bindings(ps.last(), ts[ps.len() - 1], mid, enums)
        }
    }
}

proof fn lemma_elements_step(
    ps: Seq<Pattern>,
    ts: Seq<TypeView>,
    m: Map<Seq<char>, TypeView>,
    enums: Map<Seq<char>, EnumInfo>,
    k: int,
)
    requires
        0 <= k < ps.len(),
        k < ts.len(),
        elements_bindings(ps.take(k), ts, m, enums).1 is None,
    ensures
        elements_bindings(ps.take(k + 1), ts, m, enums) == pattern_bindings(
            ps[k],
            ts[k],
            elements_bindings(ps.take(k), ts, m, enums).0,
            enums,
        ),
{
    assert(ps.take(k + 1).drop_last() =~= ps.take(k));
}

proof fn lemma_elements_rest(
    ps: Seq<Pattern>,
    ts: Seq<TypeView>,
    m: Map<Seq<char>, TypeView>,
    enums: Map<Seq<char>, EnumInfo>,
    k: int,
)
    requires
        0 <= k <= ps.len(),
        k >= ts.len() || elements_bindings(ps.take(k), ts, m, enums).1 is Some,
    ensures
        elements_bindings(ps, ts, m, enums) == elements_bindings(ps.take(k), ts, m, enums),
    decreases ps.len(),
{
    if k == ps.len() {
        assert(ps.take(k) =~= ps);
    } else {
        assert(ps.drop_last().take(k) =~= ps.take(k));
        lemma_elements_rest(ps.drop_last(), ts, m, enums, k);
    }
}

/// Bind the names a match-arm pattern introduces, with their resolved types,
/// in the innermost scope (see [`pattern_bindings`]): the scope becomes the
/// one the model gives, and the model's error, if any, is returned. Outer
/// scopes and the rest of the context are unchanged.
pub fn construct_pattern_bindings(pattern: &Pattern, scrutinee_ty: &Type, ctx: &mut ConstructCtx) -> (r: Result<(), GustError>)
    requires
        old(ctx).wf(),
        old(ctx).scopes().len() > 0,
    ensures
        same_consts(*old(ctx), *final(ctx)),
        final(ctx).wf(),
        final(ctx).enums() == old(ctx).enums(),
        final(ctx).next_id() == old(ctx).next_id(),
        final(ctx).struct_scope_maps() == old(ctx).struct_scope_maps(),
        final(ctx).return_ty() == old(ctx).return_ty(),
        final(ctx).break_ty() == old(ctx).break_ty(),
        final(ctx).scopes().len() == old(ctx).scopes().len(),
        final(ctx).scopes().drop_last() == old(ctx).scopes().drop_last(),
        final(ctx).scopes().last() == pattern_bindings(*pattern, scrutinee_ty@, old(ctx).scopes().last(), old(ctx).enums()).0,
        match pattern_bindings(*pattern, scrutinee_ty@, old(ctx).scopes().last(), old(ctx).enums()).1 {
            None => r is Ok,
            Some(b) => r matches Err(e) && bind_error_is(e, b),
        },
    decreases pattern, 0nat,
{
    match pattern {
        Pattern::Wildcard(_) | Pattern::Literal(_, _) | Pattern::Nope(_) => Ok(()),
        Pattern::Binding(name, _) => {
            ctx.bind(name.clone(), clone_type(scrutinee_ty));
            assert(ctx.scopes().drop_last() =~= old(ctx).scopes().drop_last());
            Ok(())
        },
        Pattern::Tuple(pats, _) => {
            let elems = match scrutinee_ty {
                Type::Tuple(ts) => ts,
                _ => return Err(GustError::internal("tuple pattern on non-tuple".to_string())),
            };
            construct_element_bindings(pats, elems, ctx)
        },
        Pattern::EnumVariant { path, fields, .. } => {
            if path.len() != 2 {
                return Err(GustError::internal("invalid pattern path".to_string()));
            }
            let r = bind_enum_variant_fields(path[0].as_str(), path[1].as_str(), fields, scrutinee_ty, ctx);
            proof {
                assert(fields@.take(fields@.len() as int) =~= fields@);
                assert(path@[0]@ == path[0]@ && path@[1]@ == path[1]@);
            }
            r
        },
    }
}

fn construct_element_bindings(pats: &Vec<Pattern>, tys: &Vec<Type>, ctx: &mut ConstructCtx) -> (r: Result<(), GustError>)
    requires
        old(ctx).wf(),
        old(ctx).scopes().len() > 0,
    ensures
        same_consts(*old(ctx), *final(ctx)),
        final(ctx).wf(),
        final(ctx).enums() == old(ctx).enums(),
        final(ctx).next_id() == old(ctx).next_id(),
        final(ctx).struct_scope_maps() == old(ctx).struct_scope_maps(),
        final(ctx).return_ty() == old(ctx).return_ty(),
        final(ctx).break_ty() == old(ctx).break_ty(),
        final(ctx).scopes().len() == old(ctx).scopes().len(),
        final(ctx).scopes().drop_last() == old(ctx).scopes().drop_last(),
        final(ctx).scopes().last() == elements_bindings(pats@, types_model(tys@), old(ctx).scopes().last(), old(ctx).enums()).0,
        match elements_bindings(pats@, types_model(tys@), old(ctx).scopes().last(), old(ctx).enums()).1 {
            None => r is Ok,
            Some(b) => r matches Err(e) && bind_error_is(e, b),
        },
    decreases pats, 1nat,
{
    let ghost ts = types_model(tys@);
    let ghost m0 = ctx.scopes().last();
    proof {
        lemma_types_model(tys@);
        assert(pats@.take(0) =~= Seq::<Pattern>::empty());
    }
    let mut j: usize = 0;
    while j < pats.len() && j < tys.len()
        invariant
            j <= pats.len(),
            ctx.wf(),
            ctx.scopes().len() == old(ctx).scopes().len(),
            ctx.scopes().len() > 0,
            ctx.scopes().drop_last() == old(ctx).scopes().drop_last(),
            ctx.enums() == old(ctx).enums(),
            ctx.next_id() == old(ctx).next_id(),
            ctx.struct_scope_maps() == old(ctx).struct_scope_maps(),
            ctx.return_ty() == old(ctx).return_ty(),
            ctx.break_ty() == old(ctx).break_ty(),
            same_consts(*old(ctx), *ctx),
            ts == types_model(tys@),
            ts.len() == tys.len(),
            forall|k: int| 0 <= k < tys.len() ==> #[trigger] ts[k] == tys@[k]@,
            m0 == old(ctx).scopes().last(),
            elements_bindings(pats@.take(j as int), ts, m0, old(ctx).enums()) == (ctx.scopes().last(), None::<BindError>),
        decreases pats.len() - j,
    {
        proof { lemma_elements_step(pats@, ts, m0, old(ctx).enums(), j as int); }
        let r = construct_pattern_bindings(&pats[j], &tys[j], ctx);
        match r {
            Err(e) => {
                proof { lemma_elements_rest(pats@, ts, m0, old(ctx).enums(), j + 1); }
                return Err(e);
            },
            Ok(()) => {},
        }
        j += 1;
    }
    proof {
        if j == pats.len() {
            assert(pats@.take(j as int) =~= pats@);
        } else {
            lemma_elements_rest(pats@, ts, m0, old(ctx).enums(), j as int);
        }
    }
    Ok(())
}

/// A type without variables is left unchanged by any substitution.
proof fn lemma_subst1_closed(m: Map<u32, InferTypeView>, t: InferTypeView)
    requires
        fv(t) == Set::<u32>::empty(),
    ensures
        subst1(m, t) == t,
{
    assert forall|w: u32| #[trigger] crate::typeinference::model::occurs(w, t) implies !m.contains_key(w) by {
        assert(fv(t).contains(w));
    }
    lemma_apply_unbound(m, t, 0);
}

} // verus!

