//! The state threaded through the AST walk during type inference: the variable
//! generator, scoped monomorphic and polymorphic environments, the constraint
//! list, the enclosing return and break types, and the type registry.

use vstd::prelude::*;
use std::collections::HashSet;

use crate::ast::Span;
use crate::error::{GustError, TypeErrorCode, is_type_error};
use crate::strmap::StrMap;
use crate::text::push_str;
use super::model::{InferTypeView, fv, apply_spec, terminates, idempotent};
use super::registry::{EnumInfo, TypeRegistry, names_of};
use super::{
    Constraint, InferType, Substitution, TypeScheme, TypeVar, TypeVarGenerator, clone_infer,
    collect_free_vars, equates_all, inst_map, lemma_solve_index, lemma_solve_sides, solve_error, solve_spec, instantiate, satisfies_all, solve_constraints, satisfies_prefix,
    mismatch_text,
};
use super::generality::absorbs;
use super::model::subst1;

verus! {

/// The value bound to `k` in the innermost scope that binds it.
pub open spec fn find_scoped<V>(scopes: Seq<Map<Seq<char>, V>>, k: Seq<char>) -> Option<V>
    decreases scopes.len(),
{
    if scopes.len() == 0 {
        None
    } else if scopes.last().contains_key(k) {
        Some(scopes.last()[k])
    } else {
        find_scoped(scopes.drop_last(), k)
    }
}

/// What a name is bound to: a scheme to instantiate, or a monomorphic type.
pub enum ScopedBinding {
    Poly(TypeScheme),
    Mono(InferType),
}

/// The binding of `k` in the innermost scope level that binds it, where a
/// level is a polymorphic scope and a monomorphic scope of the same depth,
/// and the polymorphic one is searched first.
pub open spec fn find_binding(
    ps: Seq<Map<Seq<char>, TypeScheme>>,
    ms: Seq<Map<Seq<char>, (InferType, bool)>>,
    k: Seq<char>,
) -> Option<ScopedBinding>
    decreases ps.len(),
{
    if ps.len() == 0 || ms.len() == 0 {
        None
    } else if ps.last().contains_key(k) {
        Some(ScopedBinding::Poly(ps.last()[k]))
    } else if ms.last().contains_key(k) {
        Some(ScopedBinding::Mono(ms.last()[k].0))
    } else {
        find_binding(ps.drop_last(), ms.drop_last(), k)
    }
}

/// Scopes past `i` do not bind `k`: searching all scopes is searching the first `i`.
pub proof fn lemma_find_scoped_prefix<V>(scopes: Seq<Map<Seq<char>, V>>, k: Seq<char>, i: int)
    requires
        0 <= i <= scopes.len(),
        forall|j: int| i <= j < scopes.len() ==> !(#[trigger] scopes[j]).contains_key(k),
    ensures
        find_scoped(scopes, k) == find_scoped(scopes.take(i), k),
    decreases scopes.len(),
{
    if i < scopes.len() {
        assert(!scopes[scopes.len() - 1].contains_key(k));
        assert(scopes.drop_last().take(i) =~= scopes.take(i));
        lemma_find_scoped_prefix(scopes.drop_last(), k, i);
    } else {
        assert(scopes.take(i) =~= scopes);
    }
}

/// Monomorphic bindings: a type and whether the binding is mutable.
pub type MonoScope = StrMap<(InferType, bool)>;

/// What [`InferContext::push_scope`] does: `c0` before, `c1` after.
pub open spec fn scope_pushed(c0: InferContext, c1: InferContext) -> bool {
    &&& c1.wf()
    &&& c1.mono_scopes() == c0.mono_scopes().push(Map::empty())
    &&& c1.poly_scopes() == c0.poly_scopes().push(Map::empty())
    &&& c1.next_var() == c0.next_var()
    &&& c1.constraint_list() == c0.constraint_list()
    &&& c1.return_type() == c0.return_type()
    &&& c1.break_type() == c0.break_type()
    &&& c1.reg() == c0.reg()
}

/// What [`InferContext::pop_scope`] does: `c0` before, `c1` after.
pub open spec fn scope_popped(c0: InferContext, c1: InferContext) -> bool {
    &&& c1.wf()
    &&& c1.mono_scopes() == c0.mono_scopes().drop_last()
    &&& c1.poly_scopes() == c0.poly_scopes().drop_last()
    &&& c1.next_var() == c0.next_var()
    &&& c1.constraint_list() == c0.constraint_list()
    &&& c1.return_type() == c0.return_type()
    &&& c1.break_type() == c0.break_type()
    &&& c1.reg() == c0.reg()
}

/// What [`InferContext::bind_mono`] does: `c0` before, `c1` after.
pub open spec fn mono_bound(c0: InferContext, name: Seq<char>, ty: InferType, is_mutable: bool, c1: InferContext) -> bool {
    &&& c1.wf()
    &&& c1.mono_scopes() == c0.mono_scopes().update( c0.mono_scopes().len() - 1, c0.mono_scopes().last().insert(name, (ty, is_mutable)), )
    &&& c1.poly_scopes() == c0.poly_scopes()
    &&& c1.next_var() == c0.next_var()
    &&& c1.constraint_list() == c0.constraint_list()
    &&& c1.return_type() == c0.return_type()
    &&& c1.break_type() == c0.break_type()
    &&& c1.reg() == c0.reg()
}

/// What [`InferContext::bind_poly`] does: `c0` before, `c1` after.
pub open spec fn poly_bound(c0: InferContext, name: Seq<char>, scheme: TypeScheme, c1: InferContext) -> bool {
    &&& c1.wf()
    &&& c1.poly_scopes() == c0.poly_scopes().update( c0.poly_scopes().len() - 1, c0.poly_scopes().last().insert(name, scheme), )
    &&& c1.mono_scopes() == c0.mono_scopes()
    &&& c1.next_var() == c0.next_var()
    &&& c1.constraint_list() == c0.constraint_list()
    &&& c1.return_type() == c0.return_type()
    &&& c1.break_type() == c0.break_type()
    &&& c1.reg() == c0.reg()
}

/// What [`InferContext::fresh_var`] does: `c0` before, `c1` after.
pub open spec fn var_drawn(c0: InferContext, t: InferType, c1: InferContext) -> bool {
    &&& t@ == InferTypeView::Var(c0.next_var())
    &&& c1.next_var() == c0.next_var() + 1
    &&& c1.same_envs(&c0)
    &&& c1.wf() == c0.wf()
}

/// What [`InferContext::add_constraint`] does: `c0` before, `c1` after.
pub open spec fn constraint_added(c0: InferContext, lhs: InferTypeView, rhs: InferTypeView, span: Span, c1: InferContext) -> bool {
    &&& c1.constraint_list().len() == c0.constraint_list().len() + 1
    &&& c1.constraint_list().drop_last() == c0.constraint_list()
    &&& c1.constraint_list().last().lhs@ == lhs
    &&& c1.constraint_list().last().rhs@ == rhs
    &&& c1.constraint_list().last().span == span
    &&& c1.mono_scopes() == c0.mono_scopes()
    &&& c1.poly_scopes() == c0.poly_scopes()
    &&& c1.next_var() == c0.next_var()
    &&& c1.return_type() == c0.return_type()
    &&& c1.break_type() == c0.break_type()
    &&& c1.reg() == c0.reg()
    &&& c1.wf() == c0.wf()
}

/// What [`InferContext::push_struct_scope`] does: `c0` before, `c1` after.
pub open spec fn struct_scope_pushed(c0: InferContext, c1: InferContext) -> bool {
    &&& c1.wf()
    &&& c1.same_but_registry(&c0)
    &&& c1.reg().same_aspects(&c0.reg())
    &&& c1.reg().scopes() == c0.reg().scopes().push(Seq::empty())
    &&& c1.reg().structs() == c0.reg().structs()
    &&& c1.reg().struct_params() == c0.reg().struct_params()
    &&& forall|t: Seq<char>, m: Seq<char>| #[trigger] c1.reg().method(t, m) == c0.reg().method(t, m)
    &&& c1.reg().enums() == c0.reg().enums()
}

/// What [`InferContext::pop_struct_scope`] does: `c0` before, `c1` after.
pub open spec fn struct_scope_popped(c0: InferContext, c1: InferContext) -> bool {
    &&& c1.wf()
    &&& c1.same_but_registry(&c0)
    &&& c1.reg().same_aspects(&c0.reg())
    &&& c0.reg().scopes().len() > 0 ==> c1.reg().structs() == c0.reg().structs().remove_keys( names_of(c0.reg().scopes().last()), )
    &&& c0.reg().scopes().len() == 0 ==> c1.reg().structs() == c0.reg().structs()
    &&& c0.reg().scopes().len() == 0 ==> c1.reg().scopes() == c0.reg().scopes()
    &&& c0.reg().scopes().len() > 0 ==> c1.reg().scopes() == c0.reg().scopes().drop_last()
    &&& c1.reg().struct_params() == c0.reg().struct_params()
    &&& forall|t: Seq<char>, m: Seq<char>| #[trigger] c1.reg().method(t, m) == c0.reg().method(t, m)
    &&& c1.reg().enums() == c0.reg().enums()
}

/// What [`InferContext::register_struct_fields`] does: `c0` before, `c1` after.
pub open spec fn struct_registered(c0: InferContext, name: String, fields: Vec<(String, InferType)>, c1: InferContext) -> bool {
    &&& c1.wf()
    &&& c1.same_but_registry(&c0)
    &&& c1.reg().same_aspects(&c0.reg())
    &&& c1.reg().structs() == c0.reg().structs().insert(name@, fields)
    &&& c1.reg().struct_params() == c0.reg().struct_params()
    &&& c1.reg().enums() == c0.reg().enums()
    &&& c0.reg().scopes().len() == 0 ==> c1.reg().scopes() == c0.reg().scopes()
    &&& c0.reg().scopes().len() > 0 ==> c1.reg().scopes() == c0.reg().scopes().update( c0.reg().scopes().len() - 1, c0.reg().scopes().last().push(name), )
    &&& forall|t: Seq<char>, m: Seq<char>| #[trigger] c1.reg().method(t, m) == c0.reg().method(t, m)
}

/// What [`InferContext::register_enum`] does: `c0` before, `c1` after.
pub open spec fn enum_registered(c0: InferContext, name: String, info: EnumInfo, c1: InferContext) -> bool {
    &&& c1.wf()
    &&& c1.same_but_registry(&c0)
    &&& c1.reg().same_aspects(&c0.reg())
    &&& c1.reg().enums() == c0.reg().enums().insert(name@, info)
    &&& c1.reg().structs() == c0.reg().structs()
    &&& c1.reg().struct_params() == c0.reg().struct_params()
    &&& c1.reg().scopes() == c0.reg().scopes()
    &&& forall|t: Seq<char>, m: Seq<char>| #[trigger] c1.reg().method(t, m) == c0.reg().method(t, m)
}

/// What [`InferContext::push_return_type`] does: `c0` before, `c1` after.
pub open spec fn return_pushed(c0: InferContext, ty: InferType, prev: Option<InferType>, c1: InferContext) -> bool {
    &&& prev == c0.return_type()
    &&& c1.return_type() == Some(ty)
    &&& c1.mono_scopes() == c0.mono_scopes()
    &&& c1.poly_scopes() == c0.poly_scopes()
    &&& c1.next_var() == c0.next_var()
    &&& c1.constraint_list() == c0.constraint_list()
    &&& c1.break_type() == c0.break_type()
    &&& c1.reg() == c0.reg()
    &&& c1.wf() == c0.wf()
}

/// What [`InferContext::pop_return_type`] does: `c0` before, `c1` after.
pub open spec fn return_popped(c0: InferContext, prev: Option<InferType>, c1: InferContext) -> bool {
    &&& c1.return_type() == prev
    &&& c1.mono_scopes() == c0.mono_scopes()
    &&& c1.poly_scopes() == c0.poly_scopes()
    &&& c1.next_var() == c0.next_var()
    &&& c1.constraint_list() == c0.constraint_list()
    &&& c1.break_type() == c0.break_type()
    &&& c1.reg() == c0.reg()
    &&& c1.wf() == c0.wf()
}

/// What [`InferContext::push_break_type`] does: `c0` before, `c1` after.
pub open spec fn break_pushed(c0: InferContext, ty: InferType, prev: Option<InferType>, c1: InferContext) -> bool {
    &&& prev == c0.break_type()
    &&& c1.break_type() == Some(ty)
    &&& c1.mono_scopes() == c0.mono_scopes()
    &&& c1.poly_scopes() == c0.poly_scopes()
    &&& c1.next_var() == c0.next_var()
    &&& c1.constraint_list() == c0.constraint_list()
    &&& c1.return_type() == c0.return_type()
    &&& c1.reg() == c0.reg()
    &&& c1.wf() == c0.wf()
}

/// What [`InferContext::pop_break_type`] does: `c0` before, `c1` after.
pub open spec fn break_popped(c0: InferContext, prev: Option<InferType>, c1: InferContext) -> bool {
    &&& c1.break_type() == prev
    &&& c1.mono_scopes() == c0.mono_scopes()
    &&& c1.poly_scopes() == c0.poly_scopes()
    &&& c1.next_var() == c0.next_var()
    &&& c1.constraint_list() == c0.constraint_list()
    &&& c1.return_type() == c0.return_type()
    &&& c1.reg() == c0.reg()
    &&& c1.wf() == c0.wf()
}

/// State threaded through the entire AST walk during type inference.
///
/// `mono_env` is a scope stack: `push_scope`/`pop_scope` come in matched
/// pairs when entering and leaving lexical scopes; `poly_env` is scoped the
/// same way.
#[derive(Debug)]
pub struct InferContext {
    var_gen: TypeVarGenerator,
    mono_env: Vec<MonoScope>,
    poly_env: Vec<StrMap<TypeScheme>>,
    constraints: Vec<Constraint>,
    current_return_type: Option<InferType>,
    current_break_type: Option<InferType>,
    registry: TypeRegistry,
}

impl InferContext {
    /// Both scope stacks have the same depth, at least the root scope, and
    /// every map is well formed.
    pub closed spec fn wf(&self) -> bool {
        &&& self.mono_env@.len() == self.poly_env@.len()
        &&& self.mono_env@.len() >= 1
        &&& forall|i: int| 0 <= i < self.mono_env@.len() ==> (#[trigger] self.mono_env@[i]).wf()
        &&& forall|i: int| 0 <= i < self.poly_env@.len() ==> (#[trigger] self.poly_env@[i]).wf()
        &&& self.registry.wf()
    }

    /// A well-formed context has its root scopes, and as many polymorphic as
    /// monomorphic scopes.
    pub proof fn lemma_wf_scopes(&self)
        requires
            self.wf(),
        ensures
            self.mono_scopes().len() >= 1,
            self.poly_scopes().len() == self.mono_scopes().len(),
    {
    }

    /// The next id the context's generator hands out.
    pub closed spec fn next_var(&self) -> u32 {
        self.var_gen.next_id()
    }

    /// The monomorphic scopes, outermost first.
    pub closed spec fn mono_scopes(&self) -> Seq<Map<Seq<char>, (InferType, bool)>> {
        self.mono_env@.map_values(|m: MonoScope| m.view())
    }

    /// The polymorphic scopes, outermost first.
    pub closed spec fn poly_scopes(&self) -> Seq<Map<Seq<char>, TypeScheme>> {
        self.poly_env@.map_values(|m: StrMap<TypeScheme>| m.view())
    }

    /// The constraints recorded so far, in order.
    pub closed spec fn constraint_list(&self) -> Seq<Constraint> {
        self.constraints@
    }

    /// The expected return type of the innermost enclosing function.
    pub closed spec fn return_type(&self) -> Option<InferType> {
        self.current_return_type
    }

    /// The break-value type of the innermost enclosing loop.
    pub closed spec fn break_type(&self) -> Option<InferType> {
        self.current_break_type
    }

    /// The type registry.
    pub closed spec fn reg(&self) -> TypeRegistry {
        self.registry
    }

    /// Everything but the registry is the same in `self` and `other`.
    pub open spec fn same_but_registry(&self, other: &Self) -> bool {
        &&& self.next_var() == other.next_var()
        &&& self.mono_scopes() == other.mono_scopes()
        &&& self.poly_scopes() == other.poly_scopes()
        &&& self.constraint_list() == other.constraint_list()
        &&& self.return_type() == other.return_type()
        &&& self.break_type() == other.break_type()
    }

    /// The scopes, the constraints, and the return and break types are the same.
    pub open spec fn same_envs(&self, other: &Self) -> bool {
        &&& self.mono_scopes() == other.mono_scopes()
        &&& self.poly_scopes() == other.poly_scopes()
        &&& self.constraint_list() == other.constraint_list()
        &&& self.return_type() == other.return_type()
        &&& self.break_type() == other.break_type()
        &&& self.reg() == other.reg()
    }

    /// A context with a pre-built registry and a generator already advanced
    /// past all variables allocated while building the registry. The root
    /// scopes are open.
    pub fn new(registry: TypeRegistry, gen: TypeVarGenerator) -> (c: Self)
        requires
            registry.wf(),
        ensures
            c.wf(),
            c.next_var() == gen.next_id(),
            c.mono_scopes() == seq![Map::<Seq<char>, (InferType, bool)>::empty()],
            c.poly_scopes() == seq![Map::<Seq<char>, TypeScheme>::empty()],
            c.constraint_list() == Seq::<Constraint>::empty(),
            c.return_type() is None,
            c.break_type() is None,
            c.reg() == registry,
    {
        let mut mono_env: Vec<MonoScope> = Vec::new();
        mono_env.push(StrMap::new());
        let mut poly_env: Vec<StrMap<TypeScheme>> = Vec::new();
        poly_env.push(StrMap::new());
        let c = Self {
            var_gen: gen,
            mono_env,
            poly_env,
            constraints: Vec::new(),
            current_return_type: None,
            current_break_type: None,
            registry,
        };
        assert(c.mono_scopes() =~= seq![Map::<Seq<char>, (InferType, bool)>::empty()]);
        assert(c.poly_scopes() =~= seq![Map::<Seq<char>, TypeScheme>::empty()]);
        assert(c.constraint_list() =~= Seq::<Constraint>::empty());
        c
    }

    pub fn register_struct_fields(&mut self, name: String, fields: Vec<(String, InferType)>)
        requires
            old(self).wf(),
        ensures
            struct_registered(*old(self), name, fields, *final(self)),
    {
        self.registry.register_struct_fields(name, fields);
    }

    pub fn get_struct_type_params(&self, name: &str) -> (r: Option<&Vec<TypeVar>>)
        requires
            self.wf(),
        ensures
            r is Some <==> self.reg().struct_params().contains_key(name@),
            r matches Some(p) ==> *p == self.reg().struct_params()[name@],
    {
        self.registry.struct_type_params_for(name)
    }

    pub fn push_struct_scope(&mut self)
        requires
            old(self).wf(),
        ensures
            struct_scope_pushed(*old(self), *final(self)),
    {
        self.registry.push_struct_scope();
    }

    pub fn pop_struct_scope(&mut self)
        requires
            old(self).wf(),
        ensures
            struct_scope_popped(*old(self), *final(self)),
    {
        self.registry.pop_struct_scope();
    }

    pub fn register_method(&mut self, owner_name: String, method_name: String, fun_ty: InferType)
        requires
            old(self).wf(),
        ensures
            final(self).wf(),
            final(self).same_but_registry(old(self)),
            final(self).reg().same_aspects(&old(self).reg()),
            forall|t: Seq<char>, m: Seq<char>| #[trigger] final(self).reg().method(t, m) == if t == owner_name@ && m
                == method_name@ {
                Some(fun_ty)
            } else {
                old(self).reg().method(t, m)
            },
            final(self).reg().structs() == old(self).reg().structs(),
            final(self).reg().enums() == old(self).reg().enums(),
    {
        self.registry.register_method(owner_name, method_name, fun_ty);
    }

    pub fn get_struct_fields(&self, name: &str) -> (r: Option<&Vec<(String, InferType)>>)
        requires
            self.wf(),
        ensures
            r is Some <==> self.reg().structs().contains_key(name@),
            r matches Some(f) ==> *f == self.reg().structs()[name@],
    {
        self.registry.struct_fields(name)
    }

    pub fn get_method_type(&self, owner_name: &str, method_name: &str) -> (r: Option<&InferType>)
        requires
            self.wf(),
        ensures
            r is Some <==> self.reg().method(owner_name@, method_name@) is Some,
            r matches Some(t) ==> Some(*t) == self.reg().method(owner_name@, method_name@),
    {
        self.registry.method_type(owner_name, method_name)
    }

    pub fn register_enum(&mut self, name: String, info: EnumInfo)
        requires
            old(self).wf(),
        ensures
            enum_registered(*old(self), name, info, *final(self)),
    {
        self.registry.register_enum(name, info);
    }

    /// Declares aspect `name` with the given method names in the registry.
    pub fn register_aspect(&mut self, name: String, method_names: Vec<String>)
        requires
            old(self).wf(),
        ensures
            final(self).wf(),
            final(self).same_but_registry(old(self)),
            final(self).reg().aspects() == old(self).reg().aspects().insert(name@, method_names),
            final(self).reg().aspect_impl_list() == old(self).reg().aspect_impl_list(),
            final(self).reg().structs() == old(self).reg().structs(),
            forall|t: Seq<char>, m: Seq<char>| #[trigger] final(self).reg().method(t, m) == old(self).reg().method(t, m),
            final(self).reg().enums() == old(self).reg().enums(),
    {
        self.registry.register_aspect(name, method_names);
    }

    pub fn get_enum(&self, name: &str) -> (r: Option<&EnumInfo>)
        requires
            self.wf(),
        ensures
            r is Some <==> self.reg().enums().contains_key(name@),
            r matches Some(e) ==> *e == self.reg().enums()[name@],
    {
        self.registry.enum_info(name)
    }

    pub fn registry(&self) -> (r: &TypeRegistry)
        ensures
            *r == self.reg(),
    {
        &self.registry
    }

    /// A fresh type variable from the context's generator.
    pub fn fresh_type_var_raw(&mut self) -> (v: TypeVar)
        requires
            old(self).next_var() < u32::MAX,
        ensures
            v.0 == old(self).next_var(),
            final(self).next_var() == old(self).next_var() + 1,
            final(self).same_envs(old(self)),
            final(self).wf() == old(self).wf(),
    {
        self.var_gen.fresh()
    }

    /// A new generator whose counter starts immediately past all variables
    /// allocated by this context, for the next phase.
    pub fn split_gen(&self) -> (g: TypeVarGenerator)
        ensures
            g.next_id() == self.next_var(),
    {
        TypeVarGenerator::with_counter(self.var_gen.counter())
    }

    /// Enter a new lexical scope (e.g. a function body or block).
    pub fn push_scope(&mut self)
        requires
            old(self).wf(),
        ensures
            scope_pushed(*old(self), *final(self)),
    {
        self.mono_env.push(StrMap::new());
        self.poly_env.push(StrMap::new());
        assert(self.mono_scopes() =~= old(self).mono_scopes().push(Map::empty()));
        assert(self.poly_scopes() =~= old(self).poly_scopes().push(Map::empty()));
    }

    /// Exit the current lexical scope, discarding all bindings introduced in it.
    /// The root scope cannot be exited.
    pub fn pop_scope(&mut self)
        requires
            old(self).wf(),
            old(self).mono_scopes().len() > 1,
        ensures
            scope_popped(*old(self), *final(self)),
    {
        let _ = self.mono_env.pop();
        let _ = self.poly_env.pop();
        assert(self.mono_scopes() =~= old(self).mono_scopes().drop_last());
        assert(self.poly_scopes() =~= old(self).poly_scopes().drop_last());
    }

    /// A fresh type variable, as a type.
    pub fn fresh_var(&mut self) -> (t: InferType)
        requires
            old(self).next_var() < u32::MAX,
        ensures
            var_drawn(*old(self), t, *final(self)),
    {
        InferType::Var(self.var_gen.fresh())
    }

    /// Bind a name to a monomorphic type in the current scope.
    /// `is_mutable` is `true` for `mut` bindings, `false` for `let` bindings and parameters.
    pub fn bind_mono(&mut self, name: String, ty: InferType, is_mutable: bool)
        requires
            old(self).wf(),
        ensures
            mono_bound(*old(self), name@, ty, is_mutable, *final(self)),
    {
        let mut scope = self.mono_env.pop().unwrap();
        scope.insert(name, (ty, is_mutable));
        self.mono_env.push(scope);
        assert(self.mono_scopes() =~= old(self).mono_scopes().update(
            old(self).mono_scopes().len() - 1,
            old(self).mono_scopes().last().insert(name@, (ty, is_mutable)),
        ));
    }

    /// Bind a name to a polymorphic type scheme in the current scope.
    pub fn bind_poly(&mut self, name: String, scheme: TypeScheme)
        requires
            old(self).wf(),
        ensures
            poly_bound(*old(self), name@, scheme, *final(self)),
    {
        let mut scope = self.poly_env.pop().unwrap();
        scope.insert(name, scheme);
        self.poly_env.push(scope);
        assert(self.poly_scopes() =~= old(self).poly_scopes().update(
            old(self).poly_scopes().len() - 1,
            old(self).poly_scopes().last().insert(name@, scheme),
        ));
    }
}


impl InferContext {
    /// Look up a name, searching the scopes innermost first; within one scope
    /// a polymorphic binding takes precedence over a monomorphic one. A
    /// polymorphic binding is instantiated with fresh variables; a monomorphic
    /// one gives its type.
    pub fn lookup(&mut self, name: &str) -> (r: Option<InferType>)
        requires
            old(self).wf(),
            match find_binding(old(self).poly_scopes(), old(self).mono_scopes(), name@) {
                Some(ScopedBinding::Poly(sc)) => old(self).next_var() + sc.quantified_vars.len() <= u32::MAX
                    && terminates(inst_map(sc.quantified_vars@, old(self).next_var() as nat), sc.ty@),
                _ => true,
            },
        ensures
            final(self).wf(),
            final(self).same_envs(old(self)),
            match find_binding(old(self).poly_scopes(), old(self).mono_scopes(), name@) {
                Some(ScopedBinding::Poly(sc)) => r matches Some(t) && t@ == apply_spec(
                    inst_map(sc.quantified_vars@, old(self).next_var() as nat),
                    sc.ty@,
                ) && final(self).next_var() == old(self).next_var() + sc.quantified_vars.len(),
                Some(ScopedBinding::Mono(ty)) => r matches Some(t) && t@ == ty@
                    && final(self).next_var() == old(self).next_var(),
                None => r is None && final(self).next_var() == old(self).next_var(),
            },
    {
        let ghost ps = self.poly_scopes();
        let ghost ms = self.mono_scopes();
        let mut i: usize = self.poly_env.len();
        assert(ps.take(ps.len() as int) =~= ps);
        assert(ms.take(ms.len() as int) =~= ms);
        while i > 0
            invariant
                i <= self.poly_env@.len(),
                *self == *old(self),
                self.wf(),
                match find_binding(ps, ms, name@) {
                    Some(ScopedBinding::Poly(sc)) => old(self).next_var() + sc.quantified_vars.len() <= u32::MAX
                        && terminates(inst_map(sc.quantified_vars@, old(self).next_var() as nat), sc.ty@),
                    _ => true,
                },
                ps == self.poly_scopes(),
                ms == self.mono_scopes(),
                ps.len() == self.poly_env@.len(),
                ms.len() == ps.len(),
                find_binding(ps, ms, name@) == find_binding(ps.take(i as int), ms.take(i as int), name@),
            decreases i,
        {
            let ghost pt = ps.take(i as int);
            let ghost mt = ms.take(i as int);
            i = i - 1;
            assert(ps[i as int] == self.poly_env@[i as int].view());
            assert(ms[i as int] == self.mono_env@[i as int].view());
            assert(pt.last() == ps[i as int]);
            assert(mt.last() == ms[i as int]);
            if let Some(scheme) = self.poly_env[i].get(name) {
                let sc = scheme.clone();
                assert(find_binding(ps, ms, name@) == Some(ScopedBinding::Poly(*scheme)));
                let t = instantiate(&sc, &mut self.var_gen);
                return Some(t);
            }
            if let Some(entry) = self.mono_env[i].get(name) {
                assert(find_binding(ps, ms, name@) == Some(ScopedBinding::Mono(entry.0)));
                return Some(clone_infer(&entry.0));
            }
            assert(pt.drop_last() =~= ps.take(i as int));
            assert(mt.drop_last() =~= ms.take(i as int));
        }
        assert(find_binding(ps.take(0), ms.take(0), name@) is None);
        None
    }

    /// Look up a name for writing (assignment): its monomorphic type, when the
    /// innermost binding is mutable. Errors: `T0003` if the name is not in
    /// scope, `T0006` if the binding is immutable (`let` or parameter).
    pub fn lookup_for_write(&self, name: &str, span: &Span) -> (r: Result<InferType, GustError>)
        requires
            self.wf(),
        ensures
            match find_scoped(self.mono_scopes(), name@) {
                None => r matches Err(e) && is_type_error(
                    e,
                    TypeErrorCode::T0003,
                    "use of undeclared variable `"@ + name@ + "`"@,
                    *span,
                ),
                Some(entry) => if entry.1 {
                    r matches Ok(t) && t@ == entry.0@
                } else {
                    r matches Err(e) && is_type_error(
                        e,
                        TypeErrorCode::T0006,
                        "cannot assign to immutable binding `"@ + name@ + "`"@,
                        *span,
                    )
                },
            },
    {
        let ghost ms = self.mono_scopes();
        let mut j: usize = self.mono_env.len();
        while j > 0
            invariant
                j <= self.mono_env@.len(),
                self.wf(),
                ms == self.mono_scopes(),
                ms.len() == self.mono_env@.len(),
                forall|k: int| j <= k < ms.len() ==> !(#[trigger] ms[k]).contains_key(name@),
            decreases j,
        {
            j = j - 1;
            assert(ms[j as int] == self.mono_env@[j as int].view());
            if let Some(entry) = self.mono_env[j].get(name) {
                proof {
                    lemma_find_scoped_prefix(ms, name@, j as int + 1);
                    assert(ms.take(j as int + 1).last() == ms[j as int]);
                }
                if entry.1 {
                    return Ok(clone_infer(&entry.0));
                } else {
                    let mut msg = String::new();
                    push_str(&mut msg, "cannot assign to immutable binding `");
                    push_str(&mut msg, name);
                    push_str(&mut msg, "`");
                    assert(msg@ =~= "cannot assign to immutable binding `"@ + name@ + "`"@);
                    return Err(GustError::type_error(TypeErrorCode::T0006, msg, span));
                }
            }
        }
        proof {
            lemma_find_scoped_prefix(ms, name@, 0);
        }
        let mut msg = String::new();
        push_str(&mut msg, "use of undeclared variable `");
        push_str(&mut msg, name);
        push_str(&mut msg, "`");
        assert(msg@ =~= "use of undeclared variable `"@ + name@ + "`"@);
        Err(GustError::type_error(TypeErrorCode::T0003, msg, span))
    }

    /// All type variables that appear free across the current mono scopes.
    /// Pass this to `generalize()` to avoid capturing variables still being solved.
    pub fn env_free_vars(&self) -> (r: HashSet<u32>)
        requires
            self.wf(),
        ensures
            forall|v: u32| #[trigger] r@.contains(v) <==> exists|i: int, k: Seq<char>|
                0 <= i < self.mono_scopes().len() && #[trigger] self.mono_scopes()[i].contains_key(k)
                    && fv(self.mono_scopes()[i][k].0@).contains(v),
    {
        let ghost ms = self.mono_scopes();
        let mut acc: HashSet<u32> = HashSet::new();
        let mut i: usize = 0;
        while i < self.mono_env.len()
            invariant
                i <= self.mono_env@.len(),
                self.wf(),
                ms == self.mono_scopes(),
                ms.len() == self.mono_env@.len(),
                forall|v: u32| #[trigger] acc@.contains(v) <==> exists|a: int, k: Seq<char>|
                    0 <= a < i && #[trigger] ms[a].contains_key(k) && fv(ms[a][k].0@).contains(v),
            decreases self.mono_env.len() - i,
        {
            let scope = &self.mono_env[i];
            assert(ms[i as int] == scope.view());
            proof { scope.lemma_keys(); }
            let mut e: usize = 0;
            while e < scope.len()
                invariant
                    i < self.mono_env@.len(),
                    scope == &self.mono_env@[i as int],
                    scope.wf(),
                    ms[i as int] == scope.view(),
                    e <= scope.keys_seq().len(),
                    scope.keys_seq().no_duplicates(),
                    forall|k: Seq<char>| #[trigger] scope.view().contains_key(k) <==> scope.keys_seq().contains(k),
                    forall|v: u32| #[trigger] acc@.contains(v) <==> (exists|a: int, k: Seq<char>|
                        0 <= a < i && #[trigger] ms[a].contains_key(k) && fv(ms[a][k].0@).contains(v)) || (exists|b: int|
                        0 <= b < e && fv(ms[i as int][#[trigger] scope.keys_seq()[b]].0@).contains(v)),
                decreases scope.keys_seq().len() - e,
            {
                let (_, entry) = scope.entry(e);
                let ghost before = acc@;
                collect_free_vars(&entry.0, &mut acc);
                proof {
                    assert forall|v: u32| #[trigger] acc@.contains(v) <==> (exists|a: int, k: Seq<char>|
                        0 <= a < i && #[trigger] ms[a].contains_key(k) && fv(ms[a][k].0@).contains(v)) || (exists|b: int|
                        0 <= b < e + 1 && fv(ms[i as int][#[trigger] scope.keys_seq()[b]].0@).contains(v)) by {
                        if fv(entry.0@).contains(v) {
                            assert(fv(ms[i as int][scope.keys_seq()[e as int]].0@).contains(v));
                        }
                        if exists|b: int| 0 <= b < e + 1 && fv(ms[i as int][#[trigger] scope.keys_seq()[b]].0@).contains(v) {
                            let b = choose|b: int| 0 <= b < e + 1 && fv(ms[i as int][#[trigger] scope.keys_seq()[b]].0@).contains(v);
                            if b == e {
                                assert(fv(entry.0@).contains(v));
                            }
                        }
                    }
                }
                e += 1;
            }
            proof {
                assert forall|v: u32| #[trigger] acc@.contains(v) <==> exists|a: int, k: Seq<char>|
                    0 <= a < i + 1 && #[trigger] ms[a].contains_key(k) && fv(ms[a][k].0@).contains(v) by {
                    if exists|b: int| 0 <= b < scope.keys_seq().len() && fv(ms[i as int][#[trigger] scope.keys_seq()[b]].0@).contains(v) {
                        let b = choose|b: int| 0 <= b < scope.keys_seq().len() && fv(ms[i as int][#[trigger] scope.keys_seq()[b]].0@).contains(v);
                        assert(ms[i as int].contains_key(scope.keys_seq()[b]));
                    }
                    if exists|a: int, k: Seq<char>| 0 <= a < i + 1 && #[trigger] ms[a].contains_key(k) && fv(ms[a][k].0@).contains(v) {
                        let (a, k) = choose|a: int, k: Seq<char>| 0 <= a < i + 1 && #[trigger] ms[a].contains_key(k) && fv(ms[a][k].0@).contains(v);
                        if a == i {
                            assert(scope.keys_seq().contains(k));
                            let b = choose|b: int| 0 <= b < scope.keys_seq().len() && scope.keys_seq()[b] == k;
                            assert(fv(ms[i as int][scope.keys_seq()[b]].0@).contains(v));
                        }
                    }
                }
            }
            i += 1;
        }
        acc
    }

    /// Record that `lhs` and `rhs` must unify, tagged with its source location.
    pub fn add_constraint(&mut self, lhs: InferType, rhs: InferType, span: Span)
        ensures
            constraint_added(*old(self), lhs@, rhs@, span, *final(self)),
    {
        self.constraints.push(Constraint::new(lhs, rhs, span));
        assert(self.constraint_list().drop_last() =~= old(self).constraint_list());
    }

    /// Solve all accumulated constraints and return the resulting substitution:
    /// on success it satisfies every constraint; on failure the error is a
    /// type error at the span of the first constraint that could not be met.
    /// Solving fails only when no substitution makes the two sides of every
    /// constraint equal; otherwise the result is at least as general as each
    /// such substitution.
    pub fn solve(&self) -> (r: Result<Substitution, GustError>)
        ensures
            r matches Ok(s) ==> idempotent(s@) && satisfies_all(s@, self.constraint_list()),
            forall|m: Map<u32, InferTypeView>| #[trigger] equates_all(m, self.constraint_list()) ==> (r matches Ok(s)
                && absorbs(m, s@)),
            match solve_spec(self.constraint_list()) {
                Ok(m) => r matches Ok(s) && s@ == m,
                Err(f) => r matches Err(e) && solve_error(e, self.constraint_list(), f),
            },
            r matches Err(e) ==> exists|k: int, m: Map<u32, InferTypeView>|
                0 <= k < self.constraint_list().len() && idempotent(m) && #[trigger] satisfies_prefix(
                    m,
                    self.constraint_list(),
                    k,
                ) && is_type_error(
                    e,
                    TypeErrorCode::T0001,
                    mismatch_text(
                        super::model::subst1(m, self.constraint_list()[k].lhs@),
                        super::model::subst1(m, self.constraint_list()[k].rhs@),
                    ),
                    self.constraint_list()[k].span,
                ),
            r is Err ==> (solve_spec(self.constraint_list()) matches Err(f) && forall|m: Map<u32, InferTypeView>|
                !#[trigger] equates_all(m, self.constraint_list().take(f.0 + 1))),
    {
        let mut copy: Vec<Constraint> = Vec::new();
        let mut i: usize = 0;
        while i < self.constraints.len()
            invariant
                i <= self.constraints@.len(),
                copy@.len() == i,
                forall|j: int| 0 <= j < i ==> (#[trigger] copy@[j]).lhs@ == self.constraints@[j].lhs@
                    && copy@[j].rhs@ == self.constraints@[j].rhs@ && copy@[j].span.start == self.constraints@[j].span.start
                    && copy@[j].span.end == self.constraints@[j].span.end
                    && copy@[j].span.filename@ == self.constraints@[j].span.filename@
                    && copy@[j].span.line == self.constraints@[j].span.line
                    && copy@[j].span.col == self.constraints@[j].span.col,
            decreases self.constraints.len() - i,
        {
            copy.push(self.constraints[i].clone());
            i += 1;
        }
        let ghost cs = copy@;
        let r = solve_constraints(copy);
        proof {
            lemma_solve_sides(cs, self.constraint_list());
            lemma_solve_index(cs);
            if let Err(f) = solve_spec(cs) {
                assert(cs[f.0].span.start == self.constraint_list()[f.0].span.start);
                assert(cs[f.0].span.filename@ == self.constraint_list()[f.0].span.filename@);
                assert(cs[f.0].lhs@ == self.constraint_list()[f.0].lhs@);
            }
            if r is Err {
                let f = solve_spec(cs)->Err_0;
                let cl = self.constraint_list();
                assert forall|m: Map<u32, InferTypeView>| !#[trigger] equates_all(m, cl.take(f.0 + 1)) by {
                    if equates_all(m, cl.take(f.0 + 1)) {
                        assert forall|j: int| 0 <= j < f.0 + 1 implies #[trigger] subst1(m, cs.take(f.0 + 1)[j].lhs@) == subst1(
                            m,
                            cs.take(f.0 + 1)[j].rhs@,
                        ) by {
                            assert(cs.take(f.0 + 1)[j] == cs[j]);
                            assert(cl.take(f.0 + 1)[j] == cl[j]);
                            assert(subst1(m, cl.take(f.0 + 1)[j].lhs@) == subst1(m, cl.take(f.0 + 1)[j].rhs@));
                        }
                        assert(equates_all(m, cs.take(f.0 + 1)));
                    }
                }
            }
            assert forall|m: Map<u32, InferTypeView>| #[trigger] equates_all(m, self.constraint_list()) implies equates_all(m, cs) by {
                assert forall|j: int| 0 <= j < cs.len() implies #[trigger] subst1(m, cs[j].lhs@) == subst1(m, cs[j].rhs@) by {
                    assert(subst1(m, self.constraint_list()[j].lhs@) == subst1(m, self.constraint_list()[j].rhs@));
                }
            }
            if let Err(e) = &r {
                let (k, m) = choose|k: int, m: Map<u32, InferTypeView>|
                    0 <= k < cs.len() && idempotent(m) && #[trigger] satisfies_prefix(m, cs, k) && is_type_error(
                        *e,
                        TypeErrorCode::T0001,
                        mismatch_text(super::model::subst1(m, cs[k].lhs@), super::model::subst1(m, cs[k].rhs@)),
                        cs[k].span,
                    );
                assert(satisfies_prefix(m, self.constraint_list(), k)) by {
                    assert forall|j: int| 0 <= j < k implies #[trigger] super::model::compat(
                        super::model::subst1(m, self.constraint_list()[j].lhs@),
                        super::model::subst1(m, self.constraint_list()[j].rhs@),
                    ) by {
                        assert(super::model::compat(super::model::subst1(m, cs[j].lhs@), super::model::subst1(m, cs[j].rhs@)));
                    }
                }
            }
            if let Ok(s) = &r {
                assert forall|j: int| 0 <= j < self.constraint_list().len() implies #[trigger] super::model::compat(
                    apply_spec(s@, self.constraint_list()[j].lhs@),
                    apply_spec(s@, self.constraint_list()[j].rhs@),
                ) by {
                    assert(super::model::compat(apply_spec(s@, cs[j].lhs@), apply_spec(s@, cs[j].rhs@)));
                }
            }
        }
        r
    }

    /// Set the expected return type for the current function, returning the previous value.
    pub fn push_return_type(&mut self, ty: InferType) -> (prev: Option<InferType>)
        ensures
            return_pushed(*old(self), ty, prev, *final(self)),
    {
        let mut prev = Some(ty);
        std::mem::swap(&mut self.current_return_type, &mut prev);
        prev
    }

    /// Restore the return type context after leaving a function body.
    pub fn pop_return_type(&mut self, prev: Option<InferType>)
        ensures
            return_popped(*old(self), prev, *final(self)),
    {
        self.current_return_type = prev;
    }

    /// The expected return type of the innermost enclosing function, if any.
    pub fn current_return_type(&self) -> (r: Option<&InferType>)
        ensures
            r is Some <==> self.return_type() is Some,
            r matches Some(t) ==> Some(*t) == self.return_type(),
    {
        self.current_return_type.as_ref()
    }

    /// Set the break-value type for the current loop, returning the previous value.
    pub fn push_break_type(&mut self, ty: InferType) -> (prev: Option<InferType>)
        ensures
            break_pushed(*old(self), ty, prev, *final(self)),
    {
        let mut prev = Some(ty);
        std::mem::swap(&mut self.current_break_type, &mut prev);
        prev
    }

    /// Restore the break-value type after leaving a loop.
    pub fn pop_break_type(&mut self, prev: Option<InferType>)
        ensures
            break_popped(*old(self), prev, *final(self)),
    {
        self.current_break_type = prev;
    }

    /// The break-value type of the innermost enclosing loop, if any.
    pub fn current_break_type(&self) -> (r: Option<&InferType>)
        ensures
            r is Some <==> self.break_type() is Some,
            r matches Some(t) ==> Some(*t) == self.break_type(),
    {
        self.current_break_type.as_ref()
    }
}

impl Default for InferContext {
    fn default() -> (c: Self)
        ensures
            c.wf(),
            c.next_var() == 0,
            c.mono_scopes() == seq![Map::<Seq<char>, (InferType, bool)>::empty()],
            c.poly_scopes() == seq![Map::<Seq<char>, TypeScheme>::empty()],
            c.constraint_list() == Seq::<Constraint>::empty(),
            c.return_type() is None,
            c.break_type() is None,
    {
        Self::new(TypeRegistry::new(), TypeVarGenerator::new())
    }
}

} // verus!
