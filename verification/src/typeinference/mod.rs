//! The Hindley–Milner inference engine: type variables, inference types,
//! substitutions, unification, constraint solving and type schemes.

pub mod model;
pub mod registry;
pub mod context;
pub mod laws;
pub mod generality;

pub use registry::{EnumInfo, TypeRegistry, VariantInfo};
pub use context::InferContext;

use vstd::prelude::*;
use std::collections::{HashMap, HashSet};
use vstd::std_specs::hash::{spec_hash_map_iter, spec_hash_keys_iter};
use vstd::std_specs::iter::IteratorSpec;

use crate::text::{push_decimal, push_str, decimal};
use crate::types::{Type, TypeView, clone_type, type_eq, type_text, write_type};
use crate::ast::Span;
use crate::error::{GustError, InternalErrorCode, TypeErrorCode, is_internal, is_type_error};
use generality::{absorbs, unifies_all, lemma_absorbs_compose, lemma_absorbs_empty, lemma_absorbs_single, lemma_occurs_no_unifier, lemma_unifies_elements};
use model::{InferTypeView, compose_spec, compat_seq, subst1, subst1_seq, fv, fv_seq, size, size_seq, lemma_fv_finite, lemma_fv_seq_finite, lemma_apply_empty, lemma_subset_len, lemma_apply_idempotent, lemma_apply_unbound, lemma_compat_refl, lemma_compat_subst1, lemma_compat_subst1_seq, lemma_compat_seq, lemma_compose_subst1, lemma_compose_subst1_seq, lemma_compose_idempotent, lemma_compose_within, lemma_compose_empty, lemma_subst1_within, lemma_subst1_resolves, lemma_subst1_seq, lemma_vars_shrink, lemma_size_seq_elem, occurs, occurs_seq, lemma_occurs_seq, idempotent, vars_within, pair_vars, compat, apply_f, apply_seq_f, apply_spec, terminates, lemma_apply_seq_f, lemma_apply_spec, never_free, never_free_seq, ranges_never_free, lemma_subst1_never_free, lemma_compose_never_free, lemma_never_free_seq_index, lemma_compat_never_free, closure, lemma_apply_closure};

verus! {

broadcast use vstd::std_specs::hash::group_hash_axioms;

// ── Type variables ────────────────────────────────────────────────────────────

/// A type variable representing an unknown type during inference.
/// Each type variable has a unique id.
#[derive(Debug, Clone, Copy, PartialEq, Eq, Structural, Hash, PartialOrd, Ord)]
pub struct TypeVar(pub u32);

/// Counter for generating fresh type variables.
///
/// `TypeVar` equality means identity, so all generators within one type-check
/// run must be coordinated: a new generator starts past the highest counter
/// value produced by any earlier one (see [`InferContext::split_gen`]).
#[derive(Debug)]
pub struct TypeVarGenerator {
    counter: u32,
}

impl TypeVarGenerator {
    /// The next id this generator hands out.
    pub closed spec fn next_id(&self) -> u32 {
        self.counter
    }

    /// Create a new type variable generator, starting at id 0.
    pub fn new() -> (g: Self)
        ensures
            g.next_id() == 0,
    {
        TypeVarGenerator { counter: 0 }
    }

    /// A generator that starts at id `start`.
    pub fn with_counter(start: u32) -> (g: Self)
        ensures
            g.next_id() == start,
    {
        TypeVarGenerator { counter: start }
    }

    /// Generate a fresh type variable: the current counter, which then advances by one.
    pub fn fresh(&mut self) -> (v: TypeVar)
        requires
            old(self).next_id() < u32::MAX,
        ensures
            var_fresh(*old(self), v, *final(self)),
    {
        let var = TypeVar(self.counter);
        self.counter = self.counter + 1;
        var
    }

    /// The current counter state.
    pub fn counter(&self) -> (c: u32)
        ensures
            c == self.next_id(),
    {
        self.counter
    }
}

/// What [`TypeVarGenerator::fresh`] does: `g0` before, `g1` after, `v` drawn.
pub open spec fn var_fresh(g0: TypeVarGenerator, v: TypeVar, g1: TypeVarGenerator) -> bool {
    v.0 == g0.next_id() && g1.next_id() == g0.next_id() + 1
}

impl Default for TypeVarGenerator {
    fn default() -> (g: Self)
        ensures
            g.next_id() == 0,
    {
        Self::new()
    }
}

// ── Inference types ───────────────────────────────────────────────────────────

/// A type that may contain unresolved type variables.
/// Distinct from [`Type`], which is fully resolved and contains no variables.
#[derive(Debug, PartialEq)]
pub enum InferType {
    /// A fully resolved concrete type.
    Concrete(Type),
    /// An unknown type represented by a type variable.
    Var(TypeVar),
    /// The bottom type `!`, produced by diverging expressions. Unifies with any type.
    Never,
    /// A function type with parameter types and a return type.
    Fun(Vec<InferType>, Box<InferType>),
    /// A tuple type.
    Tuple(Vec<InferType>),
    /// A homogeneous array type.
    Array(Box<InferType>),
    /// A named type (struct, enum) with type arguments.
    Named(String, Vec<InferType>),
}

pub open spec fn infer_model(t: &InferType) -> InferTypeView
    decreases t, 0nat,
{
    match t {
        InferType::Concrete(c) => InferTypeView::Concrete(c@),
        InferType::Var(v) => InferTypeView::Var(v.0),
        InferType::Never => InferTypeView::Never,
        InferType::Fun(ps, r) => InferTypeView::Fun(infers_model(ps@), Box::new(infer_model(r))),
        InferType::Tuple(ts) => InferTypeView::Tuple(infers_model(ts@)),
        InferType::Array(e) => InferTypeView::Array(Box::new(infer_model(e))),
        InferType::Named(n, args) => InferTypeView::Named(n@, infers_model(args@)),
    }
}

pub open spec fn infers_model(s: Seq<InferType>) -> Seq<InferTypeView>
    decreases s, 1nat,
{
    if s.len() == 0 {
        Seq::empty()
    } else {
        infers_model(s.drop_last()).push(infer_model(&s.last()))
    }
}

impl View for InferType {
    type V = InferTypeView;

    open spec fn view(&self) -> InferTypeView {
        infer_model(self)
    }
}

pub proof fn lemma_infers_model(s: Seq<InferType>)
    ensures
        infers_model(s).len() == s.len(),
        forall|i: int| 0 <= i < s.len() ==> #[trigger] infers_model(s)[i] == infer_model(&s[i]),
    decreases s.len(),
{
    if s.len() > 0 {
        lemma_infers_model(s.drop_last());
    }
}

pub proof fn lemma_infers_model_push(s: Seq<InferType>, t: InferType)
    ensures
        infers_model(s.push(t)) == infers_model(s).push(infer_model(&t)),
{
    assert(s.push(t).drop_last() =~= s);
}

pub proof fn lemma_infers_model_take(s: Seq<InferType>, i: int)
    requires
        0 <= i < s.len(),
    ensures
        infers_model(s.take(i + 1)) == infers_model(s.take(i)).push(infer_model(&s[i])),
{
    assert(s.take(i + 1).drop_last() =~= s.take(i));
}

impl InferType {
    /// The concrete `Int` type.
    pub fn integer() -> (t: Self)
        ensures
            t@ == InferTypeView::Concrete(TypeView::Int),
    {
        InferType::Concrete(Type::Int)
    }

    pub fn float() -> (t: Self)
        ensures
            t@ == InferTypeView::Concrete(TypeView::Float),
    {
        InferType::Concrete(Type::Float)
    }

    pub fn bool() -> (t: Self)
        ensures
            t@ == InferTypeView::Concrete(TypeView::Bool),
    {
        InferType::Concrete(Type::Bool)
    }

    pub fn str() -> (t: Self)
        ensures
            t@ == InferTypeView::Concrete(TypeView::Str),
    {
        InferType::Concrete(Type::Str)
    }

    pub fn unit() -> (t: Self)
        ensures
            t@ == InferTypeView::Concrete(TypeView::Unit),
    {
        InferType::Concrete(Type::Unit)
    }

    pub fn never() -> (t: Self)
        ensures
            t@ == InferTypeView::Never,
    {
        InferType::Never
    }

    pub fn var(v: TypeVar) -> (t: Self)
        ensures
            t@ == InferTypeView::Var(v.0),
    {
        InferType::Var(v)
    }
}

/// Clones an inference type.
pub fn clone_infer(t: &InferType) -> (r: InferType)
    ensures
        r@ == t@,
    decreases t, 0nat,
{
    match t {
        InferType::Concrete(c) => InferType::Concrete(clone_type(c)),
        InferType::Var(v) => InferType::Var(*v),
        InferType::Never => InferType::Never,
        InferType::Fun(ps, r) => InferType::Fun(clone_infers(ps), Box::new(clone_infer(r))),
        InferType::Tuple(ts) => InferType::Tuple(clone_infers(ts)),
        InferType::Array(e) => InferType::Array(Box::new(clone_infer(e))),
        InferType::Named(n, args) => InferType::Named(n.clone(), clone_infers(args)),
    }
}

/// Clones a vector of inference types.
pub fn clone_infers(ts: &Vec<InferType>) -> (r: Vec<InferType>)
    ensures
        infers_model(r@) == infers_model(ts@),
        r.len() == ts.len(),
    decreases ts, 1nat,
{
    let mut r: Vec<InferType> = Vec::new();
    let mut i: usize = 0;
    while i < ts.len()
        invariant
            i <= ts.len(),
            r.len() == i,
            infers_model(r@) == infers_model(ts@.take(i as int)),
        decreases ts.len() - i,
    {
        let c = clone_infer(&ts[i]);
        proof {
            lemma_infers_model_take(ts@, i as int);
            lemma_infers_model_push(r@, c);
        }
        r.push(c);
        i += 1;
    }
    assert(ts@.take(ts.len() as int) =~= ts@);
    r
}

impl Clone for InferType {
    fn clone(&self) -> (r: Self)
        ensures
            r@ == self@,
    {
        clone_infer(self)
    }
}

// ── Rendering ─────────────────────────────────────────────────────────────────

/// The rendering of a type variable: `?t` followed by its id.
pub open spec fn var_text(v: u32) -> Seq<char> {
    "?t"@ + decimal(v as nat)
}

/// The rendering of an inference type, as printed in messages.
pub open spec fn infer_text(t: InferTypeView) -> Seq<char>
    decreases t, 0nat,
{
    match t {
        InferTypeView::Concrete(c) => type_text(c),
        InferTypeView::Var(v) => var_text(v),
        InferTypeView::Never => "!"@,
        InferTypeView::Fun(ps, r) => "fun("@ + infers_text(ps) + ") -> "@ + infer_text(*r),
        InferTypeView::Tuple(ts) => "("@ + infers_text(ts) + ")"@,
        InferTypeView::Array(e) => infer_text(*e) + "[]"@,
        InferTypeView::Named(n, args) => if args.len() == 0 {
            n
        } else {
            n + "<"@ + infers_text(args) + ">"@
        },
    }
}

/// The renderings of a sequence of inference types, separated by `, `.
pub open spec fn infers_text(s: Seq<InferTypeView>) -> Seq<char>
    decreases s, 1nat,
{
    if s.len() == 0 {
        Seq::empty()
    } else if s.len() == 1 {
        infer_text(s[0])
    } else {
        infers_text(s.drop_last()) + ", "@ + infer_text(s.last())
    }
}

/// Appends the rendering of a type variable to `out`.
pub fn write_var(v: TypeVar, out: &mut String)
    ensures
        final(out)@ == old(out)@ + var_text(v.0),
{
    let ghost o = out@;
    push_str(out, "?t");
    push_decimal(out, v.0 as u64);
    assert(out@ =~= o + var_text(v.0));
}

/// Appends the rendering of `t` to `out`.
pub fn write_infer(t: &InferType, out: &mut String)
    ensures
        final(out)@ == old(out)@ + infer_text(t@),
    decreases t, 0nat,
{
    let ghost o = out@;
    match t {
        InferType::Concrete(c) => write_type(c, out),
        InferType::Var(v) => write_var(*v, out),
        InferType::Never => push_str(out, "!"),
        InferType::Fun(ps, r) => {
            push_str(out, "fun(");
            write_infers(ps, out);
            push_str(out, ") -> ");
            write_infer(r, out);
        },
        InferType::Tuple(ts) => {
            push_str(out, "(");
            write_infers(ts, out);
            push_str(out, ")");
        },
        InferType::Array(e) => {
            write_infer(e, out);
            push_str(out, "[]");
        },
        InferType::Named(n, args) => {
            push_str(out, n.as_str());
            proof { lemma_infers_model(args@); }
            if args.len() != 0 {
                push_str(out, "<");
                write_infers(args, out);
                push_str(out, ">");
            }
        },
    }
    assert(out@ =~= o + infer_text(t@));
}

/// Appends the renderings of `ts`, separated by `, `, to `out`.
pub fn write_infers(ts: &Vec<InferType>, out: &mut String)
    ensures
        final(out)@ == old(out)@ + infers_text(infers_model(ts@)),
    decreases ts, 1nat,
{
    let ghost o = out@;
    let mut i: usize = 0;
    while i < ts.len()
        invariant
            i <= ts.len(),
            out@ == o + infers_text(infers_model(ts@.take(i as int))),
        decreases ts.len() - i,
    {
        proof {
            lemma_infers_model_take(ts@, i as int);
            lemma_infers_model(ts@.take(i as int));
            let m = infers_model(ts@.take(i as int));
            assert(m.push(infer_model(&ts@[i as int])).drop_last() =~= m);
        }
        if i != 0 {
            push_str(out, ", ");
        }
        write_infer(&ts[i], out);
        proof {
            let m = infers_model(ts@.take(i as int));
            if i == 0 {
                assert(out@ =~= o + infers_text(m.push(infer_model(&ts@[0]))));
            } else {
                assert(out@ =~= o + infers_text(m.push(infer_model(&ts@[i as int]))));
            }
        }
        i += 1;
    }
    assert(ts@.take(ts.len() as int) =~= ts@);
}

impl TypeVar {
    /// The rendering of this type variable, as `Display` would print it.
    pub fn to_display_string(&self) -> (s: String)
        ensures
            s@ == var_text(self.0),
    {
        let mut s = String::new();
        write_var(*self, &mut s);
        assert(s@ =~= var_text(self.0));
        s
    }
}

impl InferType {
    /// The rendering of this type, as `Display` would print it.
    pub fn to_display_string(&self) -> (s: String)
        ensures
            s@ == infer_text(self@),
    {
        let mut s = String::new();
        write_infer(self, &mut s);
        assert(s@ =~= infer_text(self@));
        s
    }
}


// ── Substitution ──────────────────────────────────────────────────────────────

/// A map from type variables to their resolved `InferType`s.
/// The right-hand side may still contain variables — `apply` chases them transitively.
#[derive(Debug)]
pub struct Substitution {
    bindings: HashMap<u32, InferType>,
}

impl View for Substitution {
    type V = Map<u32, InferTypeView>;

    closed spec fn view(&self) -> Map<u32, InferTypeView> {
        self.bindings@.map_values(|t: InferType| t@)
    }
}

impl Substitution {
    /// The empty substitution.
    pub fn new() -> (s: Self)
        ensures
            s@ == Map::<u32, InferTypeView>::empty(),
    {
        let s = Substitution { bindings: HashMap::new() };
        assert(s@ =~= Map::<u32, InferTypeView>::empty());
        s
    }

    /// Record that `var` maps to `ty` (replacing any earlier binding of `var`).
    pub fn bind(&mut self, var: TypeVar, ty: InferType)
        ensures
            final(self)@ == old(self)@.insert(var.0, ty@),
    {
        self.bindings.insert(var.0, ty);
        assert(self@ =~= old(self)@.insert(var.0, ty@));
    }

    /// Look up the direct binding for `var`, if any.
    pub fn lookup(&self, var: TypeVar) -> (r: Option<&InferType>)
        ensures
            r is Some <==> self@.contains_key(var.0),
            r matches Some(t) ==> t@ == self@[var.0],
    {
        self.bindings.get(&var.0)
    }

    fn contains(&self, v: u32) -> (r: bool)
        ensures
            r == self@.contains_key(v),
    {
        self.bindings.contains_key(&v)
    }

    fn apply_fuel(&self, ty: &InferType, Ghost(fuel): Ghost<nat>) -> (r: InferType)
        requires
            apply_f(self@, ty@, fuel) is Some,
        ensures
            apply_f(self@, ty@, fuel) == Some(r@),
        decreases fuel, ty, 0nat,
    {
        match ty {
            InferType::Concrete(c) => InferType::Concrete(clone_type(c)),
            InferType::Never => InferType::Never,
            InferType::Var(v) => match self.bindings.get(&v.0) {
                Some(resolved) => self.apply_fuel(resolved, Ghost((fuel - 1) as nat)),
                None => InferType::Var(*v),
            },
            InferType::Fun(params, ret) => {
                let ps = self.apply_fuel_seq(params, Ghost(fuel));
                let r = self.apply_fuel(ret, Ghost(fuel));
                InferType::Fun(ps, Box::new(r))
            },
            InferType::Tuple(ts) => InferType::Tuple(self.apply_fuel_seq(ts, Ghost(fuel))),
            InferType::Array(t) => InferType::Array(Box::new(self.apply_fuel(t, Ghost(fuel)))),
            InferType::Named(name, args) => InferType::Named(
                name.clone(),
                self.apply_fuel_seq(args, Ghost(fuel)),
            ),
        }
    }

    fn apply_fuel_seq(&self, ts: &Vec<InferType>, Ghost(fuel): Ghost<nat>) -> (r: Vec<InferType>)
        requires
            apply_seq_f(self@, infers_model(ts@), fuel) is Some,
        ensures
            apply_seq_f(self@, infers_model(ts@), fuel) == Some(infers_model(r@)),
        decreases fuel, ts, 1nat,
    {
        let ghost m = infers_model(ts@);
        proof {
            lemma_infers_model(ts@);
            lemma_apply_seq_f(self@, m, fuel);
        }
        let mut r: Vec<InferType> = Vec::new();
        let mut i: usize = 0;
        while i < ts.len()
            invariant
                i <= ts.len(),
                m == infers_model(ts@),
                m.len() == ts.len(),
                forall|j: int| 0 <= j < ts.len() ==> #[trigger] m[j] == infer_model(&ts@[j]),
                forall|j: int| 0 <= j < ts.len() ==> #[trigger] apply_f(self@, m[j], fuel) is Some,
                apply_seq_f(self@, m.take(i as int), fuel) == Some(infers_model(r@)),
            decreases ts.len() - i,
        {
            assert(m[i as int] == infer_model(&ts@[i as int]));
            let c = self.apply_fuel(&ts[i], Ghost(fuel));
            proof {
                lemma_infers_model_push(r@, c);
                assert(m.take(i as int + 1).drop_last() =~= m.take(i as int));
            }
            r.push(c);
            i += 1;
        }
        assert(m.take(ts.len() as int) =~= m);
        r
    }

    /// Produce a substitution equivalent to applying `self` first, then `other`
    /// (`other ∘ self`). `self` wins on overlap: `other` is applied to `self`'s
    /// value, not to the variable itself.
    pub fn compose(&self, other: &Substitution) -> (r: Substitution)
        requires
            forall|v: u32| #[trigger] self@.contains_key(v) ==> terminates(other@, self@[v]),
        ensures
            r@ == compose_spec(self@, other@),
    {
        let mut result = Substitution::new();
        let ghost m1 = self.bindings@;
        let ghost v = spec_hash_map_iter(&self.bindings).remaining();
        let ghost mut count: int = 0;
        for (var, ty) in it: self.bindings.iter()
            invariant
                it.seq() == v,
                v == spec_hash_map_iter(&self.bindings).remaining(),
                count == it.index(),
                m1 == self.bindings@,
                forall|k: u32| #[trigger] self@.contains_key(k) ==> terminates(other@, self@[k]),
                forall|k: u32| #[trigger] result@.contains_key(k) <==> exists|j: int|
                    0 <= j < count && *v[j].0 == k,
                forall|k: u32| #[trigger] result@.contains_key(k) ==> self@.contains_key(k)
                    && result@[k] == apply_spec(other@, self@[k]),
        {
            assert(m1.contains_key(*v[count].0));
            assert(*var == *v[count].0 && *ty == *v[count].1);
            assert(self@.contains_key(*var) && self@[*var] == ty@);
            let a = other.apply(ty);
            result.bind(TypeVar(*var), a);
            proof {
                count = count + 1;
            }
        }
        assert(count == v.len());
        assert forall|k: u32| #[trigger] self@.contains_key(k) implies result@.contains_key(k) by {
            assert(m1.contains_key(k));
            assert(v.contains((&k, &m1[k])));
            let j = choose|j: int| 0 <= j < v.len() && v[j] == (&k, &m1[k]);
            assert(*v[j].0 == k);
        }
        let ghost m2 = other.bindings@;
        let ghost v2 = spec_hash_map_iter(&other.bindings).remaining();
        let ghost mut count2: int = 0;
        for (var, ty) in it2: other.bindings.iter()
            invariant
                it2.seq() == v2,
                v2 == spec_hash_map_iter(&other.bindings).remaining(),
                count2 == it2.index(),
                m2 == other.bindings@,
                forall|k: u32| #[trigger] result@.contains_key(k) <==> self@.contains_key(k) || exists|j: int|
                    0 <= j < count2 && *v2[j].0 == k,
                forall|k: u32| #[trigger] result@.contains_key(k) ==> if self@.contains_key(k) {
                    result@[k] == apply_spec(other@, self@[k])
                } else {
                    other@.contains_key(k) && result@[k] == other@[k]
                },
        {
            assert(m2.contains_key(*v2[count2].0));
            assert(*var == *v2[count2].0 && *ty == *v2[count2].1);
            assert(other@.contains_key(*var) && other@[*var] == ty@);
            if !result.contains(*var) {
                let c = clone_infer(ty);
                result.bind(TypeVar(*var), c);
            }
            proof {
                count2 = count2 + 1;
            }
        }
        assert(count2 == v2.len());
        assert(result@ =~= compose_spec(self@, other@)) by {
            assert forall|k: u32| #[trigger] other@.contains_key(k) implies result@.contains_key(k) by {
                assert(m2.contains_key(k));
                assert(v2.contains((&k, &m2[k])));
                let j = choose|j: int| 0 <= j < v2.len() && v2[j] == (&k, &m2[k]);
                assert(*v2[j].0 == k);
            }
        }
        result
    }

    /// Recursively replace all type variables in `ty` using this substitution,
    /// chasing bound variables transitively. Defined where the chase ends
    /// (no cyclic chain of bindings is reachable from `ty`).
    pub fn apply(&self, ty: &InferType) -> (r: InferType)
        requires
            terminates(self@, ty@),
        ensures
            r@ == apply_spec(self@, ty@),
    {
        let ghost fuel = choose|fuel: nat| #[trigger] apply_f(self@, ty@, fuel) is Some;
        let r = self.apply_fuel(ty, Ghost(fuel));
        proof { lemma_apply_spec(self@, ty@, fuel); }
        r
    }
}

} // verus!

verus! {

// ── Unification ───────────────────────────────────────────────────────────────

/// The message of a failed unification of `a` with `b`.
pub open spec fn mismatch_text(a: InferTypeView, b: InferTypeView) -> Seq<char> {
    "cannot unify "@ + infer_text(a) + " with "@ + infer_text(b)
}

/// The message of a failed occurs check of `v` in `t`.
pub open spec fn occurs_text(v: u32, t: InferTypeView) -> Seq<char> {
    "occurs check failed: "@ + var_text(v) + " occurs in "@ + infer_text(t)
}

/// `m` makes `a` and `b` compatible, resolves everything it binds in one step,
/// and mentions only variables of `a` and `b`.
pub open spec fn unifier(m: Map<u32, InferTypeView>, a: InferTypeView, b: InferTypeView) -> bool {
    &&& idempotent(m)
    &&& vars_within(m, pair_vars(a, b))
    &&& compat(apply_spec(m, a), apply_spec(m, b))
}

/// The outermost constructors of `a` and `b` cannot be unified (neither side is
/// `Never` or a variable, and their heads, names or arities differ).
pub open spec fn heads_clash(a: InferTypeView, b: InferTypeView) -> bool {
    match (a, b) {
        (InferTypeView::Never, _) => false,
        (_, InferTypeView::Never) => false,
        (InferTypeView::Var(_), _) => false,
        (_, InferTypeView::Var(_)) => false,
        (InferTypeView::Concrete(x), InferTypeView::Concrete(y)) => x != y,
        (InferTypeView::Fun(p1, _), InferTypeView::Fun(p2, _)) => p1.len() != p2.len(),
        (InferTypeView::Tuple(x), InferTypeView::Tuple(y)) => x.len() != y.len(),
        (InferTypeView::Array(_), InferTypeView::Array(_)) => false,
        (InferTypeView::Named(n1, a1), InferTypeView::Named(n2, a2)) => n1 != n2 || a1.len() != a2.len(),
        _ => true,
    }
}

/// What binding `v` to `t` gives: nothing to do if `t` is `v` itself, a
/// failed occurs check if `v` occurs in `t`, else the single binding.
pub open spec fn bind_var_result(v: u32, t: InferTypeView, r: Result<Substitution, GustError>) -> bool {
    if t == InferTypeView::Var(v) {
        r matches Ok(s) && s@ == Map::<u32, InferTypeView>::empty()
    } else if occurs(v, t) {
        r matches Err(e) && is_internal(e, occurs_text(v, t))
    } else {
        r matches Ok(s) && s@ == Map::<u32, InferTypeView>::empty().insert(v, t)
    }
}

/// What binding `v` to `t` gives (see [`bind_var_result`]): the binding,
/// or the message of a failed occurs check.
pub open spec fn bind_spec(v: u32, t: InferTypeView) -> Result<Map<u32, InferTypeView>, Seq<char>> {
    if t == InferTypeView::Var(v) {
        Ok(Map::empty())
    } else if occurs(v, t) {
        Err(occurs_text(v, t))
    } else {
        Ok(Map::empty().insert(v, t))
    }
}

/// What unifying `a` with `b` gives: the substitution, or the message of the
/// failure. `Never` unifies with anything and binds nothing; equal concrete
/// types need nothing; a variable is bound to the other side (see
/// [`bind_spec`]); functions, tuples, arrays and named types of the same
/// shape unify their parts in order (parameters, then the return type
/// under what the parameters gave); anything else is a mismatch of the two
/// types at hand.
pub open spec fn unify_spec(a: InferTypeView, b: InferTypeView) -> Result<Map<u32, InferTypeView>, Seq<char>>
    decreases pair_vars(a, b).len(), size(a) + size(b), 1nat,
{
    match (a, b) {
        (InferTypeView::Never, _) => Ok(Map::empty()),
        (_, InferTypeView::Never) => Ok(Map::empty()),
        (InferTypeView::Concrete(x), InferTypeView::Concrete(y)) => if x == y {
            Ok(Map::empty())
        } else {
            Err(mismatch_text(a, b))
        },
        (InferTypeView::Var(v), _) => bind_spec(v, b),
        (_, InferTypeView::Var(v)) => bind_spec(v, a),
        (InferTypeView::Fun(p1, r1), InferTypeView::Fun(p2, r2)) => if p1.len() != p2.len() {
            Err(mismatch_text(a, b))
        } else {
            proof { lemma_parts_measure(a, b, p1, p2); }
            match unify_seq_spec(p1, p2) {
                Err(e) => Err(e),
                Ok(s) => if idempotent(s) && vars_within(s, pair_vars(a, b)) {
                    proof { lemma_return_measure(a, b, s, *r1, *r2); }
                    match unify_spec(subst1(s, *r1), subst1(s, *r2)) {
                        Err(e) => Err(e),
                        Ok(s2) => Ok(compose_spec(s, s2)),
                    }
                } else {
                    Ok(s)
                },
            }
        },
        (InferTypeView::Tuple(x), InferTypeView::Tuple(y)) => if x.len() != y.len() {
            Err(mismatch_text(a, b))
        } else {
            proof { lemma_parts_measure(a, b, x, y); }
            unify_seq_spec(x, y)
        },
        (InferTypeView::Array(x), InferTypeView::Array(y)) => {
            proof { lemma_part_measure(a, b, *x, *y); }
            unify_spec(*x, *y)
        },
        (InferTypeView::Named(n1, a1), InferTypeView::Named(n2, a2)) => if n1 != n2 || a1.len() != a2.len() {
            Err(mismatch_text(a, b))
        } else {
            proof { lemma_parts_measure(a, b, a1, a2); }
            unify_seq_spec(a1, a2)
        },
        _ => Err(mismatch_text(a, b)),
    }
}

/// Unifying `xs[i]` with `ys[i]` for each `i` in order, each pair under the
/// substitution the earlier pairs gave; the first failure stops it.
pub open spec fn unify_seq_spec(xs: Seq<InferTypeView>, ys: Seq<InferTypeView>) -> Result<Map<u32, InferTypeView>, Seq<char>>
    decreases fv_seq(xs).union(fv_seq(ys)).len(), size_seq(xs) + size_seq(ys), 2nat,
{
    if xs.len() == 0 || xs.len() != ys.len() {
        Ok(Map::empty())
    } else {
        proof { lemma_prefix_measure(xs, ys); }
        match unify_seq_spec(xs.drop_last(), ys.drop_last()) {
            Err(e) => Err(e),
            Ok(s) => if idempotent(s) && vars_within(s, fv_seq(xs).union(fv_seq(ys))) {
                proof { lemma_last_measure(xs, ys, s); }
                match unify_spec(subst1(s, xs.last()), subst1(s, ys.last())) {
                    Err(e) => Err(e),
                    Ok(s2) => Ok(compose_spec(s, s2)),
                }
            } else {
                Ok(s)
            },
        }
    }
}

pub proof fn lemma_parts_measure(a: InferTypeView, b: InferTypeView, xs: Seq<InferTypeView>, ys: Seq<InferTypeView>)
    requires
        forall|u: u32| #[trigger] occurs_seq(u, xs) ==> occurs(u, a),
        forall|u: u32| #[trigger] occurs_seq(u, ys) ==> occurs(u, b),
        size_seq(xs) < size(a),
        size_seq(ys) < size(b),
    ensures
        fv_seq(xs).union(fv_seq(ys)).len() <= pair_vars(a, b).len(),
        size_seq(xs) + size_seq(ys) < size(a) + size(b),
{
    lemma_fv_finite(a);
    lemma_fv_finite(b);
    assert(fv_seq(xs).union(fv_seq(ys)).subset_of(pair_vars(a, b)));
    lemma_subset_len(fv_seq(xs).union(fv_seq(ys)), pair_vars(a, b));
}

pub proof fn lemma_part_measure(a: InferTypeView, b: InferTypeView, x: InferTypeView, y: InferTypeView)
    requires
        forall|u: u32| #[trigger] occurs(u, x) ==> occurs(u, a),
        forall|u: u32| #[trigger] occurs(u, y) ==> occurs(u, b),
        size(x) < size(a),
        size(y) < size(b),
    ensures
        pair_vars(x, y).len() <= pair_vars(a, b).len(),
        size(x) + size(y) < size(a) + size(b),
{
    lemma_fv_finite(a);
    lemma_fv_finite(b);
    assert(pair_vars(x, y).subset_of(pair_vars(a, b)));
    lemma_subset_len(pair_vars(x, y), pair_vars(a, b));
}

pub proof fn lemma_return_measure(a: InferTypeView, b: InferTypeView, s: Map<u32, InferTypeView>, r1: InferTypeView, r2: InferTypeView)
    requires
        idempotent(s),
        vars_within(s, pair_vars(a, b)),
        forall|u: u32| #[trigger] occurs(u, r1) ==> occurs(u, a),
        forall|u: u32| #[trigger] occurs(u, r2) ==> occurs(u, b),
        size(r1) < size(a),
        size(r2) < size(b),
    ensures
        pair_vars(subst1(s, r1), subst1(s, r2)).len() < pair_vars(a, b).len()
            || (pair_vars(subst1(s, r1), subst1(s, r2)).len() == pair_vars(a, b).len()
                && size(subst1(s, r1)) + size(subst1(s, r2)) < size(a) + size(b)),
{
    lemma_fv_finite(a);
    lemma_fv_finite(b);
    lemma_vars_shrink(s, r1, r2, pair_vars(a, b));
}

pub proof fn lemma_prefix_measure(xs: Seq<InferTypeView>, ys: Seq<InferTypeView>)
    requires
        xs.len() > 0,
        ys.len() > 0,
    ensures
        fv_seq(xs.drop_last()).union(fv_seq(ys.drop_last())).len() <= fv_seq(xs).union(fv_seq(ys)).len(),
        size_seq(xs.drop_last()) + size_seq(ys.drop_last()) < size_seq(xs) + size_seq(ys),
{
    lemma_fv_seq_finite(xs);
    lemma_fv_seq_finite(ys);
    assert(fv_seq(xs.drop_last()).union(fv_seq(ys.drop_last())).subset_of(fv_seq(xs).union(fv_seq(ys))));
    lemma_subset_len(fv_seq(xs.drop_last()).union(fv_seq(ys.drop_last())), fv_seq(xs).union(fv_seq(ys)));
    lemma_size_positive(xs.last());
    lemma_size_positive(ys.last());
}

pub proof fn lemma_last_measure(xs: Seq<InferTypeView>, ys: Seq<InferTypeView>, s: Map<u32, InferTypeView>)
    requires
        xs.len() > 0,
        ys.len() > 0,
        idempotent(s),
        vars_within(s, fv_seq(xs).union(fv_seq(ys))),
    ensures
        pair_vars(subst1(s, xs.last()), subst1(s, ys.last())).len() <= fv_seq(xs).union(fv_seq(ys)).len(),
        pair_vars(subst1(s, xs.last()), subst1(s, ys.last())).len() == fv_seq(xs).union(fv_seq(ys)).len()
            ==> size(subst1(s, xs.last())) + size(subst1(s, ys.last())) <= size_seq(xs) + size_seq(ys),
{
    let vs = fv_seq(xs).union(fv_seq(ys));
    lemma_fv_seq_finite(xs);
    lemma_fv_seq_finite(ys);
    assert forall|u: u32| #[trigger] occurs(u, xs.last()) implies vs.contains(u) by {
        lemma_occurs_seq(u, xs);
        assert(occurs(u, xs[xs.len() - 1]));
    }
    assert forall|u: u32| #[trigger] occurs(u, ys.last()) implies vs.contains(u) by {
        lemma_occurs_seq(u, ys);
        assert(occurs(u, ys[ys.len() - 1]));
    }
    lemma_vars_shrink(s, xs.last(), ys.last(), vs);
    lemma_size_seq_elem(xs, xs.len() - 1);
    lemma_size_seq_elem(ys, ys.len() - 1);
}

pub proof fn lemma_size_positive(t: InferTypeView)
    ensures
        size(t) >= 1,
{
}

/// Returns true if `var` appears anywhere inside `ty` (the occurs check).
fn occurs_in(var: TypeVar, ty: &InferType) -> (r: bool)
    ensures
        r == occurs(var.0, ty@),
    decreases ty, 0nat,
{
    match ty {
        InferType::Concrete(_) | InferType::Never => false,
        InferType::Var(v) => v.0 == var.0,
        InferType::Fun(params, ret) => occurs_in_seq(var, params) || occurs_in(var, ret),
        InferType::Tuple(ts) => occurs_in_seq(var, ts),
        InferType::Array(t) => occurs_in(var, t),
        InferType::Named(_, args) => occurs_in_seq(var, args),
    }
}

fn occurs_in_seq(var: TypeVar, ts: &Vec<InferType>) -> (r: bool)
    ensures
        r == occurs_seq(var.0, infers_model(ts@)),
    decreases ts, 1nat,
{
    let ghost m = infers_model(ts@);
    proof {
        lemma_infers_model(ts@);
        lemma_occurs_seq(var.0, m);
    }
    let mut i: usize = 0;
    while i < ts.len()
        invariant
            i <= ts.len(),
            m == infers_model(ts@),
            m.len() == ts.len(),
            forall|j: int| 0 <= j < ts.len() ==> #[trigger] m[j] == infer_model(&ts@[j]),
            forall|j: int| 0 <= j < i ==> !occurs(var.0, #[trigger] m[j]),
        decreases ts.len() - i,
    {
        if occurs_in(var, &ts[i]) {
            assert(occurs(var.0, m[i as int]));
            proof { lemma_occurs_seq(var.0, m); }
            return true;
        }
        i += 1;
    }
    false
}

fn mismatch_error(a: &InferType, b: &InferType) -> (e: GustError)
    ensures
        is_internal(e, mismatch_text(a@, b@)),
{
    let mut msg = String::new();
    push_str(&mut msg, "cannot unify ");
    write_infer(a, &mut msg);
    push_str(&mut msg, " with ");
    write_infer(b, &mut msg);
    assert(msg@ =~= mismatch_text(a@, b@));
    GustError::internal(msg)
}

/// Bind `var` to `ty`, failing if the occurs check would create an infinite type.
fn bind_var(var: TypeVar, ty: &InferType) -> (r: Result<Substitution, GustError>)
    ensures
        bind_var_result(var.0, ty@, r),
{
    if let InferType::Var(v) = ty {
        if v.0 == var.0 {
            return Ok(Substitution::new());
        }
    }
    if occurs_in(var, ty) {
        let mut msg = String::new();
        push_str(&mut msg, "occurs check failed: ");
        write_var(var, &mut msg);
        push_str(&mut msg, " occurs in ");
        write_infer(ty, &mut msg);
        assert(msg@ =~= occurs_text(var.0, ty@));
        return Err(GustError::internal(msg));
    }
    let mut s = Substitution::new();
    s.bind(var, clone_infer(ty));
    Ok(s)
}

} // verus!

verus! {

proof fn lemma_empty_unifier(a: InferTypeView, b: InferTypeView)
    requires
        compat(a, b),
    ensures
        unifier(Map::empty(), a, b),
{
    lemma_apply_empty(a);
    lemma_apply_empty(b);
}

proof fn lemma_bind_unifier(v: u32, t: InferTypeView)
    requires
        !occurs(v, t),
    ensures
        unifier(Map::empty().insert(v, t), InferTypeView::Var(v), t),
        unifier(Map::empty().insert(v, t), t, InferTypeView::Var(v)),
{
    let m = Map::<u32, InferTypeView>::empty().insert(v, t);
    assert(idempotent(m));
    lemma_apply_idempotent(m, t);
    lemma_apply_idempotent(m, InferTypeView::Var(v));
    assert forall|w: u32| #[trigger] occurs(w, t) implies !m.contains_key(w) by {}
    lemma_apply_unbound(m, t, 0);
    lemma_compat_refl(t);
    assert(occurs(v, InferTypeView::Var(v)));
}

/// Unify two inference types, returning a substitution that makes them equal
/// (compatible, `Never` matching anything).
///
/// Fails when the types are structurally incompatible or when the occurs check
/// detects an infinite type. The outcome is the one [`unify_spec`] gives; a
/// result is a unifier, and it is at least as general as every substitution
/// that makes the two types equal, so unification fails only when there is
/// no such substitution. For types without `Never` it succeeds exactly when
/// some substitution makes them equal, and then its result is one. The
/// same holds of substitutions applied to the end of their chains: every
/// acyclic substitution that makes the two types equal so applied absorbs
/// the result.
pub fn unify(a: &InferType, b: &InferType) -> (r: Result<Substitution, GustError>)
    ensures
        r matches Ok(s) ==> unifier(s@, a@, b@),
        r matches Err(e) ==> (e matches GustError::Internal { code, .. } && code == InternalErrorCode::I0001),
        a@ == b@ ==> (r matches Ok(s) && s@ == Map::<u32, InferTypeView>::empty()),
        (a@ is Never || b@ is Never) ==> (r matches Ok(s) && s@ == Map::<u32, InferTypeView>::empty()),
        (!(b@ is Never) && a@ is Var) ==> bind_var_result(a@->Var_0, b@, r),
        (!(a@ is Never) && !(a@ is Var) && b@ is Var) ==> bind_var_result(b@->Var_0, a@, r),
        heads_clash(a@, b@) ==> (r matches Err(e) && is_internal(e, mismatch_text(a@, b@))),
        forall|m: Map<u32, InferTypeView>| #[trigger] subst1(m, a@) == subst1(m, b@) ==> (r matches Ok(s) && absorbs(m, s@)),
        match unify_spec(a@, b@) {
            Ok(m) => r matches Ok(s) && s@ == m,
            Err(msg) => r matches Err(e) && is_internal(e, msg),
        },
        never_free(a@) && never_free(b@) ==> (r matches Ok(s) ==> ranges_never_free(s@)),
        never_free(a@) && never_free(b@) ==> (r is Ok <==> exists|m: Map<u32, InferTypeView>| #[trigger] subst1(m, a@)
            == subst1(m, b@)),
        never_free(a@) && never_free(b@) ==> (r matches Ok(s) ==> subst1(s@, a@) == subst1(s@, b@)),
        forall|sg: Map<u32, InferTypeView>|
            (forall|t: InferTypeView| #[trigger] terminates(sg, t)) && #[trigger] apply_spec(sg, a@) == apply_spec(sg, b@)
                ==> (r matches Ok(s) && forall|t: InferTypeView| #[trigger] apply_spec(sg, apply_spec(s@, t)) == apply_spec(sg, t)),
{
    let r = unify_core(a, b);
    proof {
        assert forall|sg: Map<u32, InferTypeView>|
            (forall|t: InferTypeView| #[trigger] terminates(sg, t)) && #[trigger] apply_spec(sg, a@) == apply_spec(sg, b@)
            implies (r matches Ok(s) && forall|t: InferTypeView| #[trigger] apply_spec(sg, apply_spec(s@, t)) == apply_spec(sg, t)) by {
            assert(terminates(sg, a@));
            assert(terminates(sg, b@));
            lemma_apply_closure(sg, a@);
            lemma_apply_closure(sg, b@);
            let m = closure(sg);
            assert(subst1(m, a@) == subst1(m, b@));
            let s = r->Ok_0;
            assert forall|t: InferTypeView| #[trigger] apply_spec(sg, apply_spec(s@, t)) == apply_spec(sg, t) by {
                lemma_apply_idempotent(s@, t);
                assert(terminates(sg, apply_spec(s@, t)));
                assert(terminates(sg, t));
                lemma_apply_closure(sg, apply_spec(s@, t));
                lemma_apply_closure(sg, t);
                assert(subst1(m, subst1(s@, t)) == subst1(m, t));
            }
        }
        if never_free(a@) && never_free(b@) {
            if let Ok(s) = &r {
                lemma_apply_idempotent(s@, a@);
                lemma_apply_idempotent(s@, b@);
                lemma_subst1_never_free(s@, a@);
                lemma_subst1_never_free(s@, b@);
                lemma_compat_never_free(subst1(s@, a@), subst1(s@, b@));
                assert(subst1(s@, a@) == subst1(s@, b@));
            }
        }
    }
    r
}

/// The unification behind [`unify`].
fn unify_core(a: &InferType, b: &InferType) -> (r: Result<Substitution, GustError>)
    ensures
        r matches Ok(s) ==> unifier(s@, a@, b@),
        r matches Err(e) ==> (e matches GustError::Internal { code, .. } && code == InternalErrorCode::I0001),
        a@ == b@ ==> (r matches Ok(s) && s@ == Map::<u32, InferTypeView>::empty()),
        (a@ is Never || b@ is Never) ==> (r matches Ok(s) && s@ == Map::<u32, InferTypeView>::empty()),
        (!(b@ is Never) && a@ is Var) ==> bind_var_result(a@->Var_0, b@, r),
        (!(a@ is Never) && !(a@ is Var) && b@ is Var) ==> bind_var_result(b@->Var_0, a@, r),
        heads_clash(a@, b@) ==> (r matches Err(e) && is_internal(e, mismatch_text(a@, b@))),
        forall|m: Map<u32, InferTypeView>| #[trigger] subst1(m, a@) == subst1(m, b@) ==> (r matches Ok(s) && absorbs(m, s@)),
        match unify_spec(a@, b@) {
            Ok(m) => r matches Ok(s) && s@ == m,
            Err(msg) => r matches Err(e) && is_internal(e, msg),
        },
        never_free(a@) && never_free(b@) ==> (r matches Ok(s) ==> ranges_never_free(s@)),
    decreases pair_vars(a@, b@).len(), size(a@) + size(b@), 1nat,
{
    proof {
        lemma_fv_finite(a@);
        lemma_fv_finite(b@);
    }
    match (a, b) {
        (InferType::Never, _) | (_, InferType::Never) => {
            proof {
                lemma_empty_unifier(a@, b@);
                assert forall|m: Map<u32, InferTypeView>| #[trigger] subst1(m, a@) == subst1(m, b@) implies absorbs(m, Map::empty()) by {
                    lemma_absorbs_empty(m);
                }
            }
            Ok(Substitution::new())
        },
        (InferType::Concrete(t1), InferType::Concrete(t2)) => {
            if type_eq(t1, t2) {
                proof {
                    lemma_empty_unifier(a@, b@);
                    assert forall|m: Map<u32, InferTypeView>| #[trigger] subst1(m, a@) == subst1(m, b@) implies absorbs(m, Map::empty()) by {
                        lemma_absorbs_empty(m);
                    }
                }
                Ok(Substitution::new())
            } else {
                assert forall|m: Map<u32, InferTypeView>| #[trigger] subst1(m, a@) == subst1(m, b@) implies false by {}
                Err(mismatch_error(a, b))
            }
        },
        (InferType::Var(v), _) => {
            let r = bind_var(*v, b);
            proof {
                if b@ == InferTypeView::Var(v.0) {
                    lemma_compat_refl(a@);
                    lemma_empty_unifier(a@, b@);
                } else if !occurs(v.0, b@) {
                    lemma_bind_unifier(v.0, b@);
                }
                assert forall|m: Map<u32, InferTypeView>| #[trigger] subst1(m, a@) == subst1(m, b@) implies (r matches Ok(s) && absorbs(m, s@)) by {
                    if b@ == InferTypeView::Var(v.0) {
                        lemma_absorbs_empty(m);
                    } else if occurs(v.0, b@) {
                        lemma_occurs_no_unifier(m, v.0, b@);
                    } else {
                        lemma_absorbs_single(m, v.0, b@);
                    }
                }
            }
            r
        },
        (_, InferType::Var(v)) => {
            let r = bind_var(*v, a);
            proof {
                if !occurs(v.0, a@) {
                    lemma_bind_unifier(v.0, a@);
                }
                assert forall|m: Map<u32, InferTypeView>| #[trigger] subst1(m, a@) == subst1(m, b@) implies (r matches Ok(s) && absorbs(m, s@)) by {
                    if occurs(v.0, a@) {
                        lemma_occurs_no_unifier(m, v.0, a@);
                    } else {
                        lemma_absorbs_single(m, v.0, a@);
                    }
                }
            }
            r
        },
        (InferType::Fun(params1, ret1), InferType::Fun(params2, ret2)) => {
            if params1.len() != params2.len() {
                proof {
                    lemma_infers_model(params1@);
                    lemma_infers_model(params2@);
                    assert forall|m: Map<u32, InferTypeView>| #[trigger] subst1(m, a@) == subst1(m, b@) implies false by {
                        lemma_subst1_seq(m, infers_model(params1@));
                        lemma_subst1_seq(m, infers_model(params2@));
                    }
                }
                return Err(mismatch_error(a, b));
            }
            let ghost pm1 = infers_model(params1@);
            let ghost pm2 = infers_model(params2@);
            let ghost vs = pair_vars(a@, b@);
            proof {
                lemma_infers_model(params1@);
                lemma_infers_model(params2@);
                assert(fv_seq(pm1).union(fv_seq(pm2)).subset_of(vs)) by {
                    assert forall|u: u32| #[trigger] fv_seq(pm1).union(fv_seq(pm2)).contains(u) implies vs.contains(u) by {
                        if occurs_seq(u, pm1) {
                            assert(occurs(u, a@));
                        } else {
                            assert(occurs(u, b@));
                        }
                    }
                }
                lemma_subset_len(fv_seq(pm1).union(fv_seq(pm2)), vs);
            }
            let pr = unify_pairs(params1, params2);
            let subst = match pr {
                Ok(s) => s,
                Err(e) => {
                    proof {
                        assert forall|m: Map<u32, InferTypeView>| #[trigger] subst1(m, a@) == subst1(m, b@) implies false by {
                            lemma_unifies_elements(m, pm1, pm2);
                        }
                    }
                    return Err(e);
                },
            };
            proof {
                lemma_apply_idempotent(subst@, infer_model(ret1));
                lemma_apply_idempotent(subst@, infer_model(ret2));
                assert(vars_within(subst@, vs));
                assert forall|u: u32| #[trigger] occurs(u, infer_model(ret1)) implies vs.contains(u) by {
                    assert(occurs(u, a@));
                }
                assert forall|u: u32| #[trigger] occurs(u, infer_model(ret2)) implies vs.contains(u) by {
                    assert(occurs(u, b@));
                }
                lemma_vars_shrink(subst@, infer_model(ret1), infer_model(ret2), vs);
            }
            let ra = subst.apply(ret1);
            let rb = subst.apply(ret2);
            let rr = unify_core(&ra, &rb);
            let s = match rr {
                Ok(s) => s,
                Err(e) => {
                    proof {
                        assert forall|m: Map<u32, InferTypeView>| #[trigger] subst1(m, a@) == subst1(m, b@) implies false by {
                            lemma_unifies_elements(m, pm1, pm2);
                            assert(subst1(m, subst1(subst@, infer_model(ret1))) == subst1(m, infer_model(ret1)));
                            assert(subst1(m, subst1(subst@, infer_model(ret2))) == subst1(m, infer_model(ret2)));
                            assert(subst1(m, ra@) == subst1(m, rb@));
                        }
                    }
                    return Err(e);
                },
            };
            proof {
                assert forall|m: Map<u32, InferTypeView>| #[trigger] subst1(m, a@) == subst1(m, b@) implies absorbs(m, compose_spec(subst@, s@)) by {
                    lemma_unifies_elements(m, pm1, pm2);
                    assert(subst1(m, subst1(subst@, infer_model(ret1))) == subst1(m, infer_model(ret1)));
                    assert(subst1(m, subst1(subst@, infer_model(ret2))) == subst1(m, infer_model(ret2)));
                    assert(subst1(m, ra@) == subst1(m, rb@));
                    lemma_absorbs_compose(m, subst@, s@);
                }
                lemma_pair_step(subst@, s@, infer_model(ret1), infer_model(ret2), vs);
                lemma_compose_subst1_seq(subst@, s@, pm1);
                lemma_compose_subst1_seq(subst@, s@, pm2);
                lemma_compat_subst1_seq(s@, subst1_seq(subst@, pm1), subst1_seq(subst@, pm2));
                let c = compose_spec(subst@, s@);
                lemma_apply_idempotent(c, a@);
                lemma_apply_idempotent(c, b@);
                if a@ == b@ {
                    lemma_apply_empty(infer_model(ret1));
                    lemma_compose_empty(s@);
                }
            }
            proof {
                assert forall|v: u32| #[trigger] subst@.contains_key(v) implies terminates(s@, subst@[v]) by {
                    lemma_apply_idempotent(s@, subst@[v]);
                }
                if never_free(a@) && never_free(b@) {
                    lemma_subst1_never_free(subst@, infer_model(ret1));
                    lemma_subst1_never_free(subst@, infer_model(ret2));
                    lemma_compose_never_free(subst@, s@);
                }
            }
            Ok(subst.compose(&s))
        },
        (InferType::Tuple(ts1), InferType::Tuple(ts2)) => {
            proof {
                lemma_infers_model(ts1@);
                lemma_infers_model(ts2@);
            }
            if ts1.len() != ts2.len() {
                proof {
                    assert forall|m: Map<u32, InferTypeView>| #[trigger] subst1(m, a@) == subst1(m, b@) implies false by {
                        lemma_subst1_seq(m, infers_model(ts1@));
                        lemma_subst1_seq(m, infers_model(ts2@));
                    }
                }
                return Err(mismatch_error(a, b));
            }
            let ghost m1 = infers_model(ts1@);
            let ghost m2 = infers_model(ts2@);
            proof {
                assert(fv_seq(m1).union(fv_seq(m2)) =~= pair_vars(a@, b@));
            }
            let pr = unify_pairs(ts1, ts2);
            proof {
                assert forall|m: Map<u32, InferTypeView>| #[trigger] subst1(m, a@) == subst1(m, b@) implies (pr matches Ok(s) && absorbs(m, s@)) by {
                    lemma_unifies_elements(m, m1, m2);
                }
            }
            let subst = match pr {
                Ok(s) => s,
                Err(e) => return Err(e),
            };
            proof {
                lemma_apply_idempotent(subst@, a@);
                lemma_apply_idempotent(subst@, b@);
            }
            Ok(subst)
        },
        (InferType::Array(t1), InferType::Array(t2)) => {
            proof {
                assert(pair_vars(infer_model(t1), infer_model(t2)) =~= pair_vars(a@, b@));
            }
            let r = unify_core(t1, t2);
            proof {
                assert forall|m: Map<u32, InferTypeView>| #[trigger] subst1(m, a@) == subst1(m, b@) implies (r matches Ok(s) && absorbs(m, s@)) by {
                    assert(subst1(m, infer_model(t1)) == subst1(m, infer_model(t2)));
                }
                if let Ok(s) = &r {
                    lemma_apply_idempotent(s@, infer_model(t1));
                    lemma_apply_idempotent(s@, infer_model(t2));
                    lemma_apply_idempotent(s@, a@);
                    lemma_apply_idempotent(s@, b@);
                }
            }
            r
        },
        (InferType::Named(n1, args1), InferType::Named(n2, args2)) => {
            proof {
                lemma_infers_model(args1@);
                lemma_infers_model(args2@);
            }
            if *n1 != *n2 || args1.len() != args2.len() {
                proof {
                    assert forall|m: Map<u32, InferTypeView>| #[trigger] subst1(m, a@) == subst1(m, b@) implies false by {
                        lemma_subst1_seq(m, infers_model(args1@));
                        lemma_subst1_seq(m, infers_model(args2@));
                    }
                }
                return Err(mismatch_error(a, b));
            }
            let ghost m1 = infers_model(args1@);
            let ghost m2 = infers_model(args2@);
            proof {
                assert(fv_seq(m1).union(fv_seq(m2)) =~= pair_vars(a@, b@));
            }
            let pr = unify_pairs(args1, args2);
            proof {
                assert forall|m: Map<u32, InferTypeView>| #[trigger] subst1(m, a@) == subst1(m, b@) implies (pr matches Ok(s) && absorbs(m, s@)) by {
                    lemma_unifies_elements(m, m1, m2);
                }
            }
            let subst = match pr {
                Ok(s) => s,
                Err(e) => return Err(e),
            };
            proof {
                lemma_apply_idempotent(subst@, a@);
                lemma_apply_idempotent(subst@, b@);
            }
            Ok(subst)
        },
        _ => {
            assert forall|m: Map<u32, InferTypeView>| #[trigger] subst1(m, a@) == subst1(m, b@) implies false by {}
            Err(mismatch_error(a, b))
        },
    }
}

/// One step of unifying a list of pairs: `m1` has unified the pairs so far
/// (and its variables lie in `vs`); `m2` unifies the next pair after `m1`.
/// Their composition is again idempotent, within `vs`, and unifies the pair.
pub(crate) proof fn lemma_pair_step(
    m1: Map<u32, InferTypeView>,
    m2: Map<u32, InferTypeView>,
    x: InferTypeView,
    y: InferTypeView,
    vs: Set<u32>,
)
    requires
        idempotent(m1),
        vars_within(m1, vs),
        unifier(m2, subst1(m1, x), subst1(m1, y)),
        forall|u: u32| #[trigger] occurs(u, x) ==> vs.contains(u),
        forall|u: u32| #[trigger] occurs(u, y) ==> vs.contains(u),
    ensures
        idempotent(compose_spec(m1, m2)),
        vars_within(compose_spec(m1, m2), vs),
        compat(subst1(compose_spec(m1, m2), x), subst1(compose_spec(m1, m2), y)),
{
    let xa = subst1(m1, x);
    let ya = subst1(m1, y);
    assert forall|w: u32| #[trigger] pair_vars(xa, ya).contains(w) implies vs.contains(w) && !m1.contains_key(w) by {
        if occurs(w, xa) {
            lemma_subst1_within(m1, x, vs, w);
            lemma_subst1_resolves(m1, x, w);
        } else {
            lemma_subst1_within(m1, y, vs, w);
            lemma_subst1_resolves(m1, y, w);
        }
    }
    assert(vars_within(m2, vs));
    lemma_compose_idempotent(m1, m2);
    lemma_compose_within(m1, m2, vs);
    lemma_apply_idempotent(m2, xa);
    lemma_apply_idempotent(m2, ya);
    lemma_compose_subst1(m1, m2, x);
    lemma_compose_subst1(m1, m2, y);
}

/// Once a prefix of the pairs fails to unify, so do all of them, with the
/// same message.
proof fn lemma_unify_seq_err(xs: Seq<InferTypeView>, ys: Seq<InferTypeView>, k: int)
    requires
        0 <= k <= xs.len(),
        xs.len() == ys.len(),
        k > 0,
        unify_seq_spec(xs.take(k), ys.take(k)) is Err,
    ensures
        unify_seq_spec(xs, ys) == unify_seq_spec(xs.take(k), ys.take(k)),
    decreases xs.len(),
{
    if k == xs.len() {
        assert(xs.take(k) =~= xs);
        assert(ys.take(k) =~= ys);
    } else {
        assert(xs.drop_last().take(k) =~= xs.take(k));
        assert(ys.drop_last().take(k) =~= ys.take(k));
        lemma_unify_seq_err(xs.drop_last(), ys.drop_last(), k);
    }
}

/// Unify `xs[i]` with `ys[i]` for each `i` in order, threading the running
/// substitution through each pair.
fn unify_pairs(xs: &Vec<InferType>, ys: &Vec<InferType>) -> (r: Result<Substitution, GustError>)
    requires
        xs.len() == ys.len(),
    ensures
        r matches Ok(s) ==> {
            &&& idempotent(s@)
            &&& vars_within(s@, fv_seq(infers_model(xs@)).union(fv_seq(infers_model(ys@))))
            &&& compat_seq(subst1_seq(s@, infers_model(xs@)), subst1_seq(s@, infers_model(ys@)))
        },
        r matches Err(e) ==> (e matches GustError::Internal { code, .. } && code == InternalErrorCode::I0001),
        infers_model(xs@) == infers_model(ys@) ==> (r matches Ok(s) && s@ == Map::<u32, InferTypeView>::empty()),
        forall|m: Map<u32, InferTypeView>| #[trigger] unifies_all(m, infers_model(xs@), infers_model(ys@)) ==> (r matches Ok(
            s,
        ) && absorbs(m, s@)),
        match unify_seq_spec(infers_model(xs@), infers_model(ys@)) {
            Ok(m) => r matches Ok(s) && s@ == m,
            Err(msg) => r matches Err(e) && is_internal(e, msg),
        },
        never_free_seq(infers_model(xs@)) && never_free_seq(infers_model(ys@)) ==> (r matches Ok(s) ==> ranges_never_free(
            s@,
        )),
    decreases fv_seq(infers_model(xs@)).union(fv_seq(infers_model(ys@))).len(), size_seq(infers_model(xs@))
        + size_seq(infers_model(ys@)), 2nat,
{
    let ghost xm = infers_model(xs@);
    let ghost ym = infers_model(ys@);
    let ghost vs = fv_seq(xm).union(fv_seq(ym));
    proof {
        lemma_infers_model(xs@);
        lemma_infers_model(ys@);
        lemma_fv_seq_finite(xm);
        lemma_fv_seq_finite(ym);
        lemma_apply_empty(InferTypeView::Never);
    }
    let mut subst = Substitution::new();
    proof {
        assert forall|m: Map<u32, InferTypeView>| #[trigger] unifies_all(m, xm, ym) implies absorbs(m, subst@) by {
            lemma_absorbs_empty(m);
        }
    }
    proof {
        assert(xm.take(0) =~= Seq::<InferTypeView>::empty());
        assert(ym.take(0) =~= Seq::<InferTypeView>::empty());
    }
    let mut i: usize = 0;
    while i < xs.len()
        invariant
            forall|m: Map<u32, InferTypeView>| #[trigger] unifies_all(m, xm, ym) ==> absorbs(m, subst@),
            vars_within(subst@, fv_seq(xm.take(i as int)).union(fv_seq(ym.take(i as int)))),
            unify_seq_spec(xm.take(i as int), ym.take(i as int)) == Ok::<Map<u32, InferTypeView>, Seq<char>>(subst@),
            i <= xs.len(),
            xs.len() == ys.len(),
            xm == infers_model(xs@),
            ym == infers_model(ys@),
            xm.len() == xs.len(),
            ym.len() == ys.len(),
            vs == fv_seq(xm).union(fv_seq(ym)),
            vs.finite(),
            forall|j: int| 0 <= j < xs.len() ==> #[trigger] xm[j] == infer_model(&xs@[j]),
            forall|j: int| 0 <= j < ys.len() ==> #[trigger] ym[j] == infer_model(&ys@[j]),
            idempotent(subst@),
            vars_within(subst@, vs),
            forall|j: int| 0 <= j < i ==> #[trigger] compat(subst1(subst@, xm[j]), subst1(subst@, ym[j])),
            xm == ym ==> subst@ == Map::<u32, InferTypeView>::empty(),
            never_free_seq(xm) && never_free_seq(ym) ==> ranges_never_free(subst@),
        decreases xs.len() - i,
    {
        let ghost x = xm[i as int];
        let ghost y = ym[i as int];
        proof {
            lemma_occurs_seq(0, xm);
            assert forall|u: u32| #[trigger] occurs(u, x) implies vs.contains(u) by {
                lemma_occurs_seq(u, xm);
            }
            assert forall|u: u32| #[trigger] occurs(u, y) implies vs.contains(u) by {
                lemma_occurs_seq(u, ym);
            }
            lemma_vars_shrink(subst@, x, y, vs);
            lemma_size_seq_elem(xm, i as int);
            lemma_size_seq_elem(ym, i as int);
            lemma_apply_idempotent(subst@, x);
            lemma_apply_idempotent(subst@, y);
        }
        let ghost vi1 = fv_seq(xm.take(i + 1)).union(fv_seq(ym.take(i + 1)));
        proof {
            assert(xm.take(i + 1).drop_last() =~= xm.take(i as int));
            assert(ym.take(i + 1).drop_last() =~= ym.take(i as int));
            assert(xm.take(i + 1).last() == x);
            assert(ym.take(i + 1).last() == y);
            assert(vars_within(subst@, vi1));
        }
        let xa = subst.apply(&xs[i]);
        let ya = subst.apply(&ys[i]);
        let ur = unify_core(&xa, &ya);
        let s = match ur {
            Ok(s) => s,
            Err(e) => {
                proof {
                    assert forall|m: Map<u32, InferTypeView>| #[trigger] unifies_all(m, xm, ym) implies false by {
                        assert(subst1(m, xm[i as int]) == subst1(m, ym[i as int]));
                        assert(subst1(m, subst1(subst@, x)) == subst1(m, x));
                        assert(subst1(m, subst1(subst@, y)) == subst1(m, y));
                        assert(subst1(m, xa@) == subst1(m, ya@));
                    }
                    lemma_unify_seq_err(xm, ym, i + 1);
                }
                return Err(e);
            },
        };
        proof {
            assert forall|m: Map<u32, InferTypeView>| #[trigger] unifies_all(m, xm, ym) implies absorbs(m, compose_spec(subst@, s@)) by {
                assert(subst1(m, xm[i as int]) == subst1(m, ym[i as int]));
                assert(subst1(m, subst1(subst@, x)) == subst1(m, x));
                assert(subst1(m, subst1(subst@, y)) == subst1(m, y));
                assert(subst1(m, xa@) == subst1(m, ya@));
                lemma_absorbs_compose(m, subst@, s@);
            }
            lemma_pair_step(subst@, s@, x, y, vs);
            assert forall|u: u32| #[trigger] occurs(u, x) implies vi1.contains(u) by {}
            assert forall|u: u32| #[trigger] occurs(u, y) implies vi1.contains(u) by {}
            lemma_pair_step(subst@, s@, x, y, vi1);
            let c = compose_spec(subst@, s@);
            assert forall|j: int| 0 <= j < i + 1 implies #[trigger] compat(subst1(c, xm[j]), subst1(c, ym[j])) by {
                lemma_compose_subst1(subst@, s@, xm[j]);
                lemma_compose_subst1(subst@, s@, ym[j]);
                if j < i {
                    lemma_compat_subst1(s@, subst1(subst@, xm[j]), subst1(subst@, ym[j]));
                }
            }
            if xm == ym {
                lemma_apply_empty(x);
                lemma_compose_empty(s@);
            }
            assert forall|v: u32| #[trigger] subst@.contains_key(v) implies terminates(s@, subst@[v]) by {
                lemma_apply_idempotent(s@, subst@[v]);
            }
            if never_free_seq(xm) && never_free_seq(ym) {
                lemma_never_free_seq_index(xm, i as int);
                lemma_never_free_seq_index(ym, i as int);
                lemma_subst1_never_free(subst@, x);
                lemma_subst1_never_free(subst@, y);
                lemma_compose_never_free(subst@, s@);
            }
        }
        subst = subst.compose(&s);
        i += 1;
    }
    proof {
        lemma_subst1_seq(subst@, xm);
        lemma_subst1_seq(subst@, ym);
        lemma_compat_seq(subst1_seq(subst@, xm), subst1_seq(subst@, ym));
        assert(xm.take(xs.len() as int) =~= xm);
        assert(ym.take(ys.len() as int) =~= ym);
    }
    Ok(subst)
}

} // verus!

verus! {

// ── Constraints ───────────────────────────────────────────────────────────────

/// A deferred type equation: `lhs` and `rhs` must unify, recorded with the
/// source `span` so that failures produce actionable error messages.
#[derive(Debug)]
pub struct Constraint {
    pub lhs: InferType,
    pub rhs: InferType,
    pub span: Span,
}

impl Constraint {
    pub fn new(lhs: InferType, rhs: InferType, span: Span) -> (c: Self)
        ensures
            c.lhs@ == lhs@,
            c.rhs@ == rhs@,
            c.span == span,
    {
        Self { lhs, rhs, span }
    }
}

impl Clone for Constraint {
    fn clone(&self) -> (c: Self)
        ensures
            c.lhs@ == self.lhs@,
            c.rhs@ == self.rhs@,
            c.span.start == self.span.start,
            c.span.end == self.span.end,
            c.span.filename@ == self.span.filename@,
            c.span.line == self.span.line,
            c.span.col == self.span.col,
    {
        Constraint { lhs: clone_infer(&self.lhs), rhs: clone_infer(&self.rhs), span: self.span.clone() }
    }
}

/// `m` satisfies every constraint of `cs`: both sides agree after applying it.
pub open spec fn satisfies_all(m: Map<u32, InferTypeView>, cs: Seq<Constraint>) -> bool {
    forall|j: int| 0 <= j < cs.len() ==> #[trigger] compat(apply_spec(m, cs[j].lhs@), apply_spec(m, cs[j].rhs@))
}

/// Chasing the bindings of `m` comes to an end from every type: `m` binds
/// no variable that reaches itself.
pub open spec fn acyclic(m: Map<u32, InferTypeView>) -> bool {
    forall|t: InferTypeView| #[trigger] terminates(m, t)
}

/// `m`, applied to the end of its chains, makes the two sides of every
/// constraint of `cs` equal.
pub open spec fn equates_applied(m: Map<u32, InferTypeView>, cs: Seq<Constraint>) -> bool {
    forall|j: int| 0 <= j < cs.len() ==> #[trigger] apply_spec(m, cs[j].lhs@) == apply_spec(m, cs[j].rhs@)
}

/// No side of a constraint of `cs` mentions `Never`.
pub open spec fn sides_never_free(cs: Seq<Constraint>) -> bool {
    forall|j: int| 0 <= j < cs.len() ==> never_free(#[trigger] cs[j].lhs@) && never_free(cs[j].rhs@)
}

/// `m` makes the two sides of every constraint of `cs` equal.
pub open spec fn equates_all(m: Map<u32, InferTypeView>, cs: Seq<Constraint>) -> bool {
    forall|j: int| 0 <= j < cs.len() ==> #[trigger] subst1(m, cs[j].lhs@) == subst1(m, cs[j].rhs@)
}

/// The first `k` constraints of `cs` are satisfied by `m`.
pub open spec fn satisfies_prefix(m: Map<u32, InferTypeView>, cs: Seq<Constraint>, k: int) -> bool {
    forall|j: int| 0 <= j < k ==> #[trigger] compat(subst1(m, cs[j].lhs@), subst1(m, cs[j].rhs@))
}

/// What solving `cs` gives: each constraint in order is unified under the
/// substitution the earlier ones gave, and the substitutions are composed;
/// a failure is the index of the constraint that failed together with the
/// substitution it failed under.
pub open spec fn solve_spec(cs: Seq<Constraint>) -> Result<Map<u32, InferTypeView>, (int, Map<u32, InferTypeView>)>
    decreases cs.len(),
{
    if cs.len() == 0 {
        Ok(Map::empty())
    } else {
        match solve_spec(cs.drop_last()) {
            Err(f) => Err(f),
            Ok(s) => match unify_spec(subst1(s, cs.last().lhs@), subst1(s, cs.last().rhs@)) {
                Ok(s2) => Ok(compose_spec(s, s2)),
                Err(_) => Err((cs.len() - 1, s)),
            },
        }
    }
}

/// The type error solving reports for the failure `f` of `cs`: `T0001` at
/// the failing constraint's span, naming both sides under the substitution
/// it failed under.
pub open spec fn solve_error(e: GustError, cs: Seq<Constraint>, f: (int, Map<u32, InferTypeView>)) -> bool {
    is_type_error(
        e,
        TypeErrorCode::T0001,
        mismatch_text(subst1(f.1, cs[f.0].lhs@), subst1(f.1, cs[f.0].rhs@)),
        cs[f.0].span,
    )
}

/// Once a prefix of the constraints fails, solving all of them fails the same way.
proof fn lemma_solve_err(cs: Seq<Constraint>, k: int)
    requires
        0 <= k <= cs.len(),
        solve_spec(cs.take(k)) is Err,
    ensures
        solve_spec(cs) == solve_spec(cs.take(k)),
    decreases cs.len(),
{
    if k == cs.len() {
        assert(cs.take(k) =~= cs);
    } else {
        assert(cs.drop_last().take(k) =~= cs.take(k));
        lemma_solve_err(cs.drop_last(), k);
    }
}

/// A failure names one of the constraints.
pub proof fn lemma_solve_index(cs: Seq<Constraint>)
    ensures
        solve_spec(cs) matches Err(f) ==> 0 <= f.0 < cs.len(),
    decreases cs.len(),
{
    if cs.len() > 0 {
        lemma_solve_index(cs.drop_last());
    }
}

/// Solving reads only the two sides of each constraint.
pub proof fn lemma_solve_sides(cs: Seq<Constraint>, ds: Seq<Constraint>)
    requires
        cs.len() == ds.len(),
        forall|j: int| 0 <= j < cs.len() ==> #[trigger] cs[j].lhs@ == ds[j].lhs@ && cs[j].rhs@ == ds[j].rhs@,
    ensures
        solve_spec(cs) == solve_spec(ds),
    decreases cs.len(),
{
    if cs.len() > 0 {
        lemma_solve_sides(cs.drop_last(), ds.drop_last());
        assert(cs.last().lhs@ == ds.last().lhs@ && cs.last().rhs@ == ds.last().rhs@) by {
            assert(cs[cs.len() - 1].lhs@ == ds[cs.len() - 1].lhs@);
        }
    }
}

/// Solve a list of constraints by unifying each `lhs`/`rhs` pair in order.
///
/// The running substitution is applied to both sides before each unification
/// so that earlier bindings propagate into later constraints. Errors are
/// reported with the source span of the offending constraint. The outcome
/// is the one [`solve_spec`] gives; solving fails only when no substitution
/// makes the two sides of every constraint equal, and otherwise the result
/// is at least as general as each such substitution. For constraints whose
/// sides mention no `Never`, it succeeds exactly when one substitution makes
/// the two sides of every constraint equal, and then its result is one; the
/// same holds of acyclic substitutions applied to the end of their chains.
/// On failure, the constraints up to the failing one have no common unifier.
pub fn solve_constraints(constraints: Vec<Constraint>) -> (r: Result<Substitution, GustError>)
    ensures
        r matches Ok(s) ==> idempotent(s@) && satisfies_all(s@, constraints@),
        r matches Err(e) ==> exists|k: int, m: Map<u32, InferTypeView>|
            0 <= k < constraints.len() && idempotent(m) && #[trigger] satisfies_prefix(m, constraints@, k)
                && is_type_error(
                e,
                TypeErrorCode::T0001,
                mismatch_text(subst1(m, constraints@[k].lhs@), subst1(m, constraints@[k].rhs@)),
                constraints@[k].span,
            ),
        constraints.len() == 0 ==> (r matches Ok(s) && s@ == Map::<u32, InferTypeView>::empty()),
        forall|m: Map<u32, InferTypeView>| #[trigger] equates_all(m, constraints@) ==> (r matches Ok(s) && absorbs(m, s@)),
        match solve_spec(constraints@) {
            Ok(m) => r matches Ok(s) && s@ == m,
            Err(f) => r matches Err(e) && solve_error(e, constraints@, f),
        },
        sides_never_free(constraints@) ==> (r is Ok <==> exists|m: Map<u32, InferTypeView>| #[trigger] equates_all(
            m,
            constraints@,
        )),
        sides_never_free(constraints@) ==> (r matches Ok(s) ==> equates_all(s@, constraints@)),
        r is Err ==> (solve_spec(constraints@) matches Err(f) && forall|m: Map<u32, InferTypeView>| !#[trigger] equates_all(
            m,
            constraints@.take(f.0 + 1),
        )),
        sides_never_free(constraints@) ==> (r is Ok <==> exists|m: Map<u32, InferTypeView>| acyclic(m)
            && #[trigger] equates_applied(m, constraints@)),
        sides_never_free(constraints@) ==> (r matches Ok(s) ==> acyclic(s@) && equates_applied(s@, constraints@)),
{
    let mut subst = Substitution::new();
    proof {
        lemma_apply_empty(InferTypeView::Never);
        assert forall|m: Map<u32, InferTypeView>| #[trigger] equates_all(m, constraints@.take(0)) implies absorbs(m, subst@) by {
            lemma_absorbs_empty(m);
        }
    }
    let mut i: usize = 0;
    while i < constraints.len()
        invariant
            i <= constraints.len(),
            idempotent(subst@),
            satisfies_prefix(subst@, constraints@, i as int),
            i == 0 ==> subst@ == Map::<u32, InferTypeView>::empty(),
            forall|m: Map<u32, InferTypeView>| #[trigger] equates_all(m, constraints@.take(i as int)) ==> absorbs(m, subst@),
            solve_spec(constraints@.take(i as int)) == Ok::<Map<u32, InferTypeView>, (int, Map<u32, InferTypeView>)>(subst@),
            sides_never_free(constraints@) ==> ranges_never_free(subst@),
        decreases constraints.len() - i,
    {
        let c = &constraints[i];
        proof {
            lemma_apply_idempotent(subst@, c.lhs@);
            lemma_apply_idempotent(subst@, c.rhs@);
        }
        proof {
            assert(constraints@.take(i + 1).drop_last() =~= constraints@.take(i as int));
            assert(constraints@.take(i + 1).last() == constraints@[i as int]);
        }
        let lhs = subst.apply(&c.lhs);
        let rhs = subst.apply(&c.rhs);
        let ur = unify(&lhs, &rhs);
        proof {
            assert forall|m: Map<u32, InferTypeView>| #[trigger] equates_all(m, constraints@.take(i + 1)) implies (ur matches Ok(s) && absorbs(m, compose_spec(subst@, s@))) by {
                assert forall|j: int| 0 <= j < i implies #[trigger] subst1(m, constraints@.take(i as int)[j].lhs@) == subst1(m, constraints@.take(i as int)[j].rhs@) by {
                    assert(constraints@.take(i + 1)[j] == constraints@.take(i as int)[j]);
                }
                assert(equates_all(m, constraints@.take(i as int)));
                assert(constraints@.take(i + 1)[i as int] == constraints@[i as int]);
                assert(subst1(m, constraints@[i as int].lhs@) == subst1(m, constraints@[i as int].rhs@));
                assert(subst1(m, subst1(subst@, c.lhs@)) == subst1(m, c.lhs@));
                assert(subst1(m, subst1(subst@, c.rhs@)) == subst1(m, c.rhs@));
                assert(subst1(m, lhs@) == subst1(m, rhs@));
                if let Ok(s) = ur {
                    lemma_absorbs_compose(m, subst@, s@);
                }
            }
        }
        match ur {
            Ok(s) => {
                proof {
                    lemma_pair_step(subst@, s@, c.lhs@, c.rhs@, Set::full());
                    let m = compose_spec(subst@, s@);
                    assert forall|j: int| 0 <= j < i + 1 implies #[trigger] compat(
                        subst1(m, constraints@[j].lhs@),
                        subst1(m, constraints@[j].rhs@),
                    ) by {
                        lemma_compose_subst1(subst@, s@, constraints@[j].lhs@);
                        lemma_compose_subst1(subst@, s@, constraints@[j].rhs@);
                        if j < i {
                            lemma_compat_subst1(
                                s@,
                                subst1(subst@, constraints@[j].lhs@),
                                subst1(subst@, constraints@[j].rhs@),
                            );
                        }
                    }
                    assert forall|v: u32| #[trigger] subst@.contains_key(v) implies terminates(s@, subst@[v]) by {
                        lemma_apply_idempotent(s@, subst@[v]);
                    }
                    if sides_never_free(constraints@) {
                        assert(never_free(constraints@[i as int].lhs@) && never_free(constraints@[i as int].rhs@));
                        lemma_subst1_never_free(subst@, c.lhs@);
                        lemma_subst1_never_free(subst@, c.rhs@);
                        lemma_compose_never_free(subst@, s@);
                    }
                }
                subst = subst.compose(&s);
            },
            Err(_) => {
                let mut msg = String::new();
                push_str(&mut msg, "cannot unify ");
                write_infer(&lhs, &mut msg);
                push_str(&mut msg, " with ");
                write_infer(&rhs, &mut msg);
                assert(msg@ =~= mismatch_text(lhs@, rhs@));
                let e = GustError::type_error(TypeErrorCode::T0001, msg, &c.span);
                assert(satisfies_prefix(subst@, constraints@, i as int));
                assert forall|m: Map<u32, InferTypeView>| !#[trigger] equates_all(m, constraints@.take(i + 1)) by {
                    if equates_all(m, constraints@.take(i + 1)) {
                        assert(ur is Ok);
                    }
                }
                assert forall|m: Map<u32, InferTypeView>| #[trigger] equates_all(m, constraints@) implies false by {
                    assert forall|j: int| 0 <= j < i + 1 implies #[trigger] subst1(m, constraints@.take(i + 1)[j].lhs@) == subst1(m, constraints@.take(i + 1)[j].rhs@) by {
                        assert(constraints@.take(i + 1)[j] == constraints@[j]);
                    }
                    assert(equates_all(m, constraints@.take(i + 1)));
                }
                proof { lemma_solve_err(constraints@, i + 1); }
                assert forall|m: Map<u32, InferTypeView>| acyclic(m) && #[trigger] equates_applied(m, constraints@) implies false by {
                    assert forall|j: int| 0 <= j < constraints@.len() implies #[trigger] subst1(closure(m), constraints@[j].lhs@)
                        == subst1(closure(m), constraints@[j].rhs@) by {
                        assert(terminates(m, constraints@[j].lhs@));
                        assert(terminates(m, constraints@[j].rhs@));
                        lemma_apply_closure(m, constraints@[j].lhs@);
                        lemma_apply_closure(m, constraints@[j].rhs@);
                        assert(apply_spec(m, constraints@[j].lhs@) == apply_spec(m, constraints@[j].rhs@));
                    }
                    assert(equates_all(closure(m), constraints@));
                }
                return Err(e);
            },
        }
        i += 1;
    }
    proof {
        assert(constraints@.take(constraints.len() as int) =~= constraints@);
        assert forall|j: int| 0 <= j < constraints.len() implies #[trigger] compat(
            apply_spec(subst@, constraints@[j].lhs@),
            apply_spec(subst@, constraints@[j].rhs@),
        ) by {
            lemma_apply_idempotent(subst@, constraints@[j].lhs@);
            lemma_apply_idempotent(subst@, constraints@[j].rhs@);
            assert(compat(subst1(subst@, constraints@[j].lhs@), subst1(subst@, constraints@[j].rhs@)));
        }
        if sides_never_free(constraints@) {
            assert forall|j: int| 0 <= j < constraints.len() implies #[trigger] subst1(subst@, constraints@[j].lhs@)
                == subst1(subst@, constraints@[j].rhs@) by {
                assert(never_free(constraints@[j].lhs@) && never_free(constraints@[j].rhs@));
                assert(compat(subst1(subst@, constraints@[j].lhs@), subst1(subst@, constraints@[j].rhs@)));
                lemma_subst1_never_free(subst@, constraints@[j].lhs@);
                lemma_subst1_never_free(subst@, constraints@[j].rhs@);
                lemma_compat_never_free(subst1(subst@, constraints@[j].lhs@), subst1(subst@, constraints@[j].rhs@));
            }
            assert(equates_all(subst@, constraints@));
            assert forall|t: InferTypeView| #[trigger] terminates(subst@, t) by {
                lemma_apply_idempotent(subst@, t);
            }
            assert forall|j: int| 0 <= j < constraints.len() implies #[trigger] apply_spec(subst@, constraints@[j].lhs@)
                == apply_spec(subst@, constraints@[j].rhs@) by {
                lemma_apply_idempotent(subst@, constraints@[j].lhs@);
                lemma_apply_idempotent(subst@, constraints@[j].rhs@);
            }
            assert(acyclic(subst@) && equates_applied(subst@, constraints@));
        }
    }
    Ok(subst)
}

} // verus!

verus! {

// ── Free variables ────────────────────────────────────────────────────────────

pub(crate) fn collect_free_vars(ty: &InferType, acc: &mut HashSet<u32>)
    ensures
        final(acc)@ == old(acc)@.union(fv(ty@)),
    decreases ty, 0nat,
{
    let ghost a0 = acc@;
    match ty {
        InferType::Concrete(_) | InferType::Never => {},
        InferType::Var(v) => {
            acc.insert(v.0);
        },
        InferType::Fun(params, ret) => {
            collect_free_vars(ret, acc);
            collect_free_vars_seq(params, acc);
        },
        InferType::Tuple(ts) => collect_free_vars_seq(ts, acc),
        InferType::Array(t) => collect_free_vars(t, acc),
        InferType::Named(_, args) => collect_free_vars_seq(args, acc),
    }
    assert(acc@ =~= a0.union(fv(ty@)));
}

fn collect_free_vars_seq(ts: &Vec<InferType>, acc: &mut HashSet<u32>)
    ensures
        final(acc)@ == old(acc)@.union(fv_seq(infers_model(ts@))),
    decreases ts, 1nat,
{
    let ghost a0 = acc@;
    let ghost m = infers_model(ts@);
    proof { lemma_infers_model(ts@); }
    let mut i: usize = 0;
    while i < ts.len()
        invariant
            i <= ts.len(),
            m == infers_model(ts@),
            m.len() == ts.len(),
            forall|j: int| 0 <= j < ts.len() ==> #[trigger] m[j] == infer_model(&ts@[j]),
            acc@ == a0.union(fv_seq(m.take(i as int))),
        decreases ts.len() - i,
    {
        collect_free_vars(&ts[i], acc);
        proof {
            let p = m.take(i as int);
            assert(m.take(i as int + 1).drop_last() =~= p);
            assert(fv_seq(m.take(i as int + 1)) =~= fv_seq(p).union(fv(m[i as int])));
            assert(acc@ =~= a0.union(fv_seq(m.take(i as int + 1))));
        }
        i += 1;
    }
    assert(m.take(ts.len() as int) =~= m);
}

/// Collect all type variables (by id) that appear free in `ty`.
pub fn free_vars(ty: &InferType) -> (r: HashSet<u32>)
    ensures
        r@ == fv(ty@),
{
    let mut acc: HashSet<u32> = HashSet::new();
    collect_free_vars(ty, &mut acc);
    assert(acc@ =~= fv(ty@));
    acc
}

// ── Type schemes ──────────────────────────────────────────────────────────────

/// A universally quantified type: `∀ quantified_vars. ty`.
///
/// Variables in `quantified_vars` are locally owned — each use site gets
/// fresh copies via `instantiate`, enabling let-polymorphism.
#[derive(Debug, PartialEq)]
pub struct TypeScheme {
    pub quantified_vars: Vec<TypeVar>,
    pub ty: InferType,
}

impl TypeScheme {
    /// A monomorphic scheme — no quantified variables.
    pub fn mono(ty: InferType) -> (s: Self)
        ensures
            s.quantified_vars@.len() == 0,
            s.ty@ == ty@,
    {
        Self { quantified_vars: Vec::new(), ty }
    }
}

impl Clone for TypeScheme {
    fn clone(&self) -> (s: Self)
        ensures
            s.quantified_vars@ == self.quantified_vars@,
            s.ty@ == self.ty@,
    {
        TypeScheme { quantified_vars: self.quantified_vars.clone(), ty: clone_infer(&self.ty) }
    }
}

/// Strictly increasing ids.
pub open spec fn sorted_strict(qs: Seq<TypeVar>) -> bool {
    forall|i: int, j: int| 0 <= i < j < qs.len() ==> (#[trigger] qs[i]).0 < (#[trigger] qs[j]).0
}

/// `qs` holds the variable with id `v`.
pub open spec fn mentions(qs: Seq<TypeVar>, v: u32) -> bool {
    exists|i: int| 0 <= i < qs.len() && #[trigger] qs[i].0 == v
}

spec fn seen_unbound(vs: Seq<&u32>, count: int, env: Set<u32>, x: u32) -> bool {
    exists|j: int| 0 <= j < count && *vs[j] == x && !env.contains(x)
}

/// Generalize `ty` into a type scheme by quantifying over all type variables
/// that appear free in `ty` but not in `env_free_vars`, in increasing order.
///
/// `env_free_vars` is the set of variables that are still being solved in the
/// surrounding environment — those must not be captured.
pub fn generalize(ty: InferType, env_free_vars: &HashSet<u32>) -> (s: TypeScheme)
    ensures
        s.ty@ == ty@,
        sorted_strict(s.quantified_vars@),
        forall|v: u32| #[trigger] mentions(s.quantified_vars@, v) <==> (fv(ty@).contains(v) && !env_free_vars@.contains(v)),
{
    let fvs = free_vars(&ty);
    let ghost vseq = spec_hash_keys_iter(&fvs).remaining();
    let ghost env = env_free_vars@;
    let ghost mut count: int = 0;
    let mut quantified: Vec<TypeVar> = Vec::new();
    for v in it: fvs.iter()
        invariant
            it.seq() == vseq,
            vseq == spec_hash_keys_iter(&fvs).remaining(),
            vseq.unref().to_set() == fvs@,
            vseq.no_duplicates(),
            env == env_free_vars@,
            count == it.index(),
            0 <= count <= vseq.len(),
            sorted_strict(quantified@),
            forall|x: u32| #[trigger] mentions(quantified@, x) <==> seen_unbound(vseq, count, env, x),
    {
        if !env_free_vars.contains(v) {
            let mut pos: usize = 0;
            while pos < quantified.len() && quantified[pos].0 < *v
                invariant
                    pos <= quantified.len(),
                    forall|i: int| 0 <= i < pos ==> (#[trigger] quantified@[i]).0 < *v,
                decreases quantified.len() - pos,
            {
                pos += 1;
            }
            proof {
                assert forall|i: int| 0 <= i < quantified@.len() implies (#[trigger] quantified@[i]).0 != *v by {
                    if quantified@[i].0 == *v {
                        assert(mentions(quantified@, *v));
                        let j = choose|j: int| 0 <= j < count && *vseq[j] == *v && !env.contains(*v);
                        assert(vseq[j] == vseq[count]);
                    }
                }
            }
            let ghost old_q = quantified@;
            quantified.insert(pos, TypeVar(*v));
            proof {
                assert(quantified@ =~= old_q.insert(pos as int, TypeVar(*v)));
                assert forall|i: int, j: int| 0 <= i < j < quantified@.len() implies (#[trigger] quantified@[i]).0 < (#[trigger] quantified@[j]).0 by {
                    if i < pos && j > pos {
                        assert(old_q[i].0 < *v);
                    }
                    if i == pos && j > pos {
                        assert(old_q[pos as int].0 >= *v);
                        assert(old_q[pos as int].0 != *v);
                        if j - 1 > pos {
                            assert(old_q[pos as int].0 < old_q[j - 1].0);
                        }
                    }
                }
                assert forall|x: u32| #[trigger] mentions(quantified@, x) <==> seen_unbound(vseq, count + 1, env, x) by {
                    if seen_unbound(vseq, count + 1, env, x) {
                        let j = choose|j: int| 0 <= j < count + 1 && *vseq[j] == x && !env.contains(x);
                        if j < count {
                            assert(seen_unbound(vseq, count, env, x));
                            assert(mentions(old_q, x));
                            let i = choose|i: int| 0 <= i < old_q.len() && #[trigger] old_q[i].0 == x;
                            if i < pos {
                                assert(quantified@[i].0 == x);
                            } else {
                                assert(quantified@[i + 1].0 == x);
                            }
                        } else {
                            assert(quantified@[pos as int].0 == x);
                        }
                    }
                    if mentions(quantified@, x) {
                        let i = choose|i: int| 0 <= i < quantified@.len() && #[trigger] quantified@[i].0 == x;
                        if i < pos {
                            assert(old_q[i].0 == x);
                            assert(mentions(old_q, x));
                        } else if i > pos {
                            assert(old_q[i - 1].0 == x);
                            assert(mentions(old_q, x));
                        } else {
                            assert(*vseq[count] == x);
                        }
                    }
                }
            }
        } else {
            proof {
                assert forall|x: u32| #[trigger] mentions(quantified@, x) <==> seen_unbound(vseq, count + 1, env, x) by {
                    if seen_unbound(vseq, count + 1, env, x) {
                        let j = choose|j: int| 0 <= j < count + 1 && *vseq[j] == x && !env.contains(x);
                        if j == count {
                            assert(env.contains(x));
                        }
                        assert(seen_unbound(vseq, count, env, x));
                    }
                }
            }
        }
        proof {
            count = count + 1;
        }
    }
    proof {
        assert(count == vseq.len());
        assert forall|x: u32| #[trigger] mentions(quantified@, x) <==> (fv(ty@).contains(x) && !env.contains(x)) by {
            if fv(ty@).contains(x) && !env.contains(x) {
                assert(vseq.unref().to_set().contains(x));
                let j = choose|j: int| 0 <= j < vseq.unref().len() && vseq.unref()[j] == x;
                assert(*vseq[j] == x);
                assert(seen_unbound(vseq, count, env, x));
            }
            if seen_unbound(vseq, count, env, x) {
                let j = choose|j: int| 0 <= j < count && *vseq[j] == x && !env.contains(x);
                assert(vseq.unref()[j] == x);
                assert(vseq.unref().to_set().contains(x));
            }
        }
    }
    TypeScheme { quantified_vars: quantified, ty }
}

} // verus!

verus! {

/// The substitution that instantiation builds: the `i`-th quantified variable
/// is bound to the fresh variable `start + i` (a later repeat of a variable
/// overrides an earlier one).
pub open spec fn inst_map(qs: Seq<TypeVar>, start: nat) -> Map<u32, InferTypeView>
    decreases qs.len(),
{
    if qs.len() == 0 {
        Map::empty()
    } else {
        inst_map(qs.drop_last(), start).insert(
            qs.last().0,
            InferTypeView::Var((start + qs.len() - 1) as u32),
        )
    }
}

/// Instantiate a type scheme by replacing each quantified variable with a
/// fresh type variable from `gen`. Called once per use site.
pub fn instantiate(scheme: &TypeScheme, gen: &mut TypeVarGenerator) -> (r: InferType)
    requires
        old(gen).next_id() + scheme.quantified_vars.len() <= u32::MAX,
        terminates(inst_map(scheme.quantified_vars@, old(gen).next_id() as nat), scheme.ty@),
    ensures
        final(gen).next_id() == old(gen).next_id() + scheme.quantified_vars.len(),
        r@ == apply_spec(inst_map(scheme.quantified_vars@, old(gen).next_id() as nat), scheme.ty@),
{
    let ghost start = gen.next_id() as nat;
    let ghost qs = scheme.quantified_vars@;
    let mut subst = Substitution::new();
    let mut i: usize = 0;
    while i < scheme.quantified_vars.len()
        invariant
            i <= qs.len(),
            qs == scheme.quantified_vars@,
            start + qs.len() <= u32::MAX,
            gen.next_id() == start + i,
            subst@ == inst_map(qs.take(i as int), start),
        decreases qs.len() - i,
    {
        let var = scheme.quantified_vars[i];
        let fresh = gen.fresh();
        subst.bind(var, InferType::Var(fresh));
        proof {
            assert(qs.take(i as int + 1).drop_last() =~= qs.take(i as int));
        }
        i += 1;
    }
    assert(qs.take(qs.len() as int) =~= qs);
    subst.apply(&scheme.ty)
}

} // verus!
