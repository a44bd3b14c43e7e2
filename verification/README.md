# Moonlane interpreter core, verified

A Verus library holding the logic of the Moonlane interpreter that can be
stated and proved: every function under `src/` carries a contract that
Verus checks.

Layout:

- `src/typeinference/` — inference types, substitutions, unification and
  constraint solving (sound, and complete: they fail only when no
  substitution equates the two sides), type schemes, the inference context
  and the type registry. `laws.rs` states properties that span several
  operations.
- `src/typechecker/` — conversions between type expressions, inference
  types and resolved types; the built-in schemes and the registry built
  from type declarations; inference of patterns, literals and operators,
  the rules of single expression and statement forms (`rules.rs`); the
  first pass itself (`walk.rs`): `infer_expr`, `infer_stmt` and
  `infer_program` walk every form of expression, statement, block and
  declaration, stated as a relation between the states before and after
  each node and its result;
  the second pass (`typing.rs`): `construct_expr` and `construct_program`
  build the typed tree over the syntax, giving each node its resolved type,
  raising `T0002` where a type stays unresolved and `T0008` for a match
  that is not exhaustive, stated as a relation in the same style;
  match exhaustiveness; the module-level
  checks on public annotations and imports, and what checking a graph
  carries from module to module (`graph.rs`).
- `src/name_resolver.rs` — import and export resolution over a module graph.
- `src/module_loader.rs` — which file an import names, module paths of
  loaded children, cycle and `super` checks.
- `src/evaluator.rs` — binary operations and rendering of integer, boolean
  and string values; method keys of impl blocks; the pure built-in
  functions; indexing, `for`-in items and loop control on plain values; the
  scoped run-time environment.
- `src/display.rs` — the rendering of whole values: tuples, arrays,
  `Perhaps` and `Result` values, and enum values with their fields sorted
  by name.
- `src/error.rs`, `src/types.rs`, `src/ast.rs`, `src/syntax.rs` — error
  values and their rendering, resolved types, the syntax the checks and the
  walk read.
- `src/laws.rs` — properties relating the loader, the resolver, the type
  conversions, match exhaustiveness and pattern inference.
- `app/lib.rs` — loading modules from disk around the library's decisions.
- `tests/` — tests on concrete values.

Floating-point evaluation, the parser and the evaluator's walks over
expressions and statements are not part of this library.
