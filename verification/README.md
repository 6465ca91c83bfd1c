# rust_glimpser

Verified core of a deliberately incomplete Rust language server: it collects what the sources
state plainly (modules, definitions, imports, function bodies) and resolves and types what it
can inside bodies, without build scripts, macro expansion or trait solving. The cursor and
completion queries here (innermost node, dot receivers, qualified-path sites, visible
definitions, sort keys), together with navigation targets and the types of found symbols, are
the parts of an editor's queries that this layer answers; rendering hover text is left to the
editor layer above it.

Every module under `src/` is verified with Verus.

- `def_map`, `scope`, `ids`, `path`, `text`: module trees, namespace-separated module scopes,
  visibility, and the identities that the phases share.
- `resolution`, `imports`: path resolution, and import application iterated to a fixed point.
- `implicit_roots`, `freeze`, `db`: the crate roots each target sees, frozen def-map databases,
  offloading and package rebuilds, with or without a bound on import-resolution rounds; a
  rebuild shares the packages it does not rebuild with the previous snapshot.
- `workspace_graph`: which saved files change the workspace package graph.
- `def_map_cursor`, `path_completion`, `completion`: cursor candidates, qualified-path completion
  sites, visible scope definitions in display order, and completion sort keys.
- `item_tree`, `lower`, `lower_body`, `body`, `body_ids`, `literal`: lowering of patterns,
  expressions, statements and body-local items into per-function arenas with lexical scopes.
- `body_resolve`, `cursor`: local name and type lookups, local impl linking, and cursor queries
  over lowered bodies.
- `semantic`: the facts about module-level types, traits, functions, fields and impls that body
  resolution reads, with type-path resolution in a signature's context.
- `body_ty`, `body_infer`, `receiver`: models of Body IR types; the resolution pass that gives
  bindings and expressions their resolution and type, in rounds with pattern-type propagation
  until nothing changes. Fields and methods of module-level receivers are typed with the
  receiver's generic arguments substituted, and inherent methods are kept only when their impl
  applies to the receiver. `body_infer` also rebuilds the bodies of listed packages against a
  previous snapshot, which stays as it was when a slot cannot be rebuilt; body packages can be
  offloaded as def-map packages can.
- `scoped_types`, `pattern_types`: type references read in a body scope with their written
  arguments, and the types that let annotations and match scrutinees hand down through patterns
  to the bindings they introduce.
- `dot_completion`: the members offered after a dot, from the receiver's type, each once and in
  display order.
- `navigation`: where an editor jumps for a found symbol (modules, definitions, bindings, local
  items, fields, functions, type and `use` paths, resolved expressions), and the types of found
  symbols with the targets of those types.
- `laws`, `path_laws`, `candidate_laws`: properties of visibility, scopes and import
  application; of path resolution results; and of the field and method candidates that bodies
  resolve to, stated on their own.

The tests under `tests/` run the library on small hand-built inputs.
