# emmylua_index

A verified index of Lua modules and a typed view of Lua syntax trees, written
in Verus.

## Layout

- `src/module_index.rs`: `LuaModuleIndex`, the module tree, the file records,
  the table of names for lookups by last segment, module patterns and
  workspace roots. Every operation states its effect on `IndexView`, the index
  as plain values (`src/module_spec.rs`), and keeps it consistent.
- `src/module_lemmas.rs`, `src/module_laws.rs`: the proofs that every change
  keeps the tree consistent, and the laws that tie the operations together
  (a filed module is found by its path, a dropped file is forgotten and the
  others stay, paths keep leading where they led).
- `src/patterns.rs`, `src/emmyrc.rs`: module patterns such as `?.lua` and
  `?/init.lua`, the regular expressions built from them through the `regex`
  crate, and the configuration that supplies them.
- `src/name_map.rs`: a map from names to values with distinct keys, kept in
  insertion order.
- `src/syntax.rs`, `src/ast.rs`, `src/tokens.rs`, `src/expr.rs`,
  `src/lua_nodes.rs`: syntax trees as plain values and the typed nodes and
  tokens over them.
- `src/text.rs`: the string operations the rest is built on.
- `app/lib.rs`: builds the plain syntax trees from `rowan` trees.
- `tests/`: scenarios on concrete values.

The calls into the `regex` crate and into `std::path` sit behind small trusted
wrappers in `src/patterns.rs`, `HashMap::get_mut` behind `table_get_mut` in
`src/module_index.rs`, and `String::push` behind `push_char` in `src/text.rs`;
each says in its doc comment what it claims.
