# saga_typechecker

The type checker of the Saga language: types with effect rows, modules and their
headers, and the rules by which declarations are checked. The functions of the library
under `src/` are verified with Verus against contracts over mathematical models of
their data. What the standard library does is trusted in four places: the wrappers
`to_lowercase` (`codegen_info`), `char_is_uppercase` (`import_scope`) and `quote`
(`param_text`), and the contract of `String::push` (`schemes`).

## Layout

- Values: `text`, `values`, `seqs`, `sorting`, `table` (a map that keeps the order of
  its entries).
- Syntax and types: `token`, `ast`, `types`, `type_ops`, `type_vars`, `display`,
  `names`, `subst`, `schemes`, `param_text`, `patterns`, `diagnostics`.
- Modules: `graph`, `reachability`, `tarjan` and `graph_build` (which modules import
  which, and in which order they are checked), `header*` and `surface*` (what a module
  declares before any of its bodies are checked), `scope`, `origins`, `exports`,
  `import_scope`, `import_laws`, `canonical_exports`, `scan`, `loading`, `cycle_run`.
- Checking: `checker` and `infos` (the state), `builtins`, `definitions`,
  `annotations`, `program`, `type_decls`, `traits`, `bounds`, `impls`,
  `impl_methods`, `supertraits`, `constraints`, `solver_laws`, `signatures`, `effects`,
  `effect_ops`, `effect_decls`, `handlers`, `row_join`, `fun_types`, `fun_clauses`,
  `fun_schemes`, and the runs that take bodies one after the other: `clause_run`, `scheme_run`,
  `method_run`, `arm_run`.
- Code generation: `codegen_info`.

A type with data has a model, its `deep_view`: a sequence for a list, a sequence of
entries or a map for a table. A function that changes the state of the checker says
in its contract what the model becomes. Inference, unification and the conversion of
written types are done outside: what they give comes in as arguments, and where the
two take turns the library is a machine that says what is to be done next
(`constraints::Solver`, `program::ProgramRun`, and the runs).

`app/` reads the files of a project and writes traces. `tests/` runs the library.
