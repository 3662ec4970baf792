# rhai_definitions

Generation of definition files (`*.d.rhai`) that declare, in script syntax,
the constants, variables and functions an engine makes visible.

- `src/engine.rs`: the engine contents the files are written from (global
  modules, named sub-modules, custom keywords, custom type names, scopes),
  and their well-formedness (names are keys, as in maps).
- `src/definitions.rs`: the `Definitions` helper and the rendering of modules,
  functions, type names and scopes, each with a contract over spec functions
  that say what text is produced.
- `src/type_names.rs`: flattening of type names (references, associated type
  names and paths removed from every part, brackets and commas kept).
- `src/text.rs`, `src/sort.rs`, `src/tokenizer.rs`: character-level text
  operations, the stable ordering of declarations, and function-name rules.
- `src/laws.rs`: properties of all generated files (headers, order,
  completeness, type names without paths that keep their generics).
- `app/`: writing the files to a directory, and the module-path macro expansion.

The texts of the two built-in definition files (`__builtin__.d.rhai` and
`__builtin-operators__.d.rhai`) are not part of this crate: `iter_files` and
`write_to_dir` take them from the caller and write them unchanged.
