# track

The Track compiler front end as a verified library: the lexer, the parser,
monomorphization of generic functions, the linear-ownership checker, the
machine types and signatures that code generation uses, the logic of the `yard` package manager and of
the language server. Every function under `src/` is checked by Verus against
its contract.

Layout:

- `src/lexer.rs`, `src/parser/` — tokens with their spans, and the syntax tree;
  `parser/grammar.rs` states the grammar of patterns, declarations and
  statement heads.
- `src/mono/` — templates, type inference for instances, name mangling.
- `src/checker/` — variable states, borrows and lenses, branch joins, loops,
  imports, calls; `check_expr` states the rules of most forms (loops, branch
  joins, lens blocks, calls, borrows, escapes, declarations and reassignment)
  and `check_program` states its answer statement by statement;
  `checker/laws.rs` proves properties of the state operations those rules are
  made of.
- `src/collections.rs` — string-keyed maps and sets kept in insertion order.
- `src/lowering.rs` — machine types, signatures, discriminants for code generation.
- `src/yard/` — manifest, build cache, dependency resolution, command lines, linking,
  and the build plan (object paths, reported failure, order of diagnostics and
  linker inputs).
- `src/lsp.rs` — diagnostics, words under the cursor, completions, hover texts.
- `app/` — the `track` program: file and process I/O, threads, Cranelift code
  generation (not verified), the language server protocol, and the manifest and cache formats.
