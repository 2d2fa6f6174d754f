# wind

Front end and semantic analysis for the Wind language, verified with Verus.

- `src/tokens.rs`, `src/lexer.rs`: tokens and the lexer, from bytes to spanned tokens.
- `src/ast.rs`, `src/grammar.rs`, `src/parse.rs`: the syntax tree, the grammar as a functional
  specification over views of the tree, and the recursive-descent parser proved against it.
- `src/ids.rs`, `src/sema.rs`, `src/scope.rs`, `src/value_pool.rs`, `src/bindings.rs`,
  `src/vmap.rs`: identifiers, symbols, the scope tree, the value pools and the name bindings.
- `src/gather.rs`, `src/resolve.rs`, `src/constraint.rs`, `src/liveness.rs`, `src/analyzer.rs`:
  the analysis passes and the analyzer that runs them in order.
- `src/cli.rs`, `src/text.rs`: command-line decisions, report lines and text helpers.
- `app/main.rs`: the command-line program (argument parsing, files, logging, diagnostics).
- `tests/`: tests run against the compiled library.
