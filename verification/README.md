# ferric

Ferric is a small expression language. This crate is its front end and its variable
store, verified with Verus:

- `src/loc.rs`: source positions and spans, the line table of a program, and the
  excerpts that error messages show.
- `src/lexer.rs`: bytes to tokens; `src/decimal.rs` holds number literals exactly.
- `src/ast.rs`: the syntax tree, static types and the parser's scopes.
- `src/grammar.rs`: what the parser does, stated as functions over values; the
  parser's contracts are given in its terms.
- `src/parser.rs`: tokens to expressions, resolving variables and checking types.
- `src/env.rs`: the scopes of variables at run time.
- `src/builtin.rs`: the checks and slicing of the built-in `substr`.
- `src/text.rs`: small helpers for building strings.

`app/` holds the rest: the evaluator (its numbers are floating point), the built-in
functions, the error messages, the command-line entry point that runs
`./executable/src.fe`, and the browser playground.
