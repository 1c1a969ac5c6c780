# Gravi

Gravi compiles programs of the Aion language (`.nn` files) to C. This crate is its
compiler library, written in Verus: the functions of `src/` carry contracts that Verus
proves, except the few marked `external_body` that call into `colored` or std, whose
contracts are taken on trust.

## Layout

- `src/lexer.rs`: source text to tokens; the tokens are specified by `scan`.
- `src/parser.rs`: tokens to the syntax tree of `src/ast.rs`.
- `src/resolver.rs`: the imports of a program, as a state machine that asks for what
  it needs from the file system (`Step::Need`) and takes the answers.
- `src/symbol.rs`: the scoped symbol table.
- `src/typechecker.rs`: type inference and checking; `src/literals.rs` collects the
  numeric literals whose floating-point reading the checker is given.
- `src/backend/c.rs`: C generation; `src/codegen.rs` and `src/backend.rs` hold the
  options and the back-end trait.
- `src/error.rs`: diagnostics and their text; `src/paint.rs` colours it.
- `src/text.rs`, `src/numeric.rs`: strings and numbers.
- `app/main.rs`: the command line program: files, the answers to the resolver, the
  floating-point table, and running the C compiler.
- `tests/`: tests of the library.
