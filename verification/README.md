# rollatorium

Tabletop-RPG dice expressions (`4d6kh3`, `3d6rr<3`, `2d6mi3ma5`, annotated
rolls like `4d6 [fire damage]`): their lexer, expression tree, builder and
result tree, with contracts proved by Verus.

## Layout

- `src/` — the verified library.
  - `lexer.rs`, `token.rs`: the lexer, specified token by token (`lex_next`).
  - `ast.rs`: the expression tree and `Node::map_tags`.
  - `builder.rs` (exported as `build`): the fluent `Roll` builder.
  - `eval.rs`: the result tree and the evaluation steps that decide without
    arithmetic (roll budget, die bounds, division by zero, which dice a
    selector picks, keeping, dropping, clamping), with their laws.
  - `pool.rs`: each operation on a pool of dice (keep, drop, rerolls,
    explosion, clamps) as a step function from the evaluator's answer to its
    next request, with its laws.
  - `number.rs`: binary64 numbers held as bit patterns, their order.
  - `text.rs`, `error.rs`: character classes, decimal text, the error type.
- `app/` — the evaluator (floating-point totals and random draws through
  `rand`), the error type with `std::error::Error` (`thiserror`), serde copies
  of the trees, and the code emitter for compile-time trees (`quote`).
- `tests/` — tests of the library.
