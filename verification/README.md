# hyperon (verified core)

A MeTTa toolkit whose logic is proved with Verus.

- `src/atom.rs` — atoms, their values, structural equality and copying, and
  `split_expr`, which splits an expression into its operation and arguments.
- `src/eval.rs` — the module index, a registry from function atoms and
  grounded type atoms to module numbers (add rebinds, remove forgets, lookup
  needs a recorded function), with the evaluation traits `Channel` and
  `Evaluator` and the `State` they pass.
- `src/number.rs` — decimal `i64` reading with std's rules.
- `src/literal.rs` — the kind of a Rust literal, as the `litrs` crate reads it.
- `src/token.rs`, `src/tokenizer.rs` — the token trees read by the `metta!`
  converter and the tokenizer that inserts spaces between trees that do not
  touch.
- `src/printer.rs` — the builder of the output token trees, group by group.
- `src/converter.rs` — the state machine that turns MeTTa syntax into the
  Rust code that builds atoms, with its laws.
- `app/lib.rs` — the procedural-macro edge: conversion between the compiler's
  token streams and the library's token trees, and the float literal.
