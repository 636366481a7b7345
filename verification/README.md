# c_compiler

A compiler for a subset of C (`int` and `long` declarations, the arithmetic,
bitwise, logical, relational and assignment operators, `if`, `goto`, loops,
`switch`, functions, and the `static` and `extern` storage classes) that
produces x86-64 assembly, with every pass specified and proved in Verus.

## Layout

- `src/lexer.rs` — source lines to tokens.
- `src/token_stream.rs` — the token stream the parser reads (itertools'
  `MultiPeek`), behind trusted wrappers.
- `src/grammar.rs` — the grammar as spec functions over token sequences;
  `src/parser.rs` — the syntax tree and the recursive-descent parser proved
  against it; `src/types.rs` — source types and constants.
- `src/resolve_identifiers.rs`, `src/resolve_lvalues.rs`,
  `src/resolve_labels.rs`, `src/resolve_loops.rs`, `src/resolve_types.rs` —
  the passes of semantic analysis; `src/resolve_variables.rs` is a simpler
  variable resolution with one scope for the whole program; `src/semantic_analysis.rs` runs them in
  turn, and `src/semantic_laws.rs` proves what they owe one another.
- `src/tacky.rs` — the three-address intermediate form and the lowering into
  it; `src/evaluation.rs` — the C value of straight-line arithmetic, the
  machine meaning of TACKY instructions, and the law that lowering computes
  the value.
- `src/codegen.rs` — assembly generation: conversion, stack slots for
  pseudo-registers, operand fix-ups.
- `src/codeemission.rs` — the assembly as text.
- `src/name_map.rs`, `src/names.rs` — name-keyed maps and fresh names.
- `app/` — the command-line driver: runs gcc to preprocess, reads and writes
  files, assembles and links.
- `tests/` — tests of each stage.
