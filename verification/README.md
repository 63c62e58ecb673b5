# synthesizer_core

Typed building blocks shared by source-code synthesizers, verified with Verus.

- `src/indent.rs` — `IndentStyle`: indentation prefixes, single lines and
  whole blocks, specified over a model of `str::lines`.
- `src/mapping.rs`, `src/mapping/laws.rs` — the ordered `Mapping` trait, its
  `Vec<(K, V)>` implementation, and its laws (insertion order, lookups after
  insert, length accounting).
- `src/sequence.rs`, `src/sequence/laws.rs` — the ordered `Sequence` trait,
  its `Vec<T>` implementation, and its laws.
- `src/node.rs`, `src/node/laws.rs` — the `SynthesizerNode` rendering
  contract and run-time checks of its laws on concrete nodes.
- `tests/` — scenario tests for each module.
