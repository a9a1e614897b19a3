# vortex

A columnar expression engine whose logic is proved with Verus.

* `expr`: expressions, the lexical scopes they are bound against, their bound form, lambdas, and
  how they read as text. `expr::laws` states what holds of binding and of scopes as a whole.
* `arrays`: canonical arrays of every type, lazily encoded arrays, their execution, and the kernels
  that compare and match dictionaries by their values.
* `apply`: expressions applied to arrays, with arrays supplied for variables. `soundness` states
  that evaluation respects types.
* `scan`: which row ranges a scan reads, which rows of each are selected, and when it ends.
  `scan::laws` states that every selected row is read exactly once.
* `display`: the throughput line of a node in a displayed array tree.

Contracts speak of mathematical models: `TypeModel`, `ScalarModel`, `ExprModel`, `BoundModel`,
`ScopeModel`, `ArrayModel`, `LazyModel` and `ScanModel`. What is trusted without proof stands in
`shared.rs` (`std::sync::Arc`), `hashing.rs` (`std::hash::Hasher`), `text.rs` (`itertools`) and
`scan/treemap.rs` (`roaring`).

`app/` runs scans as futures and streams, and renders figures that need floating-point numbers.
