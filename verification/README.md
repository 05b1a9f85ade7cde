# forge_agent

A workflow engine for coding agents: tasks in a dependency graph, run in
order or layer by layer, with checkpoints, resumption, cancellation,
rollback of dependents, quality gates and a chain-of-custody plan graph.

- `src/` is the library, verified with Verus. Its contracts state what each
  operation returns or changes; public `lemma_*` proof functions state the
  properties that relate several operations (a checkpoint that was saved is
  loaded back, rollback plans put dependents first, execution layers are
  unique, sorting by priority is stable, ...). Calls into petgraph, sha2,
  uuid, chrono, serde_json and sqlitegraph go through small trusted wrappers
  whose contracts are documented where they are declared.
- `app/` is the runtime around it: asynchronous task execution with tokio,
  file and process I/O, JSON (de)serialisation of the library's data, and
  the parts that compute with floating-point scores.
- `tests/` exercises the library on concrete values.
