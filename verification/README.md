# Krasis

Krasis is a stateful coupling layer. It keeps the committed and trial values of named fields and
constitutive slots, their bounded history and their checkpoints, and it composes operators over
one state.

- **State**: layouts tile a state vector with named blocks (`layout`), bindings name the blocks by
  semantic ids (`binding`), and a state moves through begin, set, commit and rollback
  (`state`, `state_model`). A checkpoint is validated in full before live state changes
  (`checkpoint`, `restore_model`). An accepted one puts back what it holds of the state's own
  fields and slots, and comes back unchanged where it holds nothing else (`restore_laws`).
- **Composition**: leaves over their own layouts are joined by edges from the state or the rate of
  one leaf into the residual of another (`system`, `evaluation`), with an explicit coupling graph
  whose stages are scheduled dependencies first (`graph`, `graph_laws`, `system_laws`). A single
  realization is evaluated in its transient and its steady view (`operator_evaluation`). Matching
  traces of reduced systems are eliminated by constraints (`connected`, `connected_evaluation`,
  `connected_diagonal`). Two operators of different method families are coupled by explicit
  matrices (`method`, `method_evaluation`).
- **Execution**: time steps (`execution`) and linear solves (`block_solve`) run inside a state
  transaction; what is not accepted changes nothing.
- **Initialization**: consistent rates over differential and algebraic rows (`initialization`,
  `reduced_rate`, `consistency`) and initial data projected onto a mesh (`initial`,
  `system_initial`).
- **Evidence**: reports on rollback, restart, cross-block derivatives, strategies, history and
  events, each bound to the operator, layout, evaluation context and configuration it was computed
  with (`report_laws`) and confirmed by recomputation (`evidence`, `verification`, `restart`,
  `derivative`, `strategy`, `history`, `event_check`).

Everything under `src/` is verified with Verus. Contracts are stated over mathematical models; the
`*_model` modules hold the models, and public proof functions named `law_*` state what holds across
several functions. Scalars are kept as the bit patterns of 64-bit floating-point numbers: the
library compares them and checks that they are finite, and takes their arithmetic, like the
numerical solvers and the discretization, as functions that the caller hands in. A contract then
says what each of these is called with and what becomes of its result.

Two calls are trusted: the BLAKE3 hash behind every identity and report digest, and the JSON
encoding of a string (`digest`).

`app/` holds what surrounds the library: floating-point values, JSON wire forms, displayed errors,
realizations, compositions, connections and pairs evaluated through operators, initial states and
their consistency, and executions and checks driven through an integrator. `tests/` runs the
library on given values.
