# arael-sketch-backend (verified core)

The headless backend of the arael-sketch editor, with its logic written
in Verus and proved against its contracts.

- `src/` — the verified library: the undo/redo history (`history`), the
  command line with the undo/redo/history/msg commands and completion
  (`commands`, `complete`), constraint names (`ids`), meta-constraint
  records and reconciliation (`meta`), and the discrete side of the
  sketch operations: split/trim ownership and rewiring (`split`,
  `transfer`), fillet and chamfer corners (`corner_ops`), offset checks,
  side relations and update pairing (`offset`), pattern indices, ties and
  copy steps (`pattern`), mirror pins, ties and constraints (`mirror`),
  dimension scaling (`scale`), and the undo group an operation's batches
  run in (`grouping`). Entities are identified by the raw handle of the
  solver's `Ref`.
- `app/` — the unverified edge: reading a solver `Sketch` into the
  library's plain values, floating-point geometry, solving a restored
  sketch, reconciling a sketch's meta-constraints through the library,
  view zoom, and serde copies of identifier types. Building
  geometry and applying the operations (the solver's actions) are not
  part of this crate.
- `tests/` — the library's tests.
