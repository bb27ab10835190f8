# conkit

A command-line contract kit whose core is verified with Verus.

## Layout

- `src/` — the verified library: catalog read budgets over byte streams,
  bounded output, archive framing (gzip limits, catalog paths, collision-safe
  names), path resolution and overlap checks, generated-file ownership and
  recovery, and the compiler-extraction state machine (Cargo invocations,
  metadata selection, crate identity, rustdoc probing, source mappings,
  process reaping and resource accounting).
- `tests/` — tests of the library on concrete values.
- `app/` — the program around the library: argument parsing, files and
  directories, child processes and their pipes, JSON, and the loops that
  perform the actions the library's state machines name.

Outside crates (flate2, sha2, rayon, async-lock) are reached through a few
trusted wrappers in `src/`, each with a doc comment saying what its contract
claims of the outside code.
