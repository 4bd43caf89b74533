# cargo_xtask_runner

A graphical runner for `cargo xtask` pipelines and standard cargo commands.
It discovers tasks through `cargo xtask --list` (one `target|task_id|description`
line per task), lets the user check tasks per target, and runs them one after
the other, stopping at the first failure.

## Layout

- `src/` — the verified library (Verus): parsing of the task listing and of
  workspace manifests, the runner's state (rows per target, remembered
  checkboxes, packages and cargo commands), the run pipeline and its log
  markers, console colouring, and the xtask helper's task table. Every public
  function carries a contract; the `lemma_*` proof functions state the laws
  that hold across calls (the listing round-trip, checkboxes surviving a
  target switch, a run stopping at its first failure, and others).
- `src/icon.rs` — the one call into the `image` crate, behind a trusted
  wrapper that decodes the PNG icon.
- `tests/` — tests of the library on concrete values.
- `app/` — the window (eframe/egui), process spawning, file reading and
  directory listing; it hands plain values to the library and performs the
  actions the library decides. `app/xtask_helper.rs` holds the `main` of the
  separate xtask helper binary, which this crate does not build.
