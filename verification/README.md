# nmbrs_runtime

The runtime of a workload engine: it walks a scenario tree, runs its phases, and
records how each one ended. The rules by which it does so are a library that Verus
verifies; what touches the terminal, the clock, the file system or other tasks is
ordinary Rust around it.

## Layout

- `src/` is the verified library.
  - `phase_outcome` holds what a unit of work ends with, on two axes: how much of it
    ran, and whether its result can be relied on.
  - `adapter` chooses an adapter and a driver from what is registered, and holds
    what an operation gives back.
  - `bindings` and `params` assemble the definition text of a scope.
  - `control_catalog` lists the dynamic controls and checks what they are set to.
  - `exec_events` decides which retried errors are shown.
  - `observer` decides where log events and operation output go.
  - `executor` holds the walk: `scenario`, `sweep`, `do_loop` and `optimize` are
    state machines that say what to do next and take back what came of it; `node`,
    `position`, `coords`, `scene`, `context`, `shell`, `source` and `vars` serve the
    walk; `phase_setup`, `phase_start`, `cursor`, `phase_end`, `phase_metrics` and
    `provenance` serve one phase.
  - `model`, `value`, `strmap` and `text` are the data that the rest is stated over.
- `app/` walks a tree and runs its phases (`tree`, `phase`) over tasks (`walk`), on a
  compiled workload that answers through one trait (`engine`). It keeps the
  process-wide state, and holds the stored forms and the link-time registrations.
- `tests/` runs the library on concrete values.

Each contract is stated over the models in the same file. The properties that span
several functions are the proof functions whose names begin with `law_`.
