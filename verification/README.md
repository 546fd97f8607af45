# pallet_scheduler

A scheduler of dispatches, verified with Verus. Dispatches are scheduled to occur at a specified
block or at a specified period, with or without a name, and may be moved or canceled.

- `src/` is the scheduler. `pallet.rs` holds its state and the model of it, `calls.rs` scheduling,
  moving and canceling, `dispatchables.rs` the calls for those who may schedule, `anon.rs` and
  `named.rs` the interface for other parts of the runtime, `queue.rs` and `hooks.rs` the start of a
  block, `migration.rs` stored agendas of earlier formats and `genesis.rs` a new network.
  `laws.rs`, `names.rs`, `pending.rs`, `runs.rs` and `slots.rs` state what holds of the scheduler as
  a whole: of single requests and block starts, of names, of the tasks over all agendas, and of a
  task over a run of blocks, by what it is and by the slot that it is in. `times.rs` has the blocks
  in which a task is to be dispatched.
- `config.rs` is what the scheduler needs of its runtime. A runtime is handed to the scheduler as a
  value, and what becomes of it is part of the contracts.
- `weights.rs` takes the weight of database accesses from `frame_support`.
- `app/` makes the scheduler a part of a FRAME runtime, with its state in the runtime's storage.
- `tests/` runs the scheduler in a runtime in which calls leave notes.
