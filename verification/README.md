# mr

A MapReduce library whose coordinator bookkeeping and worker computations are
verified with Verus.

- `src/ds/task.rs`: a task (input paths, worker, state, type).
- `src/ds/taskman.rs`: the coordinator's task list: handing out idle tasks,
  recording completions, scheduling reduce tasks (expedited or traditional),
  expiring overdue tasks, and the laws these operations obey.
- `src/ds/intermediate.rs`: intermediate values grouped by key. They are held in
  a vector of (key, values) entries with distinct keys rather than a `HashMap`:
  Verus proves little of a `HashMap` keyed by `String`, and the vector also fixes
  the order in which keys are reduced (the order they are first seen).
- `src/worker.rs`: what a worker asks for, the partition of map output among
  reduce tasks, grouping, and the reduce output lines.
- `src/wc.rs`: the word-count application's map and reduce functions.
- `src/names.rs`: decimal numerals and intermediate/output file names.
- `src/text.rs`: the calls into the `regex` crate and ASCII case mapping.
- `src/coordinator.rs`: the coordinator's request handling.
- `TaskManager` holds its tasks by value; the coordinator program shares one
  behind a lock (`Arc<Mutex<Coordinator>>` in `app/server.rs`), so its `clone`
  copies the tasks.
- `app/`: the coordinator and worker programs (RPC over `tarpc`, file I/O,
  loading application libraries with `libloading`).
