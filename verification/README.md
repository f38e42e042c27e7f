# quilum

The verified core of Quilum, a planner that places tasks into free time slots and
blocks distracting applications while the user focuses on a task.

- `src/scheduler`: the search for the plan with the highest total priority weight,
  with the laws it keeps (`scheduler/laws.rs`).
- `src/model`: tasks, slots, plans, text and calendar helpers.
- `src/applock`: application identifiers, reading installed applications (desktop
  entries, application bundles, Start menu shortcuts), blocking sessions, the choice of
  processes to stop, and their laws (`applock/laws.rs`).
- `src/records`, `src/queries`, `src/rows`: stored records, the database statements
  built from them, and how the rows of the slot, scheduled-task and task-list queries are read.
- `src/scheduler/run.rs`: one run of the scheduler over stored tasks and slots.
- `app/`: the operating-system side: scanning directories, reading files and the
  environment, polling processes, timers, serialisable copies of the types, and the
  glue from database rows to the library and from a plan to statements. The
  database and the desktop shell themselves are not part of this crate.
