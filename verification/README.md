# turbo_gc

Two parts of an incremental build engine, verified with Verus.

- **Garbage collection of a persistent task graph.** A pass collects the tasks that nothing refers to
  any more, and whatever their teardown leaves without a parent. It is seeded by a scan of the tasks in
  memory, or from the dead list that change propagation keeps. The contracts hold for every order in
  which a pool of workers may run the jobs of a pass; the laws in `src/laws.rs` and
  `src/rounds.rs` say what can be relied upon: only garbage goes, none is forgotten, a cut-off subtree
  goes whole, both ways of seeding agree, and seeds follow what was cut. That nothing collectible is left
  behind, that both ways of seeding agree, and that the order of jobs does not matter rest on one premise:
  each aggregation node above a task that is to be collected is an ancestor of that task. Nothing is asked
  of the live tasks.
- **Lazy sources.** A `*.lazy.*` file reads as empty, without its bytes being read, until its path is
  revealed for the session, in the one registry that all callers share. Modules behind dynamic
  imports are deferred in the same way.

`src/` is the verified library, `tests/` runs it, and `app/` adds what needs the environment, locks and
the file system.
