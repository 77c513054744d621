//! Garbage collection and lazy sources for a persistent task graph.
//!
//! - [`gc`] holds the backend and its collection passes, on the tasks of [`storage`]. What a task is
//!   stands in [`task`], what a graph of tasks keeps in [`graph`], and how it is edited and torn down
//!   in [`edit`] and [`teardown`].
//! - [`pass`] says what a pass is, for every order in which its jobs may run, [`outcome`] what comes
//!   of it, and [`laws`], [`rounds`], [`behaviour`] and [`calls`] what can be relied upon.
//! - [`lazy_reveal`] and [`file_source`] hold the sources that read as empty until they are revealed,
//!   on the paths of [`path`].
pub mod behaviour;
pub mod calls;
pub mod edit;
pub mod file_source;
pub mod gc;
pub mod graph;
pub mod laws;
pub mod lazy_reveal;
pub mod mode;
pub mod outcome;
pub mod pass;
pub mod path;
pub mod reason;
pub mod rounds;
pub mod stats;
pub mod storage;
pub mod task;
pub mod teardown;
pub mod vec_set;
