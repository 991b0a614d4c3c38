//! A MapReduce library: the coordinator's task bookkeeping, the worker's
//! partitioning and grouping steps, and the word-count map and reduce functions.
pub mod ds;
pub mod names;
pub mod worker;
pub mod text;
pub mod plugin;
pub mod wc;
pub mod coordinator;
