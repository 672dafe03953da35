//! The decisions of a container supervisor, verified.
//!
//! A tree supervisor keeps one launcher running for each configured
//! container instance; a launcher sets up the container and supervises its
//! workload. This library holds what the two decide and compute: which
//! identifiers a container may use, when an action is due, which sockets are
//! opened and handed down, what a reaped child leaves behind, when a
//! launcher gives up on a workload. The programs around it do the input and
//! output and come to the library with plain values.
//!
//! Times are instants of a monotonic clock in milliseconds.

pub mod cgroup;
pub mod config_log;
pub mod container;
pub mod dangling;
pub mod fleet;
pub mod id_map;
pub mod knot;
pub mod pattern;
pub mod recover;
pub mod secrets;
pub mod socket_pool;
pub mod text;
pub mod timer_queue;
pub mod tree;
pub mod variables;
