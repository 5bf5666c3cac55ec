//! Synchronization and deadlock-avoidance layer of a small teaching kernel:
//! a Banker's-algorithm safety checker, modeled lock / semaphore / condition
//! variable primitives, a slot-based resource registry, and the syscall
//! orchestration protocol that ties them together.

pub mod checker;
pub mod primitives;
pub mod registry;
pub mod syscalls;
