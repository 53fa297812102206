//! Verified sequential models of three coordination patterns: a counter guarded by a
//! lock, a multi-producer single-consumer channel, and tasks that are spawned detached,
//! joinable or inside a scope.
//!
//! Every model is a plain value that advances by one call per event. A call never blocks:
//! where the real operation would have to wait, the call says so and leaves the state as
//! it was, and the caller, who owns the threads, waits and calls again.

pub mod channel;
pub mod channel_history;
pub mod counter;
pub mod crew;
pub mod roster;
pub mod shared;
pub mod shared_history;
pub mod task;
pub mod task_history;
