//! A minimal cooperative task executor.
//!
//! The library holds the executor's decisions: the table of spawned tasks
//! with their completion state, the first-in first-out queue of wake
//! notifications, the guard that never steps a finished computation again,
//! and the deadline arithmetic of the delay reactor. Threads, clocks and
//! channels between threads stay with the host program, which hands the
//! library plain values.

use vstd::prelude::*;

pub mod delay;
pub mod executor;
pub mod task;
