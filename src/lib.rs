//! Bookkeeping of a fixed-size worker pool: the queue of pending jobs, the
//! state of each worker, and the rules by which jobs are handed out.
//!
//! The threads that run the jobs live outside this library; they hold a
//! `PoolState` under a lock and ask it, one step at a time, what to do next.
pub mod laws;
pub mod model;
pub mod state;

pub use model::PoolView;
pub use state::PoolState;
