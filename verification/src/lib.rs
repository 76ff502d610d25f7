//! A cooperative, single-threaded executor for poll-based task units, with
//! sequential and joint composition and a registry of dynamically dispatched
//! handlers. Time is simulated: the executor keeps a clock of its own and lets
//! it pass only when nothing is ready to run.

pub mod chain;
pub mod context;
pub mod delay;
pub mod executor;
pub mod join;
pub mod laws;
pub mod leaf;
pub mod poll;
pub mod registry;
pub mod run_laws;
pub mod unit;
pub mod yield_now;
