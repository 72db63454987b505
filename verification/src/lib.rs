//! A concurrency-correctness harness for the classic check-then-act race:
//! concurrent withdrawals from a shared balance, guarded by a mutual-exclusion
//! lock. The library runs many independent trials of the concurrent
//! experiment and aggregates the distribution of final balances, proving that
//! the guarded account never produces a negative balance and that, for the
//! default configuration, every trial ends at exactly one reachable outcome.
//!
//! A shared balance mutated by concurrent workers without the lock cannot be
//! expressed here: the only mutation path is `GuardedAccount`, whose lock
//! invariant is machine-checked, and Rust's ownership rules reject a closure
//! that mutates a captured variable across independently scheduled threads.

pub mod account;
pub mod histogram;
pub mod stats;
pub mod trial;
