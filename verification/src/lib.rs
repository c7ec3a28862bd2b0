//! A "todo items with labels" domain library: a validated command gate,
//! a repository contract, a concurrency-safe in-memory store, and the pure
//! row-folding algorithm that a relational backend uses to rebuild
//! `Todo` aggregates (each carrying its label list) from flattened
//! outer-join rows.
//!
//! Every function in this crate is verified: the stores are specified
//! against a mathematical model of their state, and the repository laws
//! (round trips, partial updates, label replacement, duplicate rejection,
//! delete cascade) are proved, not just tested.

pub mod repositories;
pub mod search;
pub mod validation;
