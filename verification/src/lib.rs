//! A verified payments engine: client accounts evolve under a stream of
//! deposit, withdrawal, dispute, resolve and chargeback instructions, with
//! per-account balance invariants (`total == available + held`, nothing
//! negative) enforced by construction and proved.

pub mod engine;
pub mod normalize;
pub mod reports;
mod store;
pub mod structures;
