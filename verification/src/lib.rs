//! A single-node, in-memory ledger runtime: a state machine that replays
//! numbered blocks of extrinsics on account balances, per-account nonces and
//! a registry of claims.

pub mod balances;
pub mod numeric;
pub mod proof_of_existence;
pub mod runtime;
pub mod store;
pub mod support;
pub mod system;
pub mod types;
