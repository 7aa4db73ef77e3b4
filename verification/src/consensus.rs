//! The consensus core: executing transactions against the state, electing
//! producers, admitting transactions, checking and attesting blocks, and
//! running the chain.

pub mod attestations;
pub mod election;
pub mod engine;
pub mod execution;
pub mod mempool;
pub mod pipeline;
pub mod validation;
