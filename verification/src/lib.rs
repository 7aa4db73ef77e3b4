//! Core of a zero-knowledge, self-amending consensus engine: the data model,
//! the hash and signature suites, the canonical encoding, the state-transition
//! relation, producer election and the block pipeline, each with a
//! machine-checked contract.

pub mod account_storage;
pub mod address_map;
pub mod async_utils;
pub mod consensus;
pub mod crypto;
pub mod serialization;
pub mod types;
pub mod zkvm;

pub use consensus::engine::{ConsensusEngine, ConsensusError, ZkSacConsensusEngine};
pub use types::{
    Account, Address, Block, BlockHash, BlockHeader, ProofType, ProtocolConfig, ProtocolRule,
    SignatureType, Transaction, Validator, ValidatorSet, ValidatorSignature, WorldState, ZkProof,
    ZkVMConfig, ZkVMContext,
};
