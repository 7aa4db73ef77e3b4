//! The proving side: the relation that a base proof enforces, the public
//! values of receipts, the recursive composer and a deterministic stand-in
//! for the proving backend.

use crate::types::Transaction;
use vstd::prelude::*;

pub mod composer;
pub mod programs;
pub mod real_proofs;

verus! {

/// Which prover the backend runs.
#[derive(Debug, Clone, Copy, PartialEq, Eq, Structural)]
pub enum ProverMode {
    Cpu,
    Gpu,
    Mock,
}

/// How the backend trades memory for time.
#[derive(Debug, Clone, Copy, PartialEq, Eq, Structural)]
pub enum MemoryProfile {
    Standard,
    Optimized,
    Streaming,
}

/// The configuration of the proving backend.
#[derive(Debug, Clone, Copy, PartialEq, Eq, Structural)]
pub struct ZKVMConfig {
    pub memory_optimization: MemoryProfile,
    pub prover_mode: ProverMode,
    pub parallel_execution: bool,
}

impl Default for ZKVMConfig {
    fn default() -> (c: ZKVMConfig)
        ensures
            c == (ZKVMConfig {
                memory_optimization: MemoryProfile::Standard,
                prover_mode: ProverMode::Cpu,
                parallel_execution: true,
            }),
    {
        ZKVMConfig {
            memory_optimization: MemoryProfile::Standard,
            prover_mode: ProverMode::Cpu,
            parallel_execution: true,
        }
    }
}

/// Why the proving backend failed.
#[derive(Debug, Clone, Copy, PartialEq, Eq, Structural)]
pub enum ProverError {
    /// There is nothing to compose.
    EmptyComposition,
    /// A receipt to be composed is not accepted under the image id of its
    /// relation.
    InputRejected { position: usize },
    /// Two receipts to be composed do not follow each other: the later does
    /// not start from the root or the height that the earlier ends with.
    BrokenChain { position: usize },
    /// A total does not fit in 64 bits.
    Overflow,
}

/// The length of a stand-in proof.
pub const MOCK_PROOF_LEN: usize = 32;

/// `n` zero bytes.
pub fn zero_bytes(n: usize) -> (bytes: Vec<u8>)
    ensures
        bytes@ == Seq::new(n as nat, |i: int| 0u8),
{
    let mut bytes: Vec<u8> = Vec::new();
    let mut i: usize = 0;
    while i < n
        invariant
            i <= n,
            bytes@ == Seq::new(i as nat, |j: int| 0u8),
        decreases n - i,
    {
        bytes.push(0u8);
        i += 1;
        assert(bytes@ =~= Seq::new(i as nat, |j: int| 0u8));
    }
    bytes
}

/// The stand-in executor: it proves nothing. Every proof it gives is 32 zero
/// bytes, and it accepts every proof it is shown.
pub struct Risc0Executor {
    config: ZKVMConfig,
}

impl Risc0Executor {
    /// The configuration the executor was made with.
    pub closed spec fn config_spec(&self) -> ZKVMConfig {
        self.config
    }

    pub fn new() -> (r: Result<Risc0Executor, ProverError>)
        ensures
            r matches Ok(e) && e.config_spec() == (ZKVMConfig {
                memory_optimization: MemoryProfile::Standard,
                prover_mode: ProverMode::Cpu,
                parallel_execution: true,
            }),
    {
        Ok(Risc0Executor { config: ZKVMConfig::default() })
    }

    pub fn with_config(config: ZKVMConfig) -> (r: Result<Risc0Executor, ProverError>)
        ensures
            r matches Ok(e) && e.config_spec() == config,
    {
        Ok(Risc0Executor { config })
    }

    /// The configuration the executor was made with.
    pub fn config(&self) -> (c: ZKVMConfig)
        ensures
            c == self.config_spec(),
    {
        self.config
    }

    /// A stand-in proof of a state transition: 32 zero bytes.
    pub fn generate_state_transition_proof(
        &self,
        prev_state: Vec<u8>,
        transactions: Vec<Transaction>,
    ) -> (r: Result<Vec<u8>, ProverError>)
        ensures
            r matches Ok(proof) && proof@ == Seq::new(32, |i: int| 0u8),
    {
        Ok(zero_bytes(MOCK_PROOF_LEN))
    }

    /// A stand-in recursive proof: 32 zero bytes.
    pub fn generate_recursive_proof(&self, proof_inputs: Vec<Vec<u8>>) -> (r: Result<
        Vec<u8>,
        ProverError,
    >)
        ensures
            r matches Ok(proof) && proof@ == Seq::new(32, |i: int| 0u8),
    {
        Ok(zero_bytes(MOCK_PROOF_LEN))
    }

    /// Accepts the proof, whatever it is.
    pub fn verify_proof(&self, proof_bytes: &[u8]) -> (r: Result<bool, ProverError>)
        ensures
            r == Ok::<bool, ProverError>(true),
    {
        Ok(true)
    }
}

} // verus!
