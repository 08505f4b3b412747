//! The error kinds that the engine reports.
use vstd::prelude::*;

verus! {

#[derive(Clone, Copy, Debug, PartialEq, Eq, Structural)]
pub enum EthError {
    InvalidBlock,
    InvalidTransaction,
    InvalidSignature,
    InvalidMerkleRoot,
    InvalidValidator,
    StakeLocked,
}

impl EthError {
    /// A short description of the error.
    pub fn message(&self) -> (r: &'static str) {
        match self {
            EthError::InvalidBlock => "invalid block",
            EthError::InvalidTransaction => "invalid transaction",
            EthError::InvalidSignature => "invalid signature",
            EthError::InvalidMerkleRoot => "invalid merkle root",
            EthError::InvalidValidator => "invalid validator",
            EthError::StakeLocked => "stake is locked",
        }
    }
}

} // verus!
