//! The core of a proof-of-stake blockchain replica: blocks and transactions, the UTXO
//! index with staking, the mempool, the stake-weighted validator lottery, slashing, the
//! block proposer and the peer protocol's decisions, each with a verified contract.
use vstd::prelude::*;

pub mod block;
pub mod blockchain;
pub mod cli;
pub mod clock;
pub mod codec;
pub mod crypto;
pub mod decode;
pub mod error;
pub mod mempool;
pub mod network;
pub mod merkle;
pub mod proposer;
pub mod replay;
pub mod stake;
pub mod types;
pub mod utxo;
pub mod wallet;
