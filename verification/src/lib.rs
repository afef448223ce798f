//! A verified core for a small proof-of-work cryptocurrency node: consensus
//! state (blockchain, UTXO set, mempool, wallet), a P2PKH script machine,
//! block assembly and mining checks, and the peer message router.

pub mod crypto;
pub mod hexcode;
pub mod script;
pub mod ser;
pub mod tx;
pub mod miner;
pub mod utxo;
pub mod mempool;
pub mod seqlemmas;
pub mod wallet;
pub mod messages;
pub mod node;
pub mod network;
