//! Mempool primary of a Byzantine-fault-tolerant ledger node: the quorum
//! certification rules, stated and proved.
pub mod aggregators;
pub mod bitmap;
pub mod committee;
pub mod crypto;
pub mod error;
pub mod expiration;
pub mod machine;
pub mod messages;
pub mod proposer;
pub mod synchronizer;
pub mod types;
