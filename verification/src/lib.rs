//! Verified core of a shielded-value pool: an incremental Merkle accumulator
//! with a bounded root history, a double-spend (nullifier) guard, a
//! pairing-based proof verifier over a fixed public-input schema, and the
//! amount-conservation check that links plaintext amounts to proved amounts.

pub mod errors;
pub mod field;
pub mod groth16;
pub mod hashing;
pub mod merkle_tree;
pub mod sparse_merkle_tree;
pub mod transaction;
pub mod utils;

pub use merkle_tree::MerkleTreeAccount;
pub use transaction::{ExtData, Proof};

