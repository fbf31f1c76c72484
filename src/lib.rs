//! A binary hash tree (Merkle tree) over single-byte values, with inclusion
//! proofs that can be checked against a root digest alone.
use vstd::prelude::*;

pub mod digest;
pub mod element;
pub mod inclusion;
pub mod laws;
pub mod tree;

pub use digest::{hash_concat, hash_data};
pub use element::TreeElement;
pub use inclusion::{HashDirection, Path, Proof};
pub use tree::MerkleTree;

verus! {

/// A sequence of single-byte values.
pub type Data = Vec<u8>;

/// A digest: the raw bytes produced by the hash function.
pub type Hash = Vec<u8>;

} // verus!
