//! A Merkle commitment tree over opaque records, with inclusion proofs.
//!
//! Entries are hashed into leaves, leaves are folded pairwise into a root, and
//! a proof for one leaf carries the sibling preimages needed to rebuild that
//! root. All contracts are stated over the byte views of field elements and
//! over the named results of the hash functions that outside crates compute.

pub mod build_tree;
pub mod csv_parser;
pub mod entry;
pub mod error;
pub mod field;
pub mod hashing;
pub mod laws;
pub mod node;
pub mod ordering;
pub mod merkle_proof;
pub mod mt;
pub mod tree;

pub use entry::Entry;
pub use error::TreeError;
pub use field::FieldElement;
pub use node::Node;
pub use merkle_proof::MerkleProof;
pub use mt::MerkleTree;
pub use tree::Tree;
