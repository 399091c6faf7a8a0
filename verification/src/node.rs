//! Tree nodes: one field-element hash each.

use vstd::prelude::*;
use crate::field::FieldElement;
use crate::hashing::{field_of_digest, hash_one, hash_two, poseidon_hash1, poseidon_hash2, reduce_digest};

verus! {

/// One node of the tree.
#[derive(Clone, Copy, Debug, PartialEq)]
pub struct Node {
    pub hash: FieldElement,
}

impl Node {
    /// The leaf over a 32-byte big-endian number: the one-input hash of the
    /// field element that the number reduces to.
    pub fn leaf(data: &[u8; 32]) -> (node: Node)
        ensures
            node.hash@ == poseidon_hash1(field_of_digest(data@)),
    {
        let hash_input = [reduce_digest(data)];
        Node { hash: hash_one(&hash_input[0]) }
    }

    /// The parent of two nodes: the two-input hash of their hashes, left first.
    pub fn middle(left_child: &Node, right_child: &Node) -> (node: Node)
        ensures
            node.hash@ == poseidon_hash2(left_child.hash@, right_child.hash@),
    {
        let hash_preimage = [left_child.hash, right_child.hash];
        Node { hash: hash_two(&hash_preimage[0], &hash_preimage[1]) }
    }

    /// The sentinel node whose hash is zero.
    pub fn init_empty() -> (node: Node)
        ensures
            node.hash@ == Seq::new(32, |i: int| 0u8),
    {
        Node { hash: FieldElement::zero() }
    }

    /// The leaf whose preimage is given directly.
    pub fn leaf_node_from_preimage(preimage: &[FieldElement; 1]) -> (node: Node)
        ensures
            node.hash@ == poseidon_hash1(preimage[0]@),
    {
        Node { hash: hash_one(&preimage[0]) }
    }

    /// The middle node whose two child hashes are given directly, left first.
    pub fn middle_node_from_preimage(preimage: &[FieldElement; 2]) -> (node: Node)
        ensures
            node.hash@ == poseidon_hash2(preimage[0]@, preimage[1]@),
    {
        Node { hash: hash_two(&preimage[0], &preimage[1]) }
    }
}

} // verus!
