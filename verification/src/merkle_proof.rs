//! Inclusion proofs and what it means for one to verify.

use vstd::prelude::*;
use crate::entry::Entry;
use crate::error::TreeError;
use crate::field::FieldElement;
use crate::hashing::{poseidon_hash1, poseidon_hash2};
use crate::node::Node;

verus! {

/// What a holder of one entry shows to a verifier who knows the root.
#[derive(Clone, Debug)]
pub struct MerkleProof {
    /// The entry whose inclusion is claimed.
    pub entry: Entry,
    /// The root that the claim is made against.
    pub root: Node,
    /// The preimage of the leaf beside the entry's leaf.
    pub sibling_leaf_node_hash_preimage: [FieldElement; 1],
    /// For each level above the leaves and below the root, the two child
    /// hashes of the node beside the path, left first.
    pub sibling_middle_node_hash_preimages: Vec<[FieldElement; 2]>,
    /// For each level below the root, zero where the path's node is a left
    /// child and one where it is a right child.
    pub path_indices: Vec<FieldElement>,
}

/// The encoding of the field's zero.
pub open spec fn zero_encoding() -> Seq<u8> {
    Seq::new(32, |i: int| 0u8)
}

/// The parent of the path's node and its sibling: the path's node goes left
/// where the path index is zero, right otherwise.
pub open spec fn combine(current: Seq<u8>, sibling: Seq<u8>, path_index: Seq<u8>) -> Seq<u8> {
    if path_index == zero_encoding() {
        poseidon_hash2(current, sibling)
    } else {
        poseidon_hash2(sibling, current)
    }
}

/// The hash reached from `leaf` after folding in the first `n` siblings.
pub open spec fn climb(leaf: Seq<u8>, siblings: Seq<Seq<u8>>, path: Seq<Seq<u8>>, n: nat) -> Seq<u8>
    decreases n,
{
    if n == 0 {
        leaf
    } else {
        combine(climb(leaf, siblings, path, (n - 1) as nat), siblings[n - 1], path[n - 1])
    }
}

/// Whether two proofs feed different inputs to the two-input hash at `level`.
pub open spec fn inputs_differ_at(p: MerkleProof, q: MerkleProof, level: int) -> bool {
    p.left_input(level) != q.left_input(level) || p.right_input(level) != q.right_input(level)
}

/// Whether the two-input hash collides on the inputs of two proofs at
/// `level`: different inputs, one result.
pub open spec fn collides_at(p: MerkleProof, q: MerkleProof, level: int) -> bool {
    &&& inputs_differ_at(p, q, level)
    &&& poseidon_hash2(p.left_input(level), p.right_input(level)) == poseidon_hash2(
        q.left_input(level),
        q.right_input(level),
    )
}

/// Whether two proofs have paths of one length and the two-input hash
/// collides at no level of them.
pub open spec fn is_collision_free_pair(p: MerkleProof, q: MerkleProof) -> bool {
    &&& p.path_indices@.len() == q.path_indices@.len()
    &&& forall|level: int| 0 <= level < p.path_indices@.len() ==> !#[trigger] collides_at(p, q, level)
}

/// Whether two proofs use the same siblings and the same sides at every
/// level above `level`.
pub open spec fn agree_above(p: MerkleProof, q: MerkleProof, level: int) -> bool {
    forall|l: int|
        level < l < p.path_indices@.len() ==> {
            &&& #[trigger] p.sibling_hashes()[l] == q.sibling_hashes()[l]
            &&& p.goes_left(l) == q.goes_left(l)
        }
}

impl MerkleProof {
    /// The path indices as encodings, leaf level first.
    pub open spec fn path(&self) -> Seq<Seq<u8>> {
        Seq::new(self.path_indices@.len(), |i: int| self.path_indices@[i]@)
    }

    /// The hash of the sibling at each level of the path: the leaf sibling's
    /// from its one-element preimage, each higher one from its pair.
    pub open spec fn sibling_hashes(&self) -> Seq<Seq<u8>> {
        Seq::new(
            self.path_indices@.len(),
            |i: int|
                if i == 0 {
                    poseidon_hash1(self.sibling_leaf_node_hash_preimage@[0]@)
                } else {
                    poseidon_hash2(
                        self.sibling_middle_node_hash_preimages@[i - 1]@[0]@,
                        self.sibling_middle_node_hash_preimages@[i - 1]@[1]@,
                    )
                },
        )
    }

    /// A proof has a shape that can be checked when its path is not empty and
    /// it carries one pair for every path index but the first.
    pub open spec fn is_well_shaped(&self) -> bool {
        &&& self.path_indices@.len() >= 1
        &&& self.sibling_middle_node_hash_preimages@.len() + 1 == self.path_indices@.len()
    }

    /// The hash reached after `level` steps of the fold.
    pub open spec fn node_at(&self, level: int) -> Seq<u8> {
        climb(self.entry.leaf_hash(), self.sibling_hashes(), self.path(), level as nat)
    }

    /// Whether the path's node is the left child at `level`.
    pub open spec fn goes_left(&self, level: int) -> bool {
        self.path()[level] == zero_encoding()
    }

    /// The left input of the two-input hash at `level`.
    pub open spec fn left_input(&self, level: int) -> Seq<u8> {
        if self.goes_left(level) {
            self.node_at(level)
        } else {
            self.sibling_hashes()[level]
        }
    }

    /// The right input of the two-input hash at `level`.
    pub open spec fn right_input(&self, level: int) -> Seq<u8> {
        if self.goes_left(level) {
            self.sibling_hashes()[level]
        } else {
            self.node_at(level)
        }
    }

    /// The hash that the proof's entry, siblings and path fold to.
    pub open spec fn folded_hash(&self) -> Seq<u8> {
        climb(self.entry.leaf_hash(), self.sibling_hashes(), self.path(), self.path_indices@.len())
    }

    /// The outcome of checking the proof: an error for a proof that is not
    /// well shaped, else whether it folds to its own root.
    pub open spec fn verdict(&self) -> Result<bool, TreeError> {
        if self.is_well_shaped() {
            Ok(self.folded_hash() == self.root.hash@)
        } else {
            Err(TreeError::MalformedProof)
        }
    }
}

} // verus!
