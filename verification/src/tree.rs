//! What every tree offers, and proof generation and checking on top of it.

use vstd::prelude::*;
use crate::entry::Entry;
use crate::error::TreeError;
use crate::field::{le_encoding, FieldElement};
use crate::hashing::{poseidon_hash2, reduce_digest};
use crate::node::Node;
use crate::merkle_proof::{climb, zero_encoding, MerkleProof};

verus! {

/// Two to the power of `exponent`.
pub open spec fn two_pow(exponent: nat) -> nat
    decreases exponent,
{
    if exponent == 0 {
        1
    } else {
        2 * two_pow((exponent - 1) as nat)
    }
}

/// Whether `upper` is the layer above `lower`: half as long, each node the
/// parent of the two nodes below it.
pub open spec fn is_fold_of(upper: Seq<Node>, lower: Seq<Node>) -> bool {
    &&& upper.len() * 2 == lower.len()
    &&& forall|j: int|
        0 <= j < upper.len() ==> (#[trigger] upper[j]).hash@ == poseidon_hash2(
            lower[2 * j].hash@,
            lower[2 * j + 1].hash@,
        )
}

/// Whether the layer at `level` is the fold of the layer below it.
pub open spec fn is_fold_at(layers: Seq<Seq<Node>>, level: int) -> bool {
    is_fold_of(layers[level], layers[level - 1])
}

/// The layers of a matrix of nodes, each as a sequence.
pub open spec fn layer_views(nodes: Seq<Vec<Node>>) -> Seq<Seq<Node>> {
    Seq::new(nodes.len(), |k: int| nodes[k]@)
}

/// Whether `layers` is the full matrix of a tree of the given depth: two to
/// the power of `depth` leaves, and every higher layer the fold of the one
/// below, up to a single node.
pub open spec fn is_layer_matrix(layers: Seq<Seq<Node>>, depth: int) -> bool {
    &&& depth >= 0
    &&& layers.len() == depth + 1
    &&& layers[0].len() == two_pow(depth as nat)
    &&& forall|level: int| 1 <= level <= depth ==> #[trigger] is_fold_at(layers, level)
}

/// Whether each leaf is the leaf of the entry at its position.
pub open spec fn leaves_match(leaves: Seq<Node>, entries: Seq<Entry>) -> bool {
    &&& leaves.len() == entries.len()
    &&& forall|i: int| 0 <= i < leaves.len() ==> (#[trigger] leaves[i]).hash@ == entries[i].leaf_hash()
}

/// Whether the four parts make up a tree as construction leaves it.
pub open spec fn is_well_formed(
    layers: Seq<Seq<Node>>,
    entries: Seq<Entry>,
    root: Node,
    depth: int,
) -> bool {
    &&& is_layer_matrix(layers, depth)
    &&& leaves_match(layers[0], entries)
    &&& layers[depth].len() == 1
    &&& layers[depth][0] == root
}

/// The two child hashes of the node at `(level, index)`, left first, or why
/// there are none.
pub open spec fn middle_preimage_at(
    layers: Seq<Seq<Node>>,
    depth: int,
    level: int,
    index: int,
) -> Result<(Seq<u8>, Seq<u8>), TreeError> {
    if level <= 0 || level > depth {
        Err(TreeError::InvalidDepth)
    } else if level >= layers.len() || index < 0 || index >= layers[level].len() || 2 * index + 1
        >= layers[level - 1].len() {
        Err(TreeError::NodeNotFound)
    } else {
        Ok((layers[level - 1][2 * index].hash@, layers[level - 1][2 * index + 1].hash@))
    }
}

/// The preimage of the leaf at `index`, or why there is none.
pub open spec fn leaf_preimage_at(entries: Seq<Entry>, index: int) -> Result<Seq<u8>, TreeError> {
    if index < 0 || index >= entries.len() {
        Err(TreeError::IndexOutOfBounds)
    } else {
        Ok(entries[index].field_hash())
    }
}

/// The index, `level` levels up, of the node above the leaf at `index`.
pub open spec fn ancestor(index: int, level: int) -> int
    decreases level,
{
    if level <= 0 {
        index
    } else {
        ancestor(index, level - 1) / 2
    }
}

/// The index of the other child of the same parent.
pub open spec fn sibling_of(index: int) -> int {
    if index % 2 == 0 {
        index + 1
    } else {
        index - 1
    }
}

/// The number of leaves.
pub open spec fn leaf_count(layers: Seq<Seq<Node>>) -> int {
    if layers.len() == 0 {
        0
    } else {
        layers[0].len() as int
    }
}

/// Whether the node beside the path at `level` has both its children stored.
pub open spec fn has_path_sibling(layers: Seq<Seq<Node>>, depth: int, index: int, level: int) -> bool {
    middle_preimage_at(layers, depth, level, sibling_of(ancestor(index, level))) is Ok
}

/// Why no proof can be made for the leaf at `index`, if that is so: the leaf,
/// its entry or its sibling's entry is missing, or a node beside the path is.
pub open spec fn proof_error(
    layers: Seq<Seq<Node>>,
    entries: Seq<Entry>,
    depth: int,
    index: int,
) -> Option<TreeError> {
    if index >= leaf_count(layers) || index >= entries.len() || sibling_of(index) >= entries.len() {
        Some(TreeError::IndexOutOfBounds)
    } else if exists|level: int| 1 <= level < depth && !has_path_sibling(layers, depth, index, level) {
        Some(TreeError::NodeNotFound)
    } else {
        None
    }
}

/// Whether `proof` is the proof for the leaf at `index`: it carries that
/// leaf's entry, the root, the sibling entry's field element, one path index
/// per level below the root, and for each level from one up to below the
/// root the children of the node beside the path.
pub open spec fn is_proof_for(
    proof: MerkleProof,
    layers: Seq<Seq<Node>>,
    entries: Seq<Entry>,
    root: Node,
    depth: int,
    index: int,
) -> bool {
    &&& proof.entry == entries[index]
    &&& proof.root == root
    &&& proof.sibling_leaf_node_hash_preimage@[0]@ == entries[sibling_of(index)].field_hash()
    &&& proof.path_indices@.len() == (if depth >= 0 { depth } else { 0 })
    &&& forall|level: int|
        0 <= level < depth ==> (#[trigger] proof.path_indices@[level])@ == le_encoding(
            (ancestor(index, level) % 2) as nat,
            32,
        )
    &&& proof.sibling_middle_node_hash_preimages@.len() == (if depth >= 1 { depth - 1 } else { 0 })
    &&& forall|level: int|
        1 <= level < depth ==> #[trigger] middle_preimage_at(
            layers,
            depth,
            level,
            sibling_of(ancestor(index, level)),
        ) == Ok::<(Seq<u8>, Seq<u8>), TreeError>(
            (
                proof.sibling_middle_node_hash_preimages@[level - 1]@[0]@,
                proof.sibling_middle_node_hash_preimages@[level - 1]@[1]@,
            ),
        )
}

/// The operations of a Merkle tree.
pub trait Tree {
    /// The root node.
    spec fn root_view(&self) -> Node;

    /// The number of levels above the leaves.
    spec fn depth_view(&self) -> int;

    /// The layers of nodes, leaves first.
    spec fn layers_view(&self) -> Seq<Seq<Node>>;

    /// The entries, in the order of the leaves.
    spec fn entries_view(&self) -> Seq<Entry>;

    /// Returns a reference to the root node.
    fn root(&self) -> (root: &Node)
        ensures
            *root == self.root_view(),
    ;

    /// Returns the depth of the tree.
    fn depth(&self) -> (depth: &usize)
        ensures
            *depth == self.depth_view(),
    ;

    /// Returns the layers of nodes.
    fn nodes(&self) -> (layers: &[Vec<Node>])
        ensures
            layers@.len() == self.layers_view().len(),
            forall|k: int| 0 <= k < layers@.len() ==> (#[trigger] layers@[k])@ == self.layers_view()[k],
    ;

    /// Returns the entry at `index`, if there is one.
    fn get_entry(&self, index: usize) -> (entry: Option<&Entry>)
        ensures
            index < self.entries_view().len() ==> entry == Some(&self.entries_view()[index as int]),
            index >= self.entries_view().len() ==> entry.is_none(),
    ;

    /// Returns the hash preimage of a middle node: its children's hashes.
    fn get_middle_node_hash_preimage(&self, level: usize, index: usize) -> (r: Result<
        [FieldElement; 2],
        TreeError,
    >)
        ensures
            match r {
                Ok(pair) => middle_preimage_at(
                    self.layers_view(),
                    self.depth_view(),
                    level as int,
                    index as int,
                ) == Ok::<(Seq<u8>, Seq<u8>), TreeError>((pair[0]@, pair[1]@)),
                Err(e) => middle_preimage_at(
                    self.layers_view(),
                    self.depth_view(),
                    level as int,
                    index as int,
                ) == Err::<(Seq<u8>, Seq<u8>), TreeError>(e),
            },
    {
        if level == 0 || level > *self.depth() {
            return Err(TreeError::InvalidDepth);
        }
        let layers = self.nodes();
        if level >= layers.len() || index >= layers[level].len() {
            return Err(TreeError::NodeNotFound);
        }
        let below = &layers[level - 1];
        if below.len() < 2 || index > (below.len() - 2) / 2 {
            return Err(TreeError::NodeNotFound);
        }
        let left_child = &below[2 * index];
        let right_child = &below[2 * index + 1];
        let preimage = [left_child.hash, right_child.hash];
        Ok(preimage)
    }

    /// Returns the hash preimage of a leaf node: its entry's field element.
    fn get_leaf_node_hash_preimage(&self, index: usize) -> (r: Result<[FieldElement; 1], TreeError>)
        ensures
            match r {
                Ok(preimage) => leaf_preimage_at(self.entries_view(), index as int) == Ok::<
                    Seq<u8>,
                    TreeError,
                >(preimage[0]@),
                Err(e) => leaf_preimage_at(self.entries_view(), index as int) == Err::<
                    Seq<u8>,
                    TreeError,
                >(e),
            },
    {
        match self.get_entry(index) {
            Some(entry) => {
                let preimage = [reduce_digest(entry.data_as_big_uint())];
                Ok(preimage)
            },
            None => Err(TreeError::IndexOutOfBounds),
        }
    }

    /// Generates the proof for the leaf at `index`.
    fn generate_proof(&self, index: usize) -> (r: Result<MerkleProof, TreeError>)
        ensures
            match r {
                Ok(proof) => {
                    &&& proof_error(
                        self.layers_view(),
                        self.entries_view(),
                        self.depth_view(),
                        index as int,
                    ) is None
                    &&& is_proof_for(
                        proof,
                        self.layers_view(),
                        self.entries_view(),
                        self.root_view(),
                        self.depth_view(),
                        index as int,
                    )
                },
                Err(e) => proof_error(
                    self.layers_view(),
                    self.entries_view(),
                    self.depth_view(),
                    index as int,
                ) == Some(e),
            },
    {
        let nodes = self.nodes();
        let depth = *self.depth();
        let root = self.root();

        if nodes.len() == 0 || index >= nodes[0].len() {
            return Err(TreeError::IndexOutOfBounds);
        }
        let entry = match self.get_entry(index) {
            Some(entry) => entry.clone(),
            None => {
                return Err(TreeError::IndexOutOfBounds);
            },
        };
        let sibling_leaf_index = if index % 2 == 0 {
            index + 1
        } else {
            index - 1
        };
        let sibling_leaf_node_hash_preimage = match self.get_leaf_node_hash_preimage(
            sibling_leaf_index,
        ) {
            Ok(preimage) => preimage,
            Err(_) => {
                return Err(TreeError::IndexOutOfBounds);
            },
        };

        let mut sibling_middle_node_hash_preimages: Vec<[FieldElement; 2]> = Vec::new();
        let mut path_indices: Vec<FieldElement> = Vec::new();
        let mut current_index = index;
        let mut level: usize = 0;

        while level < depth
            invariant
                level <= depth,
                depth == self.depth_view(),
                index < leaf_count(self.layers_view()),
                index < self.entries_view().len(),
                sibling_of(index as int) < self.entries_view().len(),
                current_index == ancestor(index as int, level as int),
                level >= 1 ==> 2 * current_index <= index,
                path_indices@.len() == level,
                forall|l: int|
                    0 <= l < level ==> (#[trigger] path_indices@[l])@ == le_encoding(
                        (ancestor(index as int, l) % 2) as nat,
                        32,
                    ),
                sibling_middle_node_hash_preimages@.len() == (if level >= 1 {
                    level - 1
                } else {
                    0
                }),
                forall|l: int|
                    1 <= l < level ==> #[trigger] middle_preimage_at(
                        self.layers_view(),
                        self.depth_view(),
                        l,
                        sibling_of(ancestor(index as int, l)),
                    ) == Ok::<(Seq<u8>, Seq<u8>), TreeError>(
                        (
                            sibling_middle_node_hash_preimages@[l - 1]@[0]@,
                            sibling_middle_node_hash_preimages@[l - 1]@[1]@,
                        ),
                    ),
            decreases depth - level,
        {
            let position = current_index % 2;

            if level > 0 {
                let sibling_index = current_index - position + (1 - position);
                match self.get_middle_node_hash_preimage(level, sibling_index) {
                    Ok(sibling_node_preimage) => {
                        sibling_middle_node_hash_preimages.push(sibling_node_preimage);
                    },
                    Err(_) => {
                        proof {
                            assert(!has_path_sibling(
                                self.layers_view(),
                                self.depth_view(),
                                index as int,
                                level as int,
                            ));
                        }
                        return Err(TreeError::NodeNotFound);
                    },
                }
            }
            path_indices.push(FieldElement::from_u64(position as u64));
            current_index = current_index / 2;
            level += 1;
        }

        Ok(
            MerkleProof {
                entry,
                root: *root,
                sibling_leaf_node_hash_preimage,
                sibling_middle_node_hash_preimages,
                path_indices,
            },
        )
    }

    /// Checks a proof against the root that it carries.
    fn verify_proof(&self, proof: &MerkleProof) -> (r: Result<bool, TreeError>)
        ensures
            r == proof.verdict(),
    {
        let steps = proof.path_indices.len();
        if steps == 0 || proof.sibling_middle_node_hash_preimages.len() != steps - 1 {
            return Err(TreeError::MalformedProof);
        }
        let zero = FieldElement::zero();
        let mut node = proof.entry.compute_leaf();

        let sibling_leaf_node = Node::leaf_node_from_preimage(
            &proof.sibling_leaf_node_hash_preimage,
        );
        let hash_preimage = if proof.path_indices[0].equals(&zero) {
            [node.hash, sibling_leaf_node.hash]
        } else {
            [sibling_leaf_node.hash, node.hash]
        };
        node = Node::middle_node_from_preimage(&hash_preimage);
        proof {
            reveal_with_fuel(climb, 2);
        }

        let mut i: usize = 1;
        while i < steps
            invariant
                1 <= i <= steps,
                steps == proof.path_indices@.len(),
                proof.sibling_middle_node_hash_preimages@.len() + 1 == steps,
                zero@ == zero_encoding(),
                node.hash@ == climb(
                    proof.entry.leaf_hash(),
                    proof.sibling_hashes(),
                    proof.path(),
                    i as nat,
                ),
            decreases steps - i,
        {
            let sibling_node = Node::middle_node_from_preimage(
                &proof.sibling_middle_node_hash_preimages[i - 1],
            );
            let hash_preimage = if proof.path_indices[i].equals(&zero) {
                [node.hash, sibling_node.hash]
            } else {
                [sibling_node.hash, node.hash]
            };
            node = Node::middle_node_from_preimage(&hash_preimage);
            i += 1;
        }

        Ok(proof.root.hash.equals(&node.hash))
    }
}

} // verus!
