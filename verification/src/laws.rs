//! What holds of every tree and every proof.

use vstd::prelude::*;
use crate::build_tree::lemma_two_pow_positive;
use crate::entry::Entry;
use crate::error::TreeError;
use crate::field::{le_encoding, lemma_le_encoding_first, lemma_le_encoding_zero};
use crate::hashing::{field_of_digest, poseidon_hash1, poseidon_hash2};
use crate::merkle_proof::{
    agree_above, climb, collides_at, combine, inputs_differ_at, is_collision_free_pair, zero_encoding,
    MerkleProof,
};
use crate::mt::{contains_identifier, is_ceil_log2, is_lookup_outcome, is_padding_of};
use crate::node::Node;
use crate::ordering::is_sorted_by_identifier;
use crate::tree::{
    ancestor, has_path_sibling, is_fold_at, is_proof_for, is_well_formed, leaf_count, leaves_match,
    middle_preimage_at, proof_error, sibling_of, two_pow,
};

verus! {

/// The encoding of a path index is that of zero exactly for a left child.
pub proof fn lemma_path_index_encoding(position: int)
    requires
        position == 0 || position == 1,
    ensures
        (le_encoding(position as nat, 32) == zero_encoding()) == (position == 0),
{
    lemma_le_encoding_zero(32);
    lemma_le_encoding_first(1, 32);
    assert(zero_encoding()[0] == 0u8);
}

/// In a well-formed tree the layer at `level` has two to the power of
/// `depth - level` nodes.
pub proof fn lemma_layer_length(layers: Seq<Seq<Node>>, entries: Seq<Entry>, root: Node, depth: int, level: int)
    requires
        is_well_formed(layers, entries, root, depth),
        0 <= level <= depth,
    ensures
        layers[level].len() == two_pow((depth - level) as nat),
    decreases level,
{
    if level > 0 {
        lemma_layer_length(layers, entries, root, depth, level - 1);
        assert(is_fold_at(layers, level));
        assert(two_pow((depth - level + 1) as nat) == 2 * two_pow((depth - level) as nat));
    }
}

/// In a well-formed tree, the hash that the proof for a leaf folds to after
/// `level` steps is the hash of the node above that leaf at `level`.
pub proof fn lemma_climb_follows_path(
    layers: Seq<Seq<Node>>,
    entries: Seq<Entry>,
    root: Node,
    depth: int,
    index: int,
    proof: MerkleProof,
    level: int,
)
    requires
        is_well_formed(layers, entries, root, depth),
        0 <= index < leaf_count(layers),
        is_proof_for(proof, layers, entries, root, depth, index),
        0 <= level <= depth,
    ensures
        0 <= ancestor(index, level) < layers[level].len(),
        climb(proof.entry.leaf_hash(), proof.sibling_hashes(), proof.path(), level as nat)
            == layers[level][ancestor(index, level)].hash@,
    decreases level,
{
    if level == 0 {
        assert(layers[0][index].hash@ == entries[index].leaf_hash());
    } else {
        lemma_climb_follows_path(layers, entries, root, depth, index, proof, level - 1);
        let below = level - 1;
        let current = ancestor(index, below);
        let sibling = sibling_of(current);
        let lower = layers[below];
        let upper = layers[level];
        assert(is_fold_at(layers, level));
        assert(0 <= sibling < lower.len());
        let sibling_hash = proof.sibling_hashes()[below];
        assert(sibling_hash == lower[sibling].hash@) by {
            if below == 0 {
                assert(layers[0][sibling].hash@ == entries[sibling].leaf_hash());
            } else {
                assert(is_fold_at(layers, below));
                assert(middle_preimage_at(layers, depth, below, sibling) is Ok);
                assert(lower[sibling].hash@ == poseidon_hash2(
                    layers[below - 1][2 * sibling].hash@,
                    layers[below - 1][2 * sibling + 1].hash@,
                ));
            }
        }
        lemma_path_index_encoding(current % 2);
        assert(proof.path()[below] == le_encoding((current % 2) as nat, 32)) by {
            assert(proof.path_indices@[below]@ == le_encoding((ancestor(index, below) % 2) as nat, 32));
        }
        let parent = ancestor(index, level);
        assert(parent == current / 2);
        assert(upper[parent].hash@ == poseidon_hash2(
            lower[2 * parent].hash@,
            lower[2 * parent + 1].hash@,
        ));
        assert(climb(proof.entry.leaf_hash(), proof.sibling_hashes(), proof.path(), level as nat)
            == combine(
            climb(proof.entry.leaf_hash(), proof.sibling_hashes(), proof.path(), below as nat),
            proof.sibling_hashes()[below],
            proof.path()[below],
        ));
    }
}

/// In a well-formed tree of depth at least one, a proof can be made for every
/// leaf.
pub proof fn lemma_proof_exists(
    layers: Seq<Seq<Node>>,
    entries: Seq<Entry>,
    root: Node,
    depth: int,
    index: int,
)
    requires
        is_well_formed(layers, entries, root, depth),
        depth >= 1,
        0 <= index < leaf_count(layers),
    ensures
        proof_error(layers, entries, depth, index) is None,
{
    assert(is_fold_at(layers, 1));
    assert forall|level: int| 1 <= level < depth implies has_path_sibling(layers, depth, index, level) by {
        lemma_node_on_path_is_stored(layers, entries, root, depth, index, level);
        assert(is_fold_at(layers, level));
        assert(is_fold_at(layers, level + 1));
    }
}

/// The node above a leaf at a level is stored in that level's layer.
pub proof fn lemma_node_on_path_is_stored(
    layers: Seq<Seq<Node>>,
    entries: Seq<Entry>,
    root: Node,
    depth: int,
    index: int,
    level: int,
)
    requires
        is_well_formed(layers, entries, root, depth),
        0 <= index < leaf_count(layers),
        0 <= level <= depth,
    ensures
        0 <= ancestor(index, level) < layers[level].len(),
    decreases level,
{
    if level > 0 {
        lemma_node_on_path_is_stored(layers, entries, root, depth, index, level - 1);
        assert(is_fold_at(layers, level));
    }
}

/// In a well-formed tree of depth at least one, the proof for any leaf
/// verifies against the tree's own root.
pub proof fn lemma_generated_proof_verifies(
    layers: Seq<Seq<Node>>,
    entries: Seq<Entry>,
    root: Node,
    depth: int,
    index: int,
    proof: MerkleProof,
)
    requires
        is_well_formed(layers, entries, root, depth),
        depth >= 1,
        0 <= index < leaf_count(layers),
        is_proof_for(proof, layers, entries, root, depth, index),
    ensures
        proof.verdict() == Ok::<bool, TreeError>(true),
{
    lemma_climb_follows_path(layers, entries, root, depth, index, proof, depth);
}

/// Powers of two grow with the exponent.
pub proof fn lemma_two_pow_increases(low: nat, high: nat)
    requires
        low < high,
    ensures
        two_pow(low) < two_pow(high),
    decreases high,
{
    lemma_two_pow_positive(low);
    if low + 1 < high {
        lemma_two_pow_increases(low, (high - 1) as nat);
    }
}

/// A count has one depth: the least exponent whose power of two reaches it.
pub proof fn lemma_ceil_log2_unique(first: int, second: int, count: int)
    requires
        is_ceil_log2(first, count),
        is_ceil_log2(second, count),
    ensures
        first == second,
{
    if first < second {
        if first < second - 1 {
            lemma_two_pow_increases(first as nat, (second - 1) as nat);
        }
    } else if second < first {
        if second < first - 1 {
            lemma_two_pow_increases(second as nat, (first - 1) as nat);
        }
    }
}

/// Entries whose count is already a power of two are not padded: the tree
/// has that exponent as its depth and exactly the given entries.
pub proof fn lemma_power_of_two_is_not_padded(
    padded: Seq<Entry>,
    entries: Seq<Entry>,
    depth: int,
    exponent: nat,
)
    requires
        entries.len() == two_pow(exponent),
        is_ceil_log2(depth, entries.len() as int),
        is_padding_of(padded, entries, two_pow(depth as nat) as int),
    ensures
        depth == exponent,
        padded == entries,
{
    if exponent > 0 {
        lemma_two_pow_increases((exponent - 1) as nat, exponent);
    }
    lemma_ceil_log2_unique(depth, exponent as int, entries.len() as int);
    assert(padded =~= padded.subrange(0, entries.len() as int));
}

/// Every leaf past the given entries is the leaf of the padding entry, so
/// all of them carry one hash.
pub proof fn lemma_padding_leaves_are_zero_leaves(
    leaves: Seq<Node>,
    padded: Seq<Entry>,
    entries: Seq<Entry>,
    size: int,
    zero: Entry,
)
    requires
        is_padding_of(padded, entries, size),
        leaves_match(leaves, padded),
        zero.is_zero_entry(),
    ensures
        zero.leaf_hash() == poseidon_hash1(field_of_digest(zero_encoding())),
        forall|i: int| entries.len() <= i < size ==> (#[trigger] leaves[i]).hash@ == zero.leaf_hash(),
{
    assert forall|i: int| entries.len() <= i < size implies (#[trigger] leaves[i]).hash@
        == zero.leaf_hash() by {
        assert(padded[i].is_zero_entry());
    }
}

/// On entries that are in order, a lookup by search finds an identifier
/// exactly when a lookup by scan does, both at a position that carries it,
/// and at the same position when no other position carries it.
pub proof fn lemma_sorted_lookup_agrees(
    entries: Seq<Entry>,
    identifier: Seq<u8>,
    by_search: Result<usize, TreeError>,
    by_scan: Result<usize, TreeError>,
)
    requires
        is_sorted_by_identifier(entries),
        is_lookup_outcome(entries, true, identifier, by_search),
        is_lookup_outcome(entries, false, identifier, by_scan),
    ensures
        by_search is Ok <==> contains_identifier(entries, identifier),
        by_scan is Ok <==> contains_identifier(entries, identifier),
        by_search is Err ==> by_search == by_scan,
        by_search is Ok ==> entries[by_search->Ok_0 as int].identifier() == identifier
            && entries[by_scan->Ok_0 as int].identifier() == identifier,
        (forall|i: int, j: int|
            0 <= i < entries.len() && 0 <= j < entries.len() && #[trigger] entries[i].identifier()
                == identifier && #[trigger] entries[j].identifier() == identifier ==> i == j)
            ==> by_search == by_scan,
{
    if by_search is Ok {
        assert(entries[by_search->Ok_0 as int].identifier() == identifier);
    }
    if by_scan is Ok {
        assert(entries[by_scan->Ok_0 as int].identifier() == identifier);
    }
}

/// Where two proofs feed different inputs to the hash at one level, use the
/// same siblings and sides above it, and the hash collides at no level, they
/// fold to different hashes at every level above.
pub proof fn lemma_difference_climbs(p: MerkleProof, q: MerkleProof, from: int, upto: int)
    requires
        is_collision_free_pair(p, q),
        0 <= from < upto <= p.path_indices@.len(),
        inputs_differ_at(p, q, from),
        agree_above(p, q, from),
    ensures
        p.node_at(upto) != q.node_at(upto),
    decreases upto,
{
    let below = upto - 1;
    if below > from {
        lemma_difference_climbs(p, q, from, below);
        assert(p.sibling_hashes()[below] == q.sibling_hashes()[below]);
        assert(inputs_differ_at(p, q, below));
    }
    assert(!collides_at(p, q, below));
    assert(p.node_at(upto) == poseidon_hash2_of_inputs(p, below));
    assert(q.node_at(upto) == poseidon_hash2_of_inputs(q, below));
}

/// The two-input hash of a proof's inputs at `level`.
pub open spec fn poseidon_hash2_of_inputs(p: MerkleProof, level: int) -> Seq<u8> {
    poseidon_hash2(p.left_input(level), p.right_input(level))
}

/// A proof that differs from a verifying one in the inputs at one level, and
/// in nothing above that level, does not verify, unless the hash collides.
pub proof fn lemma_tampered_proof_is_rejected(p: MerkleProof, q: MerkleProof, level: int)
    requires
        p.verdict() == Ok::<bool, TreeError>(true),
        q.is_well_shaped(),
        q.root.hash@ == p.root.hash@,
        is_collision_free_pair(p, q),
        0 <= level < p.path_indices@.len(),
        inputs_differ_at(p, q, level),
        agree_above(p, q, level),
    ensures
        q.verdict() == Ok::<bool, TreeError>(false),
{
    lemma_difference_climbs(p, q, level, p.path_indices@.len() as int);
}

/// Replacing the leaf sibling's preimage by one with another hash makes a
/// verifying proof fail, unless the two-input hash collides.
pub proof fn lemma_tampered_leaf_sibling_is_rejected(p: MerkleProof, q: MerkleProof)
    requires
        p.verdict() == Ok::<bool, TreeError>(true),
        q.entry.leaf_hash() == p.entry.leaf_hash(),
        q.root.hash@ == p.root.hash@,
        q.path() == p.path(),
        q.path_indices@.len() == p.path_indices@.len(),
        q.sibling_middle_node_hash_preimages@ == p.sibling_middle_node_hash_preimages@,
        poseidon_hash1(q.sibling_leaf_node_hash_preimage@[0]@) != poseidon_hash1(
            p.sibling_leaf_node_hash_preimage@[0]@,
        ),
        is_collision_free_pair(p, q),
    ensures
        q.verdict() == Ok::<bool, TreeError>(false),
{
    assert(p.sibling_hashes()[0] != q.sibling_hashes()[0]);
    assert(p.node_at(0) == q.node_at(0));
    assert forall|l: int| 0 < l < p.path_indices@.len() implies {
        &&& #[trigger] p.sibling_hashes()[l] == q.sibling_hashes()[l]
        &&& p.goes_left(l) == q.goes_left(l)
    } by {}
    lemma_tampered_proof_is_rejected(p, q, 0);
}

/// Replacing a verifying proof's entry by one with another leaf hash makes
/// it fail, unless the two-input hash collides.
pub proof fn lemma_tampered_entry_is_rejected(p: MerkleProof, q: MerkleProof)
    requires
        p.verdict() == Ok::<bool, TreeError>(true),
        q.entry.leaf_hash() != p.entry.leaf_hash(),
        q.root.hash@ == p.root.hash@,
        q.path() == p.path(),
        q.path_indices@.len() == p.path_indices@.len(),
        q.sibling_middle_node_hash_preimages@ == p.sibling_middle_node_hash_preimages@,
        q.sibling_leaf_node_hash_preimage@[0]@ == p.sibling_leaf_node_hash_preimage@[0]@,
        is_collision_free_pair(p, q),
    ensures
        q.verdict() == Ok::<bool, TreeError>(false),
{
    assert(p.sibling_hashes()[0] == q.sibling_hashes()[0]);
    assert(p.node_at(0) != q.node_at(0));
    assert forall|l: int| 0 < l < p.path_indices@.len() implies {
        &&& #[trigger] p.sibling_hashes()[l] == q.sibling_hashes()[l]
        &&& p.goes_left(l) == q.goes_left(l)
    } by {}
    lemma_tampered_proof_is_rejected(p, q, 0);
}

/// Two proofs that differ only in the siblings and sides from `level` up
/// fold to the same hash below it.
pub proof fn lemma_same_below(p: MerkleProof, q: MerkleProof, level: int)
    requires
        p.path_indices@.len() == q.path_indices@.len(),
        0 <= level <= p.path_indices@.len(),
        p.entry.leaf_hash() == q.entry.leaf_hash(),
        forall|l: int|
            0 <= l < level ==> {
                &&& #[trigger] p.sibling_hashes()[l] == q.sibling_hashes()[l]
                &&& p.path()[l] == q.path()[l]
            },
    ensures
        p.node_at(level) == q.node_at(level),
    decreases level,
{
    if level > 0 {
        lemma_same_below(p, q, level - 1);
        assert(p.sibling_hashes()[level - 1] == q.sibling_hashes()[level - 1]);
    }
}

/// Replacing one middle sibling's preimage by one with another hash makes a
/// verifying proof fail, unless the two-input hash collides.
pub proof fn lemma_tampered_middle_sibling_is_rejected(p: MerkleProof, q: MerkleProof, position: int)
    requires
        p.verdict() == Ok::<bool, TreeError>(true),
        q.entry.leaf_hash() == p.entry.leaf_hash(),
        q.root.hash@ == p.root.hash@,
        q.path() == p.path(),
        q.path_indices@.len() == p.path_indices@.len(),
        q.sibling_leaf_node_hash_preimage@[0]@ == p.sibling_leaf_node_hash_preimage@[0]@,
        q.sibling_middle_node_hash_preimages@.len() == p.sibling_middle_node_hash_preimages@.len(),
        0 <= position < p.sibling_middle_node_hash_preimages@.len(),
        forall|k: int|
            0 <= k < p.sibling_middle_node_hash_preimages@.len() && k != position
                ==> #[trigger] q.sibling_middle_node_hash_preimages@[k]
                == p.sibling_middle_node_hash_preimages@[k],
        poseidon_hash2(
            q.sibling_middle_node_hash_preimages@[position]@[0]@,
            q.sibling_middle_node_hash_preimages@[position]@[1]@,
        ) != poseidon_hash2(
            p.sibling_middle_node_hash_preimages@[position]@[0]@,
            p.sibling_middle_node_hash_preimages@[position]@[1]@,
        ),
        is_collision_free_pair(p, q),
    ensures
        q.verdict() == Ok::<bool, TreeError>(false),
{
    let level = position + 1;
    assert forall|l: int| 0 <= l < p.path_indices@.len() && l != level implies #[trigger] p.sibling_hashes()[l]
        == q.sibling_hashes()[l] by {
        if l > 0 {
            assert(q.sibling_middle_node_hash_preimages@[l - 1]
                == p.sibling_middle_node_hash_preimages@[l - 1]);
        }
    }
    lemma_same_below(p, q, level);
    assert(p.sibling_hashes()[level] != q.sibling_hashes()[level]);
    lemma_tampered_proof_is_rejected(p, q, level);
}

/// Changing the side at one level of a verifying proof makes it fail where
/// the path's node and its sibling differ there, unless the two-input hash
/// collides.
pub proof fn lemma_tampered_side_is_rejected(p: MerkleProof, q: MerkleProof, level: int)
    requires
        p.verdict() == Ok::<bool, TreeError>(true),
        q.entry.leaf_hash() == p.entry.leaf_hash(),
        q.root.hash@ == p.root.hash@,
        q.path_indices@.len() == p.path_indices@.len(),
        q.sibling_leaf_node_hash_preimage@[0]@ == p.sibling_leaf_node_hash_preimage@[0]@,
        q.sibling_middle_node_hash_preimages@ == p.sibling_middle_node_hash_preimages@,
        0 <= level < p.path_indices@.len(),
        forall|l: int|
            0 <= l < p.path_indices@.len() && l != level ==> #[trigger] q.path()[l] == p.path()[l],
        q.goes_left(level) != p.goes_left(level),
        p.node_at(level) != p.sibling_hashes()[level],
        is_collision_free_pair(p, q),
    ensures
        q.verdict() == Ok::<bool, TreeError>(false),
{
    assert forall|l: int| 0 <= l < p.path_indices@.len() implies #[trigger] p.sibling_hashes()[l]
        == q.sibling_hashes()[l] by {}
    lemma_same_below(p, q, level);
    assert forall|l: int| level < l < p.path_indices@.len() implies {
        &&& #[trigger] p.sibling_hashes()[l] == q.sibling_hashes()[l]
        &&& p.goes_left(l) == q.goes_left(l)
    } by {
        assert(q.path()[l] == p.path()[l]);
    }
    lemma_tampered_proof_is_rejected(p, q, level);
}

} // verus!
