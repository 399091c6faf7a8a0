//! Building the leaves from the entries and the layers from the leaves.

use vstd::prelude::*;
use crate::entry::Entry;
use crate::error::TreeError;
use crate::hashing::poseidon_hash2;
use crate::node::Node;
use crate::tree::{is_fold_at, is_fold_of, is_layer_matrix, layer_views, leaves_match, two_pow};
use rayon::iter::{IndexedParallelIterator, IntoParallelIterator, IntoParallelRefIterator, ParallelIterator};

verus! {

/// The leaf for one entry: the precomputed zero leaf for the padding entry,
/// the entry's own leaf otherwise.
fn leaf_for_entry(entry: &Entry, zero_entry: &Entry, zero_leaf: &Node) -> (leaf: Node)
    requires
        zero_leaf.hash@ == zero_entry.leaf_hash(),
    ensures
        leaf.hash@ == entry.leaf_hash(),
{
    if entry.equals(zero_entry) {
        *zero_leaf
    } else {
        entry.compute_leaf()
    }
}

/// The parent of the two nodes at `index` and `index + 1` of a layer.
fn parent_of_pair(layer: &Vec<Node>, index: usize) -> (parent: Node)
    requires
        index + 1 < layer@.len(),
    ensures
        parent.hash@ == poseidon_hash2(
            layer@[index as int].hash@,
            layer@[index + 1].hash@,
        ),
{
    let count = layer.len();
    let hash_preimage = [layer[index].hash, layer[index + 1].hash];
    Node::middle_node_from_preimage(&hash_preimage)
}

/// Calls rayon's `par_iter`, `map` and `collect` on the entries. Trusted: the
/// result holds, in the order of the entries, what `leaf_for_entry` returns
/// for each of them.
#[verifier::external_body]
fn par_map_leaves(entries: &[Entry], zero_entry: &Entry, zero_leaf: &Node) -> (leaves: Vec<Node>)
    requires
        zero_leaf.hash@ == zero_entry.leaf_hash(),
    ensures
        leaves_match(leaves@, entries@),
{
    entries.par_iter().map(|entry| leaf_for_entry(entry, zero_entry, zero_leaf)).collect()
}

/// Calls rayon's `into_par_iter`, `step_by`, `map` and `collect` on the even
/// indices of a layer. Trusted: the result holds, in order, what
/// `parent_of_pair` returns for each even index.
#[verifier::external_body]
fn par_map_pairs(layer: &Vec<Node>) -> (parents: Vec<Node>)
    requires
        layer@.len() % 2 == 0,
    ensures
        is_fold_of(parents@, layer@),
{
    (0..layer.len()).into_par_iter().step_by(2).map(|index| parent_of_pair(layer, index)).collect()
}

/// Builds the leaves for a sequence of entries, position by position.
pub fn build_leaves_from_entries(entries: &[Entry]) -> (leaves: Vec<Node>)
    ensures
        leaves_match(leaves@, entries@),
{
    let zero_entry = Entry::zero_entry();
    let zero_leaf = zero_entry.compute_leaf();
    par_map_leaves(entries, &zero_entry, &zero_leaf)
}

/// Appends to `tree` the layer at `level`: the fold of the layer below it.
fn build_middle_level(level: usize, tree: &mut Vec<Vec<Node>>)
    requires
        1 <= level <= old(tree)@.len(),
        old(tree)@[level - 1]@.len() % 2 == 0,
    ensures
        final(tree)@.len() == old(tree)@.len() + 1,
        forall|k: int| 0 <= k < old(tree)@.len() ==> final(tree)@[k] == old(tree)@[k],
        is_fold_of(final(tree)@[old(tree)@.len() as int]@, old(tree)@[level - 1]@),
{
    let results = par_map_pairs(&tree[level - 1]);
    tree.push(results);
}

/// Whether `count` is two to the power of `depth`.
pub fn is_two_pow(count: usize, depth: usize) -> (r: bool)
    ensures
        r == (count == two_pow(depth as nat)),
{
    let mut rest: usize = count;
    let mut level: usize = 0;
    proof {
        assert(rest * two_pow(0) == count) by (nonlinear_arith)
            requires
                rest == count,
                two_pow(0) == 1,
        ;
    }
    while level < depth
        invariant
            level <= depth,
            rest * two_pow(level as nat) == count,
            rest >= 1 || count == 0,
        decreases depth - level,
    {
        if rest % 2 != 0 || rest == 0 {
            proof {
                lemma_two_pow_not(count as nat, rest as nat, level as nat, depth as nat);
            }
            return false;
        }
        proof {
            assert((rest / 2) * two_pow((level + 1) as nat) == rest * two_pow(level as nat))
                by (nonlinear_arith)
                requires
                    rest % 2 == 0,
                    two_pow((level + 1) as nat) == 2 * two_pow(level as nat),
            ;
        }
        rest = rest / 2;
        level += 1;
    }
    proof {
        lemma_two_pow_positive(depth as nat);
        assert(rest == 1 <==> count == two_pow(depth as nat)) by (nonlinear_arith)
            requires
                rest * two_pow(depth as nat) == count,
                two_pow(depth as nat) >= 1,
                rest >= 0,
        ;
    }
    rest == 1
}

/// Powers of two are positive.
pub proof fn lemma_two_pow_positive(exponent: nat)
    ensures
        two_pow(exponent) >= 1,
    decreases exponent,
{
    if exponent > 0 {
        lemma_two_pow_positive((exponent - 1) as nat);
    }
}

/// Powers of two add in the exponent.
pub proof fn lemma_two_pow_adds(a: nat, b: nat)
    ensures
        two_pow(a + b) == two_pow(a) * two_pow(b),
    decreases b,
{
    if b > 0 {
        lemma_two_pow_adds(a, (b - 1) as nat);
        assert(two_pow(a + b) == 2 * two_pow((a + b - 1) as nat));
        assert(2 * (two_pow(a) * two_pow((b - 1) as nat)) == two_pow(a) * (2 * two_pow(
            (b - 1) as nat,
        ))) by (nonlinear_arith);
    } else {
        assert(two_pow(a) * 1 == two_pow(a)) by (nonlinear_arith);
    }
}

/// A count whose quotient by a lower power of two is odd or zero is not a
/// higher power of two.
proof fn lemma_two_pow_not(count: nat, rest: nat, level: nat, depth: nat)
    requires
        level < depth,
        rest * two_pow(level) == count,
        rest % 2 != 0 || rest == 0,
    ensures
        count != two_pow(depth),
{
    lemma_two_pow_adds(level, (depth - level) as nat);
    lemma_two_pow_positive(level);
    lemma_two_pow_positive(depth);
    let high = two_pow((depth - level) as nat);
    assert(high == 2 * two_pow((depth - level - 1) as nat));
    if count == two_pow(depth) {
        assert(rest == high) by (nonlinear_arith)
            requires
                rest * two_pow(level) == two_pow(level) * high,
                two_pow(level) >= 1,
        ;
    }
}

/// Builds the layers of a tree from its leaves and returns them with the root.
///
/// Fails when the number of leaves is not two to the power of `depth`.
pub fn build_merkle_tree_from_leaves(leaves: &[Node], depth: usize) -> (r: Result<
    (Node, Vec<Vec<Node>>),
    TreeError,
>)
    ensures
        match r {
            Ok((root, tree)) => {
                &&& leaves@.len() == two_pow(depth as nat)
                &&& is_layer_matrix(layer_views(tree@), depth as int)
                &&& tree@[0]@ == leaves@
                &&& tree@[depth as int]@.len() == 1
                &&& root == tree@[depth as int]@[0]
            },
            Err(e) => e == TreeError::InvalidLeafCount && leaves@.len() != two_pow(depth as nat),
        },
{
    if !is_two_pow(leaves.len(), depth) {
        return Err(TreeError::InvalidLeafCount);
    }
    let mut tree: Vec<Vec<Node>> = Vec::new();
    let mut first: Vec<Node> = Vec::new();
    let mut i: usize = 0;
    while i < leaves.len()
        invariant
            i <= leaves@.len(),
            first@ == leaves@.subrange(0, i as int),
        decreases leaves@.len() - i,
    {
        first.push(leaves[i]);
        proof {
            assert(first@ =~= leaves@.subrange(0, i + 1));
        }
        i += 1;
    }
    proof {
        assert(first@ =~= leaves@);
    }
    tree.push(first);

    let mut built: usize = 0;
    while built < depth
        invariant
            built <= depth,
            leaves@.len() == two_pow(depth as nat),
            tree@.len() == built + 1,
            tree@[0]@ == leaves@,
            forall|k: int| 1 <= k <= built ==> #[trigger] is_fold_at(layer_views(tree@), k),
            tree@[built as int]@.len() == two_pow((depth - built) as nat),
        decreases depth - built,
    {
        let ghost before = layer_views(tree@);
        proof {
            assert(two_pow((depth - built) as nat) == 2 * two_pow((depth - built - 1) as nat));
        }
        build_middle_level(built + 1, &mut tree);
        built += 1;
        proof {
            let after = layer_views(tree@);
            assert forall|k: int| 1 <= k <= built implies #[trigger] is_fold_at(after, k) by {
                if k < built {
                    assert(is_fold_at(before, k));
                    assert(after[k] == before[k]);
                    assert(after[k - 1] == before[k - 1]);
                }
            }
        }
    }
    let root = tree[depth][0];
    Ok((root, tree))
}

} // verus!
