use merkle_tree::{Entry, FieldElement, MerkleTree, Node, Tree, TreeError};

fn entry(identifier: &str) -> Entry {
    Entry::new(identifier.to_string())
}

fn entries(identifiers: &[&str]) -> Vec<Entry> {
    identifiers.iter().map(|identifier| entry(identifier)).collect()
}

fn tree_of(identifiers: &[&str]) -> MerkleTree<8> {
    MerkleTree::<8>::from_entries(entries(identifiers), false).unwrap()
}

#[test]
fn three_entries_give_depth_two_and_four_leaves() {
    let tree = tree_of(&["a", "b", "c"]);
    assert_eq!(*tree.depth(), 2);
    assert_eq!(tree.leaves().len(), 4);
    assert_eq!(tree.entries().len(), 4);
    assert_eq!(tree.entries()[0], entry("a"));
    assert_eq!(tree.entries()[1], entry("b"));
    assert_eq!(tree.entries()[2], entry("c"));
    assert_eq!(tree.entries()[3], Entry::zero_entry());
    assert_eq!(tree.nodes().len(), 3);
    assert_eq!(tree.nodes()[1].len(), 2);
    assert_eq!(tree.nodes()[2].len(), 1);
}

#[test]
fn root_is_the_fold_of_the_two_folds_of_leaf_pairs() {
    let tree = tree_of(&["a", "b", "c"]);
    let leaf_a = entry("a").compute_leaf();
    let leaf_b = entry("b").compute_leaf();
    let leaf_c = entry("c").compute_leaf();
    let leaf_zero = Entry::zero_entry().compute_leaf();
    let left = Node::middle(&leaf_a, &leaf_b);
    let right = Node::middle(&leaf_c, &leaf_zero);
    assert_eq!(tree.nodes()[1][0], left);
    assert_eq!(tree.nodes()[1][1], right);
    assert_eq!(*tree.root(), Node::middle(&left, &right));
    assert_eq!(tree.nodes()[2][0], *tree.root());
}

#[test]
fn proof_for_third_entry_has_the_expected_parts() {
    let tree = tree_of(&["a", "b", "c"]);
    let proof = tree.generate_proof(2).unwrap();
    assert_eq!(proof.entry, entry("c"));
    assert_eq!(proof.root, *tree.root());
    assert_eq!(proof.path_indices, vec![FieldElement::from_u64(0), FieldElement::from_u64(1)]);
    assert_eq!(proof.sibling_leaf_node_hash_preimage, [FieldElement::zero()]);
    let leaf_a = entry("a").compute_leaf();
    let leaf_b = entry("b").compute_leaf();
    assert_eq!(proof.sibling_middle_node_hash_preimages, vec![[leaf_a.hash, leaf_b.hash]]);
    assert_eq!(tree.verify_proof(&proof), Ok(true));
}

#[test]
fn proof_for_an_odd_leaf_names_its_left_neighbour() {
    let tree = tree_of(&["a", "b", "c"]);
    let proof = tree.generate_proof(1).unwrap();
    assert_eq!(proof.entry, entry("b"));
    assert_eq!(proof.path_indices, vec![FieldElement::from_u64(1), FieldElement::from_u64(0)]);
    assert_eq!(
        proof.sibling_leaf_node_hash_preimage,
        tree.get_leaf_node_hash_preimage(0).unwrap()
    );
    let leaf_c = entry("c").compute_leaf();
    let leaf_zero = Entry::zero_entry().compute_leaf();
    assert_eq!(proof.sibling_middle_node_hash_preimages, vec![[leaf_c.hash, leaf_zero.hash]]);
    assert_eq!(tree.verify_proof(&proof), Ok(true));
}

#[test]
fn index_past_the_last_leaf_is_out_of_bounds() {
    let tree = tree_of(&["a", "b", "c"]);
    assert_eq!(tree.generate_proof(4).err(), Some(TreeError::IndexOutOfBounds));
    assert_eq!(tree.generate_proof(usize::MAX).err(), Some(TreeError::IndexOutOfBounds));
}

#[test]
fn every_leaf_of_every_small_tree_has_a_verifying_proof() {
    let names = ["a", "b", "c", "d", "e", "f", "g", "h", "i", "j", "k"];
    for count in 2..=names.len() {
        let tree = tree_of(&names[..count]);
        let leaves = tree.leaves().len();
        for index in 0..leaves {
            let proof = tree.generate_proof(index).unwrap();
            assert_eq!(proof.path_indices.len(), *tree.depth());
            assert_eq!(proof.sibling_middle_node_hash_preimages.len(), *tree.depth() - 1);
            assert_eq!(tree.verify_proof(&proof), Ok(true));
        }
        assert_eq!(tree.generate_proof(leaves).err(), Some(TreeError::IndexOutOfBounds));
    }
}

#[test]
fn depth_is_the_ceiling_of_the_binary_logarithm() {
    let names = ["a", "b", "c", "d", "e", "f", "g", "h", "i"];
    let expected = [(1, 0, 1), (2, 1, 2), (3, 2, 4), (4, 2, 4), (5, 3, 8), (8, 3, 8), (9, 4, 16)];
    for (count, depth, leaves) in expected {
        let tree = tree_of(&names[..count]);
        assert_eq!(*tree.depth(), depth);
        assert_eq!(tree.leaves().len(), leaves);
        assert_eq!(tree.entries().len(), leaves);
        assert_eq!(tree.nodes().len(), depth + 1);
        for level in 0..=depth {
            assert_eq!(tree.nodes()[level].len(), leaves >> level);
        }
    }
}

#[test]
fn a_power_of_two_count_is_not_padded() {
    let given = entries(&["a", "b", "c", "d"]);
    let tree = MerkleTree::<8>::from_entries(given.clone(), false).unwrap();
    assert_eq!(tree.leaves().len(), 4);
    assert_eq!(tree.entries(), given.as_slice());
}

#[test]
fn padding_leaves_are_the_leaf_of_the_zero_entry() {
    let tree = tree_of(&["a", "b", "c", "d", "e"]);
    let zero_leaf = Entry::zero_entry().compute_leaf();
    assert_eq!(tree.leaves().len(), 8);
    for index in 5..8 {
        assert_eq!(tree.entries()[index], Entry::zero_entry());
        assert_eq!(tree.leaves()[index], zero_leaf);
    }
    for index in 0..5 {
        assert_ne!(tree.leaves()[index], zero_leaf);
    }
}

#[test]
fn leaves_are_the_leaves_of_the_entries() {
    let tree = tree_of(&["a", "b", "c", "d", "e"]);
    for index in 0..8 {
        assert_eq!(tree.leaves()[index], tree.entries()[index].compute_leaf());
        assert_eq!(tree.get_entry(index), Some(&tree.entries()[index]));
    }
    assert_eq!(tree.get_entry(8), None);
}

#[test]
fn one_entry_gives_a_tree_of_one_leaf_without_proofs() {
    let tree = tree_of(&["a"]);
    assert_eq!(*tree.depth(), 0);
    assert_eq!(tree.leaves().len(), 1);
    assert_eq!(*tree.root(), entry("a").compute_leaf());
    assert_eq!(tree.generate_proof(0).err(), Some(TreeError::IndexOutOfBounds));
}

#[test]
fn no_entries_give_a_tree_of_the_zero_leaf() {
    let tree = MerkleTree::<8>::from_entries(Vec::new(), false).unwrap();
    assert_eq!(*tree.depth(), 0);
    assert_eq!(tree.entries(), &[Entry::zero_entry()]);
    assert_eq!(*tree.root(), Entry::zero_entry().compute_leaf());
}

#[test]
fn a_changed_leaf_sibling_preimage_is_rejected() {
    let tree = tree_of(&["a", "b", "c", "d", "e"]);
    let mut proof = tree.generate_proof(2).unwrap();
    proof.sibling_leaf_node_hash_preimage[0] = FieldElement::from_u64(7);
    assert_eq!(tree.verify_proof(&proof), Ok(false));
}

#[test]
fn a_changed_middle_sibling_preimage_is_rejected() {
    let tree = tree_of(&["a", "b", "c", "d", "e"]);
    for position in 0..2 {
        for side in 0..2 {
            let mut proof = tree.generate_proof(2).unwrap();
            proof.sibling_middle_node_hash_preimages[position][side] = FieldElement::from_u64(7);
            assert_eq!(tree.verify_proof(&proof), Ok(false));
        }
    }
}

#[test]
fn a_changed_side_is_rejected() {
    let tree = tree_of(&["a", "b", "c", "d", "e"]);
    for level in 0..3 {
        let mut proof = tree.generate_proof(2).unwrap();
        let flipped = if proof.path_indices[level] == FieldElement::zero() { 1 } else { 0 };
        proof.path_indices[level] = FieldElement::from_u64(flipped);
        assert_eq!(tree.verify_proof(&proof), Ok(false));
    }
}

#[test]
fn a_changed_entry_is_rejected() {
    let tree = tree_of(&["a", "b", "c", "d", "e"]);
    let mut proof = tree.generate_proof(2).unwrap();
    proof.entry = entry("x");
    assert_eq!(tree.verify_proof(&proof), Ok(false));
}

#[test]
fn a_changed_root_is_rejected() {
    let tree = tree_of(&["a", "b", "c", "d", "e"]);
    let mut proof = tree.generate_proof(2).unwrap();
    proof.root = Node::init_empty();
    assert_eq!(tree.verify_proof(&proof), Ok(false));
}

#[test]
fn any_nonzero_path_index_means_the_right_side() {
    let tree = tree_of(&["a", "b", "c", "d", "e"]);
    let mut proof = tree.generate_proof(3).unwrap();
    assert_eq!(proof.path_indices[0], FieldElement::from_u64(1));
    proof.path_indices[0] = FieldElement::from_u64(3);
    assert_eq!(tree.verify_proof(&proof), Ok(true));
}

#[test]
fn swapping_sides_between_equal_siblings_changes_nothing() {
    let tree = tree_of(&["a", "b", "c", "d", "e"]);
    let mut proof = tree.generate_proof(6).unwrap();
    assert_eq!(proof.path_indices[0], FieldElement::from_u64(0));
    proof.path_indices[0] = FieldElement::from_u64(1);
    assert_eq!(tree.verify_proof(&proof), Ok(true));
}

#[test]
fn a_proof_of_the_wrong_shape_is_malformed() {
    let tree = tree_of(&["a", "b", "c", "d", "e"]);
    let good = tree.generate_proof(2).unwrap();

    let mut no_path = good.clone();
    no_path.path_indices.clear();
    assert_eq!(tree.verify_proof(&no_path), Err(TreeError::MalformedProof));

    let mut short = good.clone();
    short.sibling_middle_node_hash_preimages.pop();
    assert_eq!(tree.verify_proof(&short), Err(TreeError::MalformedProof));

    let mut long = good.clone();
    long.sibling_middle_node_hash_preimages.push([FieldElement::zero(), FieldElement::zero()]);
    assert_eq!(tree.verify_proof(&long), Err(TreeError::MalformedProof));
}

#[test]
fn a_proof_of_depth_one_has_no_middle_siblings() {
    let tree = tree_of(&["a", "b"]);
    let proof = tree.generate_proof(1).unwrap();
    assert_eq!(proof.path_indices, vec![FieldElement::from_u64(1)]);
    assert!(proof.sibling_middle_node_hash_preimages.is_empty());
    assert_eq!(tree.verify_proof(&proof), Ok(true));
    assert_eq!(*tree.root(), Node::middle(&entry("a").compute_leaf(), &entry("b").compute_leaf()));
}

#[test]
fn a_proof_verifies_against_any_tree_object() {
    let tree = tree_of(&["a", "b", "c"]);
    let other = tree_of(&["x", "y"]);
    let proof = tree.generate_proof(0).unwrap();
    assert_eq!(other.verify_proof(&proof), Ok(true));
}

#[test]
fn middle_preimages_are_the_children_in_order() {
    let tree = tree_of(&["a", "b", "c", "d", "e"]);
    for level in 1..=3usize {
        for index in 0..tree.nodes()[level].len() {
            let pair = tree.get_middle_node_hash_preimage(level, index).unwrap();
            assert_eq!(pair[0], tree.nodes()[level - 1][2 * index].hash);
            assert_eq!(pair[1], tree.nodes()[level - 1][2 * index + 1].hash);
            assert_eq!(Node::middle_node_from_preimage(&pair), tree.nodes()[level][index]);
        }
    }
}

#[test]
fn middle_preimage_failures() {
    let tree = tree_of(&["a", "b", "c", "d", "e"]);
    assert_eq!(tree.get_middle_node_hash_preimage(0, 0), Err(TreeError::InvalidDepth));
    assert_eq!(tree.get_middle_node_hash_preimage(4, 0), Err(TreeError::InvalidDepth));
    assert_eq!(tree.get_middle_node_hash_preimage(1, 4), Err(TreeError::NodeNotFound));
    assert_eq!(tree.get_middle_node_hash_preimage(3, 1), Err(TreeError::NodeNotFound));
    assert_eq!(tree.get_middle_node_hash_preimage(2, usize::MAX), Err(TreeError::NodeNotFound));
}

#[test]
fn leaf_preimage_failure() {
    let tree = tree_of(&["a", "b", "c"]);
    assert!(tree.get_leaf_node_hash_preimage(3).is_ok());
    assert_eq!(tree.get_leaf_node_hash_preimage(4), Err(TreeError::IndexOutOfBounds));
}

#[test]
fn a_tree_from_parts_with_missing_layers_reports_missing_nodes() {
    let built = tree_of(&["a", "b", "c", "d", "e"]);
    let mut layers = built.nodes().to_vec();
    layers.truncate(2);
    let broken = MerkleTree::<8>::from_params(
        *built.root(),
        layers,
        3,
        built.entries().to_vec(),
        false,
    )
    .unwrap();
    assert_eq!(broken.generate_proof(0).err(), Some(TreeError::NodeNotFound));
    assert_eq!(broken.get_middle_node_hash_preimage(2, 0), Err(TreeError::NodeNotFound));
    assert!(broken.get_middle_node_hash_preimage(1, 0).is_ok());
}

#[test]
fn a_tree_from_parts_keeps_its_parts() {
    let built = tree_of(&["a", "b", "c"]);
    let copy = MerkleTree::<8>::from_params(
        *built.root(),
        built.nodes().to_vec(),
        *built.depth(),
        built.entries().to_vec(),
        false,
    )
    .unwrap();
    assert_eq!(copy.root(), built.root());
    assert_eq!(copy.depth(), built.depth());
    assert_eq!(copy.nodes(), built.nodes());
    assert_eq!(copy.entries(), built.entries());
    assert_eq!(copy.generate_proof(1).unwrap().path_indices, built.generate_proof(1).unwrap().path_indices);
}

#[test]
fn a_tree_without_entries_for_its_leaves_has_no_proofs() {
    let built = tree_of(&["a", "b", "c"]);
    let bare = MerkleTree::<8>::from_params(
        *built.root(),
        built.nodes().to_vec(),
        *built.depth(),
        Vec::new(),
        false,
    )
    .unwrap();
    assert_eq!(bare.generate_proof(0).err(), Some(TreeError::IndexOutOfBounds));
    let empty = MerkleTree::<8>::from_params(*built.root(), Vec::new(), 0, Vec::new(), false).unwrap();
    assert_eq!(empty.generate_proof(0).err(), Some(TreeError::IndexOutOfBounds));
}
