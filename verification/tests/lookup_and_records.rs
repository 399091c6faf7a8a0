use merkle_tree::build_tree::{build_leaves_from_entries, build_merkle_tree_from_leaves, is_two_pow};
use merkle_tree::csv_parser::{entries_from_fields, parse_csv_to_entries};
use merkle_tree::ordering::{bytes_equal, bytes_less, compare_identifiers};
use merkle_tree::{Entry, MerkleTree, Node, Tree, TreeError};
use std::cmp::Ordering;

fn entry(identifier: &str) -> Entry {
    Entry::new(identifier.to_string())
}

fn entries(identifiers: &[&str]) -> Vec<Entry> {
    identifiers.iter().map(|identifier| entry(identifier)).collect()
}

#[test]
fn scan_finds_the_first_position() {
    let tree = MerkleTree::<8>::from_entries(entries(&["d", "a", "c", "a"]), false).unwrap();
    assert_eq!(tree.index_of_data("d"), Ok(0));
    assert_eq!(tree.index_of_data("a"), Ok(1));
    assert_eq!(tree.index_of_data("c"), Ok(2));
    assert_eq!(tree.index_of_data("b"), Err(TreeError::DataNotFound));
    assert_eq!(tree.index_of_data(""), Err(TreeError::DataNotFound));
}

#[test]
fn scan_finds_the_padding_entry() {
    let tree = MerkleTree::<8>::from_entries(entries(&["a", "b", "c"]), false).unwrap();
    assert_eq!(tree.index_of_data("0"), Ok(3));
}

#[test]
fn search_agrees_with_scan_on_ordered_entries() {
    let names = ["a", "ab", "b", "ba", "c", "ca", "d", "e"];
    let sorted = MerkleTree::<8>::from_entries(entries(&names), true).unwrap();
    let scanned = MerkleTree::<8>::from_entries(entries(&names), false).unwrap();
    for (index, name) in names.iter().enumerate() {
        assert_eq!(sorted.index_of_data(name), Ok(index));
        assert_eq!(scanned.index_of_data(name), Ok(index));
    }
    for absent in ["", "0", "aa", "bb", "cz", "f", "zzz"] {
        assert_eq!(sorted.index_of_data(absent), Err(TreeError::DataNotFound));
        assert_eq!(scanned.index_of_data(absent), Err(TreeError::DataNotFound));
    }
}

#[test]
fn search_finds_some_position_of_a_repeated_identifier() {
    let sorted = MerkleTree::<8>::from_entries(entries(&["a", "b", "b", "c"]), true).unwrap();
    let found = sorted.index_of_data("b").unwrap();
    assert!(found == 1 || found == 2);
}

#[test]
fn search_on_a_single_entry() {
    let sorted = MerkleTree::<8>::from_entries(entries(&["m"]), true).unwrap();
    assert_eq!(sorted.index_of_data("m"), Ok(0));
    assert_eq!(sorted.index_of_data("a"), Err(TreeError::DataNotFound));
    assert_eq!(sorted.index_of_data("z"), Err(TreeError::DataNotFound));
}

#[test]
fn byte_order_is_lexicographic() {
    assert!(bytes_less(b"", b"a"));
    assert!(!bytes_less(b"a", b""));
    assert!(!bytes_less(b"", b""));
    assert!(bytes_less(b"a", b"ab"));
    assert!(!bytes_less(b"ab", b"a"));
    assert!(bytes_less(b"ab", b"b"));
    assert!(bytes_less(b"0", b"a"));
    assert!(bytes_less(b"Z", b"a"));
    assert!(!bytes_less(b"abc", b"abc"));
    assert!(bytes_less(&[0x7f], &[0x80]));
    assert!(bytes_equal(b"abc", b"abc"));
    assert!(!bytes_equal(b"abc", b"abd"));
    assert!(!bytes_equal(b"abc", b"ab"));
    assert!(bytes_equal(b"", b""));
}

#[test]
fn identifiers_compare_as_their_bytes() {
    assert_eq!(compare_identifiers(&entry("a"), &entry("b")), Ordering::Less);
    assert_eq!(compare_identifiers(&entry("b"), &entry("a")), Ordering::Greater);
    assert_eq!(compare_identifiers(&entry("a"), &entry("a")), Ordering::Equal);
    assert_eq!(compare_identifiers(&entry("a"), &entry("ab")), Ordering::Less);
    assert_eq!(compare_identifiers(&entry("é"), &entry("z")), Ordering::Greater);
    for (left, right) in [("a", "b"), ("", "0"), ("abc", "abd"), ("b", "ab"), ("x", "x")] {
        assert_eq!(compare_identifiers(&entry(left), &entry(right)), left.cmp(right));
    }
}

#[test]
fn records_give_one_entry_for_each_first_column() {
    let parsed = parse_csv_to_entries(b"username,balance\nalice,10\nbob,20\ncarol,30\n").unwrap();
    assert_eq!(parsed, entries(&["alice", "bob", "carol"]));
}

#[test]
fn the_first_record_is_a_header() {
    let parsed = parse_csv_to_entries(b"alice\nbob\n").unwrap();
    assert_eq!(parsed, entries(&["bob"]));
    assert_eq!(parse_csv_to_entries(b"").unwrap(), Vec::new());
    assert_eq!(parse_csv_to_entries(b"username\n").unwrap(), Vec::new());
}

#[test]
fn quoted_fields_are_unquoted() {
    let parsed = parse_csv_to_entries(b"name\n\"a,b\"\n\"c\"\"d\"\n").unwrap();
    assert_eq!(parsed, entries(&["a,b", "c\"d"]));
}

#[test]
fn records_of_unequal_length_fail() {
    assert_eq!(parse_csv_to_entries(b"a,b\nc\n"), Err(TreeError::Ingestion));
    assert_eq!(parse_csv_to_entries(b"name\n\xff\xfe\n"), Err(TreeError::Ingestion));
}

#[test]
fn a_record_without_a_first_field_fails() {
    let fields = vec![Some("a".to_string()), None, Some("b".to_string())];
    assert_eq!(entries_from_fields(&fields), Err(TreeError::MissingDataColumn));
    let fields = vec![Some("a".to_string()), Some("b".to_string())];
    assert_eq!(entries_from_fields(&fields), Ok(entries(&["a", "b"])));
    assert_eq!(entries_from_fields(&Vec::new()), Ok(Vec::new()));
}

#[test]
fn a_tree_from_records_keeps_their_order() {
    let tree = MerkleTree::<8>::from_csv(b"name\nc\na\nd\nb\n").unwrap();
    assert_eq!(tree.entries(), entries(&["c", "a", "d", "b"]).as_slice());
    assert_eq!(tree.index_of_data("a"), Ok(1));
    let same = MerkleTree::<8>::from_entries(entries(&["c", "a", "d", "b"]), false).unwrap();
    assert_eq!(tree.root(), same.root());
    assert_eq!(MerkleTree::<8>::from_csv(b"a,b\nc\n").err(), Some(TreeError::Ingestion));
}

#[test]
fn a_sorted_tree_from_records_orders_them() {
    let tree = MerkleTree::<8>::from_csv_sorted(b"name\nc\na\nd\nb\n").unwrap();
    assert_eq!(tree.entries(), entries(&["a", "b", "c", "d"]).as_slice());
    for (index, name) in ["a", "b", "c", "d"].iter().enumerate() {
        assert_eq!(tree.index_of_data(name), Ok(index));
    }
    assert_eq!(tree.index_of_data("e"), Err(TreeError::DataNotFound));
    let same = MerkleTree::<8>::from_entries(entries(&["a", "b", "c", "d"]), true).unwrap();
    assert_eq!(tree.root(), same.root());
    assert_eq!(MerkleTree::<8>::from_csv_sorted(b"a,b\nc\n").err(), Some(TreeError::Ingestion));
}

#[test]
fn a_sorted_tree_orders_by_bytes_and_pads_after() {
    let tree = MerkleTree::<8>::from_csv_sorted(b"name\nb\nB\n10\n").unwrap();
    assert_eq!(tree.entries(), &[entry("10"), entry("B"), entry("b"), Entry::zero_entry()]);
}

#[test]
fn leaves_are_built_in_the_order_of_the_entries() {
    let given = entries(&["a", "0", "b", "c", "d", "e", "f"]);
    let mut with_padding = given.clone();
    with_padding.push(Entry::zero_entry());
    let leaves = build_leaves_from_entries(&with_padding);
    assert_eq!(leaves.len(), 8);
    for index in 0..8 {
        assert_eq!(leaves[index], with_padding[index].compute_leaf());
    }
    assert_ne!(leaves[1], leaves[7]);
    assert!(build_leaves_from_entries(&[]).is_empty());
}

#[test]
fn layers_are_built_pair_by_pair() {
    let leaves = build_leaves_from_entries(&entries(&["a", "b", "c", "d", "e", "f", "g", "h"]));
    let (root, layers) = build_merkle_tree_from_leaves(&leaves, 3).unwrap();
    assert_eq!(layers.len(), 4);
    assert_eq!(layers[0], leaves);
    for level in 1..=3usize {
        assert_eq!(layers[level].len(), 8 >> level);
        for index in 0..layers[level].len() {
            let parent = Node::middle(&layers[level - 1][2 * index], &layers[level - 1][2 * index + 1]);
            assert_eq!(layers[level][index], parent);
        }
    }
    assert_eq!(root, layers[3][0]);
}

#[test]
fn a_single_leaf_is_its_own_root() {
    let leaves = build_leaves_from_entries(&entries(&["a"]));
    let (root, layers) = build_merkle_tree_from_leaves(&leaves, 0).unwrap();
    assert_eq!(layers, vec![leaves.clone()]);
    assert_eq!(root, leaves[0]);
}

#[test]
fn a_leaf_count_that_is_not_the_power_fails() {
    let leaves = build_leaves_from_entries(&entries(&["a", "b", "c", "d"]));
    assert_eq!(build_merkle_tree_from_leaves(&leaves[..3], 2).err(), Some(TreeError::InvalidLeafCount));
    assert_eq!(build_merkle_tree_from_leaves(&leaves, 1).err(), Some(TreeError::InvalidLeafCount));
    assert_eq!(build_merkle_tree_from_leaves(&leaves, 3).err(), Some(TreeError::InvalidLeafCount));
    assert_eq!(build_merkle_tree_from_leaves(&leaves, 200).err(), Some(TreeError::InvalidLeafCount));
    assert_eq!(build_merkle_tree_from_leaves(&[], 0).err(), Some(TreeError::InvalidLeafCount));
    assert!(build_merkle_tree_from_leaves(&leaves, 2).is_ok());
}

#[test]
fn powers_of_two_are_recognised() {
    assert!(is_two_pow(1, 0));
    assert!(is_two_pow(2, 1));
    assert!(is_two_pow(1024, 10));
    assert!(!is_two_pow(0, 0));
    assert!(!is_two_pow(0, 3));
    assert!(!is_two_pow(3, 1));
    assert!(!is_two_pow(4, 1));
    assert!(!is_two_pow(4, 3));
    assert!(!is_two_pow(1, usize::MAX));
    assert!(is_two_pow(usize::MAX / 2 + 1, (usize::BITS - 1) as usize));
}

#[test]
fn failures_describe_themselves() {
    assert_eq!(TreeError::InvalidDepth.message(), "Invalid depth");
    assert_eq!(TreeError::NodeNotFound.message(), "Node not found");
    assert_eq!(TreeError::IndexOutOfBounds.message(), "Index out of bounds");
    assert_eq!(TreeError::DataNotFound.message(), "Data not found");
    assert_eq!(TreeError::MissingDataColumn.message(), "Missing data column in CSV");
    assert_eq!(TreeError::InvalidLeafCount.message(), "Leaf count is not a power of two");
    assert_eq!(TreeError::MalformedProof.message(), "Malformed proof");
    assert_eq!(TreeError::TooManyEntries.message(), "Too many entries");
    assert_eq!(TreeError::Ingestion.message(), "Unreadable record source");
}
