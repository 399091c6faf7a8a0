//! The tree that owns its layers and entries.

use vstd::prelude::*;
use crate::build_tree::{build_leaves_from_entries, build_merkle_tree_from_leaves};
use crate::csv_parser::{are_entries_of, csv_first_fields, parse_csv_to_entries};
use crate::entry::Entry;
use crate::error::TreeError;
use crate::node::Node;
use crate::ordering::{bytes_equal, bytes_less, is_sorted_by_identifier, lemma_lex_total, sort_entries};
use crate::tree::{is_well_formed, layer_views, two_pow, Tree};

verus! {

/// The most entries that a tree can be built from: the largest power of two
/// that a length can be.
pub open spec fn max_entries() -> int {
    usize::MAX / 2 + 1
}

/// Whether `depth` is the least exponent whose power of two is at least
/// `count`.
pub open spec fn is_ceil_log2(depth: int, count: int) -> bool {
    &&& depth >= 0
    &&& two_pow(depth as nat) >= count
    &&& depth > 0 ==> two_pow((depth - 1) as nat) < count
}

/// Whether `padded` is `entries` followed by padding entries up to `size`.
pub open spec fn is_padding_of(padded: Seq<Entry>, entries: Seq<Entry>, size: int) -> bool {
    &&& padded.len() == size
    &&& entries.len() <= size
    &&& padded.subrange(0, entries.len() as int) == entries
    &&& forall|i: int| entries.len() <= i < size ==> (#[trigger] padded[i]).is_zero_entry()
}

/// Whether some entry carries the identifier.
pub open spec fn contains_identifier(entries: Seq<Entry>, identifier: Seq<u8>) -> bool {
    exists|i: int| 0 <= i < entries.len() && #[trigger] entries[i].identifier() == identifier
}

/// Whether `r` is what a lookup by identifier gives. Without the sorted flag
/// it is the first position that carries the identifier. With the flag it is
/// a position that carries it; where the entries are in order, one is found
/// whenever there is one.
pub open spec fn is_lookup_outcome(
    entries: Seq<Entry>,
    sorted: bool,
    identifier: Seq<u8>,
    r: Result<usize, TreeError>,
) -> bool {
    match r {
        Ok(index) => {
            &&& index < entries.len()
            &&& entries[index as int].identifier() == identifier
            &&& !sorted ==> forall|i: int|
                0 <= i < index ==> (#[trigger] entries[i]).identifier() != identifier
        },
        Err(e) => {
            &&& e == TreeError::DataNotFound
            &&& (!sorted || is_sorted_by_identifier(entries)) ==> !contains_identifier(
                entries,
                identifier,
            )
        },
    }
}

/// A Merkle tree over a sequence of entries.
#[derive(Debug, Clone)]
pub struct MerkleTree<const N_BYTES: usize> {
    root: Node,
    nodes: Vec<Vec<Node>>,
    depth: usize,
    entries: Vec<Entry>,
    is_sorted: bool,
}

impl<const N_BYTES: usize> Tree for MerkleTree<N_BYTES> {
    closed spec fn root_view(&self) -> Node {
        self.root
    }

    closed spec fn depth_view(&self) -> int {
        self.depth as int
    }

    closed spec fn layers_view(&self) -> Seq<Seq<Node>> {
        layer_views(self.nodes@)
    }

    closed spec fn entries_view(&self) -> Seq<Entry> {
        self.entries@
    }

    fn root(&self) -> (root: &Node) {
        &self.root
    }

    fn depth(&self) -> (depth: &usize) {
        &self.depth
    }

    fn nodes(&self) -> (layers: &[Vec<Node>]) {
        self.nodes.as_slice()
    }

    fn get_entry(&self, index: usize) -> (entry: Option<&Entry>) {
        if index < self.entries.len() {
            Some(&self.entries[index])
        } else {
            None
        }
    }
}

impl<const N_BYTES: usize> MerkleTree<N_BYTES> {
    /// Whether the tree was built as one whose entries are in order.
    pub closed spec fn sorted_flag(&self) -> bool {
        self.is_sorted
    }

    /// Whether the tree is as construction from entries leaves it.
    pub open spec fn well_formed(&self) -> bool {
        is_well_formed(self.layers_view(), self.entries_view(), self.root_view(), self.depth_view())
    }

    /// Whether this is the tree built from the given entries: its depth is
    /// the least whose power of two reaches their count, its entries are the
    /// given ones padded to that power, its layers are folded from their
    /// leaves up to the root, and it carries the flag.
    pub open spec fn is_tree_of(&self, given: Seq<Entry>, sorted: bool) -> bool {
        &&& given.len() <= max_entries()
        &&& is_ceil_log2(self.depth_view(), given.len() as int)
        &&& is_padding_of(self.entries_view(), given, two_pow(self.depth_view() as nat) as int)
        &&& self.well_formed()
        &&& self.sorted_flag() == sorted
    }

    /// Whether this is the tree built, with the sorted flag, from the given
    /// entries put in the byte order of their identifiers.
    pub open spec fn is_sorted_tree_of(&self, given: Seq<Entry>) -> bool {
        exists|ordered: Seq<Entry>|
            {
                &&& ordered.to_multiset() == given.to_multiset()
                &&& is_sorted_by_identifier(ordered)
                &&& #[trigger] self.is_tree_of(ordered, true)
            }
    }

    /// Returns the leaves of the tree.
    pub fn leaves(&self) -> (leaves: &[Node])
        requires
            self.layers_view().len() > 0,
        ensures
            leaves@ == self.layers_view()[0],
    {
        self.nodes[0].as_slice()
    }

    /// Returns the entries of the tree.
    pub fn entries(&self) -> (entries: &[Entry])
        ensures
            entries@ == self.entries_view(),
    {
        self.entries.as_slice()
    }

    /// Builds a tree from a vector of entries, padded with the padding entry
    /// to the next power of two.
    pub fn from_entries(mut entries: Vec<Entry>, is_sorted: bool) -> (r: Result<
        MerkleTree<N_BYTES>,
        TreeError,
    >)
        ensures
            match r {
                Ok(tree) => tree.is_tree_of(entries@, is_sorted),
                Err(e) => e == TreeError::TooManyEntries && entries@.len() > max_entries(),
            },
    {
        let ghost given = entries@;
        let count = entries.len();
        if count > usize::MAX / 2 + 1 {
            return Err(TreeError::TooManyEntries);
        }
        let mut depth: usize = 0;
        let mut size: usize = 1;
        while size < count
            invariant
                count <= usize::MAX / 2 + 1,
                size == two_pow(depth as nat),
                depth > 0 ==> two_pow((depth - 1) as nat) < count,
                depth < size,
                size >= 1,
            decreases usize::MAX - size,
        {
            size = size + size;
            depth = depth + 1;
        }

        // Pad the entries with padding entries up to two to the power of depth.
        while entries.len() < size
            invariant
                given.len() <= entries@.len() <= size,
                entries@.subrange(0, given.len() as int) == given,
                forall|i: int| given.len() <= i < entries@.len() ==> (#[trigger] entries@[i]).is_zero_entry(),
            decreases size - entries@.len(),
        {
            let ghost before = entries@;
            entries.push(Entry::zero_entry());
            proof {
                assert(entries@.subrange(0, given.len() as int) =~= before.subrange(
                    0,
                    given.len() as int,
                ));
            }
        }

        let leaves = build_leaves_from_entries(entries.as_slice());
        match build_merkle_tree_from_leaves(leaves.as_slice(), depth) {
            Ok((root, nodes)) => {
                let tree = MerkleTree { root, nodes, depth, entries, is_sorted };
                proof {
                    assert(tree.layers_view()[0] == leaves@);
                }
                Ok(tree)
            },
            Err(_) => {
                proof {
                    assert(false);
                }
                Err(TreeError::InvalidLeafCount)
            },
        }
    }

    /// Builds a tree from its parts as they are given.
    pub fn from_params(
        root: Node,
        nodes: Vec<Vec<Node>>,
        depth: usize,
        entries: Vec<Entry>,
        is_sorted: bool,
    ) -> (r: Result<Self, TreeError>)
        ensures
            r is Ok,
            r->Ok_0.root_view() == root,
            r->Ok_0.layers_view() == layer_views(nodes@),
            r->Ok_0.depth_view() == depth,
            r->Ok_0.entries_view() == entries@,
            r->Ok_0.sorted_flag() == is_sorted,
    {
        Ok(MerkleTree::<N_BYTES> { root, nodes, depth, entries, is_sorted })
    }

    /// Returns the index of the leaf whose entry carries the identifier.
    pub fn index_of_data(&self, data: &str) -> (r: Result<usize, TreeError>)
        ensures
            is_lookup_outcome(
                self.entries_view(),
                self.sorted_flag(),
                vstd::utf8::encode_utf8(data@),
                r,
            ),
    {
        let target = data.as_bytes();
        if !self.is_sorted {
            let mut i: usize = 0;
            while i < self.entries.len()
                invariant
                    i <= self.entries@.len(),
                    !self.is_sorted,
                    target@ == vstd::utf8::encode_utf8(data@),
                    forall|j: int| 0 <= j < i ==> (#[trigger] self.entries@[j]).identifier() != target@,
                decreases self.entries@.len() - i,
            {
                if bytes_equal(self.entries[i].data().as_bytes(), target) {
                    return Ok(i);
                }
                i += 1;
            }
            Err(TreeError::DataNotFound)
        } else {
            let mut low: usize = 0;
            let mut high: usize = self.entries.len();
            while low < high
                invariant
                    low <= high <= self.entries@.len(),
                    self.is_sorted,
                    target@ == vstd::utf8::encode_utf8(data@),
                    is_sorted_by_identifier(self.entries@) ==> forall|j: int|
                        0 <= j < low || high <= j < self.entries@.len() ==> (
                        #[trigger] self.entries@[j]).identifier() != target@,
                decreases high - low,
            {
                let middle = low + (high - low) / 2;
                let found = self.entries[middle].data().as_bytes();
                assert(self.entries@[middle as int].identifier() == found@);
                if bytes_equal(found, target) {
                    return Ok(middle);
                }
                proof {
                    lemma_lex_total(found@, target@);
                }
                if bytes_less(found, target) {
                    low = middle + 1;
                } else {
                    high = middle;
                }
            }
            Err(TreeError::DataNotFound)
        }
    }

    /// Builds a tree from a record source: one entry for the first column of
    /// each record after the header row, in the order of the records.
    pub fn from_csv(source: &[u8]) -> (r: Result<Self, TreeError>)
        ensures
            match csv_first_fields(source@) {
                None => r == Err::<Self, TreeError>(TreeError::Ingestion),
                Some(fields) => match r {
                    Ok(tree) => exists|entries: Seq<Entry>|
                        are_entries_of(entries, fields) && #[trigger] tree.is_tree_of(entries, false),
                    Err(e) => if has_missing_field(fields) {
                        e == TreeError::MissingDataColumn
                    } else {
                        e == TreeError::TooManyEntries && fields.len() > max_entries()
                    },
                },
            },
    {
        let entries = match parse_csv_to_entries(source) {
            Ok(entries) => entries,
            Err(e) => {
                return Err(e);
            },
        };
        let ghost parsed = entries@;
        proof {
            lemma_parsed_fields_are_present(parsed, csv_first_fields(source@)->Some_0);
        }
        let r = Self::from_entries(entries, false);
        proof {
            if r is Ok {
                assert(r->Ok_0.is_tree_of(parsed, false));
            }
        }
        r
    }

    /// Builds a tree from a record source as `from_csv` does, with the entries
    /// put in the byte order of their identifiers before padding.
    pub fn from_csv_sorted(source: &[u8]) -> (r: Result<Self, TreeError>)
        ensures
            match csv_first_fields(source@) {
                None => r == Err::<Self, TreeError>(TreeError::Ingestion),
                Some(fields) => match r {
                    Ok(tree) => exists|entries: Seq<Entry>|
                        are_entries_of(entries, fields) && #[trigger] tree.is_sorted_tree_of(entries),
                    Err(e) => if has_missing_field(fields) {
                        e == TreeError::MissingDataColumn
                    } else {
                        e == TreeError::TooManyEntries && fields.len() > max_entries()
                    },
                },
            },
    {
        let mut entries = match parse_csv_to_entries(source) {
            Ok(entries) => entries,
            Err(e) => {
                return Err(e);
            },
        };
        let ghost parsed = entries@;
        sort_entries(&mut entries);
        let ghost ordered = entries@;
        proof {
            lemma_parsed_fields_are_present(parsed, csv_first_fields(source@)->Some_0);
            parsed.to_multiset_ensures();
            ordered.to_multiset_ensures();
        }
        let r = Self::from_entries(entries, true);
        proof {
            if r is Ok {
                assert(r->Ok_0.is_tree_of(ordered, true));
                assert(r->Ok_0.is_sorted_tree_of(parsed));
            }
        }
        r
    }
}

/// Whether some record has no first field.
pub open spec fn has_missing_field(fields: Seq<Option<Seq<char>>>) -> bool {
    exists|i: int| 0 <= i < fields.len() && #[trigger] fields[i] is None
}

/// Where every record gave an entry, no record lacks its first field.
pub proof fn lemma_parsed_fields_are_present(entries: Seq<Entry>, fields: Seq<Option<Seq<char>>>)
    requires
        are_entries_of(entries, fields),
    ensures
        !has_missing_field(fields),
        fields.len() == entries.len(),
{
    assert forall|i: int| 0 <= i < fields.len() implies !(#[trigger] fields[i] is None) by {
        assert(fields[i] == Some(entries[i].text()));
    }
}

} // verus!
