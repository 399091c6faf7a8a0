//! Entries: one record's identifier and the digest it is committed by.

use vstd::prelude::*;
use vstd::utf8::encode_utf8;
use crate::hashing::{field_of_digest, keccak256, keccak256_digest, poseidon_hash1};
use crate::node::Node;

verus! {

/// One record of the committed set.
#[derive(Debug, PartialEq)]
pub struct Entry {
    hashed_data: [u8; 32],
    data: String,
}

impl Clone for Entry {
    fn clone(&self) -> (r: Self)
        ensures
            r == *self,
    {
        Entry { hashed_data: self.hashed_data, data: self.data.clone() }
    }
}

impl Entry {
    /// The identifier as text.
    pub closed spec fn text(&self) -> Seq<char> {
        self.data@
    }

    /// The 32-byte big-endian number that the entry is committed by.
    pub closed spec fn digest(&self) -> Seq<u8> {
        self.hashed_data@
    }

    /// The identifier as the bytes by which entries are compared and ordered.
    pub open spec fn identifier(&self) -> Seq<u8> {
        encode_utf8(self.text())
    }

    /// The field element that the digest reduces to: the leaf's preimage.
    pub open spec fn field_hash(&self) -> Seq<u8> {
        field_of_digest(self.digest())
    }

    /// The hash of the leaf that stands for this entry.
    pub open spec fn leaf_hash(&self) -> Seq<u8> {
        poseidon_hash1(self.field_hash())
    }

    /// Whether this is the padding entry: identifier "0", digest zero.
    pub open spec fn is_zero_entry(&self) -> bool {
        &&& self.text() == "0"@
        &&& self.digest() == Seq::new(32, |i: int| 0u8)
    }

    /// The entry for an identifier, committed by the identifier's Keccak-256
    /// digest.
    pub fn new(data: String) -> (entry: Entry)
        ensures
            entry.text() == data@,
            entry.digest() == keccak256_digest(encode_utf8(data@)),
    {
        let hashed_data = keccak256(data.as_str().as_bytes());
        Entry { hashed_data, data }
    }

    /// The padding entry.
    pub fn zero_entry() -> (entry: Entry)
        ensures
            entry.is_zero_entry(),
    {
        let hashed_data = [0u8; 32];
        let entry = Entry { hashed_data, data: "0".to_owned() };
        proof {
            assert(hashed_data@.len() == 32);
            assert forall|i: int| 0 <= i < 32 implies hashed_data@[i] == 0u8 by {}
            assert(entry.hashed_data@ =~= Seq::new(32, |i: int| 0u8));
        }
        entry
    }

    /// Whether two entries carry the same identifier and the same digest.
    pub fn equals(&self, other: &Entry) -> (r: bool)
        ensures
            r == (self.text() == other.text() && self.digest() == other.digest()),
    {
        if self.data != other.data {
            return false;
        }
        let mut i: usize = 0;
        while i < 32
            invariant
                i <= 32,
                forall|j: int| 0 <= j < i ==> self.hashed_data@[j] == other.hashed_data@[j],
            decreases 32 - i,
        {
            if self.hashed_data[i] != other.hashed_data[i] {
                return false;
            }
            i += 1;
        }
        assert(self.hashed_data@ =~= other.hashed_data@);
        true
    }

    /// The leaf node for this entry.
    pub fn compute_leaf(&self) -> (node: Node)
        ensures
            node.hash@ == self.leaf_hash(),
    {
        Node::leaf(&self.hashed_data)
    }

    /// The number that the entry is committed by, as 32 big-endian bytes.
    pub fn data_as_big_uint(&self) -> (digest: &[u8; 32])
        ensures
            digest@ == self.digest(),
    {
        &self.hashed_data
    }

    /// The identifier.
    pub fn data(&self) -> (text: &str)
        ensures
            text@ == self.text(),
    {
        self.data.as_str()
    }
}

} // verus!
