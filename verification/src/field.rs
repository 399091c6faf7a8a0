//! Field elements as 32-byte little-endian strings.

use vstd::prelude::*;

verus! {

/// The prime order of the field: the base field of the Pallas curve.
pub open spec fn modulus() -> nat {
    0x40000000000000000000000000000000224698fc094cf91b992d30ed00000001nat
}

/// The number that a byte string denotes when read most significant byte first.
pub open spec fn be_value(bytes: Seq<u8>) -> nat
    decreases bytes.len(),
{
    if bytes.len() == 0 {
        0
    } else {
        256 * be_value(bytes.drop_last()) + bytes.last() as nat
    }
}

/// The `len` least significant bytes of a number, least significant first.
pub open spec fn le_encoding(n: nat, len: nat) -> Seq<u8>
    decreases len,
{
    if len == 0 {
        Seq::empty()
    } else {
        seq![(n % 256) as u8].add(le_encoding(n / 256, (len - 1) as nat))
    }
}

/// One element of the field, held as 32 little-endian bytes. Every element
/// that this library makes is below the field's order.
#[derive(Clone, Copy, Debug, PartialEq, Eq)]
pub struct FieldElement {
    pub(crate) bytes: [u8; 32],
}

impl View for FieldElement {
    type V = Seq<u8>;

    closed spec fn view(&self) -> Seq<u8> {
        self.bytes@
    }
}

impl FieldElement {
    /// The additive identity.
    pub fn zero() -> (r: FieldElement)
        ensures
            r@ == Seq::new(32, |i: int| 0u8),
    {
        let bytes = [0u8; 32];
        let r = FieldElement { bytes };
        proof {
            assert(bytes@.len() == 32);
            assert forall|i: int| 0 <= i < 32 implies bytes@[i] == 0u8 by {
                assert(bytes == vstd::array::spec_array_fill_for_copy_type::<u8, 32>(0u8));
            }
            assert(r@ =~= Seq::new(32, |i: int| 0u8));
        }
        r
    }

    /// The element that a 64-bit number stands for.
    pub fn from_u64(v: u64) -> (r: FieldElement)
        ensures
            r@ == le_encoding(v as nat, 32),
    {
        let mut bytes = [0u8; 32];
        let mut x: u64 = v;
        let mut i: usize = 0;
        while i < 32
            invariant
                i <= 32,
                le_encoding(v as nat, 32) =~= bytes@.subrange(0, i as int).add(
                    le_encoding(x as nat, (32 - i) as nat),
                ),
            decreases 32 - i,
        {
            let ghost before = bytes@;
            bytes[i] = (x % 256) as u8;
            proof {
                assert(bytes@.subrange(0, i + 1) =~= before.subrange(0, i as int).push(
                    (x % 256) as u8,
                ));
                assert(le_encoding(x as nat, (32 - i) as nat) =~= seq![(x % 256) as u8].add(
                    le_encoding((x / 256) as nat, (32 - i - 1) as nat),
                ));
            }
            x = x / 256;
            i += 1;
        }
        assert(bytes@.subrange(0, 32) =~= bytes@);
        FieldElement { bytes }
    }

    /// The encoding of this element.
    pub fn to_bytes(&self) -> (r: [u8; 32])
        ensures
            r@ == self@,
    {
        self.bytes
    }

    /// Whether two elements are the same element.
    pub fn equals(&self, other: &FieldElement) -> (r: bool)
        ensures
            r == (self@ == other@),
    {
        let mut i: usize = 0;
        while i < 32
            invariant
                i <= 32,
                forall|j: int| 0 <= j < i ==> self.bytes@[j] == other.bytes@[j],
            decreases 32 - i,
        {
            if self.bytes[i] != other.bytes[i] {
                return false;
            }
            i += 1;
        }
        assert(self@ =~= other@);
        true
    }
}

/// Zero is encoded by zero bytes.
pub proof fn lemma_le_encoding_zero(len: nat)
    ensures
        le_encoding(0, len) == Seq::new(len, |i: int| 0u8),
    decreases len,
{
    if len > 0 {
        lemma_le_encoding_zero((len - 1) as nat);
    }
    assert(le_encoding(0, len) =~= Seq::new(len, |i: int| 0u8));
}

/// The first byte of an encoding is the number modulo 256.
pub proof fn lemma_le_encoding_first(n: nat, len: nat)
    requires
        len > 0,
    ensures
        le_encoding(n, len).len() > 0,
        le_encoding(n, len)[0] == (n % 256) as u8,
{
}

} // verus!
