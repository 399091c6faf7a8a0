//! The three outside hash functions, each behind one trusted wrapper.

use vstd::prelude::*;
use crate::field::{be_value, le_encoding, modulus, FieldElement};
use num_bigint::BigUint;
use halo2_gadgets::poseidon::primitives::{self as poseidon, ConstantLength, P128Pow5T3};
use halo2_proofs::pasta::Fp;
use halo2_proofs::pasta::group::ff::{FromUniformBytes, PrimeField};

verus! {

/// The Keccak-256 digest of a byte string.
pub uninterp spec fn keccak256_digest(data: Seq<u8>) -> Seq<u8>;

/// The Poseidon hash of one field element, over encodings.
pub uninterp spec fn poseidon_hash1(preimage: Seq<u8>) -> Seq<u8>;

/// The Poseidon hash of two field elements in order, over encodings.
pub uninterp spec fn poseidon_hash2(left: Seq<u8>, right: Seq<u8>) -> Seq<u8>;

/// The encoding of the field element that a big-endian digest reduces to.
pub open spec fn field_of_digest(digest: Seq<u8>) -> Seq<u8> {
    le_encoding(be_value(digest) % modulus(), 32)
}

/// Calls `BigUint::from_bytes_be` of num-bigint, prints the number in decimal
/// with `to_str_radix`, and reads it into the field with `from_str_vartime`,
/// which works digit by digit in the field and so reduces modulo its order.
/// Trusted: the result encodes the digest's big-endian value modulo the
/// field's order.
#[verifier::external_body]
pub(crate) fn reduce_digest(digest: &[u8; 32]) -> (r: FieldElement)
    ensures
        r@ == field_of_digest(digest@),
{
    let n = BigUint::from_bytes_be(digest);
    let x = Fp::from_str_vartime(&n.to_str_radix(10)).unwrap();
    FieldElement { bytes: x.to_repr() }
}

/// Calls `ethers::utils::keccak256`. Trusted: the digest is a function of the
/// input bytes alone, and is 32 bytes long by its type.
#[verifier::external_body]
pub(crate) fn keccak256(data: &[u8]) -> (digest: [u8; 32])
    ensures
        digest@ == keccak256_digest(data@),
{
    ethers::utils::keccak256(data)
}

/// Calls `Hash::<_, P128Pow5T3, ConstantLength<1>, 3, 2>::init().hash` of
/// halo2's Poseidon primitives. Trusted: the result's canonical encoding is a
/// function of the argument's encoding alone.
#[verifier::external_body]
pub(crate) fn hash_one(preimage: &FieldElement) -> (r: FieldElement)
    ensures
        r@ == poseidon_hash1(preimage@),
{
    let mut wide = [0u8; 64];
    wide[..32].copy_from_slice(&preimage.bytes);
    let x = Fp::from_uniform_bytes(&wide);
    let h = poseidon::Hash::<Fp, P128Pow5T3, ConstantLength<1>, 3, 2>::init().hash([x]);
    FieldElement { bytes: h.to_repr() }
}

/// Calls `Hash::<_, P128Pow5T3, ConstantLength<2>, 3, 2>::init().hash` of
/// halo2's Poseidon primitives. Trusted: the result's canonical encoding is a
/// function of the two arguments' encodings, taken in this order.
#[verifier::external_body]
pub(crate) fn hash_two(left: &FieldElement, right: &FieldElement) -> (r: FieldElement)
    ensures
        r@ == poseidon_hash2(left@, right@),
{
    let mut l = [0u8; 64];
    l[..32].copy_from_slice(&left.bytes);
    let mut r = [0u8; 64];
    r[..32].copy_from_slice(&right.bytes);
    let pair = [Fp::from_uniform_bytes(&l), Fp::from_uniform_bytes(&r)];
    let h = poseidon::Hash::<Fp, P128Pow5T3, ConstantLength<2>, 3, 2>::init().hash(pair);
    FieldElement { bytes: h.to_repr() }
}

} // verus!
