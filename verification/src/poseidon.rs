//! The two-to-one compression function: Poseidon over the Pallas base field,
//! width 3, rate 2, constant input length 2.

use ff::PrimeField;
use halo2_gadgets::poseidon::primitives::{self, ConstantLength, P128Pow5T3};
use pasta_curves::pallas;
use vstd::prelude::*;

use crate::field::{limbs_nat, modulus, Fp};

verus! {

/// The digest of the pair `(left, right)`, each given by its integer value.
pub uninterp spec fn poseidon(left: nat, right: nat) -> nat;

/// Two different pairs with the same digest.
pub open spec fn collides(first: (nat, nat), second: (nat, nat)) -> bool {
    first != second && poseidon(first.0, first.1) == poseidon(second.0, second.1)
}

/// Calls `Hash::<pallas::Base, P128Pow5T3, ConstantLength<2>, 3, 2>::init().hash(..)`
/// of `halo2_poseidon`, as `halo2_gadgets` hands it on, on the two elements
/// whose limbs are given, and returns the limbs of the digest.
///
/// Not proved, but taken from the outside code: `pallas::Base::from_raw`
/// makes of the limbs of a reduced value the element with that value; the
/// digest depends on the two elements alone; and `to_repr` gives the digest's
/// reduced value in little-endian bytes, so the value is below the modulus.
#[verifier::external_body]
pub(crate) fn poseidon_limbs(left: [u64; 4], right: [u64; 4]) -> (digest: [u64; 4])
    requires
        limbs_nat(left) < modulus(),
        limbs_nat(right) < modulus(),
    ensures
        limbs_nat(digest) == poseidon(limbs_nat(left), limbs_nat(right)),
        limbs_nat(digest) < modulus(),
{
    let a = pallas::Base::from_raw(left);
    let b = pallas::Base::from_raw(right);
    let hasher = primitives::Hash::<_, P128Pow5T3, ConstantLength<2>, 3, 2>::init();
    let h = hasher.hash([a, b]).to_repr();
    [
        u64::from_le_bytes(h[0..8].try_into().unwrap()),
        u64::from_le_bytes(h[8..16].try_into().unwrap()),
        u64::from_le_bytes(h[16..24].try_into().unwrap()),
        u64::from_le_bytes(h[24..32].try_into().unwrap()),
    ]
}

/// Compresses two field elements into one.
pub fn hash(left: Fp, right: Fp) -> (digest: Fp)
    ensures
        digest@ == poseidon(left@, right@),
{
    let limbs = poseidon_limbs(left.to_limbs(), right.to_limbs());
    Fp::from_limbs(limbs).unwrap()
}

} // verus!
