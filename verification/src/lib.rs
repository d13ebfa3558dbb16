//! Eligibility relation for anonymous voting: census Merkle tree, nullifier
//! derivation and the membership-and-nullifier relation over the Pallas base field.

pub mod field;
pub mod franchise;
pub mod poseidon;
pub mod utils;
