//! Merkle proofs of allowlist membership.
use vstd::prelude::*;

verus! {

/// A proof that a leaf belongs to an allowlist: the sibling hashes on the
/// path from the leaf to the root, and the position of the leaf.
#[derive(Clone, Debug)]
pub struct Proof {
    pub path: Vec<crate::hash::Hash>,
    pub leaf_index: u32,
}

} // verus!
