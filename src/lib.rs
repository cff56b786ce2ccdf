//! A Patricia-Merkle trie over nibble paths: leaf, extension and branch nodes kept in
//! index-addressed arenas, leaf insertion that rewrites a leaf into the nodes that keep both
//! keys apart, lookup through any node, and the length-prefixed, hex-prefix encoding whose
//! Keccak-256 digest (or the encoding itself, when short) a parent holds of each node.
use vstd::prelude::*;

pub mod commit;
pub mod hashing;
pub mod leaf;
pub mod lookup;
pub mod nibble;
pub mod node;

verus! {

} // verus!
