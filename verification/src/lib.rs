//! Pedersen-hash Merkle commitment engine over the BLS12-381 scalar field:
//! leaf commitments, authentication-path root reconstruction, and batched
//! contiguous-range root updates with empty-subtree defaults.

pub mod field;
pub mod hasher;
pub mod laws;
pub mod pedersen;
pub mod tree;
