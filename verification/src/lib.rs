//! Tweakable hashing over the KoalaBear field with the Poseidon2 permutation.
//!
//! The crate hashes hash chains and Merkle-tree nodes of a hash-based signature scheme. Every hash
//! takes a public parameter, a tweak that says where in the structure it is used, and a message of
//! one, two or many hash values. Batches of hashes run on packed field elements, one hash per SIMD
//! lane, and every contract states the result lane by lane as the scalar hash.

pub mod array;
pub mod compress;
pub mod consistency;
pub mod digits;
pub mod field;
pub mod laws;
pub mod packed;
pub mod parallel;
pub mod permutation;
pub mod prf;
pub mod random;
pub mod simd_utils;
pub mod sponge;
pub mod tree;
pub mod tweak;
pub mod tweak_hash;
