//! Pseudorandom functions, which supply the starts of the hash chains.

use vstd::prelude::*;

use crate::array::FieldArray;

verus! {

/// A pseudorandom function keyed by `Key`.
pub trait Pseudorandom {
    /// The secret key.
    type Key: Sync;

    /// What the function returns for the start of a chain.
    type Domain;

    /// The start of chain `index` in `epoch`.
    fn get_domain_element(key: &Self::Key, epoch: u32, index: u64) -> Self::Domain;
}

/// `start` is a hash value that the pseudorandom function can return for a chain.
pub open spec fn is_chain_start<PRF: Pseudorandom, const HASH_LEN: usize>(
    key: &PRF::Key,
    epoch: u32,
    index: u64,
    start: FieldArray<HASH_LEN>,
) -> bool where PRF::Domain: Into<FieldArray<HASH_LEN>> {
    exists|d: PRF::Domain| #[trigger]
        call_ensures(PRF::get_domain_element, (key, epoch, index), d) && call_ensures(
            <PRF::Domain as Into<FieldArray<HASH_LEN>>>::into,
            (d,),
            start,
        )
}

/// The pseudorandom function returns the same start whenever it is asked for the same chain.
pub open spec fn is_deterministic<PRF: Pseudorandom, const HASH_LEN: usize>() -> bool where
    PRF::Domain: Into<FieldArray<HASH_LEN>>,
 {
    forall|
        key: &PRF::Key,
        epoch: u32,
        index: u64,
        a: FieldArray<HASH_LEN>,
        b: FieldArray<HASH_LEN>,
    |
        #[trigger] is_chain_start::<PRF, HASH_LEN>(key, epoch, index, a)
            && #[trigger] is_chain_start::<PRF, HASH_LEN>(key, epoch, index, b) ==> a == b
}

/// The start of chain `index` in `epoch`, as a hash value.
pub fn chain_start<PRF: Pseudorandom, const HASH_LEN: usize>(
    key: &PRF::Key,
    epoch: u32,
    index: u64,
) -> (r: FieldArray<HASH_LEN>) where PRF::Domain: Into<FieldArray<HASH_LEN>>
    ensures
        is_chain_start::<PRF, HASH_LEN>(key, epoch, index, r),
{
    let d = PRF::get_domain_element(key, epoch, index);
    let r: FieldArray<HASH_LEN> = d.into();
    r
}

} // verus!
