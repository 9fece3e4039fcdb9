//! Tweaks: where in the signature structure a hash is used.

use vstd::prelude::*;

use crate::digits::{
    digits, lemma_digits_determine_value, lemma_weight, lemma_weight_increases, to_digits, weight,
};
use crate::field::{values, F};

verus! {

/// Lowest byte of the number of every tree tweak.
pub const TWEAK_SEPARATOR_FOR_TREE_HASH: u8 = 0x01;

/// Lowest byte of the number of every chain tweak.
pub const TWEAK_SEPARATOR_FOR_CHAIN_HASH: u8 = 0x00;

/// A position in a Merkle tree or in a hash chain.
#[derive(Clone, Copy, Debug, PartialEq, Eq)]
pub enum PoseidonTweak {
    /// A node of the tree.
    TreeTweak { level: u8, pos_in_level: u32 },
    /// A step of a chain.
    ChainTweak { epoch: u32, chain_index: u8, pos_in_chain: u8 },
}

/// The number that encodes a tweak: its fields side by side, above the separator in the lowest
/// byte.
pub open spec fn tweak_number(tweak: PoseidonTweak) -> nat {
    match tweak {
        PoseidonTweak::TreeTweak { level, pos_in_level } => (level * 0x100_0000_0000 + pos_in_level
            * 0x100 + TWEAK_SEPARATOR_FOR_TREE_HASH) as nat,
        PoseidonTweak::ChainTweak { epoch, chain_index, pos_in_chain } => (epoch * 0x100_0000
            + chain_index * 0x1_0000 + pos_in_chain * 0x100
            + TWEAK_SEPARATOR_FOR_CHAIN_HASH) as nat,
    }
}

impl PoseidonTweak {
    /// The tweak as one big integer.
    fn to_number(&self) -> (r: u128)
        ensures
            r == tweak_number(*self),
    {
        match *self {
            PoseidonTweak::TreeTweak { level, pos_in_level } => {
                assert(((level as u128) << 40u32) | ((pos_in_level as u128) << 8u32) | 1u128
                    == level * 0x100_0000_0000 + pos_in_level * 0x100 + 1) by (bit_vector);
                ((level as u128) << 40u32) | ((pos_in_level as u128) << 8u32) | (
                TWEAK_SEPARATOR_FOR_TREE_HASH as u128)
            },
            PoseidonTweak::ChainTweak { epoch, chain_index, pos_in_chain } => {
                assert(((epoch as u128) << 24u32) | ((chain_index as u128) << 16u32) | ((
                pos_in_chain as u128) << 8u32) | 0u128 == epoch * 0x100_0000 + chain_index
                    * 0x1_0000 + pos_in_chain * 0x100) by (bit_vector);
                ((epoch as u128) << 24u32) | ((chain_index as u128) << 16u32) | ((
                pos_in_chain as u128) << 8u32) | (TWEAK_SEPARATOR_FOR_CHAIN_HASH as u128)
            },
        }
    }

    /// The tweak as field elements: the `TWEAK_LEN` lowest digits of its number in base p.
    pub fn to_field_elements<const TWEAK_LEN: usize>(&self) -> (r: [F; TWEAK_LEN])
        ensures
            values(r@) == digits(tweak_number(*self), TWEAK_LEN as nat),
    {
        let r: [F; TWEAK_LEN] = to_digits(self.to_number());
        assert(values(r@) =~= digits(tweak_number(*self), TWEAK_LEN as nat));
        r
    }
}

/// Every tweak fits in two digits in base p.
pub proof fn lemma_tweak_number_fits(tweak: PoseidonTweak, len: nat)
    requires
        len >= 2,
    ensures
        tweak_number(tweak) < weight(len),
{
    lemma_weight(0);
    lemma_weight(1);
    assert(weight(1) == 0x7f00_0001);
    assert(weight(2) == 0x7f00_0001 * 0x7f00_0001);
    lemma_weight_increases(2, len);
}

/// Different tweaks have different numbers: a tree tweak never meets a chain tweak, and two tweaks
/// of the same variant agree only if all of their fields do.
pub proof fn lemma_tweak_number_is_injective(a: PoseidonTweak, b: PoseidonTweak)
    requires
        tweak_number(a) == tweak_number(b),
    ensures
        a == b,
{
}

/// With two or more field elements, different tweaks are encoded differently.
pub proof fn lemma_tweak_encoding_is_injective(a: PoseidonTweak, b: PoseidonTweak, len: nat)
    requires
        len >= 2,
        digits(tweak_number(a), len) == digits(tweak_number(b), len),
    ensures
        a == b,
{
    lemma_tweak_number_fits(a, len);
    lemma_tweak_number_fits(b, len);
    lemma_digits_determine_value(tweak_number(a), tweak_number(b), len);
    lemma_tweak_number_is_injective(a, b);
}

} // verus!
