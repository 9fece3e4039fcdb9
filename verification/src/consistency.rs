//! When the lengths of a hash function make sense together, and what follows.

use vstd::arithmetic::power2::{lemma2_to64, lemma_pow2_unfold, pow2};
use vstd::prelude::*;

use crate::digits::digits;
use crate::field::{order, F};
use crate::sponge::{domain_input, lemma_domain_input_is_injective, DOMAIN_PARAMETERS_LENGTH};
use crate::tweak::{lemma_tweak_encoding_is_injective, tweak_number, PoseidonTweak};
use crate::tweak_hash::{
    hash_input, PoseidonTweakHash, CHAIN_COMPRESSION_WIDTH, MERGE_COMPRESSION_WIDTH,
};

verus! {

/// The number of bits that fit in a field element, the binary logarithm of the order rounded down.
pub const BITS_PER_ELEMENT: usize = 30;

/// The number of bits of a tree tweak: the position and the level.
pub const TREE_TWEAK_BITS: usize = 40;

/// The number of bits of a chain tweak: the epoch, the chain index, the position and the separator.
pub const CHAIN_TWEAK_BITS: usize = 56;

/// The number of bits of a word of the domain separator.
pub const WORD_BITS: usize = 32;

/// The order lies between the powers of two that the number of bits per element says.
pub proof fn lemma_bits_per_element()
    ensures
        pow2(BITS_PER_ELEMENT as nat) <= order() < pow2(BITS_PER_ELEMENT as nat + 1),
{
    lemma2_to64();
    lemma_pow2_unfold(31);
}

/// Blocks of one length that are equal end to end are equal one by one.
proof fn lemma_flatten_is_injective<V>(a: Seq<Seq<V>>, b: Seq<Seq<V>>, len: nat)
    requires
        a.len() == b.len(),
        forall|i: int| 0 <= i < a.len() ==> (#[trigger] a[i]).len() == len,
        forall|i: int| 0 <= i < b.len() ==> (#[trigger] b[i]).len() == len,
        a.flatten() == b.flatten(),
    ensures
        a == b,
    decreases a.len(),
{
    if a.len() > 0 {
        let x = a.drop_last();
        let y = b.drop_last();
        x.lemma_flatten_push(a.last());
        y.lemma_flatten_push(b.last());
        assert(a =~= x.push(a.last()));
        assert(b =~= y.push(b.last()));
        let whole = a.flatten();
        let cut = x.flatten().len() as int;
        assert(whole.len() == cut + len);
        assert(whole.len() == y.flatten().len() + len);
        assert(x.flatten() =~= whole.take(cut));
        assert(y.flatten() =~= whole.take(cut));
        assert(a.last() =~= whole.skip(cut));
        assert(b.last() =~= whole.skip(cut));
        lemma_flatten_is_injective(x, y, len);
    } else {
        assert(a =~= b);
    }
}

impl<
    const PARAMETER_LEN: usize,
    const HASH_LEN: usize,
    const TWEAK_LEN: usize,
    const CAPACITY: usize,
    const NUM_CHUNKS: usize,
> PoseidonTweakHash<PARAMETER_LEN, HASH_LEN, TWEAK_LEN, CAPACITY, NUM_CHUNKS> {
    /// The sponge has a rate, the inputs of both compressions fit in their states, and there are
    /// enough field elements for the domain separator and for the tweaks.
    pub open spec fn consistent() -> bool {
        &&& CAPACITY < MERGE_COMPRESSION_WIDTH
        &&& PARAMETER_LEN + TWEAK_LEN + HASH_LEN <= CHAIN_COMPRESSION_WIDTH
        &&& PARAMETER_LEN + TWEAK_LEN + 2 * HASH_LEN <= MERGE_COMPRESSION_WIDTH
        &&& BITS_PER_ELEMENT * MERGE_COMPRESSION_WIDTH >= DOMAIN_PARAMETERS_LENGTH * WORD_BITS
        &&& BITS_PER_ELEMENT * TWEAK_LEN >= TREE_TWEAK_BITS
        &&& BITS_PER_ELEMENT * TWEAK_LEN >= CHAIN_TWEAK_BITS
    }

    /// Whether the lengths of the hash function make sense together.
    pub fn internal_consistency_check() -> (r: bool)
        ensures
            r == Self::consistent(),
    {
        if PARAMETER_LEN > CHAIN_COMPRESSION_WIDTH || TWEAK_LEN > CHAIN_COMPRESSION_WIDTH
            || HASH_LEN > CHAIN_COMPRESSION_WIDTH {
            return false;
        }
        CAPACITY < MERGE_COMPRESSION_WIDTH && PARAMETER_LEN + TWEAK_LEN + HASH_LEN
            <= CHAIN_COMPRESSION_WIDTH && PARAMETER_LEN + TWEAK_LEN + 2 * HASH_LEN
            <= MERGE_COMPRESSION_WIDTH && BITS_PER_ELEMENT * MERGE_COMPRESSION_WIDTH
            >= DOMAIN_PARAMETERS_LENGTH * WORD_BITS && BITS_PER_ELEMENT * TWEAK_LEN
            >= TREE_TWEAK_BITS && BITS_PER_ELEMENT * TWEAK_LEN >= CHAIN_TWEAK_BITS
    }

    /// A consistent hash function can hash every message that leaves room for a few more elements
    /// in memory.
    pub proof fn lemma_consistent_fits(blocks: nat)
        requires
            Self::consistent(),
            blocks <= 2 || Self::input_len(blocks) + MERGE_COMPRESSION_WIDTH <= usize::MAX,
        ensures
            Self::fits(blocks),
            Self::sponge_fits(blocks),
    {
        assert(0 * HASH_LEN == 0) by (nonlinear_arith);
        assert(1 * HASH_LEN == HASH_LEN) by (nonlinear_arith);
        assert(2 * HASH_LEN == HASH_LEN + HASH_LEN) by (nonlinear_arith);
    }

    /// A consistent hash function hashes different inputs for different uses: the input holds the
    /// parameter, the tweak and the message of its length.
    pub proof fn lemma_hash_input_is_injective(
        parameter_a: Seq<nat>,
        tweak_a: PoseidonTweak,
        message_a: Seq<Seq<nat>>,
        parameter_b: Seq<nat>,
        tweak_b: PoseidonTweak,
        message_b: Seq<Seq<nat>>,
    )
        requires
            Self::consistent(),
            parameter_a.len() == PARAMETER_LEN,
            parameter_b.len() == PARAMETER_LEN,
            message_a.len() == message_b.len(),
            forall|i: int| 0 <= i < message_a.len() ==> (#[trigger] message_a[i]).len() == HASH_LEN,
            forall|i: int| 0 <= i < message_b.len() ==> (#[trigger] message_b[i]).len() == HASH_LEN,
            hash_input(parameter_a, digits(tweak_number(tweak_a), TWEAK_LEN as nat), message_a)
                == hash_input(
                parameter_b,
                digits(tweak_number(tweak_b), TWEAK_LEN as nat),
                message_b,
            ),
        ensures
            parameter_a == parameter_b,
            tweak_a == tweak_b,
            message_a == message_b,
    {
        let len = TWEAK_LEN as nat;
        let code_a = digits(tweak_number(tweak_a), len);
        let code_b = digits(tweak_number(tweak_b), len);
        let whole = hash_input(parameter_a, code_a, message_a);
        let head = (PARAMETER_LEN + TWEAK_LEN) as int;
        assert(parameter_a =~= whole.take(PARAMETER_LEN as int));
        assert(parameter_b =~= whole.take(PARAMETER_LEN as int));
        assert(code_a =~= whole.subrange(PARAMETER_LEN as int, head));
        assert(code_b =~= whole.subrange(PARAMETER_LEN as int, head));
        assert(message_a.flatten() =~= whole.skip(head));
        assert(message_b.flatten() =~= whole.skip(head));
        lemma_tweak_encoding_is_injective(tweak_a, tweak_b, len);
        lemma_flatten_is_injective(message_a, message_b, HASH_LEN as nat);
    }
}

/// The domain separator of the sponge tells the lengths of hash functions apart: those with equal
/// separator inputs put inputs of the same length into the sponge for a leaf.
pub proof fn lemma_domain_separates_lengths<
    const PARAMETER_LEN: usize,
    const HASH_LEN: usize,
    const TWEAK_LEN: usize,
    const CAPACITY: usize,
    const NUM_CHUNKS: usize,
    const OTHER_PARAMETER_LEN: usize,
    const OTHER_HASH_LEN: usize,
    const OTHER_TWEAK_LEN: usize,
    const OTHER_CAPACITY: usize,
    const OTHER_NUM_CHUNKS: usize,
>()
    requires
        PARAMETER_LEN <= u32::MAX,
        HASH_LEN <= u32::MAX,
        TWEAK_LEN <= u32::MAX,
        NUM_CHUNKS <= u32::MAX,
        OTHER_PARAMETER_LEN <= u32::MAX,
        OTHER_HASH_LEN <= u32::MAX,
        OTHER_TWEAK_LEN <= u32::MAX,
        OTHER_NUM_CHUNKS <= u32::MAX,
        domain_input::<F>(
            PoseidonTweakHash::<
                PARAMETER_LEN,
                HASH_LEN,
                TWEAK_LEN,
                CAPACITY,
                NUM_CHUNKS,
            >::domain_lengths(),
        ) == domain_input::<F>(
            PoseidonTweakHash::<
                OTHER_PARAMETER_LEN,
                OTHER_HASH_LEN,
                OTHER_TWEAK_LEN,
                OTHER_CAPACITY,
                OTHER_NUM_CHUNKS,
            >::domain_lengths(),
        ),
    ensures
        PARAMETER_LEN == OTHER_PARAMETER_LEN,
        HASH_LEN == OTHER_HASH_LEN,
        TWEAK_LEN == OTHER_TWEAK_LEN,
        NUM_CHUNKS == OTHER_NUM_CHUNKS,
        PoseidonTweakHash::<
            PARAMETER_LEN,
            HASH_LEN,
            TWEAK_LEN,
            CAPACITY,
            NUM_CHUNKS,
        >::input_len(NUM_CHUNKS as nat) == PoseidonTweakHash::<
            OTHER_PARAMETER_LEN,
            OTHER_HASH_LEN,
            OTHER_TWEAK_LEN,
            OTHER_CAPACITY,
            OTHER_NUM_CHUNKS,
        >::input_len(OTHER_NUM_CHUNKS as nat),
{
    let a = PoseidonTweakHash::<
        PARAMETER_LEN,
        HASH_LEN,
        TWEAK_LEN,
        CAPACITY,
        NUM_CHUNKS,
    >::domain_lengths();
    let b = PoseidonTweakHash::<
        OTHER_PARAMETER_LEN,
        OTHER_HASH_LEN,
        OTHER_TWEAK_LEN,
        OTHER_CAPACITY,
        OTHER_NUM_CHUNKS,
    >::domain_lengths();
    lemma_domain_input_is_injective(a, b);
    assert(a[0] == b[0] && a[1] == b[1] && a[2] == b[2] && a[3] == b[3]);
}

} // verus!
