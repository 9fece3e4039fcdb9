//! The tweakable hash function.

use vstd::prelude::*;

use crate::array::FieldArray;
use crate::compress::{compressed, lemma_compression_is_lanewise, poseidon_compress};
use crate::digits::digits;
use crate::field::{values, Algebra, F};
use crate::packed::{lane, lane_count, PackedF};
use crate::permutation::{
    lanewise, lemma_poseidon2_16_lanewise, lemma_poseidon2_24_lanewise, poseidon2_16,
    poseidon2_24, Permutation, Poseidon2,
};
use crate::simd_utils::{lemma_unpack_undoes_pack, pack_array};
use crate::sponge::{
    domain_separator, lemma_domain_separator_is_lanewise, lemma_sponge_is_lanewise,
    poseidon_safe_domain_separator, poseidon_sponge, sponge, DOMAIN_PARAMETERS_LENGTH,
};
use crate::tweak::{tweak_number, PoseidonTweak};

verus! {

/// The state width for hashing a single hash value in a chain.
pub const CHAIN_COMPRESSION_WIDTH: usize = 16;

/// The state width for merging two hash values in a tree and for the sponge.
pub const MERGE_COMPRESSION_WIDTH: usize = 24;

/// A tweakable hash function made of Poseidon2.
///
/// The lengths `PARAMETER_LEN`, `HASH_LEN`, `TWEAK_LEN` and `CAPACITY` count field elements, and
/// `NUM_CHUNKS` counts the hash values under a leaf of the tree.
#[derive(Clone, Copy, Debug)]
pub struct PoseidonTweakHash<
    const PARAMETER_LEN: usize,
    const HASH_LEN: usize,
    const TWEAK_LEN: usize,
    const CAPACITY: usize,
    const NUM_CHUNKS: usize,
>;

/// Everything that is hashed, in order: the parameter, the encoded tweak, the blocks of the
/// message.
pub open spec fn hash_input<V>(parameter: Seq<V>, tweak: Seq<V>, message: Seq<Seq<V>>) -> Seq<V> {
    parameter + tweak + message.flatten()
}

/// Lane `l` of a message of packed blocks.
pub open spec fn message_lane(message: Seq<Seq<Seq<nat>>>, l: int) -> Seq<Seq<nat>> {
    Seq::new(message.len(), |b: int| lane(message[b], l))
}

/// Appends elements to a vector.
fn append<R: Algebra>(out: &mut Vec<R>, items: &[R])
    ensures
        values(final(out)@) == values(old(out)@) + values(items@),
{
    let ghost before = values(out@);
    let mut i: usize = 0;
    while i < items.len()
        invariant
            i <= items@.len(),
            before == values(old(out)@),
            out@.len() == before.len() + i,
            forall|j: int| 0 <= j < before.len() ==> (#[trigger] out@[j])@ == before[j],
            forall|j: int|
                before.len() <= j < out@.len() ==> (#[trigger] out@[j])@ == items@[j
                    - before.len()]@,
        decreases items@.len() - i,
    {
        out.push(items[i]);
        i += 1;
    }
    assert(values(out@) =~= before + values(items@));
}

/// Flattening a message keeps the lanes apart.
proof fn lemma_flatten_lane(message: Seq<Seq<Seq<nat>>>, l: int)
    ensures
        lane(message.flatten(), l) == message_lane(message, l).flatten(),
    decreases message.len(),
{
    if message.len() == 0 {
        assert(lane(message.flatten(), l) =~= message_lane(message, l).flatten());
    } else {
        let init = message.drop_last();
        lemma_flatten_lane(init, l);
        init.lemma_flatten_push(message.last());
        assert(message =~= init.push(message.last()));
        message_lane(init, l).lemma_flatten_push(lane(message.last(), l));
        assert(message_lane(message, l) =~= message_lane(init, l).push(lane(message.last(), l)));
        assert(lane(message.flatten(), l) =~= lane(init.flatten(), l) + lane(message.last(), l));
    }
}

impl<
    const PARAMETER_LEN: usize,
    const HASH_LEN: usize,
    const TWEAK_LEN: usize,
    const CAPACITY: usize,
    const NUM_CHUNKS: usize,
> PoseidonTweakHash<PARAMETER_LEN, HASH_LEN, TWEAK_LEN, CAPACITY, NUM_CHUNKS> {
    /// The number of elements that go into the hash of a message of `blocks` hash values.
    pub open spec fn input_len(blocks: nat) -> nat {
        (PARAMETER_LEN + TWEAK_LEN + blocks * HASH_LEN) as nat
    }

    /// A message of `blocks` hash values can go through the sponge: the sponge has a rate, and the
    /// input fits in memory.
    pub open spec fn sponge_fits(blocks: nat) -> bool {
        &&& CAPACITY < MERGE_COMPRESSION_WIDTH
        &&& Self::input_len(blocks) + MERGE_COMPRESSION_WIDTH <= usize::MAX
    }

    /// A message of `blocks` hash values can be hashed: it fits in the state of the permutation,
    /// or it can go through the sponge.
    pub open spec fn fits(blocks: nat) -> bool {
        if blocks == 0 {
            true
        } else if blocks == 1 {
            Self::input_len(blocks) <= CHAIN_COMPRESSION_WIDTH
        } else if blocks == 2 {
            Self::input_len(blocks) <= MERGE_COMPRESSION_WIDTH
        } else {
            Self::sponge_fits(blocks)
        }
    }

    /// The lengths that separate the domain of the sponge.
    pub open spec fn domain_lengths() -> Seq<u32> {
        seq![PARAMETER_LEN as u32, TWEAK_LEN as u32, NUM_CHUNKS as u32, HASH_LEN as u32]
    }

    /// The hash of an input that goes through the sponge, whose capacity holds the separator of the
    /// lengths.
    pub open spec fn sponge_digest<R: Algebra, P24: Permutation<R, MERGE_COMPRESSION_WIDTH>>(
        wide: P24,
        input: Seq<R::V>,
    ) -> Seq<R::V> {
        sponge::<R, P24, MERGE_COMPRESSION_WIDTH>(
            wide,
            domain_separator::<R, P24, MERGE_COMPRESSION_WIDTH>(
                wide,
                Self::domain_lengths(),
                CAPACITY as nat,
            ),
            input,
            HASH_LEN as nat,
        )
    }

    /// The hash of an input that ends in `blocks` hash values: compression with the narrow
    /// permutation for one block and with the wide one for two, the sponge for more, and ones if
    /// there is no block.
    pub open spec fn digest<
        R: Algebra,
        P16: Permutation<R, CHAIN_COMPRESSION_WIDTH>,
        P24: Permutation<R, MERGE_COMPRESSION_WIDTH>,
    >(narrow: P16, wide: P24, input: Seq<R::V>, blocks: nat) -> Seq<R::V> {
        if blocks == 0 {
            Seq::new(HASH_LEN as nat, |i: int| R::constant_value(1))
        } else if blocks == 1 {
            compressed::<R, P16, CHAIN_COMPRESSION_WIDTH>(narrow, input, HASH_LEN as nat)
        } else if blocks == 2 {
            compressed::<R, P24, MERGE_COMPRESSION_WIDTH>(wide, input, HASH_LEN as nat)
        } else {
            Self::sponge_digest::<R, P24>(wide, input)
        }
    }

    /// The hash of a message under a parameter and a tweak.
    pub open spec fn apply_value(
        parameter: Seq<nat>,
        tweak: PoseidonTweak,
        message: Seq<Seq<nat>>,
    ) -> Seq<nat> {
        Self::digest::<F, Poseidon2<16>, Poseidon2<24>>(
            Poseidon2,
            Poseidon2,
            hash_input(parameter, digits(tweak_number(tweak), TWEAK_LEN as nat), message),
            message.len(),
        )
    }

    /// The hash of a message under a parameter and a tweak, through the sponge however short the
    /// message is.
    pub open spec fn sponge_value(
        parameter: Seq<nat>,
        tweak: PoseidonTweak,
        message: Seq<Seq<nat>>,
    ) -> Seq<nat> {
        Self::sponge_digest::<F, Poseidon2<24>>(
            Poseidon2,
            hash_input(parameter, digits(tweak_number(tweak), TWEAK_LEN as nat), message),
        )
    }

    /// The tweak of a node of the tree.
    pub fn tree_tweak(level: u8, pos_in_level: u32) -> (r: PoseidonTweak)
        ensures
            r == (PoseidonTweak::TreeTweak { level, pos_in_level }),
    {
        PoseidonTweak::TreeTweak { level, pos_in_level }
    }

    /// The tweak of a step of a chain.
    pub fn chain_tweak(epoch: u32, chain_index: u8, pos_in_chain: u8) -> (r: PoseidonTweak)
        ensures
            r == (PoseidonTweak::ChainTweak { epoch, chain_index, pos_in_chain }),
    {
        PoseidonTweak::ChainTweak { epoch, chain_index, pos_in_chain }
    }

    /// Hashes an input through the sponge, with the permutation that is given.
    pub fn sponge_input<R: Algebra, P24: Permutation<R, MERGE_COMPRESSION_WIDTH>>(
        wide: &P24,
        input: &[R],
    ) -> (r: [R; HASH_LEN])
        requires
            CAPACITY < MERGE_COMPRESSION_WIDTH,
            input@.len() + MERGE_COMPRESSION_WIDTH <= usize::MAX,
        ensures
            values(r@) == Self::sponge_digest::<R, P24>(*wide, values(input@)),
    {
        let lengths: [u32; DOMAIN_PARAMETERS_LENGTH] = [
            PARAMETER_LEN as u32,
            TWEAK_LEN as u32,
            NUM_CHUNKS as u32,
            HASH_LEN as u32,
        ];
        assert(lengths@ =~= Self::domain_lengths());
        let capacity_value: [R; CAPACITY] = poseidon_safe_domain_separator::<
            R,
            P24,
            MERGE_COMPRESSION_WIDTH,
            CAPACITY,
        >(wide, &lengths);
        poseidon_sponge::<R, P24, MERGE_COMPRESSION_WIDTH, HASH_LEN>(
            wide,
            &capacity_value,
            input,
        )
    }

    /// Hashes an input that ends in `blocks` hash values, with the permutations that are given.
    pub fn digest_input<
        R: Algebra,
        P16: Permutation<R, CHAIN_COMPRESSION_WIDTH>,
        P24: Permutation<R, MERGE_COMPRESSION_WIDTH>,
    >(narrow: &P16, wide: &P24, input: &[R], blocks: usize) -> (r: [R; HASH_LEN])
        requires
            Self::fits(blocks as nat),
            input@.len() == Self::input_len(blocks as nat),
        ensures
            values(r@) == Self::digest::<R, P16, P24>(
                *narrow,
                *wide,
                values(input@),
                blocks as nat,
            ),
    {
        if blocks == 0 {
            let r: [R; HASH_LEN] = [R::from_u64(1); HASH_LEN];
            assert(values(r@) =~= Self::digest::<R, P16, P24>(
                *narrow,
                *wide,
                values(input@),
                blocks as nat,
            ));
            r
        } else if blocks == 1 {
            poseidon_compress::<R, P16, CHAIN_COMPRESSION_WIDTH, HASH_LEN>(narrow, input)
        } else if blocks == 2 {
            poseidon_compress::<R, P24, MERGE_COMPRESSION_WIDTH, HASH_LEN>(wide, input)
        } else {
            Self::sponge_input::<R, P24>(wide, input)
        }
    }

    /// Hashes a message of one, two or more hash values under a parameter and a tweak.
    ///
    /// One hash value is a step in a chain, two are siblings in the tree, and more are the ends of
    /// the chains under a leaf. An empty message gives ones.
    pub fn apply(
        parameter: &FieldArray<PARAMETER_LEN>,
        tweak: &PoseidonTweak,
        message: &[FieldArray<HASH_LEN>],
    ) -> (r: FieldArray<HASH_LEN>)
        requires
            Self::fits(message@.len()),
        ensures
            r@ == Self::apply_value(parameter@, *tweak, values(message@)),
    {
        let tweak_fe: [F; TWEAK_LEN] = tweak.to_field_elements::<TWEAK_LEN>();
        let mut input: Vec<F> = Vec::new();
        append(&mut input, &parameter.0);
        append(&mut input, &tweak_fe);
        let ghost head = parameter@ + values(tweak_fe@);
        assert(values(input@) =~= head);
        let ghost blocks = values(message@);
        let mut k: usize = 0;
        assert(blocks.take(0) =~= Seq::<Seq<nat>>::empty());
        assert(head + blocks.take(0).flatten() =~= head);
        while k < message.len()
            invariant
                k <= message@.len(),
                blocks == values(message@),
                head.len() == PARAMETER_LEN + TWEAK_LEN,
                values(input@) == head + blocks.take(k as int).flatten(),
                input@.len() == Self::input_len(k as nat),
            decreases message@.len() - k,
        {
            append(&mut input, &message[k].0);
            proof {
                blocks.take(k as int).lemma_flatten_push(blocks[k as int]);
                assert(blocks.take(k + 1) =~= blocks.take(k as int).push(blocks[k as int]));
                assert((k + 1) * HASH_LEN == k * HASH_LEN + HASH_LEN) by (nonlinear_arith);
                assert(values(input@) =~= head + blocks.take(k + 1).flatten());
                assert(values(input@).len() == input@.len());
            }
            k += 1;
        }
        assert(blocks.take(k as int) =~= blocks);
        FieldArray(
            Self::digest_input::<F, Poseidon2<16>, Poseidon2<24>>(
                &poseidon2_16(),
                &poseidon2_24(),
                &input,
                message.len(),
            ),
        )
    }

    /// What a chain holds `steps` steps after `start`, which stands at `start_pos`. The tweak of a
    /// step holds the position that it leads to, modulo 2^8.
    pub open spec fn chain_value(
        parameter: Seq<nat>,
        epoch: u32,
        chain_index: u8,
        start_pos: nat,
        steps: nat,
        start: Seq<nat>,
    ) -> Seq<nat>
        decreases steps,
    {
        if steps == 0 {
            start
        } else {
            Self::apply_value(
                parameter,
                PoseidonTweak::ChainTweak {
                    epoch,
                    chain_index,
                    pos_in_chain: (start_pos + steps) as u8,
                },
                seq![
                    Self::chain_value(
                        parameter,
                        epoch,
                        chain_index,
                        start_pos,
                        (steps - 1) as nat,
                        start,
                    ),
                ],
            )
        }
    }

    /// Walks a chain for a number of steps.
    pub fn chain(
        parameter: &FieldArray<PARAMETER_LEN>,
        epoch: u32,
        chain_index: u8,
        start_pos_in_chain: u8,
        steps: usize,
        start: &FieldArray<HASH_LEN>,
    ) -> (r: FieldArray<HASH_LEN>)
        requires
            steps > 0 ==> Self::fits(1),
            start_pos_in_chain + steps <= usize::MAX,
        ensures
            r@ == Self::chain_value(
                parameter@,
                epoch,
                chain_index,
                start_pos_in_chain as nat,
                steps as nat,
                start@,
            ),
    {
        let mut current: FieldArray<HASH_LEN> = *start;
        let mut j: usize = 0;
        while j < steps
            invariant
                j <= steps,
                steps > 0 ==> Self::fits(1),
                start_pos_in_chain + steps <= usize::MAX,
                current@ == Self::chain_value(
                    parameter@,
                    epoch,
                    chain_index,
                    start_pos_in_chain as nat,
                    j as nat,
                    start@,
                ),
            decreases steps - j,
        {
            let pos: u8 = (start_pos_in_chain as usize + j + 1) as u8;
            let tweak = Self::chain_tweak(epoch, chain_index, pos);
            let message: [FieldArray<HASH_LEN>; 1] = [current];
            assert(values(message@) =~= seq![current@]);
            current = Self::apply(parameter, &tweak, &message);
            j += 1;
        }
        current
    }

    /// Walking a chain in two parts is walking it in one go.
    pub proof fn lemma_chain_in_two_parts(
        parameter: Seq<nat>,
        epoch: u32,
        chain_index: u8,
        start_pos: nat,
        first: nat,
        second: nat,
        start: Seq<nat>,
    )
        ensures
            Self::chain_value(
                parameter,
                epoch,
                chain_index,
                start_pos + first,
                second,
                Self::chain_value(parameter, epoch, chain_index, start_pos, first, start),
            ) == Self::chain_value(
                parameter,
                epoch,
                chain_index,
                start_pos,
                first + second,
                start,
            ),
        decreases second,
    {
        if second > 0 {
            Self::lemma_chain_in_two_parts(
                parameter,
                epoch,
                chain_index,
                start_pos,
                first,
                (second - 1) as nat,
                start,
            );
        }
    }

    /// Every lane of a packed hash through the sponge is the hash of that lane through the sponge.
    pub proof fn lemma_sponge_digest_is_lanewise<
        P24: Permutation<F, MERGE_COMPRESSION_WIDTH> + Permutation<
            PackedF,
            MERGE_COMPRESSION_WIDTH,
        >,
    >(wide: P24, input: Seq<Seq<nat>>, l: int)
        requires
            lanewise::<P24, MERGE_COMPRESSION_WIDTH>(wide),
            CAPACITY < MERGE_COMPRESSION_WIDTH,
            0 <= l < lane_count(),
        ensures
            lane(Self::sponge_digest::<PackedF, P24>(wide, input), l) == Self::sponge_digest::<
                F,
                P24,
            >(wide, lane(input, l)),
    {
        lemma_domain_separator_is_lanewise::<P24, MERGE_COMPRESSION_WIDTH>(
            wide,
            Self::domain_lengths(),
            CAPACITY as nat,
            l,
        );
        lemma_sponge_is_lanewise::<P24, MERGE_COMPRESSION_WIDTH>(
            wide,
            domain_separator::<PackedF, P24, MERGE_COMPRESSION_WIDTH>(
                wide,
                Self::domain_lengths(),
                CAPACITY as nat,
            ),
            input,
            HASH_LEN as nat,
            l,
        );
    }

    /// Every lane of a packed hash is the hash of that lane.
    pub proof fn lemma_digest_is_lanewise<
        P16: Permutation<F, CHAIN_COMPRESSION_WIDTH> + Permutation<
            PackedF,
            CHAIN_COMPRESSION_WIDTH,
        >,
        P24: Permutation<F, MERGE_COMPRESSION_WIDTH> + Permutation<
            PackedF,
            MERGE_COMPRESSION_WIDTH,
        >,
    >(narrow: P16, wide: P24, input: Seq<Seq<nat>>, blocks: nat, l: int)
        requires
            lanewise::<P16, CHAIN_COMPRESSION_WIDTH>(narrow),
            lanewise::<P24, MERGE_COMPRESSION_WIDTH>(wide),
            Self::fits(blocks),
            0 <= l < lane_count(),
        ensures
            lane(Self::digest::<PackedF, P16, P24>(narrow, wide, input, blocks), l)
                == Self::digest::<F, P16, P24>(narrow, wide, lane(input, l), blocks),
    {
        if blocks == 0 {
            assert(lane(Self::digest::<PackedF, P16, P24>(narrow, wide, input, blocks), l)
                =~= Self::digest::<F, P16, P24>(narrow, wide, lane(input, l), blocks));
        } else if blocks == 1 {
            lemma_compression_is_lanewise::<P16, CHAIN_COMPRESSION_WIDTH>(
                narrow,
                input,
                HASH_LEN as nat,
                l,
            );
        } else if blocks == 2 {
            lemma_compression_is_lanewise::<P24, MERGE_COMPRESSION_WIDTH>(
                wide,
                input,
                HASH_LEN as nat,
                l,
            );
        } else {
            Self::lemma_sponge_digest_is_lanewise::<P24>(wide, input, l);
        }
    }

    /// The parameter in every lane.
    pub(crate) fn broadcast_parameter(parameter: &FieldArray<PARAMETER_LEN>) -> (r:
        [PackedF; PARAMETER_LEN])
        ensures
            forall|l: int|
                0 <= l < lane_count() ==> #[trigger] lane(values(r@), l) == parameter@,
    {
        let mut r: [PackedF; PARAMETER_LEN] = [PackedF::zero(); PARAMETER_LEN];
        let mut i: usize = 0;
        while i < PARAMETER_LEN
            invariant
                i <= PARAMETER_LEN,
                forall|k: int, l: int|
                    0 <= k < i && 0 <= l < lane_count() ==> #[trigger] r[k]@[l] == parameter@[k],
            decreases PARAMETER_LEN - i,
        {
            r[i] = PackedF::broadcast(parameter.0[i]);
            i += 1;
        }
        assert forall|l: int| 0 <= l < lane_count() implies #[trigger] lane(values(r@), l)
            == parameter@ by {
            assert(lane(values(r@), l) =~= parameter@);
        }
        r
    }

    /// Puts parameter, tweaks and messages one behind the other, one message per lane.
    fn lanes_input(
        parameter: &[PackedF; PARAMETER_LEN],
        tweaks: &[PoseidonTweak],
        message: &[[PackedF; HASH_LEN]],
    ) -> (input: Vec<PackedF>)
        requires
            tweaks@.len() == lane_count(),
        ensures
            input@.len() == Self::input_len(message@.len()),
            forall|l: int|
                0 <= l < lane_count() ==> #[trigger] lane(values(input@), l) == hash_input(
                    lane(values(parameter@), l),
                    digits(tweak_number(tweaks@[l]), TWEAK_LEN as nat),
                    message_lane(Seq::new(message@.len(), |b: int| values(message@[b]@)), l),
                ),
    {
        let mut rows: Vec<FieldArray<TWEAK_LEN>> = Vec::new();
        let mut j: usize = 0;
        while j < tweaks.len()
            invariant
                j <= tweaks@.len(),
                rows@.len() == j,
                forall|k: int|
                    0 <= k < j ==> (#[trigger] rows@[k])@ == digits(
                        tweak_number(tweaks@[k]),
                        TWEAK_LEN as nat,
                    ),
            decreases tweaks@.len() - j,
        {
            rows.push(FieldArray(tweaks[j].to_field_elements::<TWEAK_LEN>()));
            j += 1;
        }
        let tweak_fe: [PackedF; TWEAK_LEN] = pack_array(&rows);
        let mut input: Vec<PackedF> = Vec::new();
        append(&mut input, parameter);
        append(&mut input, &tweak_fe);
        let ghost head = values(parameter@) + values(tweak_fe@);
        assert(values(input@) =~= head);
        let ghost blocks = Seq::new(message@.len(), |b: int| values(message@[b]@));
        let mut k: usize = 0;
        assert(blocks.take(0) =~= Seq::<Seq<Seq<nat>>>::empty());
        assert(head + blocks.take(0).flatten() =~= head);
        while k < message.len()
            invariant
                k <= message@.len(),
                blocks == Seq::new(message@.len(), |b: int| values(message@[b]@)),
                head.len() == PARAMETER_LEN + TWEAK_LEN,
                values(input@) == head + blocks.take(k as int).flatten(),
                input@.len() == Self::input_len(k as nat),
            decreases message@.len() - k,
        {
            append(&mut input, &message[k]);
            proof {
                blocks.take(k as int).lemma_flatten_push(blocks[k as int]);
                assert(blocks.take(k + 1) =~= blocks.take(k as int).push(blocks[k as int]));
                assert((k + 1) * HASH_LEN == k * HASH_LEN + HASH_LEN) by (nonlinear_arith);
                assert(values(input@) =~= head + blocks.take(k + 1).flatten());
                assert(values(input@).len() == input@.len());
            }
            k += 1;
        }
        assert(blocks.take(k as int) =~= blocks);
        assert forall|l: int| 0 <= l < lane_count() implies #[trigger] lane(values(input@), l)
            == hash_input(
            lane(values(parameter@), l),
            digits(tweak_number(tweaks@[l]), TWEAK_LEN as nat),
            message_lane(blocks, l),
        ) by {
            lemma_flatten_lane(blocks, l);
            lemma_unpack_undoes_pack(values(rows@), TWEAK_LEN as nat, l);
            assert(lane(values(input@), l) =~= hash_input(
                lane(values(parameter@), l),
                digits(tweak_number(tweaks@[l]), TWEAK_LEN as nat),
                message_lane(blocks, l),
            ));
        }
        input
    }

    /// Hashes one message per lane, each under the tweak of its lane.
    pub(crate) fn apply_lanes(
        parameter: &[PackedF; PARAMETER_LEN],
        tweaks: &[PoseidonTweak],
        message: &[[PackedF; HASH_LEN]],
    ) -> (r: [PackedF; HASH_LEN])
        requires
            Self::fits(message@.len()),
            tweaks@.len() == lane_count(),
        ensures
            forall|l: int|
                0 <= l < lane_count() ==> #[trigger] lane(values(r@), l) == Self::apply_value(
                    lane(values(parameter@), l),
                    tweaks@[l],
                    message_lane(Seq::new(message@.len(), |b: int| values(message@[b]@)), l),
                ),
    {
        let input = Self::lanes_input(parameter, tweaks, message);
        let r = Self::digest_input::<PackedF, Poseidon2<16>, Poseidon2<24>>(
            &poseidon2_16(),
            &poseidon2_24(),
            &input,
            message.len(),
        );
        let ghost blocks = Seq::new(message@.len(), |b: int| values(message@[b]@));
        assert forall|l: int| 0 <= l < lane_count() implies #[trigger] lane(values(r@), l)
            == Self::apply_value(
            lane(values(parameter@), l),
            tweaks@[l],
            message_lane(blocks, l),
        ) by {
            lemma_poseidon2_16_lanewise(Poseidon2);
            lemma_poseidon2_24_lanewise(Poseidon2);
            Self::lemma_digest_is_lanewise::<Poseidon2<16>, Poseidon2<24>>(
                Poseidon2,
                Poseidon2,
                values(input@),
                message@.len(),
                l,
            );
            assert(lane(values(input@), l) == hash_input(
                lane(values(parameter@), l),
                digits(tweak_number(tweaks@[l]), TWEAK_LEN as nat),
                message_lane(blocks, l),
            ));
        }
        r
    }

    /// Hashes one message per lane through the sponge, each under the tweak of its lane.
    pub(crate) fn sponge_lanes(
        parameter: &[PackedF; PARAMETER_LEN],
        tweaks: &[PoseidonTweak],
        message: &[[PackedF; HASH_LEN]],
    ) -> (r: [PackedF; HASH_LEN])
        requires
            Self::sponge_fits(message@.len()),
            tweaks@.len() == lane_count(),
        ensures
            forall|l: int|
                0 <= l < lane_count() ==> #[trigger] lane(values(r@), l) == Self::sponge_value(
                    lane(values(parameter@), l),
                    tweaks@[l],
                    message_lane(Seq::new(message@.len(), |b: int| values(message@[b]@)), l),
                ),
    {
        let input = Self::lanes_input(parameter, tweaks, message);
        let r = Self::sponge_input::<PackedF, Poseidon2<24>>(&poseidon2_24(), &input);
        let ghost blocks = Seq::new(message@.len(), |b: int| values(message@[b]@));
        assert forall|l: int| 0 <= l < lane_count() implies #[trigger] lane(values(r@), l)
            == Self::sponge_value(
            lane(values(parameter@), l),
            tweaks@[l],
            message_lane(blocks, l),
        ) by {
            lemma_poseidon2_24_lanewise(Poseidon2);
            Self::lemma_sponge_digest_is_lanewise::<Poseidon2<24>>(
                Poseidon2,
                values(input@),
                l,
            );
            assert(lane(values(input@), l) == hash_input(
                lane(values(parameter@), l),
                digits(tweak_number(tweaks@[l]), TWEAK_LEN as nat),
                message_lane(blocks, l),
            ));
        }
        r
    }
}

} // verus!
