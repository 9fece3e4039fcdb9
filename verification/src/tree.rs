//! Layers and leaves of the Merkle tree, computed in batches of one node per lane.

use vstd::arithmetic::div_mod::lemma_fundamental_div_mod;
use vstd::prelude::*;

use crate::array::FieldArray;
use crate::field::values;
use crate::packed::{lane, lane_count, PackedF};
use crate::parallel::{batch_of, concat_batches, lemma_batch_and_place, par_map, place_of};
use crate::prf::{chain_start, is_chain_start, is_deterministic, Pseudorandom};
use crate::simd_utils::{lemma_unpack_undoes_pack, pack_array, pack_strided, unpack_to_array};
use crate::tweak::PoseidonTweak;
use crate::tweak_hash::{message_lane, PoseidonTweakHash, MERGE_COMPRESSION_WIDTH};

verus! {

impl<
    const PARAMETER_LEN: usize,
    const HASH_LEN: usize,
    const TWEAK_LEN: usize,
    const CAPACITY: usize,
    const NUM_CHUNKS: usize,
> PoseidonTweakHash<PARAMETER_LEN, HASH_LEN, TWEAK_LEN, CAPACITY, NUM_CHUNKS> {
    /// The parent of children `2 * i` and `2 * i + 1`, for a layer whose first parent has the
    /// position `parent_start`. Positions are counted modulo 2^32.
    pub open spec fn parent_value(
        parameter: Seq<nat>,
        level: u8,
        parent_start: nat,
        children: Seq<Seq<nat>>,
        i: int,
    ) -> Seq<nat> {
        Self::apply_value(
            parameter,
            PoseidonTweak::TreeTweak { level, pos_in_level: (parent_start + i) as u32 },
            seq![children[2 * i], children[2 * i + 1]],
        )
    }

    /// Computes one parent per lane, from parent `first` of the layer on.
    fn compute_layer_batch(
        parameter: &FieldArray<PARAMETER_LEN>,
        level: u8,
        parent_start: usize,
        children: &[FieldArray<HASH_LEN>],
        first: usize,
    ) -> (r: Vec<FieldArray<HASH_LEN>>)
        requires
            Self::fits(2),
            2 * (first + lane_count()) <= children@.len(),
            parent_start + first + lane_count() - 1 <= usize::MAX,
        ensures
            r@.len() == lane_count(),
            forall|l: int|
                0 <= l < lane_count() ==> (#[trigger] r@[l])@ == Self::parent_value(
                    parameter@,
                    level,
                    parent_start as nat,
                    values(children@),
                    first + l,
                ),
    {
        let width: usize = PackedF::width();
        let mut tweaks: Vec<PoseidonTweak> = Vec::new();
        let mut l: usize = 0;
        while l < width
            invariant
                l <= width,
                parent_start + first + width - 1 <= usize::MAX,
                tweaks@.len() == l,
                forall|k: int|
                    0 <= k < l ==> #[trigger] tweaks@[k] == (PoseidonTweak::TreeTweak {
                        level,
                        pos_in_level: (parent_start + first + k) as u32,
                    }),
            decreases width - l,
        {
            tweaks.push(Self::tree_tweak(level, (parent_start + first + l) as u32));
            l += 1;
        }
        let packed_parameter = Self::broadcast_parameter(parameter);
        assert(children.len() == children@.len());
        let left: [PackedF; HASH_LEN] = pack_strided(children, 2 * first, 2);
        let right: [PackedF; HASH_LEN] = pack_strided(children, 2 * first + 1, 2);
        let message: [[PackedF; HASH_LEN]; 2] = [left, right];
        let parents = Self::apply_lanes(&packed_parameter, &tweaks, &message);
        let r = unpack_to_array(parents);
        proof {
            let blocks = Seq::new(2, |b: int| values(message@[b]@));
            let lefts = Seq::new(lane_count(), |j: int| children@[2 * first + 2 * j]@);
            let rights = Seq::new(lane_count(), |j: int| children@[2 * first + 1 + 2 * j]@);
            assert forall|l: int| 0 <= l < lane_count() implies (#[trigger] r@[l])@
                == Self::parent_value(
                parameter@,
                level,
                parent_start as nat,
                values(children@),
                first + l,
            ) by {
                lemma_unpack_undoes_pack(lefts, HASH_LEN as nat, l);
                lemma_unpack_undoes_pack(rights, HASH_LEN as nat, l);
                assert(message_lane(blocks, l) =~= seq![
                    values(children@)[2 * (first + l)],
                    values(children@)[2 * (first + l) + 1],
                ]);
            }
        }
        r
    }

    /// Computes a layer of the tree from the layer below it.
    ///
    /// Parents that fill all lanes are computed in batches on several threads, the rest one by one.
    pub fn compute_tree_layer(
        parameter: &FieldArray<PARAMETER_LEN>,
        level: u8,
        parent_start: usize,
        children: &[FieldArray<HASH_LEN>],
    ) -> (r: Vec<FieldArray<HASH_LEN>>)
        requires
            children@.len() >= 2 ==> Self::fits(2) && parent_start + children@.len() / 2 - 1
                <= usize::MAX,
        ensures
            r@.len() == children@.len() / 2,
            forall|i: int|
                0 <= i < r@.len() ==> (#[trigger] r@[i])@ == Self::parent_value(
                    parameter@,
                    level,
                    parent_start as nat,
                    values(children@),
                    i,
                ),
    {
        let width: usize = PackedF::width();
        let children_len: usize = children.len();
        let output_len: usize = children_len / 2;
        let batches: usize = output_len / width;
        let compute = |b: usize| -> (x: Vec<FieldArray<HASH_LEN>>)
            requires
                b < batches,
            ensures
                x@.len() == lane_count(),
                forall|l: int|
                    0 <= l < lane_count() ==> (#[trigger] x@[l])@ == Self::parent_value(
                        parameter@,
                        level,
                        parent_start as nat,
                        values(children@),
                        b * width + l,
                    ),
            {
                assert(0 <= b * width && b * width + width <= output_len) by (nonlinear_arith)
                    requires
                        b < batches,
                        batches == output_len / width,
                        width > 0,
                ;
                Self::compute_layer_batch(parameter, level, parent_start, children, b * width)
            };
        let computed: Vec<Vec<FieldArray<HASH_LEN>>> = par_map(batches, compute);
        let mut r: Vec<FieldArray<HASH_LEN>> = concat_batches(&computed, width);
        assert forall|i: int| 0 <= i < r@.len() implies (#[trigger] r@[i])@ == Self::parent_value(
            parameter@,
            level,
            parent_start as nat,
            values(children@),
            i,
        ) by {
            let b = batch_of(i, width as int);
            let l = place_of(i, width as int);
            lemma_batch_and_place(i, width as int);
            assert(call_ensures(compute, (b as usize,), computed@[b]));
            assert(r@[i] == computed@[b]@[l]);
        }
        assert(batches * width <= output_len) by (nonlinear_arith)
            requires
                batches == output_len / width,
                width > 0,
        ;
        let mut i: usize = batches * width;
        while i < output_len
            invariant
                i <= output_len,
                children_len == children@.len(),
                output_len == children_len / 2,
                output_len > 0 ==> Self::fits(2) && parent_start + output_len - 1 <= usize::MAX,
                r@.len() == i,
                forall|i: int|
                    0 <= i < r@.len() ==> (#[trigger] r@[i])@ == Self::parent_value(
                        parameter@,
                        level,
                        parent_start as nat,
                        values(children@),
                        i,
                    ),
            decreases output_len - i,
        {
            let pair: [FieldArray<HASH_LEN>; 2] = [children[2 * i], children[2 * i + 1]];
            assert(values(pair@) =~= seq![
                values(children@)[2 * i as int],
                values(children@)[2 * i + 1],
            ]);
            let tweak = Self::tree_tweak(level, (parent_start + i) as u32);
            r.push(Self::apply(parameter, &tweak, &pair));
            i += 1;
        }
        r
    }

    /// A layer can be computed in two parts: the parents of the children from `2 * k` on, with
    /// positions that start at `parent_start + k`, are the parents from `k` on.
    pub proof fn lemma_layer_in_two_parts(
        parameter: Seq<nat>,
        level: u8,
        parent_start: nat,
        children: Seq<Seq<nat>>,
        k: nat,
        i: nat,
    )
        requires
            2 * (k + i) + 1 < children.len(),
        ensures
            Self::parent_value(
                parameter,
                level,
                parent_start + k,
                children.skip(2 * k as int),
                i as int,
            ) == Self::parent_value(parameter, level, parent_start, children, (k + i) as int),
    {
    }

    /// The ends of the chains of `epoch` that start at `starts`. Chain indices are counted modulo
    /// 2^8 in the tweaks.
    pub open spec fn chain_ends(
        parameter: Seq<nat>,
        epoch: u32,
        starts: Seq<Seq<nat>>,
        chain_length: nat,
    ) -> Seq<Seq<nat>> {
        Seq::new(
            NUM_CHUNKS as nat,
            |c: int|
                Self::chain_value(
                    parameter,
                    epoch,
                    c as u8,
                    0,
                    (chain_length - 1) as nat,
                    starts[c],
                ),
        )
    }

    /// The leaf of `epoch` whose chains start at `starts`: every chain is walked to its end, and
    /// the ends are hashed together. A leaf of a full batch is hashed through the sponge whatever
    /// the number of chains; any other leaf is hashed as every message is.
    pub open spec fn leaf_value(
        parameter: Seq<nat>,
        epoch: u32,
        starts: Seq<Seq<nat>>,
        chain_length: nat,
        batched: bool,
    ) -> Seq<nat> {
        let tweak = PoseidonTweak::TreeTweak { level: 0, pos_in_level: epoch };
        let ends = Self::chain_ends(parameter, epoch, starts, chain_length);
        if batched {
            Self::sponge_value(parameter, tweak, ends)
        } else {
            Self::apply_value(parameter, tweak, ends)
        }
    }

    /// The chains under a leaf can be walked, and their ends hashed.
    pub open spec fn leaf_fits(chain_length: nat, batched: bool) -> bool {
        &&& NUM_CHUNKS > 0 ==> chain_length >= 1
        &&& chain_length > 1 && NUM_CHUNKS > 0 ==> Self::fits(1)
        &&& if batched {
            Self::sponge_fits(NUM_CHUNKS as nat)
        } else {
            Self::fits(NUM_CHUNKS as nat)
        }
    }

    /// Epoch `i` of `len` epochs is in a batch that fills all lanes.
    pub open spec fn in_full_batch(i: int, len: nat) -> bool {
        i < (len / lane_count()) * lane_count()
    }

    /// With more than two chains, a leaf is the same in a batch and by itself.
    pub proof fn lemma_batching_does_not_count(
        parameter: Seq<nat>,
        epoch: u32,
        starts: Seq<Seq<nat>>,
        chain_length: nat,
    )
        requires
            NUM_CHUNKS > 2,
        ensures
            Self::leaf_value(parameter, epoch, starts, chain_length, true) == Self::leaf_value(
                parameter,
                epoch,
                starts,
                chain_length,
                false,
            ),
            Self::leaf_fits(chain_length, true) == Self::leaf_fits(chain_length, false),
    {
    }

    /// `leaf` is the leaf of `epoch` for chain starts that the pseudorandom function can return.
    pub open spec fn is_leaf<PRF: Pseudorandom>(
        prf_key: &PRF::Key,
        parameter: Seq<nat>,
        epoch: u32,
        chain_length: nat,
        batched: bool,
        leaf: Seq<nat>,
    ) -> bool where PRF::Domain: Into<FieldArray<HASH_LEN>> {
        exists|starts: Seq<FieldArray<HASH_LEN>>|
            {
                &&& starts.len() == NUM_CHUNKS
                &&& forall|c: int|
                    0 <= c < NUM_CHUNKS ==> is_chain_start::<PRF, HASH_LEN>(
                        prf_key,
                        epoch,
                        c as u64,
                        #[trigger] starts[c],
                    )
                &&& leaf == #[trigger] Self::leaf_value(
                    parameter,
                    epoch,
                    values(starts),
                    chain_length,
                    batched,
                )
            }
    }

    /// A deterministic pseudorandom function leaves no choice: the leaf of an epoch is the same
    /// however often it is computed, and with more than two chains also in a batch and by itself.
    pub proof fn lemma_leaf_is_unique<PRF: Pseudorandom>(
        prf_key: &PRF::Key,
        parameter: Seq<nat>,
        epoch: u32,
        chain_length: nat,
        batched_a: bool,
        batched_b: bool,
        a: Seq<nat>,
        b: Seq<nat>,
    ) where PRF::Domain: Into<FieldArray<HASH_LEN>>
        requires
            is_deterministic::<PRF, HASH_LEN>(),
            batched_a == batched_b || NUM_CHUNKS > 2,
            Self::is_leaf::<PRF>(prf_key, parameter, epoch, chain_length, batched_a, a),
            Self::is_leaf::<PRF>(prf_key, parameter, epoch, chain_length, batched_b, b),
        ensures
            a == b,
    {
        let s = choose|starts: Seq<FieldArray<HASH_LEN>>|
            {
                &&& starts.len() == NUM_CHUNKS
                &&& forall|c: int|
                    0 <= c < NUM_CHUNKS ==> is_chain_start::<PRF, HASH_LEN>(
                        prf_key,
                        epoch,
                        c as u64,
                        #[trigger] starts[c],
                    )
                &&& a == #[trigger] Self::leaf_value(
                    parameter,
                    epoch,
                    values(starts),
                    chain_length,
                    batched_a,
                )
            };
        let t = choose|starts: Seq<FieldArray<HASH_LEN>>|
            {
                &&& starts.len() == NUM_CHUNKS
                &&& forall|c: int|
                    0 <= c < NUM_CHUNKS ==> is_chain_start::<PRF, HASH_LEN>(
                        prf_key,
                        epoch,
                        c as u64,
                        #[trigger] starts[c],
                    )
                &&& b == #[trigger] Self::leaf_value(
                    parameter,
                    epoch,
                    values(starts),
                    chain_length,
                    batched_b,
                )
            };
        assert forall|c: int| 0 <= c < NUM_CHUNKS implies s[c] == t[c] by {
            assert(is_chain_start::<PRF, HASH_LEN>(prf_key, epoch, c as u64, s[c]));
            assert(is_chain_start::<PRF, HASH_LEN>(prf_key, epoch, c as u64, t[c]));
        }
        assert(s =~= t);
    }

    /// Computes the leaf of one epoch, outside a batch, from the starts of its chains.
    pub fn leaf_from_starts(
        parameter: &FieldArray<PARAMETER_LEN>,
        epoch: u32,
        starts: &[FieldArray<HASH_LEN>],
        chain_length: usize,
    ) -> (r: FieldArray<HASH_LEN>)
        requires
            Self::leaf_fits(chain_length as nat, false),
            starts@.len() == NUM_CHUNKS,
        ensures
            r@ == Self::leaf_value(parameter@, epoch, values(starts@), chain_length as nat, false),
    {
        let mut ends: Vec<FieldArray<HASH_LEN>> = Vec::new();
        let mut c: usize = 0;
        while c < NUM_CHUNKS
            invariant
                c <= NUM_CHUNKS,
                Self::leaf_fits(chain_length as nat, false),
                starts@.len() == NUM_CHUNKS,
                ends@.len() == c,
                forall|k: int|
                    0 <= k < c ==> (#[trigger] ends@[k])@ == Self::chain_value(
                        parameter@,
                        epoch,
                        k as u8,
                        0,
                        (chain_length - 1) as nat,
                        starts@[k]@,
                    ),
            decreases NUM_CHUNKS - c,
        {
            ends.push(
                Self::chain(parameter, epoch, c as u8, 0, chain_length - 1, &starts[c]),
            );
            c += 1;
        }
        assert(values(ends@) =~= Self::chain_ends(
            parameter@,
            epoch,
            values(starts@),
            chain_length as nat,
        ));
        Self::apply(parameter, &Self::tree_tweak(0, epoch), &ends)
    }

    /// Walks one chain per lane, from position 0 on.
    fn chain_lanes(
        parameter: &[PackedF; PARAMETER_LEN],
        epochs: &[u32],
        chain_index: u8,
        steps: usize,
        start: &[PackedF; HASH_LEN],
    ) -> (r: [PackedF; HASH_LEN])
        requires
            steps > 0 ==> Self::fits(1),
            epochs@.len() == lane_count(),
        ensures
            forall|l: int|
                0 <= l < lane_count() ==> #[trigger] lane(values(r@), l) == Self::chain_value(
                    lane(values(parameter@), l),
                    epochs@[l],
                    chain_index,
                    0,
                    steps as nat,
                    lane(values(start@), l),
                ),
    {
        let mut current: [PackedF; HASH_LEN] = *start;
        let mut step: usize = 0;
        while step < steps
            invariant
                step <= steps,
                steps > 0 ==> Self::fits(1),
                epochs@.len() == lane_count(),
                forall|l: int|
                    0 <= l < lane_count() ==> #[trigger] lane(values(current@), l)
                        == Self::chain_value(
                        lane(values(parameter@), l),
                        epochs@[l],
                        chain_index,
                        0,
                        step as nat,
                        lane(values(start@), l),
                    ),
            decreases steps - step,
        {
            let pos: u8 = (step + 1) as u8;
            let mut tweaks: Vec<PoseidonTweak> = Vec::new();
            let mut j: usize = 0;
            while j < epochs.len()
                invariant
                    j <= epochs@.len(),
                    tweaks@.len() == j,
                    forall|k: int|
                        0 <= k < j ==> #[trigger] tweaks@[k] == (PoseidonTweak::ChainTweak {
                            epoch: epochs@[k],
                            chain_index,
                            pos_in_chain: pos,
                        }),
                decreases epochs@.len() - j,
            {
                tweaks.push(Self::chain_tweak(epochs[j], chain_index, pos));
                j += 1;
            }
            let message: [[PackedF; HASH_LEN]; 1] = [current];
            let next = Self::apply_lanes(parameter, &tweaks, &message);
            proof {
                let blocks = Seq::new(1, |b: int| values(message@[b]@));
                assert forall|l: int| 0 <= l < lane_count() implies #[trigger] lane(
                    values(next@),
                    l,
                ) == Self::chain_value(
                    lane(values(parameter@), l),
                    epochs@[l],
                    chain_index,
                    0,
                    (step + 1) as nat,
                    lane(values(start@), l),
                ) by {
                    assert(message_lane(blocks, l) =~= seq![lane(values(current@), l)]);
                }
            }
            current = next;
            step += 1;
        }
        current
    }

    /// Computes one leaf per lane from the starts of its chains: `starts[c][l]` is where chain `c`
    /// of epoch `epochs[l]` starts. The ends go through the sponge.
    pub fn leaves_from_starts(
        parameter: &FieldArray<PARAMETER_LEN>,
        epochs: &[u32],
        starts: &[Vec<FieldArray<HASH_LEN>>],
        chain_length: usize,
    ) -> (r: Vec<FieldArray<HASH_LEN>>)
        requires
            Self::leaf_fits(chain_length as nat, true),
            epochs@.len() == lane_count(),
            starts@.len() == NUM_CHUNKS,
            forall|c: int|
                0 <= c < NUM_CHUNKS ==> (#[trigger] starts@[c])@.len() == lane_count(),
        ensures
            r@.len() == lane_count(),
            forall|l: int|
                0 <= l < lane_count() ==> (#[trigger] r@[l])@ == Self::leaf_value(
                    parameter@,
                    epochs@[l],
                    Seq::new(NUM_CHUNKS as nat, |c: int| starts@[c]@[l]@),
                    chain_length as nat,
                    true,
                ),
    {
        let packed_parameter = Self::broadcast_parameter(parameter);
        let mut ends: Vec<[PackedF; HASH_LEN]> = Vec::new();
        let mut c: usize = 0;
        while c < NUM_CHUNKS
            invariant
                c <= NUM_CHUNKS,
                Self::leaf_fits(chain_length as nat, true),
                epochs@.len() == lane_count(),
                starts@.len() == NUM_CHUNKS,
                forall|c: int|
                    0 <= c < NUM_CHUNKS ==> (#[trigger] starts@[c])@.len() == lane_count(),
                forall|l: int|
                    0 <= l < lane_count() ==> #[trigger] lane(values(packed_parameter@), l)
                        == parameter@,
                ends@.len() == c,
                forall|k: int, l: int|
                    0 <= k < c && 0 <= l < lane_count() ==> #[trigger] lane(
                        values(ends@[k]@),
                        l,
                    ) == Self::chain_value(
                        parameter@,
                        epochs@[l],
                        k as u8,
                        0,
                        (chain_length - 1) as nat,
                        starts@[k]@[l]@,
                    ),
            decreases NUM_CHUNKS - c,
        {
            let packed_start: [PackedF; HASH_LEN] = pack_array(&starts[c]);
            let end = Self::chain_lanes(
                &packed_parameter,
                epochs,
                c as u8,
                chain_length - 1,
                &packed_start,
            );
            proof {
                assert forall|l: int| 0 <= l < lane_count() implies #[trigger] lane(values(end@), l)
                    == Self::chain_value(
                    parameter@,
                    epochs@[l],
                    c as u8,
                    0,
                    (chain_length - 1) as nat,
                    starts@[c as int]@[l]@,
                ) by {
                    lemma_unpack_undoes_pack(values(starts@[c as int]@), HASH_LEN as nat, l);
                    assert(lane(values(packed_parameter@), l) == parameter@);
                }
            }
            ends.push(end);
            c += 1;
        }
        let mut tweaks: Vec<PoseidonTweak> = Vec::new();
        let mut j: usize = 0;
        while j < epochs.len()
            invariant
                j <= epochs@.len(),
                tweaks@.len() == j,
                forall|k: int|
                    0 <= k < j ==> #[trigger] tweaks@[k] == (PoseidonTweak::TreeTweak {
                        level: 0,
                        pos_in_level: epochs@[k],
                    }),
            decreases epochs@.len() - j,
        {
            tweaks.push(Self::tree_tweak(0, epochs[j]));
            j += 1;
        }
        let leaves = Self::sponge_lanes(&packed_parameter, &tweaks, &ends);
        let r = unpack_to_array(leaves);
        proof {
            let blocks = Seq::new(ends@.len(), |b: int| values(ends@[b]@));
            assert forall|l: int| 0 <= l < lane_count() implies (#[trigger] r@[l])@
                == Self::leaf_value(
                parameter@,
                epochs@[l],
                Seq::new(NUM_CHUNKS as nat, |c: int| starts@[c]@[l]@),
                chain_length as nat,
                true,
            ) by {
                let lane_starts = Seq::new(NUM_CHUNKS as nat, |c: int| starts@[c]@[l]@);
                let lane_ends = Self::chain_ends(
                    parameter@,
                    epochs@[l],
                    lane_starts,
                    chain_length as nat,
                );
                assert forall|c: int| 0 <= c < NUM_CHUNKS implies #[trigger] message_lane(
                    blocks,
                    l,
                )[c] == lane_ends[c] by {
                    assert(lane(values(ends@[c]@), l) == Self::chain_value(
                        parameter@,
                        epochs@[l],
                        c as u8,
                        0,
                        (chain_length - 1) as nat,
                        starts@[c]@[l]@,
                    ));
                }
                assert(message_lane(blocks, l) =~= lane_ends);
                assert(lane(values(packed_parameter@), l) == parameter@);
            }
        }
        r
    }

    /// Computes the leaves of the epochs from `first` on, one per lane.
    fn compute_leaf_batch<PRF: Pseudorandom>(
        prf_key: &PRF::Key,
        parameter: &FieldArray<PARAMETER_LEN>,
        epochs: &[u32],
        first: usize,
        chain_length: usize,
    ) -> (r: Vec<FieldArray<HASH_LEN>>) where PRF::Domain: Into<FieldArray<HASH_LEN>>
        requires
            Self::leaf_fits(chain_length as nat, true),
            first + lane_count() <= epochs@.len(),
        ensures
            r@.len() == lane_count(),
            forall|l: int|
                0 <= l < lane_count() ==> Self::is_leaf::<PRF>(
                    prf_key,
                    parameter@,
                    epochs@[first + l],
                    chain_length as nat,
                    true,
                    (#[trigger] r@[l])@,
                ),
    {
        let width: usize = PackedF::width();
        let epochs_len: usize = epochs.len();
        let mut chunk: Vec<u32> = Vec::new();
        let mut j: usize = 0;
        while j < width
            invariant
                j <= width,
                epochs_len == epochs@.len(),
                first + width <= epochs_len,
                chunk@.len() == j,
                forall|k: int| 0 <= k < j ==> #[trigger] chunk@[k] == epochs@[first + k],
            decreases width - j,
        {
            chunk.push(epochs[first + j]);
            j += 1;
        }
        let mut starts: Vec<Vec<FieldArray<HASH_LEN>>> = Vec::new();
        let mut c: usize = 0;
        while c < NUM_CHUNKS
            invariant
                c <= NUM_CHUNKS,
                width == lane_count(),
                chunk@.len() == width,
                starts@.len() == c,
                forall|k: int| 0 <= k < c ==> (#[trigger] starts@[k])@.len() == width,
                forall|k: int, l: int|
                    0 <= k < c && 0 <= l < width ==> is_chain_start::<PRF, HASH_LEN>(
                        prf_key,
                        chunk@[l],
                        k as u64,
                        #[trigger] starts@[k]@[l],
                    ),
            decreases NUM_CHUNKS - c,
        {
            let mut row: Vec<FieldArray<HASH_LEN>> = Vec::new();
            let mut j: usize = 0;
            while j < width
                invariant
                    j <= width,
                    chunk@.len() == width,
                    row@.len() == j,
                    forall|l: int|
                        0 <= l < j ==> is_chain_start::<PRF, HASH_LEN>(
                            prf_key,
                            chunk@[l],
                            c as u64,
                            #[trigger] row@[l],
                        ),
                decreases width - j,
            {
                row.push(chain_start::<PRF, HASH_LEN>(prf_key, chunk[j], c as u64));
                j += 1;
            }
            starts.push(row);
            c += 1;
        }
        let r = Self::leaves_from_starts(parameter, &chunk, &starts, chain_length);
        assert forall|l: int| 0 <= l < lane_count() implies Self::is_leaf::<PRF>(
            prf_key,
            parameter@,
            epochs@[first + l],
            chain_length as nat,
            true,
            (#[trigger] r@[l])@,
        ) by {
            let own = Seq::new(NUM_CHUNKS as nat, |c: int| starts@[c]@[l]);
            assert(chunk@[l] == epochs@[first + l]);
            assert forall|c: int| 0 <= c < NUM_CHUNKS implies is_chain_start::<PRF, HASH_LEN>(
                prf_key,
                epochs@[first + l],
                c as u64,
                #[trigger] own[c],
            ) by {
                assert(own[c] == starts@[c]@[l]);
            }
            assert(values(own) =~= Seq::new(NUM_CHUNKS as nat, |c: int| starts@[c]@[l]@));
            assert(r@[l]@ == Self::leaf_value(
                parameter@,
                epochs@[first + l],
                values(own),
                chain_length as nat,
                true,
            ));
        }
        r
    }

    /// Computes the leaves of the tree for a list of epochs.
    ///
    /// The pseudorandom function gives the start of every chain. Epochs that fill all lanes are
    /// processed in batches on several threads, the rest one by one.
    ///
    /// In a batch the ends of the chains go through the sponge, whatever their number. One by one
    /// they are hashed as `apply` hashes them: more than two go through the sponge as well, one or
    /// two are compressed, and a leaf over no chain holds ones.
    pub fn compute_tree_leaves<PRF: Pseudorandom>(
        prf_key: &PRF::Key,
        parameter: &FieldArray<PARAMETER_LEN>,
        epochs: &[u32],
        num_chains: usize,
        chain_length: usize,
    ) -> (r: Vec<FieldArray<HASH_LEN>>) where PRF::Domain: Into<FieldArray<HASH_LEN>>
        requires
            num_chains == NUM_CHUNKS,
            CAPACITY <= MERGE_COMPRESSION_WIDTH,
            epochs@.len() >= lane_count() ==> Self::leaf_fits(chain_length as nat, true),
            epochs@.len() % lane_count() > 0 ==> Self::leaf_fits(chain_length as nat, false),
        ensures
            r@.len() == epochs@.len(),
            forall|i: int|
                0 <= i < r@.len() ==> Self::is_leaf::<PRF>(
                    prf_key,
                    parameter@,
                    epochs@[i],
                    chain_length as nat,
                    Self::in_full_batch(i, epochs@.len()),
                    (#[trigger] r@[i])@,
                ),
    {
        let width: usize = PackedF::width();
        let epochs_len: usize = epochs.len();
        let batches: usize = epochs_len / width;
        let compute = |b: usize| -> (x: Vec<FieldArray<HASH_LEN>>)
            requires
                b < batches,
            ensures
                x@.len() == lane_count(),
                forall|l: int|
                    0 <= l < lane_count() ==> Self::is_leaf::<PRF>(
                        prf_key,
                        parameter@,
                        epochs@[b * width + l],
                        chain_length as nat,
                        true,
                        (#[trigger] x@[l])@,
                    ),
            {
                assert(0 <= b * width && b * width + width <= epochs_len) by (nonlinear_arith)
                    requires
                        b < batches,
                        batches == epochs_len / width,
                        width > 0,
                ;
                Self::compute_leaf_batch::<PRF>(
                    prf_key,
                    parameter,
                    epochs,
                    b * width,
                    chain_length,
                )
            };
        let computed: Vec<Vec<FieldArray<HASH_LEN>>> = par_map(batches, compute);
        let mut r: Vec<FieldArray<HASH_LEN>> = concat_batches(&computed, width);
        assert(batches * width <= epochs_len) by (nonlinear_arith)
            requires
                batches == epochs_len / width,
                width > 0,
        ;
        assert forall|i: int| 0 <= i < r@.len() implies Self::is_leaf::<PRF>(
            prf_key,
            parameter@,
            epochs@[i],
            chain_length as nat,
            true,
            (#[trigger] r@[i])@,
        ) by {
            let b = batch_of(i, width as int);
            let l = place_of(i, width as int);
            lemma_batch_and_place(i, width as int);
            assert(call_ensures(compute, (b as usize,), computed@[b]));
            assert(r@[i] == computed@[b]@[l]);
        }
        let mut i: usize = batches * width;
        while i < epochs_len
            invariant
                i <= epochs_len,
                epochs_len == epochs@.len(),
                epochs_len % width > 0 ==> Self::leaf_fits(chain_length as nat, false),
                batches * width <= i,
                batches == epochs_len / width,
                width > 0,
                width == lane_count(),
                num_chains == NUM_CHUNKS,
                r@.len() == i,
                forall|i: int|
                    0 <= i < r@.len() ==> Self::is_leaf::<PRF>(
                        prf_key,
                        parameter@,
                        epochs@[i],
                        chain_length as nat,
                        Self::in_full_batch(i, epochs@.len()),
                        (#[trigger] r@[i])@,
                    ),
            decreases epochs_len - i,
        {
            proof {
                lemma_fundamental_div_mod(epochs_len as int, width as int);
                assert(width * batches == batches * width) by (nonlinear_arith);
            }
            let mut starts: Vec<FieldArray<HASH_LEN>> = Vec::new();
            let mut c: usize = 0;
            while c < num_chains
                invariant
                    c <= num_chains,
                    i < epochs@.len(),
                    starts@.len() == c,
                    forall|k: int|
                        0 <= k < c ==> is_chain_start::<PRF, HASH_LEN>(
                            prf_key,
                            epochs@[i as int],
                            k as u64,
                            #[trigger] starts@[k],
                        ),
                decreases num_chains - c,
            {
                starts.push(chain_start::<PRF, HASH_LEN>(prf_key, epochs[i], c as u64));
                c += 1;
            }
            let leaf = Self::leaf_from_starts(parameter, epochs[i], &starts, chain_length);
            assert(leaf@ == Self::leaf_value(
                parameter@,
                epochs@[i as int],
                values(starts@),
                chain_length as nat,
                false,
            ));
            r.push(leaf);
            i += 1;
        }
        r
    }
}

} // verus!
