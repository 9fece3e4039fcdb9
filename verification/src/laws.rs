//! What the operations of the library are for, stated of their inputs and results.
//!
//! The laws of this module go down to the order of the field, the images of the permutations, and
//! integer arithmetic. Where an operation works in steps, its law takes a record of the steps: any
//! record in which every step follows from the one before ends in the result of the operation.

use vstd::arithmetic::div_mod::{
    lemma_div_denominator, lemma_fundamental_div_mod, lemma_mod_bound,
};
use vstd::arithmetic::power::{lemma_pow_positive, pow};
use vstd::arithmetic::power2::{lemma2_to64, pow2};
use vstd::prelude::*;

use crate::array::FieldArray;
use crate::compress::{compressed, fed_forward, zero_padded};
use crate::digits::{digit, digits, lemma_weight, weight};
use crate::field::{order, values, Algebra, F};
use crate::packed::{lane, lane_count, PackedF};
use crate::permutation::{
    lanewise_image, poseidon2_image_16, poseidon2_image_24, Permutation, Poseidon2,
};
use crate::prf::{is_chain_start, is_deterministic, Pseudorandom};
use crate::simd_utils::transposed;
use crate::sponge::{
    absorbed, absorbed_block, domain_input, domain_number, domain_separator, initial_state,
    lemma_padding_fills_blocks, padded_len, sponge, squeezed,
};
use crate::tweak::{
    tweak_number, PoseidonTweak, TWEAK_SEPARATOR_FOR_CHAIN_HASH, TWEAK_SEPARATOR_FOR_TREE_HASH,
};
use crate::tweak_hash::{hash_input, message_lane, PoseidonTweakHash};

verus! {

/// The order of the field is 2^31 - 2^24 + 1.
pub proof fn lemma_order()
    ensures
        order() + pow2(24) == pow2(31) + 1,
{
    lemma2_to64();
}

/// Field elements add modulo the order: the sum is a representative, it differs from the sum of
/// the integers by a multiple of the order, and zero changes nothing.
pub proof fn lemma_field_sum(a: nat, b: nat)
    ensures
        F::sum_value(a, b) < order(),
        F::sum_value(a, b) == F::sum_value(b, a),
        a < order() ==> F::sum_value(a, F::zero_value()) == a,
        a + b < order() ==> F::sum_value(a, b) == a + b,
        a + b >= order() ==> F::sum_value(a, b) == F::constant_value((a + b - order()) as nat),
        a < order() ==> F::constant_value(a) == a,
        F::constant_value(a + order()) == F::constant_value(a),
{
    assert(F::zero_value() == 0);
}

/// The values of a sequence of elements stand in its order.
pub proof fn lemma_values_in_order<R: View>(s: Seq<R>, i: int)
    requires
        0 <= i < s.len(),
    ensures
        values(s).len() == s.len(),
        values(s)[i] == s[i]@,
{
}

/// An array shows its elements in their order.
pub proof fn lemma_array_in_order<const N: usize>(a: FieldArray<N>, i: int)
    requires
        0 <= i < N,
    ensures
        a@.len() == N,
        a@[i] == a.0@[i]@,
{
}

/// Packed elements add, and hold constants, as field elements do in every lane.
pub proof fn lemma_packed_arithmetic(a: Seq<nat>, b: Seq<nat>, x: nat, l: int)
    requires
        0 <= l < lane_count(),
    ensures
        PackedF::sum_value(a, b).len() == lane_count(),
        PackedF::sum_value(a, b)[l] == F::sum_value(a[l], b[l]),
        PackedF::constant_value(x).len() == lane_count(),
        PackedF::constant_value(x)[l] == F::constant_value(x),
        PackedF::zero_value().len() == lane_count(),
        PackedF::zero_value()[l] == 0,
{
}

/// A lane holds, element by element, what the packed elements hold there, and packing puts element
/// `i` of row `l` into lane `l` of packed element `i`.
pub proof fn lemma_lane_elements(
    packed: Seq<Seq<nat>>,
    rows: Seq<Seq<nat>>,
    len: nat,
    i: int,
    l: int,
)
    requires
        0 <= l < lane_count(),
    ensures
        lane(packed, l).len() == packed.len(),
        0 <= i < packed.len() ==> lane(packed, l)[i] == packed[i][l],
        transposed(rows, len).len() == len,
        0 <= i < len ==> transposed(rows, len)[i].len() == lane_count(),
        0 <= i < len ==> transposed(rows, len)[i][l] == rows[l][i],
{
}

/// A lane of a message of packed blocks holds that lane of every block.
pub proof fn lemma_message_lane_elements(message: Seq<Seq<Seq<nat>>>, b: int, i: int, l: int)
    requires
        0 <= b < message.len(),
        0 <= i < message[b].len(),
    ensures
        message_lane(message, l).len() == message.len(),
        message_lane(message, l)[b].len() == message[b].len(),
        message_lane(message, l)[b][i] == message[b][i][l],
{
}

/// The permutation of width 16 sends a state to its image, on field elements and in every lane.
pub proof fn lemma_narrow_permutation(
    perm: Poseidon2<16>,
    state: Seq<nat>,
    packed: Seq<Seq<nat>>,
    i: int,
    l: int,
)
    requires
        0 <= i < 16,
        0 <= l < lane_count(),
    ensures
        <Poseidon2<16> as Permutation<F, 16>>::permuted(&perm, state).len() == 16,
        <Poseidon2<16> as Permutation<F, 16>>::permuted(&perm, state)[i] == poseidon2_image_16(
            state,
        )[i],
        <Poseidon2<16> as Permutation<PackedF, 16>>::permuted(&perm, packed).len() == 16,
        <Poseidon2<16> as Permutation<PackedF, 16>>::permuted(&perm, packed)[i].len()
            == lane_count(),
        <Poseidon2<16> as Permutation<PackedF, 16>>::permuted(&perm, packed)[i][l]
            == poseidon2_image_16(lane(packed, l))[i],
{
}

/// The permutation of width 24 sends a state to its image, on field elements and in every lane.
pub proof fn lemma_wide_permutation(
    perm: Poseidon2<24>,
    state: Seq<nat>,
    packed: Seq<Seq<nat>>,
    i: int,
    l: int,
)
    requires
        0 <= i < 24,
        0 <= l < lane_count(),
    ensures
        <Poseidon2<24> as Permutation<F, 24>>::permuted(&perm, state).len() == 24,
        <Poseidon2<24> as Permutation<F, 24>>::permuted(&perm, state)[i] == poseidon2_image_24(
            state,
        )[i],
        <Poseidon2<24> as Permutation<PackedF, 24>>::permuted(&perm, packed).len() == 24,
        <Poseidon2<24> as Permutation<PackedF, 24>>::permuted(&perm, packed)[i].len()
            == lane_count(),
        <Poseidon2<24> as Permutation<PackedF, 24>>::permuted(&perm, packed)[i][l]
            == poseidon2_image_24(lane(packed, l))[i],
{
}

/// A lane-wise image holds, in lane `l` of element `i`, element `i` of the image of lane `l`.
pub proof fn lemma_lanewise_image_elements(
    image: spec_fn(Seq<nat>) -> Seq<nat>,
    state: Seq<Seq<nat>>,
    width: nat,
    i: int,
    l: int,
)
    requires
        0 <= i < width,
        0 <= l < lane_count(),
    ensures
        lanewise_image(image, state, width).len() == width,
        lanewise_image(image, state, width)[i].len() == lane_count(),
        lanewise_image(image, state, width)[i][l] == image(lane(state, l))[i],
{
}

/// Digits are remainders: the lowest digit is the remainder modulo p, and the other digits are
/// those of the quotient.
pub proof fn lemma_digits_are_remainders(value: nat, len: nat)
    ensures
        digits(value, len).len() == len,
        len > 0 ==> digits(value, len)[0] == value % 0x7f00_0001,
        len > 0 ==> digits(value, len) == seq![value % 0x7f00_0001] + digits(
            value / 0x7f00_0001,
            (len - 1) as nat,
        ),
{
    if len > 0 {
        let p: nat = 0x7f00_0001;
        lemma_weight(0);
        assert(value / 1 == value);
        assert(digits(value, len)[0] == digit(value, 0));
        let shifted = seq![value % p] + digits(value / p, (len - 1) as nat);
        assert forall|i: int| 0 <= i < len implies #[trigger] digits(value, len)[i]
            == shifted[i] by {
            assert(digits(value, len)[i] == digit(value, i as nat));
            if i > 0 {
                let k = (i - 1) as nat;
                lemma_weight(k);
                assert(weight(k) * p == p * weight(k)) by (nonlinear_arith);
                lemma_div_denominator(value as int, p as int, weight(k) as int);
                assert(digits(value / p, (len - 1) as nat)[i - 1] == digit(value / p, k));
            }
        }
        assert(digits(value, len) =~= shifted);
    }
}

/// Every digit is the digit of that weight: what is left of the value after division by a power of
/// p, modulo p.
pub proof fn lemma_digit_by_powers(value: nat, i: nat)
    ensures
        digit(value, i) == (value as int / pow(0x7f00_0001, i)) % 0x7f00_0001,
        digit(value, i) < 0x7f00_0001,
{
    lemma_pow_positive(0x7f00_0001, i);
    assert(weight(i) == pow(0x7f00_0001, i));
}

/// The fields of a chain tweak stand in its number by bytes: the separator lowest, then the
/// position, the chain index, and the epoch above them.
pub proof fn lemma_chain_tweak_fields(epoch: u32, chain_index: u8, pos_in_chain: u8)
    ensures
        ({
            let n = tweak_number(PoseidonTweak::ChainTweak { epoch, chain_index, pos_in_chain });
            &&& n % 0x100 == TWEAK_SEPARATOR_FOR_CHAIN_HASH
            &&& n % 0x100 == 0
            &&& (n / 0x100) % 0x100 == pos_in_chain
            &&& (n / 0x1_0000) % 0x100 == chain_index
            &&& n / 0x100_0000 == epoch
        }),
{
}

/// The fields of a tree tweak stand in its number by bytes: the separator lowest, then the position
/// in the level, and the level above it.
pub proof fn lemma_tree_tweak_fields(level: u8, pos_in_level: u32)
    ensures
        ({
            let n = tweak_number(PoseidonTweak::TreeTweak { level, pos_in_level });
            &&& n % 0x100 == TWEAK_SEPARATOR_FOR_TREE_HASH
            &&& n % 0x100 == 1
            &&& (n / 0x100) % 0x1_0000_0000 == pos_in_level
            &&& n / 0x100_0000_0000 == level
        }),
{
}

/// The words of a domain separator stand in its number in base 2^32, the first word highest.
pub proof fn lemma_domain_number_words(params: Seq<u32>)
    ensures
        domain_number(params) % 0x1_0000_0000 == params[3],
        (domain_number(params) / 0x1_0000_0000) % 0x1_0000_0000 == params[2],
        (domain_number(params) / 0x1_0000_0000_0000_0000) % 0x1_0000_0000 == params[1],
        domain_number(params) / 0x1_0000_0000_0000_0000_0000_0000 == params[0],
{
}

/// The domain parameters are written with 24 digits of the number in which the first word counts
/// 2^96, the second 2^64, the third 2^32 and the last one.
pub proof fn lemma_domain_input_digits<R: Algebra>(params: Seq<u32>, i: nat)
    requires
        i < 24,
    ensures
        domain_input::<R>(params).len() == 24,
        domain_input::<R>(params)[i as int] == R::constant_value(
            digit(
                (params[0] * 0x1_0000_0000_0000_0000_0000_0000 + params[1] * 0x1_0000_0000_0000_0000
                    + params[2] * 0x1_0000_0000 + params[3]) as nat,
                i,
            ),
        ),
{
}

/// Padding keeps the input and puts zeros behind it, and feeding a state forward adds it to its
/// image, element by element.
pub proof fn lemma_padding_and_feeding_elements<R: Algebra>(
    input: Seq<R::V>,
    len: nat,
    state: Seq<R::V>,
    image: Seq<R::V>,
    i: int,
)
    requires
        0 <= i < len,
    ensures
        zero_padded::<R>(input, len).len() == len,
        i < input.len() ==> zero_padded::<R>(input, len)[i] == input[i],
        i >= input.len() ==> zero_padded::<R>(input, len)[i] == R::zero_value(),
        fed_forward::<R>(state, image, len).len() == len,
        fed_forward::<R>(state, image, len)[i] == R::sum_value(image[i], state[i]),
{
}

/// A compression adds an input to its image: if `state` is the input with zeros behind it, then
/// element `i` of the output is the sum of element `i` of the image of `state` and of `state`.
pub proof fn lemma_compression_adds_image<
    R: Algebra,
    P: Permutation<R, WIDTH>,
    const WIDTH: usize,
>(perm: P, input: Seq<R::V>, state: Seq<R::V>, out_len: nat)
    requires
        input.len() <= WIDTH,
        state.len() == WIDTH,
        forall|i: int| 0 <= i < input.len() ==> #[trigger] state[i] == input[i],
        forall|i: int| input.len() <= i < WIDTH ==> #[trigger] state[i] == R::zero_value(),
    ensures
        compressed::<R, P, WIDTH>(perm, input, out_len).len() == out_len,
        forall|i: int|
            0 <= i < out_len ==> #[trigger] compressed::<R, P, WIDTH>(perm, input, out_len)[i]
                == R::sum_value(perm.permuted(state)[i], state[i]),
{
    assert(zero_padded::<R>(input, WIDTH as nat) =~= state);
}

/// The separator of four words is the compression of their 24 digits.
pub proof fn lemma_separator_adds_image<
    R: Algebra,
    P: Permutation<R, WIDTH>,
    const WIDTH: usize,
>(perm: P, params: Seq<u32>, state: Seq<R::V>, out_len: nat)
    requires
        24 <= WIDTH,
        state.len() == WIDTH,
        forall|i: int|
            0 <= i < 24 ==> #[trigger] state[i] == R::constant_value(
                digit(
                    (params[0] * 0x1_0000_0000_0000_0000_0000_0000 + params[1]
                        * 0x1_0000_0000_0000_0000 + params[2] * 0x1_0000_0000 + params[3]) as nat,
                    i as nat,
                ),
            ),
        forall|i: int| 24 <= i < WIDTH ==> #[trigger] state[i] == R::zero_value(),
    ensures
        domain_separator::<R, P, WIDTH>(perm, params, out_len).len() == out_len,
        forall|i: int|
            0 <= i < out_len ==> #[trigger] domain_separator::<R, P, WIDTH>(
                perm,
                params,
                out_len,
            )[i] == R::sum_value(perm.permuted(state)[i], state[i]),
{
    let input = domain_input::<R>(params);
    assert forall|i: int| 0 <= i < input.len() implies #[trigger] state[i] == input[i] by {
        lemma_domain_input_digits::<R>(params, i as nat);
    }
    lemma_compression_adds_image::<R, P, WIDTH>(perm, input, state, out_len);
}

/// A record of a run of the sponge, as [`lemma_sponge_follows_run`] describes it.
spec fn is_sponge_run<R: Algebra, P: Permutation<R, WIDTH>, const WIDTH: usize>(
    perm: P,
    capacity: Seq<R::V>,
    input: Seq<R::V>,
    rate: nat,
    n: nat,
    trace: Seq<Seq<R::V>>,
    mixed: Seq<Seq<R::V>>,
) -> bool {
    &&& rate > 0
    &&& rate + capacity.len() == WIDTH
    &&& input.len() <= n * rate < input.len() + rate
    &&& n < trace.len()
    &&& forall|k: int| 0 <= k < trace.len() ==> (#[trigger] trace[k]).len() == WIDTH
    &&& forall|i: int| 0 <= i < rate ==> #[trigger] trace[0][i] == R::zero_value()
    &&& forall|i: int| rate <= i < WIDTH ==> #[trigger] trace[0][i] == capacity[i - rate]
    &&& mixed.len() == n
    &&& forall|k: int| 0 <= k < n ==> (#[trigger] mixed[k]).len() == WIDTH
    &&& forall|k: int, i: int|
        0 <= k < n && 0 <= i < rate && k * rate + i < input.len() ==> #[trigger] mixed[k][i]
            == R::sum_value(trace[k][i], input[k * rate + i])
    &&& forall|k: int, i: int|
        0 <= k < n && 0 <= i < rate && k * rate + i >= input.len() ==> #[trigger] mixed[k][i]
            == R::sum_value(trace[k][i], R::zero_value())
    &&& forall|k: int, i: int|
        0 <= k < n && rate <= i < WIDTH ==> #[trigger] mixed[k][i] == trace[k][i]
    &&& forall|k: int|
        #![trigger mixed[k]]
        0 <= k < n ==> trace[k + 1] == perm.permuted(mixed[k])
    &&& forall|k: int|
        #![trigger trace[k]]
        n <= k < trace.len() - 1 ==> trace[k + 1] == perm.permuted(trace[k])
}

proof fn lemma_absorbing_follows_run<R: Algebra, P: Permutation<R, WIDTH>, const WIDTH: usize>(
    perm: P,
    capacity: Seq<R::V>,
    input: Seq<R::V>,
    rate: nat,
    n: nat,
    trace: Seq<Seq<R::V>>,
    mixed: Seq<Seq<R::V>>,
    k: nat,
)
    requires
        is_sponge_run::<R, P, WIDTH>(perm, capacity, input, rate, n, trace, mixed),
        k <= n,
    ensures
        absorbed::<R, P, WIDTH>(
            perm,
            initial_state::<R>(capacity, WIDTH as nat),
            zero_padded::<R>(input, n * rate),
            rate,
            k,
        ) == trace[k as int],
    decreases k,
{
    let start = initial_state::<R>(capacity, WIDTH as nat);
    let padded = zero_padded::<R>(input, n * rate);
    if k == 0 {
        assert(start =~= trace[0]);
    } else {
        let m = (k - 1) as nat;
        lemma_absorbing_follows_run::<R, P, WIDTH>(
            perm,
            capacity,
            input,
            rate,
            n,
            trace,
            mixed,
            m,
        );
        assert(0 <= m * rate && m * rate + rate <= n * rate) by (nonlinear_arith)
            requires
                m < n,
        ;
        let block = padded.subrange((m * rate) as int, (m * rate + rate) as int);
        let before = trace[m as int];
        let fed = absorbed_block::<R>(before, block);
        assert forall|i: int| 0 <= i < WIDTH implies fed[i] == #[trigger] mixed[m as int][i] by {
            if i < rate {
                assert(block[i] == padded[m * rate + i]);
            }
        }
        assert(fed =~= mixed[m as int]);
    }
}

proof fn lemma_squeezing_follows_run<R: Algebra, P: Permutation<R, WIDTH>, const WIDTH: usize>(
    perm: P,
    rate: nat,
    trace: Seq<Seq<R::V>>,
    first: nat,
    out_len: nat,
    q: nat,
    j: nat,
)
    requires
        0 < rate <= WIDTH,
        j < rate,
        q * rate + j < out_len,
        out_len <= (trace.len() - first) * rate,
        first + q < trace.len(),
        forall|k: int| 0 <= k < trace.len() ==> (#[trigger] trace[k]).len() == WIDTH,
        forall|k: int|
            #![trigger trace[k]]
            first <= k < trace.len() - 1 ==> trace[k + 1] == perm.permuted(trace[k]),
    ensures
        squeezed::<R, P, WIDTH>(perm, trace[first as int], rate, out_len)[(q * rate + j) as int]
            == trace[(first + q) as int][j as int],
    decreases q,
{
    let state = trace[first as int];
    let whole = squeezed::<R, P, WIDTH>(perm, state, rate, out_len);
    lemma_squeezed_len::<R, P, WIDTH>(perm, rate, trace, first, out_len);
    if q == 0 {
        assert(q * rate == 0) by (nonlinear_arith)
            requires
                q == 0,
        ;
        if out_len <= rate {
            assert(whole == state.take(out_len as int));
        }
    } else {
        let m = (q - 1) as nat;
        assert(q * rate == m * rate + rate) by (nonlinear_arith)
            requires
                q == m + 1,
        ;
        assert(0 <= m * rate) by (nonlinear_arith);
        let left = (trace.len() - first) as int;
        assert(left * rate == (left - 1) * rate + rate) by (nonlinear_arith);
        assert(trace[first as int + 1] == perm.permuted(state));
        lemma_squeezing_follows_run::<R, P, WIDTH>(
            perm,
            rate,
            trace,
            first + 1,
            (out_len - rate) as nat,
            m,
            j,
        );
        let rest = squeezed::<R, P, WIDTH>(
            perm,
            perm.permuted(state),
            rate,
            (out_len - rate) as nat,
        );
        assert(whole == state.take(rate as int) + rest);
        assert(whole[(q * rate + j) as int] == rest[(m * rate + j) as int]);
    }
}

proof fn lemma_squeezed_len<R: Algebra, P: Permutation<R, WIDTH>, const WIDTH: usize>(
    perm: P,
    rate: nat,
    trace: Seq<Seq<R::V>>,
    first: nat,
    out_len: nat,
)
    requires
        0 < rate <= WIDTH,
        first < trace.len(),
        out_len <= (trace.len() - first) * rate,
        forall|k: int| 0 <= k < trace.len() ==> (#[trigger] trace[k]).len() == WIDTH,
        forall|k: int|
            #![trigger trace[k]]
            first <= k < trace.len() - 1 ==> trace[k + 1] == perm.permuted(trace[k]),
    ensures
        squeezed::<R, P, WIDTH>(perm, trace[first as int], rate, out_len).len() == out_len,
    decreases trace.len() - first,
{
    if out_len > rate {
        let rest = (trace.len() - first) as int;
        assert(rest * rate == (rest - 1) * rate + rate) by (nonlinear_arith);
        assert(rest >= 2) by (nonlinear_arith)
            requires
                out_len <= rest * rate,
                out_len > rate,
                rest >= 1,
        ;
        assert(trace[first as int + 1] == perm.permuted(trace[first as int]));
        lemma_squeezed_len::<R, P, WIDTH>(
            perm,
            rate,
            trace,
            first + 1,
            (out_len - rate) as nat,
        );
    }
}

/// The output of the sponge is read off any record of its run. `trace[k]` is the state after `k`
/// permutations, and `mixed[k]` is the state just before permutation `k` while the `n` blocks of
/// the input are absorbed.
///
/// The run starts from zeros with the capacity value behind them. As long as there is input, the
/// next `rate` elements of it are added to the first `rate` elements of the state, with zeros in
/// place of what is missing in the last block. After that the state is only permuted. The output
/// is `rate` elements of the state after the last block, then `rate` elements of the state after
/// one permutation more, and so on.
pub proof fn lemma_sponge_follows_run<R: Algebra, P: Permutation<R, WIDTH>, const WIDTH: usize>(
    perm: P,
    capacity: Seq<R::V>,
    input: Seq<R::V>,
    rate: nat,
    n: nat,
    trace: Seq<Seq<R::V>>,
    mixed: Seq<Seq<R::V>>,
    out_len: nat,
    q: nat,
    j: nat,
)
    requires
        rate > 0,
        rate + capacity.len() == WIDTH,
        input.len() <= n * rate < input.len() + rate,
        n < trace.len(),
        forall|k: int| 0 <= k < trace.len() ==> (#[trigger] trace[k]).len() == WIDTH,
        forall|i: int| 0 <= i < rate ==> #[trigger] trace[0][i] == R::zero_value(),
        forall|i: int| rate <= i < WIDTH ==> #[trigger] trace[0][i] == capacity[i - rate],
        mixed.len() == n,
        forall|k: int| 0 <= k < n ==> (#[trigger] mixed[k]).len() == WIDTH,
        forall|k: int, i: int|
            0 <= k < n && 0 <= i < rate && k * rate + i < input.len() ==> #[trigger] mixed[k][i]
                == R::sum_value(trace[k][i], input[k * rate + i]),
        forall|k: int, i: int|
            0 <= k < n && 0 <= i < rate && k * rate + i >= input.len() ==> #[trigger] mixed[k][i]
                == R::sum_value(trace[k][i], R::zero_value()),
        forall|k: int, i: int|
            0 <= k < n && rate <= i < WIDTH ==> #[trigger] mixed[k][i] == trace[k][i],
        forall|k: int|
            #![trigger mixed[k]]
            0 <= k < n ==> trace[k + 1] == perm.permuted(mixed[k]),
        forall|k: int|
            #![trigger trace[k]]
            n <= k < trace.len() - 1 ==> trace[k + 1] == perm.permuted(trace[k]),
        out_len <= (trace.len() - n) * rate,
        j < rate,
        q * rate + j < out_len,
    ensures
        sponge::<R, P, WIDTH>(perm, capacity, input, out_len).len() == out_len,
        n + q < trace.len(),
        sponge::<R, P, WIDTH>(perm, capacity, input, out_len)[(q * rate + j) as int] == trace[(n
            + q) as int][j as int],
{
    assert(is_sponge_run::<R, P, WIDTH>(perm, capacity, input, rate, n, trace, mixed));
    let blocks = padded_len(input.len(), rate);
    lemma_padding_fills_blocks(input.len(), rate);
    let p = (blocks / rate) as int;
    assert(p == n) by (nonlinear_arith)
        requires
            rate > 0,
            p * rate == blocks,
            blocks < n * rate + rate,
            n * rate < blocks + rate,
    ;
    assert(n + q < trace.len()) by (nonlinear_arith)
        requires
            q * rate + j < out_len,
            out_len <= (trace.len() - n) * rate,
            j >= 0,
            rate > 0,
    ;
    lemma_absorbing_follows_run::<R, P, WIDTH>(
        perm,
        capacity,
        input,
        rate,
        n,
        trace,
        mixed,
        n,
    );
    lemma_squeezing_follows_run::<R, P, WIDTH>(perm, rate, trace, n, out_len, q, j);
    lemma_squeezed_len::<R, P, WIDTH>(perm, rate, trace, n, out_len);
}

/// What is hashed is the parameter, then the tweak, then the blocks of the message in their order.
pub proof fn lemma_hash_input_elements(
    parameter: Seq<nat>,
    tweak: Seq<nat>,
    message: Seq<Seq<nat>>,
    len: nat,
    b: nat,
    j: nat,
)
    requires
        forall|k: int| 0 <= k < message.len() ==> (#[trigger] message[k]).len() == len,
    ensures
        hash_input(parameter, tweak, message).len() == parameter.len() + tweak.len()
            + message.len() * len,
        forall|i: int|
            0 <= i < parameter.len() ==> #[trigger] hash_input(parameter, tweak, message)[i]
                == parameter[i],
        forall|i: int|
            0 <= i < tweak.len() ==> #[trigger] tweak[i] == hash_input(parameter, tweak, message)[
            parameter.len() + i],
        b < message.len() && j < len ==> hash_input(parameter, tweak, message)[(parameter.len()
            + tweak.len() + b * len + j) as int] == message[b as int][j as int],
{
    lemma_flatten_elements(message, len, b, j);
}

proof fn lemma_flatten_elements(message: Seq<Seq<nat>>, len: nat, b: nat, j: nat)
    requires
        forall|k: int| 0 <= k < message.len() ==> (#[trigger] message[k]).len() == len,
    ensures
        message.flatten().len() == message.len() * len,
        b < message.len() && j < len ==> b * len + j < message.len() * len,
        b < message.len() && j < len ==> message.flatten()[(b * len + j) as int]
            == message[b as int][j as int],
    decreases message.len(),
{
    if message.len() > 0 {
        let init = message.drop_last();
        lemma_flatten_elements(init, len, b, j);
        init.lemma_flatten_push(message.last());
        assert(message =~= init.push(message.last()));
        let m = init.len();
        assert((m + 1) * len == m * len + len) by (nonlinear_arith);
        assert(message.flatten() == init.flatten() + message.last());
        assert(message.flatten().len() == m * len + len);
        if b < message.len() && j < len {
            assert(b * len + len <= message.len() * len) by (nonlinear_arith)
                requires
                    b < message.len(),
            ;
            if b == m {
                assert(message.flatten()[(b * len + j) as int] == message.last()[j as int]);
            } else {
                assert(message.flatten()[(b * len + j) as int] == init.flatten()[(b * len
                    + j) as int]);
            }
        }
    } else {
        assert(0 * len == 0) by (nonlinear_arith);
        assert(message =~= Seq::empty());
        assert(message.flatten().len() == 0);
    }
}

impl<
    const PARAMETER_LEN: usize,
    const HASH_LEN: usize,
    const TWEAK_LEN: usize,
    const CAPACITY: usize,
    const NUM_CHUNKS: usize,
> PoseidonTweakHash<PARAMETER_LEN, HASH_LEN, TWEAK_LEN, CAPACITY, NUM_CHUNKS> {
    /// Which messages can be hashed, in numbers: one block if the input is at most 16 elements
    /// long, two if it is at most 24 long, more if the capacity leaves a rate and the padded input
    /// can be counted.
    pub proof fn lemma_fits_in_numbers(blocks: nat)
        ensures
            Self::input_len(blocks) == PARAMETER_LEN + TWEAK_LEN + blocks * HASH_LEN,
            Self::fits(0),
            Self::fits(1) == (PARAMETER_LEN + TWEAK_LEN + HASH_LEN <= 16),
            Self::fits(2) == (PARAMETER_LEN + TWEAK_LEN + HASH_LEN + HASH_LEN <= 24),
            blocks > 2 ==> Self::fits(blocks) == (CAPACITY < 24 && PARAMETER_LEN + TWEAK_LEN
                + blocks * HASH_LEN + 24 <= usize::MAX),
            Self::sponge_fits(blocks) == (CAPACITY < 24 && PARAMETER_LEN + TWEAK_LEN + blocks
                * HASH_LEN + 24 <= usize::MAX),
    {
        assert(1 * HASH_LEN == HASH_LEN) by (nonlinear_arith);
        assert(2 * HASH_LEN == HASH_LEN + HASH_LEN) by (nonlinear_arith);
    }

    /// Which leaves can be computed, in numbers: a chain has a length, a step of it can be hashed
    /// if there is one, and the ends can be hashed or sent through the sponge.
    pub proof fn lemma_leaf_fits_in_numbers(chain_length: nat)
        ensures
            Self::leaf_fits(chain_length, false) == ((NUM_CHUNKS == 0 || (chain_length >= 1 && (
            chain_length == 1 || PARAMETER_LEN + TWEAK_LEN + HASH_LEN <= 16))) && Self::fits(
                NUM_CHUNKS as nat,
            )),
            Self::leaf_fits(chain_length, true) == ((NUM_CHUNKS == 0 || (chain_length >= 1 && (
            chain_length == 1 || PARAMETER_LEN + TWEAK_LEN + HASH_LEN <= 16)))
                && Self::sponge_fits(NUM_CHUNKS as nat)),
    {
        Self::lemma_fits_in_numbers(NUM_CHUNKS as nat);
    }

    /// When the lengths make sense together, in numbers: the tweak needs two field elements.
    pub proof fn lemma_consistent_in_numbers()
        ensures
            Self::consistent() == (CAPACITY < 24 && PARAMETER_LEN + TWEAK_LEN + HASH_LEN <= 16
                && PARAMETER_LEN + TWEAK_LEN + HASH_LEN + HASH_LEN <= 24 && TWEAK_LEN >= 2),
    {
    }

    /// The separator of the sponge is made of the lengths of the parameter, the tweak, the chains
    /// and the hash values, in this order and modulo 2^32.
    pub proof fn lemma_domain_lengths_in_order()
        ensures
            Self::domain_lengths().len() == 4,
            Self::domain_lengths()[0] == PARAMETER_LEN as nat % 0x1_0000_0000,
            Self::domain_lengths()[1] == TWEAK_LEN as nat % 0x1_0000_0000,
            Self::domain_lengths()[2] == NUM_CHUNKS as nat % 0x1_0000_0000,
            Self::domain_lengths()[3] == HASH_LEN as nat % 0x1_0000_0000,
    {
        lemma_low_word(PARAMETER_LEN);
        lemma_low_word(TWEAK_LEN);
        lemma_low_word(NUM_CHUNKS);
        lemma_low_word(HASH_LEN);
    }

    /// An input that ends in no block is hashed to ones, whatever the permutations.
    pub proof fn lemma_digest_of_no_block<
        R: Algebra,
        P16: Permutation<R, 16>,
        P24: Permutation<R, 24>,
    >(narrow: P16, wide: P24, input: Seq<R::V>, i: int)
        requires
            0 <= i < HASH_LEN,
        ensures
            Self::digest::<R, P16, P24>(narrow, wide, input, 0).len() == HASH_LEN,
            Self::digest::<R, P16, P24>(narrow, wide, input, 0)[i] == R::constant_value(1),
    {
    }

    /// An input that ends in one block is compressed with the permutation of width 16, and one that
    /// ends in two blocks with the permutation of width 24, however short it is.
    pub proof fn lemma_digest_of_one_or_two_blocks<
        R: Algebra,
        P16: Permutation<R, 16>,
        P24: Permutation<R, 24>,
    >(
        narrow: P16,
        wide: P24,
        input: Seq<R::V>,
        narrow_state: Seq<R::V>,
        wide_state: Seq<R::V>,
        i: int,
    )
        requires
            0 <= i < HASH_LEN,
            narrow_state.len() == 16,
            forall|k: int|
                0 <= k < 16 ==> #[trigger] narrow_state[k] == (if k < input.len() {
                    input[k]
                } else {
                    R::zero_value()
                }),
            wide_state.len() == 24,
            forall|k: int|
                0 <= k < 24 ==> #[trigger] wide_state[k] == (if k < input.len() {
                    input[k]
                } else {
                    R::zero_value()
                }),
        ensures
            input.len() <= 16 ==> Self::digest::<R, P16, P24>(narrow, wide, input, 1)[i]
                == R::sum_value(narrow.permuted(narrow_state)[i], narrow_state[i]),
            input.len() <= 24 ==> Self::digest::<R, P16, P24>(narrow, wide, input, 2)[i]
                == R::sum_value(wide.permuted(wide_state)[i], wide_state[i]),
            Self::digest::<R, P16, P24>(narrow, wide, input, 1).len() == HASH_LEN,
            Self::digest::<R, P16, P24>(narrow, wide, input, 2).len() == HASH_LEN,
    {
        if input.len() <= 16 {
            lemma_compression_adds_image::<R, P16, 16>(
                narrow,
                input,
                narrow_state,
                HASH_LEN as nat,
            );
        }
        if input.len() <= 24 {
            lemma_compression_adds_image::<R, P24, 24>(wide, input, wide_state, HASH_LEN as nat);
        }
    }

    /// An input that ends in more than two blocks, or that is sent through the sponge in any case,
    /// is hashed by the sponge, whose capacity value is the compression of the digits of the
    /// lengths.
    pub proof fn lemma_digest_of_many_blocks<
        R: Algebra,
        P16: Permutation<R, 16>,
        P24: Permutation<R, 24>,
    >(
        narrow: P16,
        wide: P24,
        input: Seq<R::V>,
        blocks: nat,
        lengths: Seq<R::V>,
        capacity: Seq<R::V>,
    )
        requires
            lengths.len() == 24,
            forall|i: int|
                0 <= i < 24 ==> #[trigger] lengths[i] == R::constant_value(
                    digit(
                        (PARAMETER_LEN as nat % 0x1_0000_0000 * 0x1_0000_0000_0000_0000_0000_0000
                            + TWEAK_LEN as nat % 0x1_0000_0000 * 0x1_0000_0000_0000_0000
                            + NUM_CHUNKS as nat % 0x1_0000_0000 * 0x1_0000_0000
                            + HASH_LEN as nat % 0x1_0000_0000) as nat,
                        i as nat,
                    ),
                ),
            capacity.len() == CAPACITY,
            forall|i: int|
                0 <= i < CAPACITY ==> #[trigger] capacity[i] == R::sum_value(
                    wide.permuted(lengths)[i],
                    lengths[i],
                ),
        ensures
            Self::sponge_digest::<R, P24>(wide, input) == sponge::<R, P24, 24>(
                wide,
                capacity,
                input,
                HASH_LEN as nat,
            ),
            blocks > 2 ==> Self::digest::<R, P16, P24>(narrow, wide, input, blocks) == sponge::<
                R,
                P24,
                24,
            >(wide, capacity, input, HASH_LEN as nat),
    {
        Self::lemma_domain_lengths_in_order();
        let words = Self::domain_lengths();
        lemma_separator_adds_image::<R, P24, 24>(wide, words, lengths, CAPACITY as nat);
        assert(capacity =~= domain_separator::<R, P24, 24>(wide, words, CAPACITY as nat));
    }

    /// A message of no block is hashed to ones.
    pub proof fn lemma_apply_to_nothing(parameter: Seq<nat>, tweak: PoseidonTweak, i: int)
        requires
            0 <= i < HASH_LEN,
        ensures
            Self::apply_value(parameter, tweak, Seq::empty()).len() == HASH_LEN,
            Self::apply_value(parameter, tweak, Seq::empty())[i] == 1,
    {
        lemma_field_sum(1, 0);
    }

    /// A message of one block is hashed to the first sums of `state` and its image under the
    /// permutation of width 16, where `state` holds the parameter, the digits of the tweak, the
    /// block and zeros.
    pub proof fn lemma_apply_to_one_block(
        parameter: Seq<nat>,
        tweak: PoseidonTweak,
        block: Seq<nat>,
        state: Seq<nat>,
        zeros: nat,
        i: int,
    )
        requires
            parameter.len() == PARAMETER_LEN,
            block.len() == HASH_LEN,
            PARAMETER_LEN + TWEAK_LEN + HASH_LEN + zeros == 16,
            state == parameter + digits(tweak_number(tweak), TWEAK_LEN as nat) + block + Seq::new(
                zeros,
                |k: int| 0nat,
            ),
            0 <= i < HASH_LEN,
        ensures
            Self::apply_value(parameter, tweak, seq![block]).len() == HASH_LEN,
            Self::apply_value(parameter, tweak, seq![block])[i] == (poseidon2_image_16(state)[i]
                + state[i]) % 0x7f00_0001,
    {
        let message = seq![block];
        let code = digits(tweak_number(tweak), TWEAK_LEN as nat);
        let input = hash_input(parameter, code, message);
        Seq::<Seq<nat>>::empty().lemma_flatten_push(block);
        assert(message =~= Seq::<Seq<nat>>::empty().push(block));
        assert(input =~= parameter + code + block);
        lemma_compression_adds_image::<F, Poseidon2<16>, 16>(
            Poseidon2,
            input,
            state,
            HASH_LEN as nat,
        );
    }

    /// A message of two blocks is hashed to the first sums of `state` and its image under the
    /// permutation of width 24, where `state` holds the parameter, the digits of the tweak, the
    /// left block, the right block and zeros, however many.
    pub proof fn lemma_apply_to_two_blocks(
        parameter: Seq<nat>,
        tweak: PoseidonTweak,
        left: Seq<nat>,
        right: Seq<nat>,
        state: Seq<nat>,
        zeros: nat,
        i: int,
    )
        requires
            parameter.len() == PARAMETER_LEN,
            left.len() == HASH_LEN,
            right.len() == HASH_LEN,
            PARAMETER_LEN + TWEAK_LEN + HASH_LEN + HASH_LEN + zeros == 24,
            state == parameter + digits(tweak_number(tweak), TWEAK_LEN as nat) + left + right
                + Seq::new(zeros, |k: int| 0nat),
            0 <= i < HASH_LEN,
        ensures
            Self::apply_value(parameter, tweak, seq![left, right]).len() == HASH_LEN,
            Self::apply_value(parameter, tweak, seq![left, right])[i] == (poseidon2_image_24(
                state,
            )[i] + state[i]) % 0x7f00_0001,
    {
        let message = seq![left, right];
        let code = digits(tweak_number(tweak), TWEAK_LEN as nat);
        let input = hash_input(parameter, code, message);
        Seq::<Seq<nat>>::empty().lemma_flatten_push(left);
        seq![left].lemma_flatten_push(right);
        assert(seq![left] =~= Seq::<Seq<nat>>::empty().push(left));
        assert(message =~= seq![left].push(right));
        assert(input =~= parameter + code + left + right);
        lemma_compression_adds_image::<F, Poseidon2<24>, 24>(
            Poseidon2,
            input,
            state,
            HASH_LEN as nat,
        );
    }

    /// A message of more than two blocks is hashed by the sponge, and so is any message that is
    /// sent through the sponge. The output is read off any record of the run, in which `trace[k]`
    /// is the state after `k` permutations, and `mixed[k]` is the state before permutation `k` with
    /// block `k` of the input added to its first `rate` elements.
    ///
    /// The input is the parameter, the digits of the tweak and the blocks. The run starts from
    /// zeros with the sums of `lengths` and its image behind them, where `lengths` holds the digits
    /// of the lengths.
    pub proof fn lemma_apply_to_many_blocks(
        parameter: Seq<nat>,
        tweak: PoseidonTweak,
        message: Seq<Seq<nat>>,
        input: Seq<nat>,
        lengths: Seq<nat>,
        rate: nat,
        n: nat,
        trace: Seq<Seq<nat>>,
        mixed: Seq<Seq<nat>>,
        q: nat,
        j: nat,
    )
        requires
            rate > 0,
            rate + CAPACITY == 24,
            input == parameter + digits(tweak_number(tweak), TWEAK_LEN as nat)
                + message.flatten(),
            lengths == digits(
                (PARAMETER_LEN as nat % 0x1_0000_0000 * 0x1_0000_0000_0000_0000_0000_0000
                    + TWEAK_LEN as nat % 0x1_0000_0000 * 0x1_0000_0000_0000_0000
                    + NUM_CHUNKS as nat % 0x1_0000_0000 * 0x1_0000_0000
                    + HASH_LEN as nat % 0x1_0000_0000) as nat,
                24,
            ),
            input.len() <= n * rate < input.len() + rate,
            n < trace.len(),
            forall|k: int| 0 <= k < trace.len() ==> (#[trigger] trace[k]).len() == 24,
            forall|i: int| 0 <= i < rate ==> #[trigger] trace[0][i] == 0,
            forall|i: int|
                rate <= i < 24 ==> #[trigger] trace[0][i] == (poseidon2_image_24(lengths)[i - rate]
                    + lengths[i - rate]) % 0x7f00_0001,
            mixed.len() == n,
            forall|k: int| 0 <= k < n ==> (#[trigger] mixed[k]).len() == 24,
            forall|k: int, i: int|
                0 <= k < n && 0 <= i < rate && k * rate + i < input.len() ==> #[trigger] mixed[k][i]
                    == (trace[k][i] + input[k * rate + i]) % 0x7f00_0001,
            forall|k: int, i: int|
                0 <= k < n && 0 <= i < rate && k * rate + i >= input.len()
                    ==> #[trigger] mixed[k][i] == trace[k][i] % 0x7f00_0001,
            forall|k: int, i: int|
                0 <= k < n && rate <= i < 24 ==> #[trigger] mixed[k][i] == trace[k][i],
            forall|k: int, i: int|
                #![trigger mixed[k], trace[k + 1][i]]
                0 <= k < n && 0 <= i < 24 ==> trace[k + 1][i] == poseidon2_image_24(mixed[k])[i],
            forall|k: int, i: int|
                #![trigger trace[k], trace[k + 1][i]]
                n <= k < trace.len() - 1 && 0 <= i < 24 ==> trace[k + 1][i] == poseidon2_image_24(
                    trace[k],
                )[i],
            HASH_LEN <= (trace.len() - n) * rate,
            j < rate,
            q * rate + j < HASH_LEN,
        ensures
            n + q < trace.len(),
            Self::sponge_value(parameter, tweak, message).len() == HASH_LEN,
            Self::sponge_value(parameter, tweak, message)[(q * rate + j) as int] == trace[(n
                + q) as int][j as int],
            message.len() > 2 ==> Self::apply_value(parameter, tweak, message).len() == HASH_LEN,
            message.len() > 2 ==> Self::apply_value(parameter, tweak, message)[(q * rate
                + j) as int] == trace[(n + q) as int][j as int],
    {
        let d = (PARAMETER_LEN as nat % 0x1_0000_0000 * 0x1_0000_0000_0000_0000_0000_0000
            + TWEAK_LEN as nat % 0x1_0000_0000 * 0x1_0000_0000_0000_0000
            + NUM_CHUNKS as nat % 0x1_0000_0000 * 0x1_0000_0000
            + HASH_LEN as nat % 0x1_0000_0000) as nat;
        assert forall|i: int| 0 <= i < 24 implies #[trigger] lengths[i] == F::constant_value(
            digit(d, i as nat),
        ) by {
            lemma_digit_by_powers(d, i as nat);
            lemma_field_sum(digit(d, i as nat), 0);
            assert(lengths[i] == digit(d, i as nat));
        }
        let wide: Poseidon2<24> = Poseidon2;
        let capacity = trace[0].skip(rate as int);
        assert forall|i: int| 0 <= i < CAPACITY implies #[trigger] capacity[i] == F::sum_value(
            <Poseidon2<24> as Permutation<F, 24>>::permuted(&wide, lengths)[i],
            lengths[i],
        ) by {
            assert(capacity[i] == trace[0][rate + i]);
        }
        Self::lemma_digest_of_many_blocks::<F, Poseidon2<16>, Poseidon2<24>>(
            Poseidon2,
            wide,
            input,
            message.len(),
            lengths,
            capacity,
        );
        assert forall|k: int|
            #![trigger mixed[k]]
            0 <= k < n implies trace[k + 1] == <Poseidon2<24> as Permutation<F, 24>>::permuted(
            &wide,
            mixed[k],
        ) by {
            assert(trace[k + 1] =~= <Poseidon2<24> as Permutation<F, 24>>::permuted(
                &wide,
                mixed[k],
            ));
        }
        assert forall|k: int|
            #![trigger trace[k]]
            n <= k < trace.len() - 1 implies trace[k + 1] == <Poseidon2<24> as Permutation<
            F,
            24,
        >>::permuted(&wide, trace[k]) by {
            assert(trace[k + 1] =~= <Poseidon2<24> as Permutation<F, 24>>::permuted(
                &wide,
                trace[k],
            ));
        }
        lemma_sponge_follows_run::<F, Poseidon2<24>, 24>(
            wide,
            capacity,
            input,
            rate,
            n,
            trace,
            mixed,
            HASH_LEN as nat,
            q,
            j,
        );
        assert(input == hash_input(
            parameter,
            digits(tweak_number(tweak), TWEAK_LEN as nat),
            message,
        ));
    }

    /// One step of a chain from position `s` hashes the value under the tweak of position `s + 1`,
    /// which the tweak holds as it is if it fits in a byte.
    pub proof fn lemma_chain_step(
        parameter: Seq<nat>,
        epoch: u32,
        chain_index: u8,
        s: nat,
        value: Seq<nat>,
        pos: u8,
    )
        requires
            pos == (s + 1) as u8,
        ensures
            s + 1 < 256 ==> pos == s + 1,
            Self::chain_value(parameter, epoch, chain_index, s, 0, value) == value,
            Self::chain_value(parameter, epoch, chain_index, s, 1, value) == Self::apply_value(
                parameter,
                PoseidonTweak::ChainTweak { epoch, chain_index, pos_in_chain: pos },
                seq![value],
            ),
    {
        reveal_with_fuel(PoseidonTweakHash::chain_value, 2);
    }

    /// A chain ends where any record of its steps ends: `trace[k]` is the value after `k` steps,
    /// and step `k` leads to position `s + k + 1`. As long as the positions fit in a byte, the
    /// steps have pairwise different tweaks.
    pub proof fn lemma_chain_follows_steps(
        parameter: Seq<nat>,
        epoch: u32,
        chain_index: u8,
        s: nat,
        steps: nat,
        trace: Seq<Seq<nat>>,
        tweaks: Seq<PoseidonTweak>,
    )
        requires
            trace.len() == steps + 1,
            tweaks.len() == steps,
            forall|k: int|
                0 <= k < steps ==> #[trigger] tweaks[k] == (PoseidonTweak::ChainTweak {
                    epoch,
                    chain_index,
                    pos_in_chain: (s + k + 1) as u8,
                }),
            forall|k: int|
                #![trigger tweaks[k]]
                0 <= k < steps ==> trace[k + 1] == Self::apply_value(
                    parameter,
                    tweaks[k],
                    seq![trace[k]],
                ),
        ensures
            Self::chain_value(parameter, epoch, chain_index, s, steps, trace[0])
                == trace[steps as int],
            s + steps < 256 ==> forall|i: int, k: int|
                0 <= i < k < steps ==> #[trigger] tweaks[i] != #[trigger] tweaks[k],
        decreases steps,
    {
        if steps > 0 {
            let m = (steps - 1) as nat;
            Self::lemma_chain_follows_steps(
                parameter,
                epoch,
                chain_index,
                s,
                m,
                trace.drop_last(),
                tweaks.drop_last(),
            );
            assert(tweaks[m as int] == (PoseidonTweak::ChainTweak {
                epoch,
                chain_index,
                pos_in_chain: (s + steps) as u8,
            }));
        }
    }

    /// Parent `i` of a layer hashes children `2 * i` and `2 * i + 1` under the tweak of its level
    /// and of its position `s + i`, which the tweak holds as it is if it fits in a word. Another
    /// parent `k` of the level is then hashed under another tweak.
    pub proof fn lemma_parent_hashes_its_children(
        parameter: Seq<nat>,
        level: u8,
        s: nat,
        children: Seq<Seq<nat>>,
        i: nat,
        pos: u32,
        k: nat,
    )
        requires
            2 * i + 1 < children.len(),
            pos == (s + i) as u32,
        ensures
            s + i < 0x1_0000_0000 ==> pos == s + i,
            Self::parent_value(parameter, level, s, children, i as int) == Self::apply_value(
                parameter,
                PoseidonTweak::TreeTweak { level, pos_in_level: pos },
                seq![children[2 * i as int], children[2 * i as int + 1]],
            ),
            i != k && s + i < 0x1_0000_0000 && s + k < 0x1_0000_0000 ==> tweak_number(
                PoseidonTweak::TreeTweak { level, pos_in_level: pos },
            ) != tweak_number(PoseidonTweak::TreeTweak { level, pos_in_level: (s + k) as u32 }),
    {
    }

    /// A leaf hashes the ends of its chains under the tree tweak of level 0 and of its epoch.
    /// `walks[c][k]` is what chain `c` holds at position `k`: it starts at `starts[c]`, and every
    /// step hashes under the tweak of the epoch, the chain and the position that it leads to. The
    /// ends go through the sponge in a full batch, and are hashed as every message is otherwise.
    pub proof fn lemma_leaf_follows_walks(
        parameter: Seq<nat>,
        epoch: u32,
        starts: Seq<Seq<nat>>,
        chain_length: nat,
        walks: Seq<Seq<Seq<nat>>>,
        ends: Seq<Seq<nat>>,
    )
        requires
            chain_length >= 1,
            walks.len() == NUM_CHUNKS,
            forall|c: int| 0 <= c < NUM_CHUNKS ==> (#[trigger] walks[c]).len() == chain_length,
            forall|c: int| 0 <= c < NUM_CHUNKS ==> (#[trigger] walks[c])[0] == starts[c],
            forall|c: int, k: int|
                #![trigger walks[c][k]]
                0 <= c < NUM_CHUNKS && 0 <= k < chain_length - 1 ==> walks[c][k + 1]
                    == Self::apply_value(
                    parameter,
                    PoseidonTweak::ChainTweak {
                        epoch,
                        chain_index: c as u8,
                        pos_in_chain: (k + 1) as u8,
                    },
                    seq![walks[c][k]],
                ),
            ends.len() == NUM_CHUNKS,
            forall|c: int|
                0 <= c < NUM_CHUNKS ==> #[trigger] ends[c] == walks[c][chain_length - 1],
        ensures
            Self::leaf_value(parameter, epoch, starts, chain_length, false) == Self::apply_value(
                parameter,
                PoseidonTweak::TreeTweak { level: 0, pos_in_level: epoch },
                ends,
            ),
            Self::leaf_value(parameter, epoch, starts, chain_length, true) == Self::sponge_value(
                parameter,
                PoseidonTweak::TreeTweak { level: 0, pos_in_level: epoch },
                ends,
            ),
    {
        let steps = (chain_length - 1) as nat;
        let reached = Self::chain_ends(parameter, epoch, starts, chain_length);
        assert forall|c: int| 0 <= c < NUM_CHUNKS implies #[trigger] reached[c] == ends[c] by {
            let tweaks = Seq::new(
                steps,
                |k: int|
                    PoseidonTweak::ChainTweak {
                        epoch,
                        chain_index: c as u8,
                        pos_in_chain: (k + 1) as u8,
                    },
            );
            let walk = walks[c];
            assert forall|k: int|
                #![trigger tweaks[k]]
                0 <= k < steps implies walk[k + 1] == Self::apply_value(
                parameter,
                tweaks[k],
                seq![walk[k]],
            ) by {
                assert(walks[c][k] == walk[k]);
            }
            Self::lemma_chain_follows_steps(parameter, epoch, c as u8, 0, steps, walk, tweaks);
        }
        assert(reached =~= ends);
    }

    /// A leaf over no chain hashes the empty message, whatever the length of the chains.
    pub proof fn lemma_leaf_over_no_chain(
        parameter: Seq<nat>,
        epoch: u32,
        starts: Seq<Seq<nat>>,
        chain_length: nat,
    )
        requires
            NUM_CHUNKS == 0,
        ensures
            Self::leaf_value(parameter, epoch, starts, chain_length, false) == Self::apply_value(
                parameter,
                PoseidonTweak::TreeTweak { level: 0, pos_in_level: epoch },
                Seq::empty(),
            ),
            Self::leaf_value(parameter, epoch, starts, chain_length, true) == Self::sponge_value(
                parameter,
                PoseidonTweak::TreeTweak { level: 0, pos_in_level: epoch },
                Seq::empty(),
            ),
    {
        assert(Self::chain_ends(parameter, epoch, starts, chain_length) =~= Seq::empty());
    }

    /// An epoch is in a full batch exactly if the batch of lanes that it is counted in ends within
    /// the list.
    pub proof fn lemma_full_batches(i: int, len: nat, first: int)
        requires
            lane_count() > 0,
            0 <= i < len,
            first <= i < first + lane_count(),
            first % (lane_count() as int) == 0,
        ensures
            Self::in_full_batch(i, len) == (first + lane_count() <= len),
    {
        let w = lane_count() as int;
        let q = first / w;
        let b = len as int / w;
        lemma_fundamental_div_mod(first, w);
        lemma_fundamental_div_mod(len as int, w);
        lemma_mod_bound(len as int, w);
        assert(Self::in_full_batch(i, len) == (i < b * w));
        assert(w * q == q * w && w * b == b * w) by (nonlinear_arith);
        if first + w <= len {
            assert(q + 1 <= b) by (nonlinear_arith)
                requires
                    q * w + w <= len,
                    len < b * w + w,
                    w > 0,
            ;
            assert((q + 1) * w <= b * w) by (nonlinear_arith)
                requires
                    q + 1 <= b,
                    w > 0,
            ;
            assert((q + 1) * w == q * w + w) by (nonlinear_arith);
        } else {
            assert(b <= q) by (nonlinear_arith)
                requires
                    q * w + w > len,
                    b * w <= len,
                    w > 0,
            ;
            assert(b * w <= q * w) by (nonlinear_arith)
                requires
                    b <= q,
                    w > 0,
            ;
        }
    }

    /// A leaf comes from chain starts that the pseudorandom function returned for its key, its
    /// epoch and every chain index.
    pub proof fn lemma_leaf_has_starts<PRF: Pseudorandom>(
        prf_key: &PRF::Key,
        parameter: Seq<nat>,
        epoch: u32,
        chain_length: nat,
        batched: bool,
        leaf: Seq<nat>,
    ) -> (starts: Seq<FieldArray<HASH_LEN>>) where PRF::Domain: Into<FieldArray<HASH_LEN>>
        requires
            Self::is_leaf::<PRF>(prf_key, parameter, epoch, chain_length, batched, leaf),
        ensures
            starts.len() == NUM_CHUNKS,
            forall|c: int|
                0 <= c < NUM_CHUNKS ==> is_chain_start::<PRF, HASH_LEN>(
                    prf_key,
                    epoch,
                    c as u64,
                    #[trigger] starts[c],
                ),
            leaf == Self::leaf_value(parameter, epoch, values(starts), chain_length, batched),
    {
        choose|starts: Seq<FieldArray<HASH_LEN>>|
            {
                &&& starts.len() == NUM_CHUNKS
                &&& forall|c: int|
                    0 <= c < NUM_CHUNKS ==> is_chain_start::<PRF, HASH_LEN>(
                        prf_key,
                        epoch,
                        c as u64,
                        #[trigger] starts[c],
                    )
                &&& leaf == #[trigger] Self::leaf_value(
                    parameter,
                    epoch,
                    values(starts),
                    chain_length,
                    batched,
                )
            }
    }

    /// With a deterministic pseudorandom function, the leaf is that of the starts which the
    /// function returns.
    pub proof fn lemma_leaf_of_returned_starts<PRF: Pseudorandom>(
        prf_key: &PRF::Key,
        parameter: Seq<nat>,
        epoch: u32,
        chain_length: nat,
        batched: bool,
        leaf: Seq<nat>,
        starts: Seq<FieldArray<HASH_LEN>>,
    ) where PRF::Domain: Into<FieldArray<HASH_LEN>>
        requires
            is_deterministic::<PRF, HASH_LEN>(),
            Self::is_leaf::<PRF>(prf_key, parameter, epoch, chain_length, batched, leaf),
            starts.len() == NUM_CHUNKS,
            forall|c: int|
                0 <= c < NUM_CHUNKS ==> is_chain_start::<PRF, HASH_LEN>(
                    prf_key,
                    epoch,
                    c as u64,
                    #[trigger] starts[c],
                ),
        ensures
            leaf == Self::leaf_value(parameter, epoch, values(starts), chain_length, batched),
    {
        let own = Self::lemma_leaf_has_starts::<PRF>(
            prf_key,
            parameter,
            epoch,
            chain_length,
            batched,
            leaf,
        );
        assert forall|c: int| 0 <= c < NUM_CHUNKS implies own[c] == starts[c] by {
            assert(is_chain_start::<PRF, HASH_LEN>(prf_key, epoch, c as u64, own[c]));
            assert(is_chain_start::<PRF, HASH_LEN>(prf_key, epoch, c as u64, starts[c]));
        }
        assert(own =~= starts);
    }
}

/// The lowest word of a length is its remainder modulo 2^32.
proof fn lemma_low_word(x: usize)
    ensures
        x as u32 == x as nat % 0x1_0000_0000,
{
    assert(x as u32 as u64 == (x as u64) % 0x1_0000_0000u64) by (bit_vector);
}

/// A chain start is what the pseudorandom function returns for the key, the epoch and the index
/// that it was asked for, converted into a hash value.
pub proof fn lemma_chain_start_is_returned<PRF: Pseudorandom, const HASH_LEN: usize>(
    key: &PRF::Key,
    epoch: u32,
    index: u64,
    d: PRF::Domain,
    start: FieldArray<HASH_LEN>,
) where PRF::Domain: Into<FieldArray<HASH_LEN>>
    requires
        call_ensures(PRF::get_domain_element, (key, epoch, index), d),
        call_ensures(<PRF::Domain as Into<FieldArray<HASH_LEN>>>::into, (d,), start),
    ensures
        is_chain_start::<PRF, HASH_LEN>(key, epoch, index, start),
{
}

/// Behind every chain start stands a value that the pseudorandom function returned for it.
pub proof fn lemma_chain_start_has_value<PRF: Pseudorandom, const HASH_LEN: usize>(
    key: &PRF::Key,
    epoch: u32,
    index: u64,
    start: FieldArray<HASH_LEN>,
) -> (d: PRF::Domain) where PRF::Domain: Into<FieldArray<HASH_LEN>>
    requires
        is_chain_start::<PRF, HASH_LEN>(key, epoch, index, start),
    ensures
        call_ensures(PRF::get_domain_element, (key, epoch, index), d),
        call_ensures(<PRF::Domain as Into<FieldArray<HASH_LEN>>>::into, (d,), start),
{
    choose|d: PRF::Domain| #[trigger]
        call_ensures(PRF::get_domain_element, (key, epoch, index), d) && call_ensures(
            <PRF::Domain as Into<FieldArray<HASH_LEN>>>::into,
            (d,),
            start,
        )
}

} // verus!
