//! The Poseidon sponge and the domain separator that fills its capacity.

use vstd::arithmetic::div_mod::{
    lemma_fundamental_div_mod, lemma_fundamental_div_mod_converse, lemma_mod_bound,
    lemma_mod_self_0, lemma_small_mod,
};
use vstd::prelude::*;

use crate::compress::{
    compressed, lemma_compression_is_lanewise, poseidon_compress, zero_padded,
};
use crate::digits::{
    digit, digits, lemma_digits_determine_value, lemma_weight, lemma_weight_increases, to_digits,
    weight,
};
use crate::field::{values, Algebra, F};
use crate::packed::{lane, lane_count, PackedF};
use crate::permutation::{lanewise, Permutation};

verus! {

/// The number of words that a domain separator is made of.
pub const DOMAIN_PARAMETERS_LENGTH: usize = 4;

/// The number of digits in base p that the domain parameters are written with.
pub const DOMAIN_DIGITS: usize = 24;

/// The length of `len` elements after padding to a multiple of `rate`.
pub open spec fn padded_len(len: nat, rate: nat) -> nat {
    len + ((rate - len % rate) as nat) % rate
}

/// The state with a block added to its first elements.
pub open spec fn absorbed_block<R: Algebra>(state: Seq<R::V>, block: Seq<R::V>) -> Seq<R::V> {
    Seq::new(
        state.len(),
        |i: int| if i < block.len() { R::sum_value(state[i], block[i]) } else { state[i] },
    )
}

/// The state after `count` blocks of `rate` elements of `input` were absorbed, each followed by the
/// permutation.
pub open spec fn absorbed<R: Algebra, P: Permutation<R, WIDTH>, const WIDTH: usize>(
    perm: P,
    state: Seq<R::V>,
    input: Seq<R::V>,
    rate: nat,
    count: nat,
) -> Seq<R::V>
    decreases count,
{
    if count == 0 {
        state
    } else {
        let k = (count - 1) as nat;
        let block = input.subrange((k * rate) as int, (k * rate + rate) as int);
        perm.permuted(
            absorbed_block::<R>(absorbed::<R, P, WIDTH>(perm, state, input, rate, k), block),
        )
    }
}

/// The first `len` elements that the sponge puts out: `rate` elements of the state at a time, with
/// the permutation in between.
pub open spec fn squeezed<R: Algebra, P: Permutation<R, WIDTH>, const WIDTH: usize>(
    perm: P,
    state: Seq<R::V>,
    rate: nat,
    len: nat,
) -> Seq<R::V>
    decreases len,
{
    if len <= rate || rate == 0 {
        state.take(len as int)
    } else {
        state.take(rate as int) + squeezed::<R, P, WIDTH>(
            perm,
            perm.permuted(state),
            rate,
            (len - rate) as nat,
        )
    }
}

/// The state that the sponge starts from: zeros, with the capacity value behind them.
pub open spec fn initial_state<R: Algebra>(capacity: Seq<R::V>, width: nat) -> Seq<R::V> {
    Seq::new((width - capacity.len()) as nat, |i: int| R::zero_value()) + capacity
}

/// What the sponge returns.
pub open spec fn sponge<R: Algebra, P: Permutation<R, WIDTH>, const WIDTH: usize>(
    perm: P,
    capacity: Seq<R::V>,
    input: Seq<R::V>,
    out_len: nat,
) -> Seq<R::V> {
    let rate = (WIDTH - capacity.len()) as nat;
    let blocks = padded_len(input.len(), rate);
    let state = absorbed::<R, P, WIDTH>(
        perm,
        initial_state::<R>(capacity, WIDTH as nat),
        zero_padded::<R>(input, blocks),
        rate,
        blocks / rate,
    );
    squeezed::<R, P, WIDTH>(perm, state, rate, out_len)
}

/// The words of a domain separator read as one number in base 2^32, most significant word first.
pub open spec fn domain_number(params: Seq<u32>) -> nat {
    (((params[0] * 0x1_0000_0000 + params[1]) * 0x1_0000_0000 + params[2]) * 0x1_0000_0000
        + params[3]) as nat
}

/// The input that stands for the domain parameters: their number in base p.
pub open spec fn domain_input<R: Algebra>(params: Seq<u32>) -> Seq<R::V> {
    Seq::new(
        DOMAIN_DIGITS as nat,
        |i: int| R::constant_value(digit(domain_number(params), i as nat)),
    )
}

/// The capacity value of the domain parameters: the compression of their digits in base p.
pub open spec fn domain_separator<R: Algebra, P: Permutation<R, WIDTH>, const WIDTH: usize>(
    perm: P,
    params: Seq<u32>,
    out_len: nat,
) -> Seq<R::V> {
    compressed::<R, P, WIDTH>(perm, domain_input::<R>(params), out_len)
}

/// Appends a word to a number in base 2^32.
fn push_word(acc: u128, word: u32) -> (r: u128)
    requires
        acc < 0x1_0000_0000_0000_0000_0000_0000u128,
    ensures
        r == acc * 0x1_0000_0000 + word,
{
    assert((acc << 32u32) | (word as u128) == acc * 0x1_0000_0000u128 + (word as u128))
        by (bit_vector)
        requires
            acc < 0x1_0000_0000_0000_0000_0000_0000u128,
    ;
    (acc << 32u32) | (word as u128)
}

/// Computes a domain separator by compressing the digits in base p of four words.
pub fn poseidon_safe_domain_separator<
    R: Algebra,
    P: Permutation<R, WIDTH>,
    const WIDTH: usize,
    const OUT_LEN: usize,
>(perm: &P, params: &[u32; DOMAIN_PARAMETERS_LENGTH]) -> (r: [R; OUT_LEN])
    requires
        OUT_LEN <= DOMAIN_DIGITS <= WIDTH,
    ensures
        values(r@) == domain_separator::<R, P, WIDTH>(*perm, params@, OUT_LEN as nat),
{
    let mut acc: u128 = 0;
    let mut i: usize = 0;
    while i < DOMAIN_PARAMETERS_LENGTH
        invariant
            i <= DOMAIN_PARAMETERS_LENGTH,
            i == 0 ==> acc == 0,
            i == 1 ==> acc == params[0],
            i == 2 ==> acc == params[0] * 0x1_0000_0000 + params[1],
            i == 3 ==> acc == (params[0] * 0x1_0000_0000 + params[1]) * 0x1_0000_0000 + params[2],
            i == 4 ==> acc == domain_number(params@),
        decreases DOMAIN_PARAMETERS_LENGTH - i,
    {
        acc = push_word(acc, params[i]);
        i += 1;
    }
    let input: [R; DOMAIN_DIGITS] = to_digits(acc);
    assert(values(input@) =~= domain_input::<R>(params@));
    poseidon_compress::<R, P, WIDTH, OUT_LEN>(perm, &input)
}

/// Padding fills the last block and adds less than a block.
pub proof fn lemma_padding_fills_blocks(len: nat, rate: nat)
    requires
        rate > 0,
    ensures
        len <= padded_len(len, rate) < len + rate,
        padded_len(len, rate) % rate == 0,
        padded_len(len, rate) == (padded_len(len, rate) / rate) * rate,
{
    let rest = len % rate;
    lemma_fundamental_div_mod(len as int, rate as int);
    lemma_mod_bound(len as int, rate as int);
    let q = (len / rate) as int;
    if rest == 0 {
        assert(padded_len(len, rate) == len) by {
            lemma_mod_self_0(rate as int);
        }
        assert(rate * q == q * rate) by (nonlinear_arith);
        lemma_fundamental_div_mod_converse(len as int, rate as int, q, 0);
    } else {
        lemma_small_mod((rate - rest) as nat, rate);
        assert(padded_len(len, rate) == rate * (q + 1)) by (nonlinear_arith)
            requires
                len == rate * q + rest,
                padded_len(len, rate) == len + (rate - rest),
        ;
        assert(rate * (q + 1) == (q + 1) * rate) by (nonlinear_arith);
        lemma_fundamental_div_mod_converse(
            padded_len(len, rate) as int,
            rate as int,
            q + 1,
            0,
        );
    }
}

/// Absorbs a padded input into the state of the sponge, block by block.
fn absorb<R: Algebra, P: Permutation<R, WIDTH>, const WIDTH: usize>(
    perm: &P,
    state: &mut [R; WIDTH],
    input: &[R],
    rate: usize,
)
    requires
        0 < rate <= WIDTH,
    ensures
        values(final(state)@) == absorbed::<R, P, WIDTH>(
            *perm,
            values(old(state)@),
            values(input@),
            rate as nat,
            input@.len() / rate as nat,
        ),
{
    let input_len: usize = input.len();
    let count: usize = input_len / rate;
    let mut k: usize = 0;
    let mut start: usize = 0;
    while k < count
        invariant
            0 < rate <= WIDTH,
            input_len == input@.len(),
            k <= count,
            count as nat == input@.len() / rate as nat,
            start == k * rate,
            values(state@) == absorbed::<R, P, WIDTH>(
                *perm,
                values(old(state)@),
                values(input@),
                rate as nat,
                k as nat,
            ),
        decreases count - k,
    {
        assert(start + rate <= input@.len()) by (nonlinear_arith)
            requires
                k < count,
                start == k * rate,
                rate > 0,
                count as nat == input@.len() / rate as nat,
        ;
        assert((k + 1) * rate == k * rate + rate) by (nonlinear_arith);
        let ghost before = values(state@);
        let ghost block = values(input@).subrange(start as int, start + rate);
        let mut i: usize = 0;
        while i < rate
            invariant
                i <= rate <= WIDTH,
                input_len == input@.len(),
                start + rate <= input_len,
                before.len() == WIDTH,
                block == values(input@).subrange(start as int, start + rate),
                forall|j: int|
                    0 <= j < i ==> (#[trigger] state[j])@ == R::sum_value(before[j], block[j]),
                forall|j: int| i <= j < WIDTH ==> (#[trigger] state[j])@ == before[j],
            decreases rate - i,
        {
            assert(block[i as int] == input[start + i]@);
            state[i] = state[i].add(input[start + i]);
            i += 1;
        }
        assert(values(state@) =~= absorbed_block::<R>(before, block));
        perm.permute_mut(state);
        k += 1;
        start += rate;
    }
}

/// Reads `OUT_LEN` elements out of the sponge.
fn squeeze<R: Algebra, P: Permutation<R, WIDTH>, const WIDTH: usize, const OUT_LEN: usize>(
    perm: &P,
    state: &mut [R; WIDTH],
    rate: usize,
) -> (r: [R; OUT_LEN])
    requires
        0 < rate <= WIDTH,
    ensures
        values(r@) == squeezed::<R, P, WIDTH>(
            *perm,
            values(old(state)@),
            rate as nat,
            OUT_LEN as nat,
        ),
{
    let ghost target = squeezed::<R, P, WIDTH>(
        *perm,
        values(state@),
        rate as nat,
        OUT_LEN as nat,
    );
    let mut out: Vec<R> = Vec::new();
    assert(values(out@) + target =~= target);
    assert(OUT_LEN == 0 ==> target =~= values(out@).take(0));
    while out.len() < OUT_LEN
        invariant
            0 < rate <= WIDTH,
            out@.len() < OUT_LEN ==> target == values(out@) + squeezed::<R, P, WIDTH>(
                *perm,
                values(state@),
                rate as nat,
                (OUT_LEN - out@.len()) as nat,
            ),
            out@.len() >= OUT_LEN ==> target == values(out@).take(OUT_LEN as int),
        decreases
            (if out@.len() < OUT_LEN {
                OUT_LEN - out@.len()
            } else {
                0
            }),
    {
        let ghost before = values(out@);
        let ghost current = values(state@);
        let mut i: usize = 0;
        while i < rate
            invariant
                i <= rate <= WIDTH,
                current == values(state@),
                out@.len() == before.len() + i,
                forall|j: int| 0 <= j < before.len() ==> (#[trigger] out@[j])@ == before[j],
                forall|j: int|
                    before.len() <= j < out@.len() ==> (#[trigger] out@[j])@ == current[j
                        - before.len()],
            decreases rate - i,
        {
            out.push(state[i]);
            i += 1;
        }
        assert(values(out@) =~= before + current.take(rate as int));
        perm.permute_mut(state);
        proof {
            let left = (OUT_LEN - before.len()) as nat;
            if left <= rate {
                assert(target =~= values(out@).take(OUT_LEN as int));
            } else {
                assert(target =~= values(out@) + squeezed::<R, P, WIDTH>(
                    *perm,
                    values(state@),
                    rate as nat,
                    (OUT_LEN - out@.len()) as nat,
                ));
            }
        }
    }
    let mut r: [R; OUT_LEN] = [R::zero(); OUT_LEN];
    let mut i: usize = 0;
    while i < OUT_LEN
        invariant
            i <= OUT_LEN <= out@.len(),
            forall|j: int| 0 <= j < i ==> (#[trigger] r[j])@ == out@[j]@,
        decreases OUT_LEN - i,
    {
        r[i] = out[i];
        i += 1;
    }
    assert(values(r@) =~= target);
    r
}

/// Poseidon sponge hash function.
///
/// Absorbs an input of any length, padded with zeros to full blocks, and reads `OUT_LEN` elements.
/// The capacity part of the state starts from `capacity_value`, which separates domains.
pub fn poseidon_sponge<
    R: Algebra,
    P: Permutation<R, WIDTH>,
    const WIDTH: usize,
    const OUT_LEN: usize,
>(perm: &P, capacity_value: &[R], input: &[R]) -> (r: [R; OUT_LEN])
    requires
        capacity_value@.len() < WIDTH,
        input@.len() + WIDTH <= usize::MAX,
    ensures
        values(r@) == sponge::<R, P, WIDTH>(
            *perm,
            values(capacity_value@),
            values(input@),
            OUT_LEN as nat,
        ),
{
    let rate: usize = WIDTH - capacity_value.len();
    let extra: usize = (rate - (input.len() % rate)) % rate;
    let ghost blocks = padded_len(input@.len(), rate as nat);
    proof {
        lemma_padding_fills_blocks(input@.len(), rate as nat);
    }
    let mut padded: Vec<R> = Vec::new();
    let mut i: usize = 0;
    while i < input.len() + extra
        invariant
            input@.len() + extra <= usize::MAX,
            i <= input@.len() + extra,
            padded@.len() == i,
            forall|j: int|
                0 <= j < i ==> (#[trigger] padded@[j])@ == (if j < input@.len() {
                    input@[j]@
                } else {
                    R::zero_value()
                }),
        decreases input@.len() + extra - i,
    {
        if i < input.len() {
            padded.push(input[i]);
        } else {
            padded.push(R::zero());
        }
        i += 1;
    }
    assert(values(padded@) =~= zero_padded::<R>(values(input@), blocks));
    let mut state: [R; WIDTH] = [R::zero(); WIDTH];
    let mut k: usize = 0;
    while k < capacity_value.len()
        invariant
            k <= capacity_value@.len(),
            rate + capacity_value@.len() == WIDTH,
            forall|j: int|
                rate <= j < rate + k ==> (#[trigger] state[j])@ == capacity_value@[j - rate]@,
            forall|j: int|
                0 <= j < WIDTH && !(rate <= j < rate + k) ==> (#[trigger] state[j])@
                    == R::zero_value(),
        decreases capacity_value@.len() - k,
    {
        state[rate + k] = capacity_value[k];
        k += 1;
    }
    assert(values(state@) =~= initial_state::<R>(values(capacity_value@), WIDTH as nat));
    absorb(perm, &mut state, &padded, rate);
    squeeze(perm, &mut state, rate)
}

/// Different domain parameters have different digits, so the separator is computed from different
/// inputs.
pub proof fn lemma_domain_input_is_injective(a: Seq<u32>, b: Seq<u32>)
    requires
        a.len() == DOMAIN_PARAMETERS_LENGTH,
        b.len() == DOMAIN_PARAMETERS_LENGTH,
        domain_input::<F>(a) == domain_input::<F>(b),
    ensures
        a == b,
{
    let x = domain_number(a);
    let y = domain_number(b);
    let n = DOMAIN_DIGITS as nat;
    assert forall|i: int| 0 <= i < n implies digits(x, n)[i] == digits(y, n)[i] by {
        assert(domain_input::<F>(a)[i] == digit(x, i as nat));
        assert(domain_input::<F>(b)[i] == digit(y, i as nat));
    }
    assert(digits(x, n) =~= digits(y, n));
    assert(weight(5) > 0x1_0000_0000_0000_0000_0000_0000_0000_0000) by {
        lemma_weight(0);
        lemma_weight(1);
        lemma_weight(2);
        lemma_weight(3);
        lemma_weight(4);
    }
    lemma_weight_increases(5, n);
    lemma_digits_determine_value(x, y, n);
    assert(a =~= b);
}

/// Inputs that are equal up to zeros in the last block leave the sponge with the same output, given
/// the same capacity value.
pub proof fn lemma_sponge_ignores_zeros_in_last_block<
    R: Algebra,
    P: Permutation<R, WIDTH>,
    const WIDTH: usize,
>(perm: P, capacity: Seq<R::V>, input: Seq<R::V>, zeros: nat, out_len: nat)
    requires
        capacity.len() < WIDTH,
        input.len() + zeros <= padded_len(input.len(), (WIDTH - capacity.len()) as nat),
    ensures
        sponge::<R, P, WIDTH>(
            perm,
            capacity,
            input + Seq::new(zeros, |i: int| R::zero_value()),
            out_len,
        ) == sponge::<R, P, WIDTH>(perm, capacity, input, out_len),
{
    let rate = (WIDTH - capacity.len()) as nat;
    let longer = input + Seq::new(zeros, |i: int| R::zero_value());
    let short = padded_len(input.len(), rate);
    let long = padded_len(longer.len(), rate);
    lemma_padding_fills_blocks(input.len(), rate);
    lemma_padding_fills_blocks(longer.len(), rate);
    let p = (short / rate) as int;
    let q = (long / rate) as int;
    assert(p == q) by (nonlinear_arith)
        requires
            rate > 0,
            p * rate == short,
            q * rate == long,
            short < long + rate,
            long < short + rate,
    ;
    assert(zero_padded::<R>(longer, long) =~= zero_padded::<R>(input, short));
}

/// A shorter output of the sponge is the beginning of a longer one.
pub proof fn lemma_squeezed_prefix<R: Algebra, P: Permutation<R, WIDTH>, const WIDTH: usize>(
    perm: P,
    capacity: Seq<R::V>,
    input: Seq<R::V>,
    short: nat,
    long: nat,
)
    requires
        capacity.len() < WIDTH,
        forall|s: Seq<R::V>|
            s.len() == WIDTH ==> (#[trigger] perm.permuted(s)).len() == WIDTH,
        short <= long,
    ensures
        sponge::<R, P, WIDTH>(perm, capacity, input, short) == sponge::<R, P, WIDTH>(
            perm,
            capacity,
            input,
            long,
        ).take(short as int),
{
    let rate = (WIDTH - capacity.len()) as nat;
    let blocks = padded_len(input.len(), rate);
    let start = initial_state::<R>(capacity, WIDTH as nat);
    let padded = zero_padded::<R>(input, blocks);
    lemma_absorbed_len::<R, P, WIDTH>(perm, start, padded, rate, blocks / rate);
    lemma_squeezed_prefix_from::<R, P, WIDTH>(
        perm,
        absorbed::<R, P, WIDTH>(perm, start, padded, rate, blocks / rate),
        rate,
        short,
        long,
    );
}

proof fn lemma_absorbed_len<R: Algebra, P: Permutation<R, WIDTH>, const WIDTH: usize>(
    perm: P,
    state: Seq<R::V>,
    input: Seq<R::V>,
    rate: nat,
    count: nat,
)
    requires
        state.len() == WIDTH,
        forall|s: Seq<R::V>|
            s.len() == WIDTH ==> (#[trigger] perm.permuted(s)).len() == WIDTH,
    ensures
        absorbed::<R, P, WIDTH>(perm, state, input, rate, count).len() == WIDTH,
    decreases count,
{
    if count > 0 {
        lemma_absorbed_len::<R, P, WIDTH>(perm, state, input, rate, (count - 1) as nat);
    }
}

proof fn lemma_squeezed_prefix_from<R: Algebra, P: Permutation<R, WIDTH>, const WIDTH: usize>(
    perm: P,
    state: Seq<R::V>,
    rate: nat,
    short: nat,
    long: nat,
)
    requires
        state.len() == WIDTH,
        0 < rate <= WIDTH,
        forall|s: Seq<R::V>|
            s.len() == WIDTH ==> (#[trigger] perm.permuted(s)).len() == WIDTH,
        short <= long,
    ensures
        squeezed::<R, P, WIDTH>(perm, state, rate, long).len() == long,
        squeezed::<R, P, WIDTH>(perm, state, rate, short) == squeezed::<R, P, WIDTH>(
            perm,
            state,
            rate,
            long,
        ).take(short as int),
    decreases long,
{
    if long > rate {
        let next = perm.permuted(state);
        let rest = (long - rate) as nat;
        if short > rate {
            lemma_squeezed_prefix_from::<R, P, WIDTH>(
                perm,
                next,
                rate,
                (short - rate) as nat,
                rest,
            );
        } else {
            lemma_squeezed_prefix_from::<R, P, WIDTH>(perm, next, rate, rest, rest);
        }
    }
    assert(squeezed::<R, P, WIDTH>(perm, state, rate, short) =~= squeezed::<R, P, WIDTH>(
        perm,
        state,
        rate,
        long,
    ).take(short as int));
}

proof fn lemma_absorbing_is_lanewise<
    P: Permutation<F, WIDTH> + Permutation<PackedF, WIDTH>,
    const WIDTH: usize,
>(perm: P, state: Seq<Seq<nat>>, input: Seq<Seq<nat>>, rate: nat, count: nat, l: int)
    requires
        lanewise::<P, WIDTH>(perm),
        0 <= l < lane_count(),
        state.len() == WIDTH,
        count * rate <= input.len(),
    ensures
        absorbed::<PackedF, P, WIDTH>(perm, state, input, rate, count).len() == WIDTH,
        lane(absorbed::<PackedF, P, WIDTH>(perm, state, input, rate, count), l) == absorbed::<
            F,
            P,
            WIDTH,
        >(perm, lane(state, l), lane(input, l), rate, count),
    decreases count,
{
    if count > 0 {
        let k = (count - 1) as nat;
        assert(count * rate == k * rate + rate) by (nonlinear_arith)
            requires
                count == k + 1,
        ;
        assert(0 <= k * rate) by (nonlinear_arith);
        lemma_absorbing_is_lanewise::<P, WIDTH>(perm, state, input, rate, k, l);
        let packed_before = absorbed::<PackedF, P, WIDTH>(perm, state, input, rate, k);
        let before = absorbed::<F, P, WIDTH>(perm, lane(state, l), lane(input, l), rate, k);
        let packed_block = input.subrange((k * rate) as int, (k * rate + rate) as int);
        let block = lane(input, l).subrange((k * rate) as int, (k * rate + rate) as int);
        assert(lane(packed_block, l) =~= block);
        let packed_mixed = absorbed_block::<PackedF>(packed_before, packed_block);
        let mixed = absorbed_block::<F>(before, block);
        assert forall|i: int| 0 <= i < WIDTH implies #[trigger] packed_mixed[i][l] == mixed[i] by {
            assert(before[i] == packed_before[i][l]);
            if i < block.len() {
                assert(block[i] == packed_block[i][l]);
            }
        }
        assert(lane(packed_mixed, l) =~= mixed);
        assert(lane(<P as Permutation<PackedF, WIDTH>>::permuted(&perm, packed_mixed), l)
            == <P as Permutation<F, WIDTH>>::permuted(&perm, mixed));
    }
}

proof fn lemma_squeezing_is_lanewise<
    P: Permutation<F, WIDTH> + Permutation<PackedF, WIDTH>,
    const WIDTH: usize,
>(perm: P, state: Seq<Seq<nat>>, rate: nat, len: nat, l: int)
    requires
        lanewise::<P, WIDTH>(perm),
        0 <= l < lane_count(),
        state.len() == WIDTH,
        0 < rate <= WIDTH,
    ensures
        lane(squeezed::<PackedF, P, WIDTH>(perm, state, rate, len), l) == squeezed::<F, P, WIDTH>(
            perm,
            lane(state, l),
            rate,
            len,
        ),
    decreases len,
{
    let packed_out = squeezed::<PackedF, P, WIDTH>(perm, state, rate, len);
    let out = squeezed::<F, P, WIDTH>(perm, lane(state, l), rate, len);
    if len > rate {
        let packed_next = <P as Permutation<PackedF, WIDTH>>::permuted(&perm, state);
        let rest = (len - rate) as nat;
        assert(lane(packed_next, l) == <P as Permutation<F, WIDTH>>::permuted(
            &perm,
            lane(state, l),
        ));
        lemma_squeezing_is_lanewise::<P, WIDTH>(perm, packed_next, rate, rest, l);
        let packed_rest = squeezed::<PackedF, P, WIDTH>(perm, packed_next, rate, rest);
        assert(packed_out == state.take(rate as int) + packed_rest);
        assert(lane(packed_out, l) =~= lane(state.take(rate as int), l) + lane(packed_rest, l));
        assert(lane(state.take(rate as int), l) =~= lane(state, l).take(rate as int));
        assert(out == lane(state, l).take(rate as int) + lane(packed_rest, l));
    } else {
        assert(lane(packed_out, l) =~= out);
    }
}

/// Every lane of a packed sponge is the sponge of that lane.
pub proof fn lemma_sponge_is_lanewise<
    P: Permutation<F, WIDTH> + Permutation<PackedF, WIDTH>,
    const WIDTH: usize,
>(perm: P, capacity: Seq<Seq<nat>>, input: Seq<Seq<nat>>, out_len: nat, l: int)
    requires
        lanewise::<P, WIDTH>(perm),
        capacity.len() < WIDTH,
        0 <= l < lane_count(),
    ensures
        lane(sponge::<PackedF, P, WIDTH>(perm, capacity, input, out_len), l) == sponge::<
            F,
            P,
            WIDTH,
        >(perm, lane(capacity, l), lane(input, l), out_len),
{
    let rate = (WIDTH - capacity.len()) as nat;
    let blocks = padded_len(input.len(), rate);
    let packed_start = initial_state::<PackedF>(capacity, WIDTH as nat);
    let packed_input = zero_padded::<PackedF>(input, blocks);
    lemma_padding_fills_blocks(input.len(), rate);
    assert(lane(packed_start, l) =~= initial_state::<F>(lane(capacity, l), WIDTH as nat));
    assert(lane(packed_input, l) =~= zero_padded::<F>(lane(input, l), blocks));
    lemma_absorbing_is_lanewise::<P, WIDTH>(
        perm,
        packed_start,
        packed_input,
        rate,
        blocks / rate,
        l,
    );
    lemma_squeezing_is_lanewise::<P, WIDTH>(
        perm,
        absorbed::<PackedF, P, WIDTH>(perm, packed_start, packed_input, rate, blocks / rate),
        rate,
        out_len,
        l,
    );
}

/// Every lane of a packed domain separator is the domain separator.
pub proof fn lemma_domain_separator_is_lanewise<
    P: Permutation<F, WIDTH> + Permutation<PackedF, WIDTH>,
    const WIDTH: usize,
>(perm: P, params: Seq<u32>, out_len: nat, l: int)
    requires
        lanewise::<P, WIDTH>(perm),
        out_len <= WIDTH,
        0 <= l < lane_count(),
    ensures
        lane(domain_separator::<PackedF, P, WIDTH>(perm, params, out_len), l)
            == domain_separator::<F, P, WIDTH>(perm, params, out_len),
{
    lemma_compression_is_lanewise::<P, WIDTH>(perm, domain_input::<PackedF>(params), out_len, l);
    assert(lane(domain_input::<PackedF>(params), l) =~= domain_input::<F>(params));
}

} // verus!
