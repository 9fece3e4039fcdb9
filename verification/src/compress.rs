//! The Poseidon compression function: permute, add the input back, truncate.

use vstd::prelude::*;

use crate::field::{values, Algebra, F};
use crate::packed::{lane, lane_count, PackedF};
use crate::permutation::{lanewise, Permutation};

verus! {

/// `input` followed by as many zeros as it takes to reach the length `len`.
pub open spec fn zero_padded<R: Algebra>(input: Seq<R::V>, len: nat) -> Seq<R::V> {
    Seq::new(len, |i: int| if i < input.len() { input[i] } else { R::zero_value() })
}

/// The first `out_len` sums of a state and its image.
pub open spec fn fed_forward<R: Algebra>(
    state: Seq<R::V>,
    image: Seq<R::V>,
    out_len: nat,
) -> Seq<R::V> {
    Seq::new(out_len, |i: int| R::sum_value(image[i], state[i]))
}

/// What the compression function returns: Truncate(Permute(x) + x), where x is the input padded
/// with zeros to the width of the permutation.
pub open spec fn compressed<R: Algebra, P: Permutation<R, WIDTH>, const WIDTH: usize>(
    perm: P,
    input: Seq<R::V>,
    out_len: nat,
) -> Seq<R::V> {
    let state = zero_padded::<R>(input, WIDTH as nat);
    fed_forward::<R>(state, perm.permuted(state), out_len)
}

/// Copies the input into an array, with zeros behind it.
pub fn pad_input<R: Algebra, const WIDTH: usize>(input: &[R]) -> (r: [R; WIDTH])
    requires
        input@.len() <= WIDTH,
    ensures
        values(r@) == zero_padded::<R>(values(input@), WIDTH as nat),
{
    let mut r: [R; WIDTH] = [R::zero(); WIDTH];
    let mut i: usize = 0;
    while i < input.len()
        invariant
            i <= input@.len() <= WIDTH,
            forall|j: int| 0 <= j < i ==> r[j]@ == input[j]@,
            forall|j: int| i <= j < WIDTH ==> r[j]@ == R::zero_value(),
        decreases input.len() - i,
    {
        r[i] = input[i];
        i += 1;
    }
    assert(values(r@) =~= zero_padded::<R>(values(input@), WIDTH as nat));
    r
}

/// Adds a state to its image and keeps the first `OUT_LEN` sums.
pub fn feed_forward<R: Algebra, const WIDTH: usize, const OUT_LEN: usize>(
    state: &[R; WIDTH],
    image: &[R; WIDTH],
) -> (r: [R; OUT_LEN])
    requires
        OUT_LEN <= WIDTH,
    ensures
        values(r@) == fed_forward::<R>(values(state@), values(image@), OUT_LEN as nat),
{
    let mut r: [R; OUT_LEN] = [R::zero(); OUT_LEN];
    let mut i: usize = 0;
    while i < OUT_LEN
        invariant
            i <= OUT_LEN <= WIDTH,
            forall|j: int| 0 <= j < i ==> r[j]@ == R::sum_value(image[j]@, state[j]@),
        decreases OUT_LEN - i,
    {
        r[i] = image[i].add(state[i]);
        i += 1;
    }
    assert(values(r@) =~= fed_forward::<R>(values(state@), values(image@), OUT_LEN as nat));
    r
}

/// Poseidon compression function: Truncate(Permute(x) + x).
///
/// Works on field elements and on packed ones. The input is padded with zeros to the width of the
/// permutation, so inputs that become equal by zero padding are sent to the same output.
pub fn poseidon_compress<
    R: Algebra,
    P: Permutation<R, WIDTH>,
    const WIDTH: usize,
    const OUT_LEN: usize,
>(perm: &P, input: &[R]) -> (r: [R; OUT_LEN])
    requires
        OUT_LEN <= input@.len() <= WIDTH,
    ensures
        values(r@) == compressed::<R, P, WIDTH>(*perm, values(input@), OUT_LEN as nat),
{
    let state: [R; WIDTH] = pad_input(input);
    let mut image: [R; WIDTH] = state;
    perm.permute_mut(&mut image);
    feed_forward(&state, &image)
}

/// Inputs that are equal up to trailing zeros are compressed to the same output.
pub proof fn lemma_trailing_zeros_do_not_count<
    R: Algebra,
    P: Permutation<R, WIDTH>,
    const WIDTH: usize,
>(perm: P, input: Seq<R::V>, zeros: nat, out_len: nat)
    requires
        input.len() + zeros <= WIDTH,
    ensures
        compressed::<R, P, WIDTH>(
            perm,
            input + Seq::new(zeros, |i: int| R::zero_value()),
            out_len,
        ) == compressed::<R, P, WIDTH>(perm, input, out_len),
{
    let longer = input + Seq::new(zeros, |i: int| R::zero_value());
    assert(zero_padded::<R>(longer, WIDTH as nat) =~= zero_padded::<R>(input, WIDTH as nat));
}

/// Every lane of a packed compression is the compression of that lane.
pub proof fn lemma_compression_is_lanewise<
    P: Permutation<F, WIDTH> + Permutation<PackedF, WIDTH>,
    const WIDTH: usize,
>(perm: P, input: Seq<Seq<nat>>, out_len: nat, l: int)
    requires
        lanewise::<P, WIDTH>(perm),
        out_len <= WIDTH,
        0 <= l < lane_count(),
    ensures
        lane(compressed::<PackedF, P, WIDTH>(perm, input, out_len), l) == compressed::<F, P, WIDTH>(
            perm,
            lane(input, l),
            out_len,
        ),
{
    let packed_state = zero_padded::<PackedF>(input, WIDTH as nat);
    let state = zero_padded::<F>(lane(input, l), WIDTH as nat);
    assert(lane(packed_state, l) =~= state);
    let packed_image = <P as Permutation<PackedF, WIDTH>>::permuted(&perm, packed_state);
    let image = <P as Permutation<F, WIDTH>>::permuted(&perm, state);
    assert(lane(packed_image, l) == image);
    assert forall|i: int| 0 <= i < out_len implies lane(
        compressed::<PackedF, P, WIDTH>(perm, input, out_len),
        l,
    )[i] == compressed::<F, P, WIDTH>(perm, lane(input, l), out_len)[i] by {
        assert(lane(packed_image, l)[i] == packed_image[i][l]);
    }
    assert(lane(compressed::<PackedF, P, WIDTH>(perm, input, out_len), l) =~= compressed::<
        F,
        P,
        WIDTH,
    >(perm, lane(input, l), out_len));
}

} // verus!
