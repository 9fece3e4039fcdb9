//! Transposition between arrays of field elements and packed field elements.
//!
//! In the horizontal layout every array stands for itself. In the vertical layout element `i` of
//! all arrays is packed together, array `j` in lane `j`, so that one operation on packed elements
//! works on all arrays at once.

use vstd::prelude::*;

use crate::array::FieldArray;
use crate::field::{values, Algebra, F};
use crate::packed::{lane, lane_count, PackedF};

verus! {

/// The vertical layout of `rows`, which are `len` elements long: element `i` of every row, packed.
pub open spec fn transposed(rows: Seq<Seq<nat>>, len: nat) -> Seq<Seq<nat>> {
    Seq::new(len, |i: int| Seq::new(lane_count(), |j: int| rows[j][i]))
}

/// Packs a column of field elements, one per lane.
pub fn pack_column(col: &[F]) -> (r: PackedF)
    requires
        col@.len() == lane_count(),
    ensures
        r@ == values(col@),
{
    let r = PackedF::from_lanes(col);
    assert(r@ =~= values(col@));
    r
}

/// Packs every `step`-th array from `first` on, one per lane.
pub(crate) fn pack_strided<const N: usize>(
    data: &[FieldArray<N>],
    first: usize,
    step: usize,
) -> (r: [PackedF; N])
    requires
        N > 0 ==> first + step * (lane_count() - 1) < data@.len(),
    ensures
        values(r@) == transposed(
            Seq::new(lane_count(), |j: int| data@[first + step * j]@),
            N as nat,
        ),
{
    let width: usize = PackedF::width();
    let mut r: [PackedF; N] = [PackedF::zero(); N];
    let ghost rows = Seq::new(lane_count(), |j: int| data@[first + step * j]@);
    let data_len: usize = data.len();
    let mut i: usize = 0;
    while i < N
        invariant
            i <= N,
            width == lane_count(),
            width > 0,
            data_len == data@.len(),
            N > 0 ==> first + step * (lane_count() - 1) < data_len,
            rows == Seq::new(lane_count(), |j: int| data@[first + step * j]@),
            forall|k: int| 0 <= k < i ==> (#[trigger] r[k])@ == transposed(rows, N as nat)[k],
        decreases N - i,
    {
        let mut col: Vec<F> = Vec::new();
        let mut j: usize = 0;
        while j < width
            invariant
                i < N,
                j <= width,
                width == lane_count(),
                data_len == data@.len(),
                first + step * (lane_count() - 1) < data_len,
                rows == Seq::new(lane_count(), |j: int| data@[first + step * j]@),
                col@.len() == j,
                forall|k: int| 0 <= k < j ==> (#[trigger] col@[k])@ == rows[k][i as int],
            decreases width - j,
        {
            assert(0 <= step * j <= step * (width - 1)) by (nonlinear_arith)
                requires
                    j < width,
            ;
            col.push(data[first + step * j].0[i]);
            j += 1;
        }
        r[i] = pack_column(&col);
        assert(r[i as int]@ =~= transposed(rows, N as nat)[i as int]);
        i += 1;
    }
    assert(values(r@) =~= transposed(rows, N as nat));
    r
}

/// Packs arrays into the vertical layout: result `i` holds element `i` of array `j` in lane `j`.
pub fn pack_array<const N: usize>(data: &[FieldArray<N>]) -> (r: [PackedF; N])
    requires
        N > 0 ==> lane_count() <= data@.len(),
    ensures
        values(r@) == transposed(values(data@), N as nat),
{
    let r = pack_strided(data, 0, 1);
    assert(values(r@) =~~= transposed(values(data@), N as nat));
    r
}

/// Unpacks the vertical layout into arrays: lane `j` goes to array `j` of the output.
///
/// Arrays of the output behind the last lane keep their value.
pub fn unpack_array<const N: usize>(packed_data: &[PackedF; N], output: &mut [FieldArray<N>])
    requires
        N > 0 ==> lane_count() <= old(output)@.len(),
    ensures
        final(output)@.len() == old(output)@.len(),
        forall|j: int|
            0 <= j < final(output)@.len() && j < lane_count() ==> (#[trigger] final(output)@[j])@
                == lane(values(packed_data@), j),
        forall|j: int|
            lane_count() <= j < final(output)@.len() ==> #[trigger] final(output)@[j]
                == old(output)@[j],
{
    let width: usize = PackedF::width();
    let mut j: usize = 0;
    while j < width
        invariant
            j <= width,
            width == lane_count(),
            N > 0 ==> width <= output@.len(),
            output@.len() == old(output)@.len(),
            forall|k: int|
                0 <= k < output@.len() && k < j ==> (#[trigger] output@[k])@ == lane(
                    values(packed_data@),
                    k,
                ),
            forall|k: int| j <= k < output@.len() ==> #[trigger] output@[k] == old(output)@[k],
        decreases width - j,
    {
        let mut i: usize = 0;
        while i < N
            invariant
                i <= N,
                j < width,
                width == lane_count(),
                N > 0 ==> width <= output@.len(),
                output@.len() == old(output)@.len(),
                forall|k: int|
                    0 <= k < output@.len() && k < j ==> (#[trigger] output@[k])@ == lane(
                        values(packed_data@),
                        k,
                    ),
                forall|k: int| j < k < output@.len() ==> #[trigger] output@[k] == old(output)@[k],
                forall|k: int|
                    0 <= k < i ==> (#[trigger] output@[j as int].0[k])@
                        == packed_data[k]@[j as int],
            decreases N - i,
        {
            output[j].0[i] = packed_data[i].extract(j);
            i += 1;
        }
        if j < output.len() {
            assert(output@[j as int]@ =~= lane(values(packed_data@), j as int));
        }
        j += 1;
    }
}

/// Unpacks the vertical layout into new arrays, one per lane.
pub fn unpack_to_array<const N: usize>(packed_data: [PackedF; N]) -> (r: Vec<FieldArray<N>>)
    ensures
        r@.len() == lane_count(),
        forall|j: int|
            0 <= j < lane_count() ==> (#[trigger] r@[j])@ == lane(values(packed_data@), j),
{
    let width: usize = PackedF::width();
    let mut r: Vec<FieldArray<N>> = Vec::new();
    let mut j: usize = 0;
    while j < width
        invariant
            j <= width,
            width == lane_count(),
            r@.len() == j,
        decreases width - j,
    {
        r.push(FieldArray([F::zero(); N]));
        j += 1;
    }
    unpack_array(&packed_data, &mut r);
    r
}

/// Unpacking what was packed gives every array back.
pub proof fn lemma_unpack_undoes_pack(rows: Seq<Seq<nat>>, len: nat, j: int)
    requires
        0 <= j < lane_count(),
        rows[j].len() == len,
    ensures
        lane(transposed(rows, len), j) == rows[j],
{
    assert(lane(transposed(rows, len), j) =~= rows[j]);
}

/// Packing what was unpacked gives every packed element back.
pub proof fn lemma_pack_undoes_unpack(packed: Seq<Seq<nat>>)
    requires
        forall|i: int| 0 <= i < packed.len() ==> (#[trigger] packed[i]).len() == lane_count(),
    ensures
        transposed(Seq::new(lane_count(), |j: int| lane(packed, j)), packed.len()) == packed,
{
    let rows = Seq::new(lane_count(), |j: int| lane(packed, j));
    assert forall|i: int| 0 <= i < packed.len() implies transposed(rows, packed.len())[i]
        == packed[i] by {
        assert(transposed(rows, packed.len())[i] =~= packed[i]);
    }
    assert(transposed(rows, packed.len()) =~= packed);
}

} // verus!
