//! Work that is handed out to threads.

use rayon::prelude::{IntoParallelIterator, ParallelIterator};
use vstd::arithmetic::div_mod::{
    lemma_div_pos_is_pos, lemma_fundamental_div_mod, lemma_fundamental_div_mod_converse,
    lemma_mod_bound,
};
use vstd::prelude::*;

verus! {

/// Calls `f` on every index below `count`, on as many threads as there are, and collects the
/// results in the order of the indices.
///
/// Calls `map` and `collect` of the parallel iterator of `rayon` over the range: `map` calls the
/// function once for every index, and `collect` keeps the order of the range.
#[verifier::external_body]
pub(crate) fn par_map<T: Send, G: Fn(usize) -> T + Sync + Send>(count: usize, f: G) -> (r: Vec<T>)
    requires
        forall|i: usize| i < count ==> #[trigger] call_requires(f, (i,)),
    ensures
        r@.len() == count,
        forall|i: int| 0 <= i < count ==> call_ensures(f, (i as usize,), #[trigger] r@[i]),
{
    (0..count).into_par_iter().map(f).collect()
}

/// The batch of `width` items that item `i` is in.
#[verifier::opaque]
pub(crate) open spec fn batch_of(i: int, width: int) -> int {
    i / width
}

/// The place of item `i` in its batch of `width` items.
#[verifier::opaque]
pub(crate) open spec fn place_of(i: int, width: int) -> int {
    i % width
}

/// An item is found by its batch and its place in it.
pub(crate) proof fn lemma_batch_and_place(i: int, width: int)
    requires
        0 <= i,
        0 < width,
    ensures
        0 <= batch_of(i, width),
        0 <= place_of(i, width) < width,
        i == batch_of(i, width) * width + place_of(i, width),
{
    reveal(batch_of);
    reveal(place_of);
    lemma_fundamental_div_mod(i, width);
    lemma_mod_bound(i, width);
    lemma_div_pos_is_pos(i, width);
    assert(width * (i / width) == (i / width) * width) by (nonlinear_arith);
}

/// Batch and place are determined by the item.
proof fn lemma_batch_and_place_unique(b: int, l: int, width: int)
    requires
        0 <= b,
        0 <= l < width,
    ensures
        batch_of(b * width + l, width) == b,
        place_of(b * width + l, width) == l,
{
    reveal(batch_of);
    reveal(place_of);
    lemma_fundamental_div_mod_converse(b * width + l, width, b, l);
}

/// Puts batches of `width` items one behind the other.
pub(crate) fn concat_batches<T: Copy>(batches: &[Vec<T>], width: usize) -> (r: Vec<T>)
    requires
        width > 0,
        forall|b: int| 0 <= b < batches@.len() ==> (#[trigger] batches@[b])@.len() == width,
    ensures
        r@.len() == batches@.len() * width,
        forall|i: int|
            0 <= i < r@.len() ==> #[trigger] batch_of(i, width as int) < batches@.len(),
        forall|i: int|
            0 <= i < r@.len() ==> #[trigger] r@[i]
                == batches@[batch_of(i, width as int)]@[place_of(i, width as int)],
{
    let mut r: Vec<T> = Vec::new();
    let mut b: usize = 0;
    while b < batches.len()
        invariant
            width > 0,
            b <= batches@.len(),
            forall|b: int| 0 <= b < batches@.len() ==> (#[trigger] batches@[b])@.len() == width,
            r@.len() == b * width,
            forall|i: int|
                0 <= i < r@.len() ==> #[trigger] batch_of(i, width as int) < b,
            forall|i: int|
                0 <= i < r@.len() ==> #[trigger] r@[i]
                    == batches@[batch_of(i, width as int)]@[place_of(i, width as int)],
        decreases batches@.len() - b,
    {
        let ghost done = r@;
        assert((b + 1) * width == b * width + width) by (nonlinear_arith);
        let batch = &batches[b];
        let mut l: usize = 0;
        while l < width
            invariant
                l <= width,
                batch@.len() == width,
                r@.len() == done.len() + l,
                forall|i: int| 0 <= i < done.len() ==> #[trigger] r@[i] == done[i],
                forall|i: int|
                    done.len() <= i < r@.len() ==> #[trigger] r@[i] == batch@[i - done.len()],
            decreases width - l,
        {
            r.push(batch[l]);
            l += 1;
        }
        assert forall|i: int| 0 <= i < r@.len() implies #[trigger] batch_of(i, width as int) < b
            + 1 by {
            if i >= done.len() {
                lemma_batch_and_place_unique(b as int, i - done.len(), width as int);
            }
        }
        assert forall|i: int| 0 <= i < r@.len() implies #[trigger] r@[i] == batches@[batch_of(
            i,
            width as int,
        )]@[place_of(i, width as int)] by {
            if i >= done.len() {
                lemma_batch_and_place_unique(b as int, i - done.len(), width as int);
            }
        }
        b += 1;
    }
    r
}

} // verus!
