//! Random hash values and public parameters.

use p3_field::PrimeField32;
use p3_koala_bear::KoalaBear;
use rand::Rng;
use vstd::prelude::*;

use crate::array::FieldArray;
use crate::field::{order, Algebra, F, ORDER};
use crate::tweak_hash::PoseidonTweakHash;

verus! {

/// The random number generator that `rand` keeps for every thread.
#[verifier::external_type_specification]
#[verifier::external_body]
pub struct ExThreadRng(rand::rngs::ThreadRng);

/// Draws the canonical representatives of `N` field elements.
///
/// Calls `rand::Rng::random` for an array of `p3_koala_bear::KoalaBear`. The array is drawn
/// uniformly, so nothing is claimed of what it holds but that every entry represents an element.
/// The call panics if the generator is due to be reseeded and the operating system fails to do it.
#[verifier::external_body]
fn draw_canonical<const N: usize>(rng: &mut rand::rngs::ThreadRng) -> (r: [u32; N])
    ensures
        forall|i: int| 0 <= i < N ==> #[trigger] r@[i] < ORDER,
{
    let drawn: [KoalaBear; N] = rng.random();
    drawn.map(|x| x.as_canonical_u32())
}

/// `r` holds the representatives that one draw of `N` elements from `rng` can hand out.
pub closed spec fn is_drawn<const N: usize>(rng: &mut rand::rngs::ThreadRng, r: Seq<nat>) -> bool {
    exists|d: [u32; N]|
        {
            &&& #[trigger] call_ensures(draw_canonical::<N>, (rng,), d)
            &&& r == Seq::new(N as nat, |i: int| d@[i] as nat)
        }
}

/// What was drawn stands in the result as it was handed out, in its order.
proof fn lemma_drawn_in_order<const N: usize>(
    rng: &mut rand::rngs::ThreadRng,
    d: [u32; N],
    r: Seq<nat>,
)
    requires
        call_ensures(draw_canonical::<N>, (rng,), d),
        r.len() == N,
        forall|i: int| 0 <= i < N ==> #[trigger] r[i] == d@[i],
    ensures
        is_drawn::<N>(rng, r),
{
    assert(r =~= Seq::new(N as nat, |i: int| d@[i] as nat));
}

/// Behind every drawn result stands a draw that handed it out, element by element.
proof fn lemma_result_was_drawn<const N: usize>(
    rng: &mut rand::rngs::ThreadRng,
    r: Seq<nat>,
) -> (d: [u32; N])
    requires
        is_drawn::<N>(rng, r),
    ensures
        call_ensures(draw_canonical::<N>, (rng,), d),
        r.len() == N,
        forall|i: int| 0 <= i < N ==> #[trigger] r[i] == d@[i],
{
    choose|d: [u32; N]|
        {
            &&& #[trigger] call_ensures(draw_canonical::<N>, (rng,), d)
            &&& r == Seq::new(N as nat, |i: int| d@[i] as nat)
        }
}

/// The array of the elements that canonical representatives stand for.
pub fn elements_from_canonical<const N: usize>(drawn: &[u32; N]) -> (r: FieldArray<N>)
    requires
        forall|i: int| 0 <= i < N ==> #[trigger] drawn@[i] < ORDER,
    ensures
        r@ == Seq::new(N as nat, |i: int| drawn@[i] as nat),
{
    let mut elements: [F; N] = [F::zero(); N];
    let mut i: usize = 0;
    while i < N
        invariant
            i <= N,
            forall|k: int| 0 <= k < N ==> #[trigger] drawn@[k] < ORDER,
            forall|k: int| 0 <= k < i ==> (#[trigger] elements[k])@ == drawn@[k],
        decreases N - i,
    {
        elements[i] = F::from_canonical(drawn[i]);
        i += 1;
    }
    let r = FieldArray(elements);
    assert(r@ =~= Seq::new(N as nat, |i: int| drawn@[i] as nat));
    r
}

impl<
    const PARAMETER_LEN: usize,
    const HASH_LEN: usize,
    const TWEAK_LEN: usize,
    const CAPACITY: usize,
    const NUM_CHUNKS: usize,
> PoseidonTweakHash<PARAMETER_LEN, HASH_LEN, TWEAK_LEN, CAPACITY, NUM_CHUNKS> {
    /// Draws a public parameter: the elements are those that the generator hands out, in order.
    /// Which ones come is a matter of chance. The generator is left where this one draw leaves it.
    ///
    /// From time to time the generator reseeds itself from the operating system. If that fails, the
    /// draw panics; no argument decides when.
    pub fn rand_parameter(rng: &mut rand::rngs::ThreadRng) -> (r: FieldArray<PARAMETER_LEN>)
        ensures
            r@.len() == PARAMETER_LEN,
            forall|i: int| 0 <= i < PARAMETER_LEN ==> #[trigger] r@[i] < order(),
            exists|g: &mut rand::rngs::ThreadRng|
                *g == *old(rng) && *final(g) == *final(rng) && #[trigger] is_drawn::<PARAMETER_LEN>(
                    g,
                    r@,
                ),
    {
        let drawn: [u32; PARAMETER_LEN] = draw_canonical::<PARAMETER_LEN>(rng);
        let r = elements_from_canonical(&drawn);
        assert(forall|g: &mut rand::rngs::ThreadRng| #[trigger]
            call_ensures(draw_canonical::<PARAMETER_LEN>, (g,), drawn) ==> is_drawn::<
                PARAMETER_LEN,
            >(g, r@));
        r
    }

    /// Draws a hash value: the elements are those that the generator hands out, in order. Which
    /// ones come is a matter of chance. The generator is left where this one draw leaves it.
    ///
    /// From time to time the generator reseeds itself from the operating system. If that fails, the
    /// draw panics; no argument decides when.
    pub fn rand_domain(rng: &mut rand::rngs::ThreadRng) -> (r: FieldArray<HASH_LEN>)
        ensures
            r@.len() == HASH_LEN,
            forall|i: int| 0 <= i < HASH_LEN ==> #[trigger] r@[i] < order(),
            exists|g: &mut rand::rngs::ThreadRng|
                *g == *old(rng) && *final(g) == *final(rng) && #[trigger] is_drawn::<HASH_LEN>(
                    g,
                    r@,
                ),
    {
        let drawn: [u32; HASH_LEN] = draw_canonical::<HASH_LEN>(rng);
        let r = elements_from_canonical(&drawn);
        assert(forall|g: &mut rand::rngs::ThreadRng| #[trigger]
            call_ensures(draw_canonical::<HASH_LEN>, (g,), drawn) ==> is_drawn::<HASH_LEN>(
                g,
                r@,
            ));
        r
    }
}

} // verus!
