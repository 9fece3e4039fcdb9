//! The Poseidon2 permutations of widths 16 and 24, on field elements and on packed ones.

use p3_field::PrimeField32;
use p3_koala_bear::{
    default_koalabear_poseidon2_16, default_koalabear_poseidon2_24, KoalaBear,
};
use p3_symmetric::Permutation as P3Permutation;
use vstd::prelude::*;

use crate::field::{values, Algebra, F};
use crate::packed::{lane, lane_count, PackedF};

verus! {

/// A permutation of arrays of `WIDTH` elements.
pub trait Permutation<R: Algebra, const WIDTH: usize> {
    /// The values that an array with the values `state` is sent to.
    spec fn permuted(&self, state: Seq<R::V>) -> Seq<R::V>;

    /// Replaces the array by its image.
    fn permute_mut(&self, state: &mut [R; WIDTH])
        ensures
            values(final(state)@) == self.permuted(values(old(state)@)),
    ;
}

/// The Poseidon2 permutation of width `WIDTH` with the default round constants of the KoalaBear
/// field.
#[derive(Clone, Copy, Debug)]
pub struct Poseidon2<const WIDTH: usize>;

/// The permutation of width 16, which compresses a single hash value in a chain.
pub fn poseidon2_16() -> (r: Poseidon2<16>)
    ensures
        r == Poseidon2::<16>,
{
    Poseidon2
}

/// The permutation of width 24, which merges two hash values in a tree and drives the sponge.
pub fn poseidon2_24() -> (r: Poseidon2<24>)
    ensures
        r == Poseidon2::<24>,
{
    Poseidon2
}

/// The image of a state of 16 canonical representatives under the default Poseidon2 permutation of
/// width 16 of `p3_koala_bear`.
pub uninterp spec fn poseidon2_image_16(state: Seq<nat>) -> Seq<nat>;

/// The image of a state of 24 canonical representatives under the default Poseidon2 permutation of
/// width 24 of `p3_koala_bear`.
pub uninterp spec fn poseidon2_image_24(state: Seq<nat>) -> Seq<nat>;

/// The packed state of `width` elements whose every lane is the image of that lane of `state`.
pub open spec fn lanewise_image(
    image: spec_fn(Seq<nat>) -> Seq<nat>,
    state: Seq<Seq<nat>>,
    width: nat,
) -> Seq<Seq<nat>> {
    Seq::new(width, |i: int| Seq::new(lane_count(), |l: int| image(lane(state, l))[i]))
}

/// Applies the permutation of width 16 to field elements.
///
/// Calls `permute_mut` of the permutation that `p3_koala_bear::default_koalabear_poseidon2_16`
/// builds from constants: the new state depends on the old one alone.
#[verifier::external_body]
fn permute_16(state: &mut [F; 16])
    ensures
        values(final(state)@) == poseidon2_image_16(values(old(state)@)),
{
    let mut inner = state.map(|x| KoalaBear::new(x.value));
    default_koalabear_poseidon2_16().permute_mut(&mut inner);
    *state = inner.map(|x| F { value: x.as_canonical_u32() });
}

/// Applies the permutation of width 24 to field elements.
///
/// Calls `permute_mut` of the permutation that `p3_koala_bear::default_koalabear_poseidon2_24`
/// builds from constants: the new state depends on the old one alone.
#[verifier::external_body]
fn permute_24(state: &mut [F; 24])
    ensures
        values(final(state)@) == poseidon2_image_24(values(old(state)@)),
{
    let mut inner = state.map(|x| KoalaBear::new(x.value));
    default_koalabear_poseidon2_24().permute_mut(&mut inner);
    *state = inner.map(|x| F { value: x.as_canonical_u32() });
}

/// Applies the permutation of width 16 to packed elements.
///
/// Calls `permute_mut` of the permutation that `p3_koala_bear::default_koalabear_poseidon2_16`
/// builds, at the packed field. The packed permutation works in every lane as the permutation of
/// field elements does.
#[verifier::external_body]
fn permute_packed_16(state: &mut [PackedF; 16])
    ensures
        values(final(state)@) == lanewise_image(
            |s: Seq<nat>| poseidon2_image_16(s),
            values(old(state)@),
            16,
        ),
{
    let mut inner = state.map(|x| x.inner);
    default_koalabear_poseidon2_16().permute_mut(&mut inner);
    *state = inner.map(|x| PackedF { inner: x });
}

/// Applies the permutation of width 24 to packed elements.
///
/// Calls `permute_mut` of the permutation that `p3_koala_bear::default_koalabear_poseidon2_24`
/// builds, at the packed field. The packed permutation works in every lane as the permutation of
/// field elements does.
#[verifier::external_body]
fn permute_packed_24(state: &mut [PackedF; 24])
    ensures
        values(final(state)@) == lanewise_image(
            |s: Seq<nat>| poseidon2_image_24(s),
            values(old(state)@),
            24,
        ),
{
    let mut inner = state.map(|x| x.inner);
    default_koalabear_poseidon2_24().permute_mut(&mut inner);
    *state = inner.map(|x| PackedF { inner: x });
}

impl Permutation<F, 16> for Poseidon2<16> {
    open spec fn permuted(&self, state: Seq<nat>) -> Seq<nat> {
        Seq::new(16, |i: int| poseidon2_image_16(state)[i])
    }

    fn permute_mut(&self, state: &mut [F; 16]) {
        permute_16(state);
        assert(values(state@) =~= <Self as Permutation<F, 16>>::permuted(
            self,
            values(old(state)@),
        ));
    }
}

impl Permutation<F, 24> for Poseidon2<24> {
    open spec fn permuted(&self, state: Seq<nat>) -> Seq<nat> {
        Seq::new(24, |i: int| poseidon2_image_24(state)[i])
    }

    fn permute_mut(&self, state: &mut [F; 24]) {
        permute_24(state);
        assert(values(state@) =~= <Self as Permutation<F, 24>>::permuted(
            self,
            values(old(state)@),
        ));
    }
}

impl Permutation<PackedF, 16> for Poseidon2<16> {
    open spec fn permuted(&self, state: Seq<Seq<nat>>) -> Seq<Seq<nat>> {
        lanewise_image(|s: Seq<nat>| poseidon2_image_16(s), state, 16)
    }

    fn permute_mut(&self, state: &mut [PackedF; 16]) {
        permute_packed_16(state);
    }
}

impl Permutation<PackedF, 24> for Poseidon2<24> {
    open spec fn permuted(&self, state: Seq<Seq<nat>>) -> Seq<Seq<nat>> {
        lanewise_image(|s: Seq<nat>| poseidon2_image_24(s), state, 24)
    }

    fn permute_mut(&self, state: &mut [PackedF; 24]) {
        permute_packed_24(state);
    }
}

/// A permutation that treats every lane of a packed state as it treats a state of field elements.
pub open spec fn lanewise<
    P: Permutation<F, WIDTH> + Permutation<PackedF, WIDTH>,
    const WIDTH: usize,
>(perm: P) -> bool {
    &&& forall|state: Seq<Seq<nat>>|
        state.len() == WIDTH ==> #[trigger] <P as Permutation<PackedF, WIDTH>>::permuted(
            &perm,
            state,
        ).len() == WIDTH
    &&& forall|state: Seq<Seq<nat>>, l: int|
        state.len() == WIDTH && 0 <= l < lane_count() ==> #[trigger] lane(
            <P as Permutation<PackedF, WIDTH>>::permuted(&perm, state),
            l,
        ) == <P as Permutation<F, WIDTH>>::permuted(&perm, lane(state, l))
}

/// The permutation of width 16 works lane by lane.
pub proof fn lemma_poseidon2_16_lanewise(perm: Poseidon2<16>)
    ensures
        lanewise::<Poseidon2<16>, 16>(perm),
{
    assert forall|state: Seq<Seq<nat>>, l: int|
        state.len() == 16 && 0 <= l < lane_count() implies #[trigger] lane(
        <Poseidon2<16> as Permutation<PackedF, 16>>::permuted(&perm, state),
        l,
    ) == <Poseidon2<16> as Permutation<F, 16>>::permuted(&perm, lane(state, l)) by {
        assert(lane(<Poseidon2<16> as Permutation<PackedF, 16>>::permuted(&perm, state), l)
            =~= <Poseidon2<16> as Permutation<F, 16>>::permuted(&perm, lane(state, l)));
    }
}

/// The permutation of width 24 works lane by lane.
pub proof fn lemma_poseidon2_24_lanewise(perm: Poseidon2<24>)
    ensures
        lanewise::<Poseidon2<24>, 24>(perm),
{
    assert forall|state: Seq<Seq<nat>>, l: int|
        state.len() == 24 && 0 <= l < lane_count() implies #[trigger] lane(
        <Poseidon2<24> as Permutation<PackedF, 24>>::permuted(&perm, state),
        l,
    ) == <Poseidon2<24> as Permutation<F, 24>>::permuted(&perm, lane(state, l)) by {
        assert(lane(<Poseidon2<24> as Permutation<PackedF, 24>>::permuted(&perm, state), l)
            =~= <Poseidon2<24> as Permutation<F, 24>>::permuted(&perm, lane(state, l)));
    }
}

} // verus!
