//! Packed field elements: one field element in every SIMD lane.

use p3_field::{Field, PackedValue, PrimeField32};
use p3_koala_bear::KoalaBear;
use vstd::prelude::*;

use crate::field::{order, Algebra, F, ORDER};

verus! {

/// A packed field element of the crate `p3_koala_bear`, in the layout that suits the target
/// machine. What it holds is read through [`lanes`].
#[verifier::external_body]
pub struct PackedF {
    pub(crate) inner: <KoalaBear as Field>::Packing,
}

impl Clone for PackedF {
    fn clone(&self) -> (r: PackedF)
        ensures
            r == *self,
    {
        *self
    }
}

impl Copy for PackedF {

}

/// The canonical representatives that the packed element `p` holds, lane by lane.
pub uninterp spec fn lanes(p: PackedF) -> Seq<nat>;

/// The number of lanes, which is the same for every packed element.
pub open spec fn lane_count() -> nat {
    lanes(arbitrary::<PackedF>()).len()
}

/// Lane `l` of a sequence of packed values: the sequence of what each of them holds there.
pub open spec fn lane(s: Seq<Seq<nat>>, l: int) -> Seq<nat> {
    Seq::new(s.len(), |i: int| s[i][l])
}

impl View for PackedF {
    type V = Seq<nat>;

    open spec fn view(&self) -> Seq<nat> {
        lanes(*self)
    }
}

impl PackedF {
    /// The number of lanes, as a number that every packed element shares.
    ///
    /// Reads the constant `p3_field::PackedValue::WIDTH` of the packed field: it is positive, and
    /// every packed element holds that many field elements. It depends on the target machine.
    #[verifier::external_body]
    fn shared_width() -> (w: usize)
        ensures
            0 < w,
            forall|p: PackedF| (#[trigger] lanes(p)).len() == w,
    {
        <<KoalaBear as Field>::Packing as PackedValue>::WIDTH
    }

    /// The packed element whose lane `l` holds `column[l]`.
    ///
    /// Calls `p3_field::PackedValue::from_fn`, which asks for the element of each lane once. It
    /// reads only the lanes that exist, and it would panic on a column shorter than that.
    #[verifier::external_body]
    pub(crate) fn from_lanes(column: &[F]) -> (r: PackedF)
        requires
            lane_count() <= column@.len(),
        ensures
            lanes(r) == Seq::new(lane_count(), |l: int| column@[l]@),
    {
        PackedF { inner: PackedValue::from_fn(|l| KoalaBear::new(column[l].value)) }
    }

    /// The packed element that holds `x` in every lane.
    ///
    /// Calls the conversion `From` of the packed field from its scalar field, which repeats the
    /// scalar in every lane.
    #[verifier::external_body]
    pub(crate) fn broadcast(x: F) -> (r: PackedF)
        ensures
            lanes(r) == Seq::new(lane_count(), |l: int| x@),
    {
        PackedF { inner: KoalaBear::new(x.value).into() }
    }

    /// The canonical representative that lane `l` holds.
    ///
    /// Reads `p3_field::PackedValue::as_slice` at `l`; the slice has one entry per lane.
    #[verifier::external_body]
    fn extract_canonical(&self, l: usize) -> (r: u32)
        requires
            l < lane_count(),
        ensures
            r == lanes(*self)[l as int],
            r < ORDER,
    {
        self.inner.as_slice()[l].as_canonical_u32()
    }

    /// The lane-wise sum of two packed elements.
    ///
    /// Calls the operator `+` of the packed field, which adds in every lane in the scalar field.
    #[verifier::external_body]
    fn add_lanes(self, rhs: PackedF) -> (r: PackedF)
        ensures
            lanes(r) == Seq::new(
                lane_count(),
                |l: int| (lanes(self)[l] + lanes(rhs)[l]) % order(),
            ),
    {
        PackedF { inner: self.inner + rhs.inner }
    }

    /// The number of lanes of a packed element on the target machine.
    pub fn width() -> (w: usize)
        ensures
            0 < w,
            w == lane_count(),
            forall|p: PackedF| (#[trigger] p@).len() == w,
    {
        PackedF::shared_width()
    }

    /// The field element that lane `l` holds.
    pub fn extract(&self, l: usize) -> (r: F)
        requires
            l < lane_count(),
        ensures
            r@ == self@[l as int],
    {
        F::from_canonical(self.extract_canonical(l))
    }
}

impl Algebra for PackedF {
    /// Zero in every lane.
    open spec fn zero_value() -> Seq<nat> {
        Seq::new(lane_count(), |l: int| F::zero_value())
    }

    /// The integer in every lane.
    open spec fn constant_value(x: nat) -> Seq<nat> {
        Seq::new(lane_count(), |l: int| F::constant_value(x))
    }

    /// The sum in every lane.
    open spec fn sum_value(a: Seq<nat>, b: Seq<nat>) -> Seq<nat> {
        Seq::new(lane_count(), |l: int| F::sum_value(a[l], b[l]))
    }

    fn zero() -> (r: PackedF) {
        let r = PackedF::broadcast(F::zero());
        assert(r@ =~= Self::zero_value());
        r
    }

    fn from_u64(x: u64) -> (r: PackedF) {
        let r = PackedF::broadcast(F::from_u64(x));
        assert(r@ =~= Self::constant_value(x as nat));
        r
    }

    fn add(self, rhs: PackedF) -> (r: PackedF) {
        let r = self.add_lanes(rhs);
        assert(r@ =~= Self::sum_value(self@, rhs@));
        r
    }
}

} // verus!
