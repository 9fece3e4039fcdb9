//! Fixed-length arrays of field elements.

use vstd::prelude::*;

use crate::field::{lemma_element_determined_by_value, values, F};

verus! {

/// An array of `N` field elements: a hash value, or a public parameter.
#[derive(Clone, Copy, Debug, PartialEq, Eq)]
pub struct FieldArray<const N: usize>(pub [F; N]);

impl<const N: usize> View for FieldArray<N> {
    type V = Seq<nat>;

    /// The canonical representatives of the elements.
    open spec fn view(&self) -> Seq<nat> {
        values(self.0@)
    }
}

/// Two arrays with the same representatives are the same array.
pub proof fn lemma_array_determined_by_values<const N: usize>(a: FieldArray<N>, b: FieldArray<N>)
    requires
        a@ == b@,
    ensures
        a == b,
{
    assert forall|i: int| 0 <= i < N implies a.0@[i] == b.0@[i] by {
        assert(values(a.0@)[i] == values(b.0@)[i]);
        lemma_element_determined_by_value(a.0@[i], b.0@[i]);
    }
    assert(a.0 =~= b.0);
}

} // verus!
