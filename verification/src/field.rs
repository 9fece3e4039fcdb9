//! Elements of the KoalaBear prime field and the arithmetic that the hash functions use.

use vstd::prelude::*;

verus! {

/// The order of the KoalaBear field, the prime 2^31 - 2^24 + 1.
pub const ORDER: u32 = 0x7f000001;

/// The order of the field as a natural number.
pub open spec fn order() -> nat {
    ORDER as nat
}

/// An element of the KoalaBear field, held by its canonical representative.
#[derive(Clone, Copy, Debug, PartialEq, Eq, Structural, Hash)]
pub struct F {
    pub(crate) value: u32,
}

impl View for F {
    type V = nat;

    /// The canonical representative of the element.
    closed spec fn view(&self) -> nat {
        self.value as nat
    }
}

impl F {
    /// The order of the field.
    pub const ORDER_U64: u64 = 0x7f000001;

    /// Every element is held by its representative below the order.
    #[verifier::type_invariant]
    pub(crate) closed spec fn canonical(self) -> bool {
        self.value < ORDER
    }

    /// The element of a canonical representative.
    pub(crate) fn from_canonical(value: u32) -> (r: F)
        requires
            value < ORDER,
        ensures
            r@ == value,
    {
        F { value }
    }

    /// The class of `value` modulo the order.
    pub fn new(value: u32) -> (r: F)
        ensures
            r@ == value as nat % order(),
    {
        F { value: value % ORDER }
    }

    /// The multiplicative unit.
    pub fn one() -> (r: F)
        ensures
            r@ == 1,
    {
        F { value: 1 }
    }

    /// The canonical representative of the element.
    pub fn as_canonical_u32(&self) -> (r: u32)
        ensures
            r == self@,
            r < ORDER,
    {
        proof {
            use_type_invariant(self);
        }
        self.value
    }
}

/// Two elements with the same representative are the same element.
pub proof fn lemma_element_determined_by_value(a: F, b: F)
    requires
        a@ == b@,
    ensures
        a == b,
{
}

/// What the hash functions need of the values they run on: single field elements, or packed ones
/// that hold one field element per lane.
pub trait Algebra: Copy + View {
    /// The value of the additive unit.
    spec fn zero_value() -> Self::V;

    /// The value that stands for the integer `x`.
    spec fn constant_value(x: nat) -> Self::V;

    /// The value of a sum.
    spec fn sum_value(a: Self::V, b: Self::V) -> Self::V;

    /// The additive unit.
    fn zero() -> (r: Self)
        ensures
            r@ == Self::zero_value(),
    ;

    /// The element that stands for the integer `x`.
    fn from_u64(x: u64) -> (r: Self)
        ensures
            r@ == Self::constant_value(x as nat),
    ;

    /// The sum of two elements.
    fn add(self, rhs: Self) -> (r: Self)
        ensures
            r@ == Self::sum_value(self@, rhs@),
    ;
}

impl Algebra for F {
    open spec fn zero_value() -> nat {
        0
    }

    open spec fn constant_value(x: nat) -> nat {
        x % order()
    }

    open spec fn sum_value(a: nat, b: nat) -> nat {
        (a + b) % order()
    }

    fn zero() -> (r: F) {
        F { value: 0 }
    }

    fn from_u64(x: u64) -> (r: F) {
        F { value: (x % F::ORDER_U64) as u32 }
    }

    fn add(self, rhs: F) -> (r: F) {
        proof {
            use_type_invariant(self);
            use_type_invariant(rhs);
        }
        F { value: (self.value + rhs.value) % ORDER }
    }
}

/// The values of a sequence of elements.
pub open spec fn values<R: View>(s: Seq<R>) -> Seq<R::V> {
    Seq::new(s.len(), |i: int| s[i]@)
}

} // verus!
