//! Integers written in base p, where p is the order of the field.

use vstd::arithmetic::div_mod::{lemma_div_denominator, lemma_mod_breakdown, lemma_small_mod};
use vstd::arithmetic::power::{lemma_pow_positive, pow};
use vstd::prelude::*;

use crate::field::{order, values, Algebra, F};

verus! {

/// The weight of digit `i` in base p.
pub open spec fn weight(i: nat) -> nat {
    pow(order() as int, i) as nat
}

/// Digit `i` of `value` in base p, counted from the least significant one.
pub open spec fn digit(value: nat, i: nat) -> nat {
    (value / weight(i)) % order()
}

/// The `len` least significant digits of `value` in base p.
pub open spec fn digits(value: nat, len: nat) -> Seq<nat> {
    Seq::new(len, |i: int| digit(value, i as nat))
}

/// The weights are the powers of p.
pub proof fn lemma_weight(i: nat)
    ensures
        weight(0) == 1,
        weight(i) > 0,
        weight(i + 1) == weight(i) * order(),
{
    reveal_with_fuel(pow, 2);
    lemma_pow_positive(order() as int, i);
    assert(pow(order() as int, i + 1) == order() as int * pow(order() as int, i));
    assert(order() as int * pow(order() as int, i) == pow(order() as int, i) * order() as int)
        by (nonlinear_arith);
}

/// A longer number of digits has a larger range.
pub proof fn lemma_weight_increases(i: nat, j: nat)
    requires
        i <= j,
    ensures
        weight(i) <= weight(j),
    decreases j,
{
    if i < j {
        let k = (j - 1) as nat;
        lemma_weight_increases(i, k);
        lemma_weight(k);
        assert(weight(k) <= weight(k) * order()) by (nonlinear_arith)
            requires
                order() >= 1,
        ;
    }
}

/// The digits of two integers agree exactly on what they are modulo the range of the digits.
proof fn lemma_digits_determine_residue(a: nat, b: nat, len: nat)
    requires
        digits(a, len) == digits(b, len),
    ensures
        a % weight(len) == b % weight(len),
    decreases len,
{
    lemma_weight(len);
    if len > 0 {
        let k = (len - 1) as nat;
        assert(digits(a, k) =~= digits(a, len).take(k as int));
        assert(digits(b, k) =~= digits(b, len).take(k as int));
        lemma_digits_determine_residue(a, b, k);
        lemma_weight(k);
        lemma_mod_breakdown(a as int, weight(k) as int, order() as int);
        lemma_mod_breakdown(b as int, weight(k) as int, order() as int);
        assert(digits(a, len)[k as int] == digit(a, k));
        assert(digits(b, len)[k as int] == digit(b, k));
        assert(a % weight(len) == weight(k) * digit(a, k) + a % weight(k));
        assert(b % weight(len) == weight(k) * digit(b, k) + b % weight(k));
    }
}

/// An integer in the range of its digits is determined by them.
pub proof fn lemma_digits_determine_value(a: nat, b: nat, len: nat)
    requires
        digits(a, len) == digits(b, len),
        a < weight(len),
        b < weight(len),
    ensures
        a == b,
{
    lemma_digits_determine_residue(a, b, len);
    lemma_small_mod(a, weight(len));
    lemma_small_mod(b, weight(len));
}

/// The digits of `value` in base p, as elements.
pub fn to_digits<R: Algebra, const LEN: usize>(value: u128) -> (r: [R; LEN])
    ensures
        values(r@) == Seq::new(
            LEN as nat,
            |i: int| R::constant_value(digit(value as nat, i as nat)),
        ),
{
    let mut r: [R; LEN] = [R::zero(); LEN];
    let mut acc: u128 = value;
    let mut i: usize = 0;
    proof {
        lemma_weight(0);
    }
    while i < LEN
        invariant
            i <= LEN,
            acc as nat == value as nat / weight(i as nat),
            forall|j: int|
                0 <= j < i ==> (#[trigger] r[j])@ == R::constant_value(
                    digit(value as nat, j as nat),
                ),
        decreases LEN - i,
    {
        let d: u64 = (acc % (F::ORDER_U64 as u128)) as u64;
        r[i] = R::from_u64(d);
        proof {
            lemma_weight(i as nat);
            lemma_div_denominator(value as int, weight(i as nat) as int, order() as int);
        }
        acc = acc / (F::ORDER_U64 as u128);
        i += 1;
    }
    assert(values(r@) =~= Seq::new(
        LEN as nat,
        |i: int| R::constant_value(digit(value as nat, i as nat)),
    ));
    r
}

} // verus!
