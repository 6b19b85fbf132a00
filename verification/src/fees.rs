use vstd::prelude::*;
use vstd::arithmetic::div_mod::{lemma_div_is_ordered, lemma_div_multiples_vanish};
use vstd::arithmetic::mul::{lemma_mul_inequality, lemma_mul_upper_bound};
use crate::wide::{wide_div, wide_from_u128, wide_limit, wide_mul, wide_to_u128};

verus! {

/// Fees are proportional fractions expressed in parts per million.
pub const FEE_DENOMINATOR: u32 = 1000000;

/// The fee charged on an amount, rounded down.
pub open spec fn spec_fee_amount(amount: u128, fee: u32) -> nat {
    ((amount as nat) * (fee as nat)) / 1000000
}

/// The product of two 128-bit values always fits in 256 bits.
pub proof fn lemma_u128_product_fits(a: nat, b: nat)
    requires
        a <= u128::MAX,
        b <= u128::MAX,
    ensures
        a * b < wide_limit(),
{
    lemma_mul_upper_bound(a as int, u128::MAX as int, b as int, u128::MAX as int);
}

/// The fee on an amount, never more than the amount itself for an in-range
/// fee.
pub fn fee_amount(amount: u128, fee: u32) -> (r: u128)
    requires
        fee <= FEE_DENOMINATOR,
    ensures
        r == spec_fee_amount(amount, fee),
        r <= amount,
{
    let a = wide_from_u128(amount);
    let f = wide_from_u128(fee as u128);
    proof {
        lemma_u128_product_fits(a.val(), f.val());
    }
    let p = wide_mul(&a, &f).unwrap();
    let d = wide_from_u128(1000000);
    let q = wide_div(&p, &d).unwrap();
    proof {
        lemma_mul_inequality(fee as int, 1000000, amount as int);
        assert((fee as int) * (amount as int) == (amount as int) * (fee as int)) by (nonlinear_arith);
        assert(1000000 * (amount as int) == (amount as int) * 1000000) by (nonlinear_arith);
        lemma_div_is_ordered((amount as int) * (fee as int), (amount as int) * 1000000, 1000000);
        lemma_div_multiples_vanish(amount as int, 1000000);
    }
    wide_to_u128(&q).unwrap()
}

/// Fee on output: the amount less the fee charged on it, rounded down.
pub fn apply_fee_on_output(amount: u128, fee: u32) -> (r: u128)
    requires
        fee <= FEE_DENOMINATOR,
    ensures
        r == amount - spec_fee_amount(amount, fee),
{
    let charged = fee_amount(amount, fee);
    amount - charged
}

/// Fee on input: the amount plus the fee charged on it; None when the sum
/// leaves the 128-bit domain.
pub fn apply_fee_on_input(amount: u128, fee: u32) -> (r: Option<u128>)
    requires
        fee <= FEE_DENOMINATOR,
    ensures
        r is Some <==> amount + spec_fee_amount(amount, fee) <= u128::MAX,
        (r matches Some(v) ==> v == amount + spec_fee_amount(amount, fee)),
{
    let charged = fee_amount(amount, fee);
    amount.checked_add(charged)
}

} // verus!
