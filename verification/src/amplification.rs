use vstd::prelude::*;
use vstd::arithmetic::div_mod::{lemma_div_is_ordered, lemma_div_multiples_vanish};
use vstd::arithmetic::mul::lemma_mul_inequality;
use crate::fees::lemma_u128_product_fits;
use crate::wide::{wide_div, wide_from_u128, wide_mul, wide_to_u128};

verus! {

/// The amplification coefficient in force at a block, linearly interpolated
/// between the two endpoints of a ramp and rounded down. Outside the ramp the
/// endpoint values hold exactly, and a ramp over an empty block range means
/// the final value immediately.
pub open spec fn spec_amplification(
    initial_amplification: u128,
    final_amplification: u128,
    initial_block: u128,
    final_block: u128,
    current_block: u128,
) -> u128 {
    if final_block == initial_block {
        final_amplification
    } else if current_block >= final_block {
        final_amplification
    } else if current_block <= initial_block {
        initial_amplification
    } else if final_amplification >= initial_amplification {
        (initial_amplification + ((final_amplification - initial_amplification) * (current_block
            - initial_block)) / (final_block - initial_block)) as u128
    } else {
        (initial_amplification - ((initial_amplification - final_amplification) * (current_block
            - initial_block)) / (final_block - initial_block)) as u128
    }
}

/// The interpolated part never exceeds the distance between the endpoints:
/// a quotient `diff * elapsed / range` with `elapsed <= range` stays below
/// `diff`.
pub proof fn lemma_interp_bounded(diff: u128, elapsed: u128, range: u128)
    requires
        0 < range,
        elapsed <= range,
    ensures
        (diff * elapsed) / (range as int) <= diff,
{
    lemma_mul_inequality(elapsed as int, range as int, diff as int);
    assert((elapsed as int) * (diff as int) == (diff as int) * (elapsed as int))
        by (nonlinear_arith);
    assert((range as int) * (diff as int) == (diff as int) * (range as int)) by (nonlinear_arith);
    lemma_div_is_ordered((diff as int) * (elapsed as int), (diff as int) * (range as int),
        range as int);
    lemma_div_multiples_vanish(diff as int, range as int);
}

/// The interpolated distance from the nearer endpoint, rounded down.
fn interp(diff: u128, elapsed: u128, range: u128) -> (r: u128)
    requires
        0 < range,
        elapsed <= range,
    ensures
        r == (diff * elapsed) / (range as int),
{
    let d = wide_from_u128(diff);
    let e = wide_from_u128(elapsed);
    proof {
        lemma_u128_product_fits(d.val(), e.val());
    }
    let p = wide_mul(&d, &e).unwrap();
    let q = wide_div(&p, &wide_from_u128(range)).unwrap();
    proof {
        lemma_interp_bounded(diff, elapsed, range);
    }
    wide_to_u128(&q).unwrap()
}

/// The time-interpolated amplification coefficient of a ramp at a block.
pub fn calculate_amplification(
    initial_amplification: u128,
    final_amplification: u128,
    initial_block: u128,
    final_block: u128,
    current_block: u128,
) -> (r: u128)
    ensures
        r == spec_amplification(initial_amplification, final_amplification, initial_block,
            final_block, current_block),
{
    if final_block == initial_block {
        return final_amplification;
    }
    if current_block >= final_block {
        return final_amplification;
    }
    if current_block <= initial_block {
        return initial_amplification;
    }
    let elapsed = current_block - initial_block;
    let range = final_block - initial_block;
    if final_amplification >= initial_amplification {
        let step = interp(final_amplification - initial_amplification, elapsed, range);
        proof {
            lemma_interp_bounded((final_amplification - initial_amplification) as u128, elapsed,
                range);
        }
        initial_amplification + step
    } else {
        let step = interp(initial_amplification - final_amplification, elapsed, range);
        proof {
            lemma_interp_bounded((initial_amplification - final_amplification) as u128, elapsed,
                range);
        }
        initial_amplification - step
    }
}

/// At or before the start of a proper ramp the initial coefficient holds
/// exactly; at or past its end the final one does; and at the exact middle of
/// the ramp, when the distances divide evenly, the value is the exact mean of
/// the two endpoints.
pub proof fn lemma_amplification_boundaries(
    initial_amplification: u128,
    final_amplification: u128,
    initial_block: u128,
    final_block: u128,
    current_block: u128,
)
    requires
        initial_block < final_block,
    ensures
        current_block <= initial_block ==> spec_amplification(initial_amplification,
            final_amplification, initial_block, final_block, current_block)
            == initial_amplification,
        current_block >= final_block ==> spec_amplification(initial_amplification,
            final_amplification, initial_block, final_block, current_block)
            == final_amplification,
        (2 * current_block == initial_block + final_block && (initial_block + final_block) % 2
            == 0 && (initial_amplification + final_amplification) % 2 == 0)
            ==> spec_amplification(initial_amplification, final_amplification, initial_block,
            final_block, current_block) == (initial_amplification + final_amplification) / 2,
{
    if 2 * current_block == initial_block + final_block && (initial_amplification
        + final_amplification) % 2 == 0 && current_block > initial_block && current_block
        < final_block {
        let elapsed = current_block - initial_block;
        let range = final_block - initial_block;
        assert(range == 2 * elapsed);
        if final_amplification >= initial_amplification {
            let diff = final_amplification - initial_amplification;
            let half = diff / 2;
            assert(diff % 2 == 0);
            assert(diff == 2 * half);
            assert(diff * elapsed == half * range) by (nonlinear_arith)
                requires
                    diff == 2 * half,
                    range == 2 * elapsed,
            ;
            lemma_div_multiples_vanish(half, range as int);
            assert(range as int * half == half * range) by (nonlinear_arith);
            assert((diff * elapsed) / (range as int) == half);
        } else {
            let diff = initial_amplification - final_amplification;
            let half = diff / 2;
            assert(diff % 2 == 0);
            assert(diff == 2 * half);
            assert(diff * elapsed == half * range) by (nonlinear_arith)
                requires
                    diff == 2 * half,
                    range == 2 * elapsed,
            ;
            lemma_div_multiples_vanish(half, range as int);
            assert(range as int * half == half * range) by (nonlinear_arith);
            assert((diff * elapsed) / (range as int) == half);
        }
    }
}

} // verus!
