use vstd::prelude::*;
use vstd::arithmetic::div_mod::{lemma_basic_div, lemma_div_multiples_vanish,
    lemma_fundamental_div_mod};
use vstd::arithmetic::mul::lemma_mul_inequality;
use crate::types::{AssetReserve, MathError};

verus! {

/// The common reference precision the invariant math works at: every balance
/// is rescaled to eighteen fractional digits before it enters a solver.
pub const TARGET_DECIMALS: u8 = 18;

/// Ten to the `k`-th power.
pub open spec fn pow10(k: nat) -> nat
    decreases k,
{
    if k == 0 {
        1
    } else {
        10 * pow10((k - 1) as nat)
    }
}

/// A larger exponent never shrinks the power.
pub proof fn lemma_pow10_monotonic(a: nat, b: nat)
    requires
        a <= b,
    ensures
        pow10(a) <= pow10(b),
    decreases b,
{
    if a < b {
        lemma_pow10_monotonic(a, (b - 1) as nat);
        assert(pow10(b) == 10 * pow10((b - 1) as nat));
    }
}

/// Ten to the `k`-th power at 128 bits; None when it does not fit.
pub fn pow10_u128(k: u8) -> (r: Option<u128>)
    ensures
        r is Some <==> pow10(k as nat) <= u128::MAX,
        (r matches Some(v) ==> v == pow10(k as nat)),
{
    let mut acc: u128 = 1;
    let mut i: u8 = 0;
    while i < k
        invariant
            i <= k,
            acc == pow10(i as nat),
        decreases k - i,
    {
        acc = match acc.checked_mul(10) {
            Some(v) => v,
            None => {
                proof {
                    lemma_pow10_monotonic((i + 1) as nat, k as nat);
                }
                return None;
            },
        };
        i = i + 1;
    }
    Some(acc)
}

/// A balance at `decimals` fractional digits, rescaled to the reference
/// precision. Widening multiplies and can overflow; narrowing divides,
/// rounding down, and is total.
pub open spec fn spec_normalize(amount: u128, decimals: u8) -> Option<u128> {
    if decimals <= TARGET_DECIMALS {
        let f = pow10((TARGET_DECIMALS - decimals) as nat);
        if amount * f <= u128::MAX {
            Some((amount * f) as u128)
        } else {
            None
        }
    } else {
        Some(((amount as nat) / pow10((decimals - TARGET_DECIMALS) as nat)) as u128)
    }
}

/// A value at the reference precision, rescaled back to `decimals` fractional
/// digits. Narrowing divides, rounding toward zero; widening multiplies and
/// can overflow.
pub open spec fn spec_denormalize(amount: u128, decimals: u8) -> Option<u128> {
    if decimals <= TARGET_DECIMALS {
        Some(((amount as nat) / pow10((TARGET_DECIMALS - decimals) as nat)) as u128)
    } else {
        let f = pow10((decimals - TARGET_DECIMALS) as nat);
        if amount * f <= u128::MAX {
            Some((amount * f) as u128)
        } else {
            None
        }
    }
}

/// The reference-precision powers of ten fit in 128 bits.
proof fn lemma_pow10_18_fits()
    ensures
        pow10(18) == 1000000000000000000nat,
        pow10(38) <= u128::MAX,
        pow10(39) > u128::MAX,
{
    reveal_with_fuel(pow10, 40);
}

/// Rescales a native balance to the reference precision.
pub fn normalize_value(amount: u128, decimals: u8) -> (r: Option<u128>)
    ensures
        r == spec_normalize(amount, decimals),
{
    if decimals <= TARGET_DECIMALS {
        let k = TARGET_DECIMALS - decimals;
        proof {
            lemma_pow10_18_fits();
            lemma_pow10_monotonic(k as nat, 18);
        }
        let f = match pow10_u128(k) {
            Some(v) => v,
            None => {
                return None;
            },
        };
        amount.checked_mul(f)
    } else {
        let k = decimals - TARGET_DECIMALS;
        if k > 38 {
            proof {
                lemma_pow10_18_fits();
                lemma_pow10_monotonic(39, k as nat);
                lemma_basic_div(amount as int, pow10(k as nat) as int);
            }
            Some(0)
        } else {
            proof {
                lemma_pow10_18_fits();
                lemma_pow10_monotonic(k as nat, 38);
            }
            let f = match pow10_u128(k) {
                Some(v) => v,
                None => {
                    return None;
                },
            };
            proof {
                lemma_pow10_monotonic(0, k as nat);
            }
            Some(amount / f)
        }
    }
}

/// Rescales a reference-precision value back to a native balance.
pub fn denormalize_value(amount: u128, decimals: u8) -> (r: Option<u128>)
    ensures
        r == spec_denormalize(amount, decimals),
{
    if decimals <= TARGET_DECIMALS {
        let k = TARGET_DECIMALS - decimals;
        proof {
            lemma_pow10_18_fits();
            lemma_pow10_monotonic(k as nat, 18);
        }
        let f = match pow10_u128(k) {
            Some(v) => v,
            None => {
                return None;
            },
        };
        proof {
            lemma_pow10_monotonic(0, k as nat);
        }
        Some(amount / f)
    } else {
        let k = decimals - TARGET_DECIMALS;
        if k > 38 {
            if amount == 0 {
                return Some(0);
            }
            proof {
                lemma_pow10_18_fits();
                lemma_pow10_monotonic(39, k as nat);
                lemma_mul_inequality(1, amount as int, pow10(k as nat) as int);
            }
            return None;
        }
        proof {
            lemma_pow10_18_fits();
            lemma_pow10_monotonic(k as nat, 38);
        }
        let f = match pow10_u128(k) {
            Some(v) => v,
            None => {
                return None;
            },
        };
        amount.checked_mul(f)
    }
}

/// Rescaling to the reference precision and back returns the original
/// balance, for every balance that the rescaling represents without loss:
/// widening must not overflow, and narrowing must not discard digits.
pub proof fn lemma_normalize_round_trip(amount: u128, decimals: u8)
    requires
        decimals > TARGET_DECIMALS ==> amount as nat % pow10(
            (decimals - TARGET_DECIMALS) as nat,
        ) == 0,
        spec_normalize(amount, decimals) is Some,
    ensures
        spec_denormalize(spec_normalize(amount, decimals)->Some_0, decimals) == Some(amount),
{
    if decimals <= TARGET_DECIMALS {
        let f = pow10((TARGET_DECIMALS - decimals) as nat) as int;
        assert(f >= 1) by {
            lemma_pow10_monotonic(0, (TARGET_DECIMALS - decimals) as nat);
        }
        let n = spec_normalize(amount, decimals)->Some_0;
        assert(n == amount * f);
        lemma_div_multiples_vanish(amount as int, f);
        assert((f * amount) / f == amount);
        assert(amount * f == f * amount) by (nonlinear_arith);
    } else {
        let f = pow10((decimals - TARGET_DECIMALS) as nat) as int;
        assert(f >= 1) by {
            lemma_pow10_monotonic(0, (decimals - TARGET_DECIMALS) as nat);
        }
        let n = spec_normalize(amount, decimals)->Some_0;
        assert(n == amount as nat / pow10((decimals - TARGET_DECIMALS) as nat));
        lemma_fundamental_div_mod(amount as int, f);
        assert(amount == f * (amount as int / f));
        assert(n * f == amount) by {
            assert(n == amount as int / f);
            assert(n * f == f * n) by (nonlinear_arith);
        }
    }
}

/// Every reserve of a set rescaled to the reference precision, in order;
/// None as soon as one rescaling overflows.
pub open spec fn spec_normalize_all(reserves: Seq<AssetReserve>) -> Option<Seq<u128>>
    decreases reserves.len(),
{
    if reserves.len() == 0 {
        Some(Seq::empty())
    } else {
        match spec_normalize_all(reserves.drop_last()) {
            None => None,
            Some(s) => match spec_normalize(reserves.last().amount, reserves.last().decimals) {
                None => None,
                Some(v) => Some(s.push(v)),
            },
        }
    }
}

/// One reserve that cannot be rescaled makes the whole set fail.
pub proof fn lemma_normalize_all_none(reserves: Seq<AssetReserve>, i: int)
    requires
        0 <= i < reserves.len(),
        spec_normalize(reserves[i].amount, reserves[i].decimals) is None,
    ensures
        spec_normalize_all(reserves) is None,
    decreases reserves.len(),
{
    if i < reserves.len() - 1 {
        lemma_normalize_all_none(reserves.drop_last(), i);
    }
}

/// A rescaled set keeps its length and rescales entry by entry.
pub proof fn lemma_normalize_all_some(reserves: Seq<AssetReserve>, xp: Seq<u128>)
    requires
        spec_normalize_all(reserves) == Some(xp),
    ensures
        xp.len() == reserves.len(),
        forall|i: int| 0 <= i < reserves.len() ==> Some(#[trigger] xp[i]) == spec_normalize(
            reserves[i].amount, reserves[i].decimals),
    decreases reserves.len(),
{
    if reserves.len() > 0 {
        let prefix = spec_normalize_all(reserves.drop_last())->Some_0;
        lemma_normalize_all_some(reserves.drop_last(), prefix);
    }
}

/// Rescales every reserve of a set to the reference precision.
pub fn normalize_reserves(reserves: &Vec<AssetReserve>) -> (r: Result<Vec<u128>, MathError>)
    ensures
        (r matches Ok(xp) ==> spec_normalize_all(reserves@) == Some(xp@)),
        (r is Err ==> r == Result::<Vec<u128>, MathError>::Err(MathError::ArithmeticOverflow)
            && spec_normalize_all(reserves@) is None),
{
    let n = reserves.len();
    let mut out: Vec<u128> = Vec::new();
    let mut i: usize = 0;
    while i < n
        invariant
            i <= n,
            n == reserves@.len(),
            out@.len() == i,
            spec_normalize_all(reserves@.take(i as int)) == Some(out@),
        decreases n - i,
    {
        let v = match normalize_value(reserves[i].amount, reserves[i].decimals) {
            Some(v) => v,
            None => {
                proof {
                    lemma_normalize_all_none(reserves@, i as int);
                }
                return Err(MathError::ArithmeticOverflow);
            },
        };
        out.push(v);
        proof {
            assert(reserves@.take(i + 1).drop_last() =~= reserves@.take(i as int));
            assert(reserves@.take(i + 1).last() == reserves@[i as int]);
        }
        i = i + 1;
    }
    proof {
        assert(reserves@.take(n as int) =~= reserves@);
    }
    Ok(out)
}

} // verus!
