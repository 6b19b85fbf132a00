use vstd::prelude::*;
use crate::amplification::lemma_interp_bounded;
use crate::fees::{FEE_DENOMINATOR, fee_amount, lemma_u128_product_fits, spec_fee_amount};
use crate::norm::{lemma_normalize_all_some, normalize_reserves, denormalize_value,
    spec_denormalize, spec_normalize_all};
use crate::solver::{calculate_d, calculate_y, spec_calculate_d, spec_calculate_y};
use crate::swap::with_updated_removed;
use crate::types::{AssetReserve, MathError};
use crate::wide::{wide_div, wide_from_u128, wide_le, wide_limit, wide_mul, wide_sub,
    wide_to_u128};

verus! {

/// Whether no two deposits name the same reserve position.
pub open spec fn distinct_indices(deposits: Seq<(usize, u128)>) -> bool {
    forall|a: int, b: int| 0 <= a < b < deposits.len() ==> deposits[a].0 != deposits[b].0
}

/// The reserves after the first `k` deposits have been added at their
/// positions, each at its asset's native precision; None as soon as an
/// addition leaves the 128-bit domain. Rescaling to the reference precision
/// happens only afterwards, on the updated set.
pub open spec fn spec_apply_deposits(
    reserves: Seq<AssetReserve>,
    deposits: Seq<(usize, u128)>,
    k: int,
) -> Option<Seq<AssetReserve>>
    decreases k,
{
    if k <= 0 {
        Some(reserves)
    } else {
        match spec_apply_deposits(reserves, deposits, k - 1) {
            None => None,
            Some(cur) => {
                let idx = deposits[k - 1].0 as int;
                if cur[idx].amount + deposits[k - 1].1 <= u128::MAX {
                    Some(cur.update(idx, AssetReserve {
                        amount: (cur[idx].amount + deposits[k - 1].1) as u128,
                        decimals: cur[idx].decimals,
                    }))
                } else {
                    None
                }
            },
        }
    }
}

/// Applying deposits keeps the set's length.
proof fn lemma_apply_deposits_len(
    reserves: Seq<AssetReserve>,
    deposits: Seq<(usize, u128)>,
    k: int,
)
    requires
        0 <= k <= deposits.len(),
        forall|i: int| 0 <= i < k ==> (#[trigger] deposits[i]).0 < reserves.len(),
        spec_apply_deposits(reserves, deposits, k) is Some,
    ensures
        spec_apply_deposits(reserves, deposits, k)->Some_0.len() == reserves.len(),
    decreases k,
{
    if k > 0 {
        lemma_apply_deposits_len(reserves, deposits, k - 1);
    }
}

/// Once a deposit prefix fails, every longer prefix fails too.
proof fn lemma_apply_deposits_none(
    reserves: Seq<AssetReserve>,
    deposits: Seq<(usize, u128)>,
    k: int,
    m: int,
)
    requires
        k <= m,
        spec_apply_deposits(reserves, deposits, k) is None,
    ensures
        spec_apply_deposits(reserves, deposits, m) is None,
    decreases m - k,
{
    if k < m {
        lemma_apply_deposits_none(reserves, deposits, k + 1, m);
    }
}

/// One reserve with the imbalance fee taken out: the fee applies only to the
/// distance between the updated balance and the balance an exactly
/// proportional deposit would have produced.
pub open spec fn spec_adjusted_one(x0: u128, x1: u128, d0: u128, d1: u128, fee: u32)
    -> Option<u128> {
    let ideal = (d1 as nat) * (x0 as nat) / (d0 as nat);
    let diff = if ideal >= x1 {
        (ideal - x1) as nat
    } else {
        (x1 - ideal) as nat
    };
    if diff * fee >= wide_limit() {
        None
    } else {
        let charge = (diff * (fee as nat)) / 1000000;
        if charge <= x1 {
            Some((x1 - charge) as u128)
        } else {
            None
        }
    }
}

/// Once an adjusted prefix fails, every longer prefix fails too.
proof fn lemma_adjusted_none(
    xp0: Seq<u128>,
    xp1: Seq<u128>,
    d0: u128,
    d1: u128,
    fee: u32,
    k: int,
    m: int,
)
    requires
        k <= m,
        spec_adjusted_prefix(xp0, xp1, d0, d1, fee, k) is None,
    ensures
        spec_adjusted_prefix(xp0, xp1, d0, d1, fee, m) is None,
    decreases m - k,
{
    if k < m {
        lemma_adjusted_none(xp0, xp1, d0, d1, fee, k + 1, m);
    }
}

/// The first `k` updated reserves with their imbalance fees taken out.
pub open spec fn spec_adjusted_prefix(
    xp0: Seq<u128>,
    xp1: Seq<u128>,
    d0: u128,
    d1: u128,
    fee: u32,
    k: int,
) -> Option<Seq<u128>>
    decreases k,
{
    if k <= 0 {
        Some(Seq::empty())
    } else {
        match spec_adjusted_prefix(xp0, xp1, d0, d1, fee, k - 1) {
            None => None,
            Some(s) => match spec_adjusted_one(xp0[k - 1], xp1[k - 1], d0, d1, fee) {
                None => None,
                Some(v) => Some(s.push(v)),
            },
        }
    }
}

/// Shares minted for a deposit set: deposits are added at native precision
/// and the updated set rescaled before the invariant is recomputed; the
/// result is the issuance scaled by the relative growth of the invariant,
/// after the imbalance fee was taken out of every reserve that moved away
/// from the pool's current ratio.
pub open spec fn spec_calculate_shares(
    reserves: Seq<AssetReserve>,
    deposits: Seq<(usize, u128)>,
    amplification: u128,
    issuance: u128,
    fee: u32,
) -> Result<u128, MathError> {
    if reserves.len() == 0 || deposits.len() > reserves.len() {
        Err(MathError::DegenerateInput)
    } else if exists|i: int| 0 <= i < deposits.len() && (#[trigger] deposits[i]).0
        >= reserves.len() {
        Err(MathError::InvalidIndex)
    } else if !distinct_indices(deposits) {
        Err(MathError::DegenerateInput)
    } else {
        match spec_normalize_all(reserves) {
            None => Err(MathError::ArithmeticOverflow),
            Some(xp) => match spec_calculate_d(xp, amplification) {
                Err(e) => Err(e),
                Ok(d0) => match spec_apply_deposits(reserves, deposits, deposits.len() as int) {
                    None => Err(MathError::ArithmeticOverflow),
                    Some(updated) => match spec_normalize_all(updated) {
                        None => Err(MathError::ArithmeticOverflow),
                        Some(xp1) => match spec_calculate_d(xp1, amplification) {
                            Err(e) => Err(e),
                            Ok(d1) => if d1 < d0 {
                                Err(MathError::ArithmeticOverflow)
                            } else if issuance == 0 {
                                if d0 == 0 {
                                    Ok(d1)
                                } else {
                                    Err(MathError::DegenerateInput)
                                }
                            } else if d0 == 0 {
                                Err(MathError::DegenerateInput)
                            } else {
                                match spec_adjusted_prefix(xp, xp1, d0, d1, fee,
                                    xp.len() as int) {
                                    None => Err(MathError::ArithmeticOverflow),
                                    Some(adj) => match spec_calculate_d(adj, amplification) {
                                        Err(e) => Err(e),
                                        Ok(d2) => if d2 < d0 {
                                            Err(MathError::ArithmeticOverflow)
                                        } else {
                                            let q = ((issuance as nat) * ((d2 - d0) as nat)) / (
                                            d0 as nat);
                                            if q <= u128::MAX {
                                                Ok(q as u128)
                                            } else {
                                                Err(MathError::ArithmeticOverflow)
                                            }
                                        },
                                    },
                                }
                            },
                        },
                    },
                },
            },
        }
    }
}

/// Shares minted for a deposit of a single asset.
pub open spec fn spec_calculate_shares_for_amount(
    reserves: Seq<AssetReserve>,
    idx_in: usize,
    amount: u128,
    amplification: u128,
    issuance: u128,
    fee: u32,
) -> Result<u128, MathError> {
    spec_calculate_shares(reserves, seq![(idx_in, amount)], amplification, issuance, fee)
}

/// The single-asset amount withdrawable for burning shares: the invariant is
/// scaled down by the burnt fraction of the issuance, the chosen reserve is
/// re-solved against it, and the fee applies only to the part of the payout
/// that exceeds a proportional withdrawal of that asset.
pub open spec fn spec_add_one_asset(
    reserves: Seq<AssetReserve>,
    shares: u128,
    idx_in: int,
    amplification: u128,
    issuance: u128,
    fee: u32,
) -> Result<u128, MathError> {
    if !(0 <= idx_in < reserves.len()) {
        Err(MathError::InvalidIndex)
    } else if shares >= issuance {
        Err(MathError::InsufficientLiquidity)
    } else {
        match spec_normalize_all(reserves) {
            None => Err(MathError::ArithmeticOverflow),
            Some(xp) => match spec_calculate_d(xp, amplification) {
                Err(e) => Err(e),
                Ok(d0) => {
                    let d1 = ((d0 as nat) * ((issuance - shares) as nat) / (
                    issuance as nat)) as u128;
                    let xp_y = with_updated_removed(xp, idx_in, xp[idx_in], idx_in);
                    match spec_calculate_y(xp_y, d1, amplification, reserves.len() as nat) {
                        Err(e) => Err(e),
                        Ok(y) => if y > xp[idx_in] {
                            Err(MathError::InsufficientLiquidity)
                        } else {
                            let gross = (xp[idx_in] - y) as u128;
                            let prop = (xp[idx_in] as nat) * (shares as nat) / (issuance as nat);
                            let imbalance = if gross > prop {
                                ((gross - prop) as nat) as u128
                            } else {
                                0u128
                            };
                            let net = (gross - spec_fee_amount(imbalance, fee)) as u128;
                            match spec_denormalize(net, reserves[idx_in].decimals) {
                                None => Err(MathError::ArithmeticOverflow),
                                Some(v) => Ok(v),
                            }
                        },
                    }
                },
            },
        }
    }
}

/// With no fee, the imbalance adjustment leaves every reserve untouched.
proof fn lemma_adjusted_zero_fee(xp0: Seq<u128>, xp1: Seq<u128>, d0: u128, d1: u128, k: int)
    requires
        0 <= k <= xp1.len(),
        d0 > 0,
    ensures
        spec_adjusted_prefix(xp0, xp1, d0, d1, 0, k) == Some(xp1.take(k)),
    decreases k,
{
    if k == 0 {
        assert(xp1.take(0) =~= Seq::<u128>::empty());
    } else {
        lemma_adjusted_zero_fee(xp0, xp1, d0, d1, k - 1);
        let ideal = (d1 as nat) * (xp0[k - 1] as nat) / (d0 as nat);
        let x1 = xp1[k - 1];
        let diff = if ideal >= x1 {
            (ideal - x1) as nat
        } else {
            (x1 - ideal) as nat
        };
        assert(diff * 0 == 0);
        assert(spec_adjusted_one(xp0[k - 1], xp1[k - 1], d0, d1, 0) == Some(xp1[k - 1]));
        assert(xp1.take(k) =~= xp1.take(k - 1).push(xp1[k - 1]));
    }
}

/// Share proportionality: a deposit made with no fee mints shares in exact
/// proportion to the growth of the invariant — the issuance scaled by
/// `(D_after - D_before) / D_before` — and no imbalance fee is charged on any
/// reserve.
pub proof fn lemma_zero_fee_share_proportionality(
    reserves: Seq<AssetReserve>,
    deposits: Seq<(usize, u128)>,
    amplification: u128,
    issuance: u128,
    shares: u128,
)
    requires
        issuance > 0,
        spec_calculate_shares(reserves, deposits, amplification, issuance, 0)
            == Ok::<u128, MathError>(shares),
    ensures
        spec_normalize_all(reserves) matches Some(xp) && spec_calculate_d(xp, amplification)
            matches Ok(d0) && spec_apply_deposits(reserves, deposits, deposits.len() as int)
            matches Some(updated) && spec_normalize_all(updated) matches Some(xp1)
            && spec_calculate_d(xp1, amplification) matches Ok(d1) && d0 > 0 && d1 >= d0
            && shares == ((issuance as nat) * ((d1 - d0) as nat)) / (d0 as nat),
{
    let xp = spec_normalize_all(reserves)->Some_0;
    lemma_normalize_all_some(reserves, xp);
    let updated = spec_apply_deposits(reserves, deposits, deposits.len() as int)->Some_0;
    assert(forall|i: int| 0 <= i < deposits.len() ==> (#[trigger] deposits[i]).0
        < reserves.len());
    lemma_apply_deposits_len(reserves, deposits, deposits.len() as int);
    let xp1 = spec_normalize_all(updated)->Some_0;
    lemma_normalize_all_some(updated, xp1);
    lemma_adjusted_zero_fee(xp, xp1, spec_calculate_d(xp, amplification)->Ok_0,
        spec_calculate_d(xp1, amplification)->Ok_0, xp.len() as int);
    assert(xp1.take(xp.len() as int) =~= xp1);
}

/// A set of reserves with one entry replaced.
fn reserve_vec_update(reserves: &Vec<AssetReserve>, i: usize, val: AssetReserve)
    -> (r: Vec<AssetReserve>)
    requires
        i < reserves@.len(),
    ensures
        r@ == reserves@.update(i as int, val),
{
    let n = reserves.len();
    let mut r: Vec<AssetReserve> = Vec::new();
    let mut j: usize = 0;
    while j < n
        invariant
            j <= n,
            n == reserves@.len(),
            i < n,
            r@.len() == j,
            forall|t: int| 0 <= t < j ==> r@[t] == reserves@.update(i as int, val)[t],
        decreases n - j,
    {
        if j == i {
            r.push(val);
        } else {
            r.push(reserves[j]);
        }
        j = j + 1;
    }
    proof {
        assert(r@ =~= reserves@.update(i as int, val));
    }
    r
}

/// Adds every deposit at its position, at its asset's native precision.
fn apply_deposits(
    reserves: &Vec<AssetReserve>,
    deposits: &Vec<(usize, u128)>,
) -> (r: Result<Vec<AssetReserve>, MathError>)
    requires
        forall|i: int| 0 <= i < deposits@.len() ==> (#[trigger] deposits@[i]).0
            < reserves@.len(),
    ensures
        (r matches Ok(v) ==> spec_apply_deposits(reserves@, deposits@, deposits@.len() as int)
            == Some(v@)),
        (r is Err ==> r == Result::<Vec<AssetReserve>, MathError>::Err(
            MathError::ArithmeticOverflow,
        ) && spec_apply_deposits(reserves@, deposits@, deposits@.len() as int) is None),
{
    let m = deposits.len();
    let n = reserves.len();
    let mut cur: Vec<AssetReserve> = Vec::new();
    let mut j: usize = 0;
    while j < n
        invariant
            j <= n,
            n == reserves@.len(),
            cur@.len() == j,
            forall|t: int| 0 <= t < j ==> cur@[t] == reserves@[t],
        decreases n - j,
    {
        cur.push(reserves[j]);
        j = j + 1;
    }
    proof {
        assert(cur@ =~= reserves@);
    }
    let mut k: usize = 0;
    while k < m
        invariant
            k <= m,
            m == deposits@.len(),
            forall|i: int| 0 <= i < deposits@.len() ==> (#[trigger] deposits@[i]).0
                < reserves@.len(),
            spec_apply_deposits(reserves@, deposits@, k as int) == Some(cur@),
        decreases m - k,
    {
        proof {
            lemma_apply_deposits_len(reserves@, deposits@, k as int);
        }
        let (idx, amt) = deposits[k];
        let raised = match cur[idx].amount.checked_add(amt) {
            Some(v) => v,
            None => {
                proof {
                    lemma_apply_deposits_none(reserves@, deposits@, k + 1, m as int);
                }
                return Err(MathError::ArithmeticOverflow);
            },
        };
        let decimals = cur[idx].decimals;
        cur = reserve_vec_update(&cur, idx, AssetReserve { amount: raised, decimals });
        k = k + 1;
    }
    Ok(cur)
}

/// One reserve with its imbalance fee taken out, at 256 bits.
fn adjusted_one(x0: u128, x1: u128, d0: u128, d1: u128, fee: u32) -> (r: Option<u128>)
    requires
        d0 > 0,
        fee <= FEE_DENOMINATOR,
    ensures
        r == spec_adjusted_one(x0, x1, d0, d1, fee),
{
    let d1w = wide_from_u128(d1);
    let x0w = wide_from_u128(x0);
    proof {
        lemma_u128_product_fits(d1w.val(), x0w.val());
    }
    let p = wide_mul(&d1w, &x0w).unwrap();
    let ideal = wide_div(&p, &wide_from_u128(d0)).unwrap();
    let x1w = wide_from_u128(x1);
    let diff = if wide_le(&x1w, &ideal) {
        wide_sub(&ideal, &x1w).unwrap()
    } else {
        wide_sub(&x1w, &ideal).unwrap()
    };
    let feew = wide_from_u128(fee as u128);
    let pf = match wide_mul(&diff, &feew) {
        Some(v) => v,
        None => {
            return None;
        },
    };
    let charge = wide_div(&pf, &wide_from_u128(1000000)).unwrap();
    if wide_le(&charge, &x1w) {
        let c = wide_to_u128(&charge).unwrap();
        Some(x1 - c)
    } else {
        None
    }
}

/// Every updated reserve with its imbalance fee taken out.
fn adjusted_reserves(xp0: &Vec<u128>, xp1: &Vec<u128>, d0: u128, d1: u128, fee: u32)
    -> (r: Result<Vec<u128>, MathError>)
    requires
        xp0@.len() == xp1@.len(),
        d0 > 0,
        fee <= FEE_DENOMINATOR,
    ensures
        (r matches Ok(v) ==> spec_adjusted_prefix(xp0@, xp1@, d0, d1, fee, xp0@.len() as int)
            == Some(v@)),
        (r is Err ==> r == Result::<Vec<u128>, MathError>::Err(MathError::ArithmeticOverflow)
            && spec_adjusted_prefix(xp0@, xp1@, d0, d1, fee, xp0@.len() as int) is None),
{
    let n = xp0.len();
    let mut out: Vec<u128> = Vec::new();
    let mut i: usize = 0;
    while i < n
        invariant
            i <= n,
            n == xp0@.len(),
            n == xp1@.len(),
            d0 > 0,
            fee <= FEE_DENOMINATOR,
            out@.len() == i,
            spec_adjusted_prefix(xp0@, xp1@, d0, d1, fee, i as int) == Some(out@),
        decreases n - i,
    {
        let v = match adjusted_one(xp0[i], xp1[i], d0, d1, fee) {
            Some(v) => v,
            None => {
                proof {
                    lemma_adjusted_none(xp0@, xp1@, d0, d1, fee, i + 1, n as int);
                }
                return Err(MathError::ArithmeticOverflow);
            },
        };
        out.push(v);
        i = i + 1;
    }
    Ok(out)
}

/// Shares minted for adding a set of deposits to the pool.
pub fn calculate_shares(
    reserves: &Vec<AssetReserve>,
    deposits: &Vec<(usize, u128)>,
    amplification: u128,
    issuance: u128,
    fee: u32,
) -> (r: Result<u128, MathError>)
    requires
        fee <= FEE_DENOMINATOR,
    ensures
        r == spec_calculate_shares(reserves@, deposits@, amplification, issuance, fee),
{
    let n = reserves.len();
    let m = deposits.len();
    if n == 0 || m > n {
        return Err(MathError::DegenerateInput);
    }
    let mut i: usize = 0;
    while i < m
        invariant
            i <= m,
            m == deposits@.len(),
            n == reserves@.len(),
            n > 0,
            m <= n,
            forall|j: int| 0 <= j < i ==> (#[trigger] deposits@[j]).0 < n,
        decreases m - i,
    {
        let (idx, _amt) = deposits[i];
        if idx >= n {
            proof {
                assert((deposits@[i as int]).0 >= reserves@.len());
            }
            return Err(MathError::InvalidIndex);
        }
        i = i + 1;
    }
    let mut k: usize = 0;
    while k < m
        invariant
            k <= m,
            m == deposits@.len(),
            n == reserves@.len(),
            n > 0,
            m <= n,
            forall|j: int| 0 <= j < m ==> (#[trigger] deposits@[j]).0 < n,
            forall|a: int, b: int| 0 <= a < b < m && a < k ==> deposits@[a].0 != deposits@[b].0,
        decreases m - k,
    {
        let (idx, _amt) = deposits[k];
        let mut j: usize = k + 1;
        while j < m
            invariant
                k < j <= m,
                m == deposits@.len(),
                n == reserves@.len(),
                n > 0,
                m <= n,
                forall|t: int| 0 <= t < m ==> (#[trigger] deposits@[t]).0 < n,
                idx == deposits@[k as int].0,
                forall|b: int| k < b < j ==> deposits@[b].0 != deposits@[k as int].0,
            decreases m - j,
        {
            let (other, _a) = deposits[j];
            if other == idx {
                return Err(MathError::DegenerateInput);
            }
            j = j + 1;
        }
        k = k + 1;
    }
    let xp = match normalize_reserves(reserves) {
        Ok(v) => v,
        Err(e) => {
            return Err(e);
        },
    };
    proof {
        lemma_normalize_all_some(reserves@, xp@);
    }
    let d0 = match calculate_d(&xp, amplification) {
        Ok(v) => v,
        Err(e) => {
            return Err(e);
        },
    };
    let updated = match apply_deposits(reserves, deposits) {
        Ok(v) => v,
        Err(e) => {
            return Err(e);
        },
    };
    let xp1 = match normalize_reserves(&updated) {
        Ok(v) => v,
        Err(e) => {
            return Err(e);
        },
    };
    proof {
        lemma_normalize_all_some(updated@, xp1@);
        lemma_apply_deposits_len(reserves@, deposits@, deposits@.len() as int);
    }
    let d1 = match calculate_d(&xp1, amplification) {
        Ok(v) => v,
        Err(e) => {
            return Err(e);
        },
    };
    if d1 < d0 {
        return Err(MathError::ArithmeticOverflow);
    }
    if issuance == 0 {
        return if d0 == 0 {
            Ok(d1)
        } else {
            Err(MathError::DegenerateInput)
        };
    }
    if d0 == 0 {
        return Err(MathError::DegenerateInput);
    }
    let adj = match adjusted_reserves(&xp, &xp1, d0, d1, fee) {
        Ok(v) => v,
        Err(e) => {
            return Err(e);
        },
    };
    let d2 = match calculate_d(&adj, amplification) {
        Ok(v) => v,
        Err(e) => {
            return Err(e);
        },
    };
    if d2 < d0 {
        return Err(MathError::ArithmeticOverflow);
    }
    let issw = wide_from_u128(issuance);
    let dw = wide_from_u128(d2 - d0);
    proof {
        lemma_u128_product_fits(issw.val(), dw.val());
    }
    let num = wide_mul(&issw, &dw).unwrap();
    let q = wide_div(&num, &wide_from_u128(d0)).unwrap();
    match wide_to_u128(&q) {
        Some(v) => Ok(v),
        None => Err(MathError::ArithmeticOverflow),
    }
}

/// Shares minted for depositing a single asset.
pub fn calculate_shares_for_amount(
    reserves: &Vec<AssetReserve>,
    idx_in: usize,
    amount: u128,
    amplification: u128,
    issuance: u128,
    fee: u32,
) -> (r: Result<u128, MathError>)
    requires
        fee <= FEE_DENOMINATOR,
    ensures
        r == spec_calculate_shares_for_amount(reserves@, idx_in, amount, amplification, issuance,
            fee),
{
    let deposits: Vec<(usize, u128)> = vec![(idx_in, amount)];
    proof {
        assert(deposits@ =~= seq![(idx_in, amount)]);
    }
    calculate_shares(reserves, &deposits, amplification, issuance, fee)
}

/// The single-asset amount withdrawable for burning the given shares.
pub fn calculate_add_one_asset(
    reserves: &Vec<AssetReserve>,
    shares: u128,
    idx_in: usize,
    amplification: u128,
    issuance: u128,
    fee: u32,
) -> (r: Result<u128, MathError>)
    requires
        fee <= FEE_DENOMINATOR,
    ensures
        r == spec_add_one_asset(reserves@, shares, idx_in as int, amplification, issuance, fee),
{
    let n = reserves.len();
    if idx_in >= n {
        return Err(MathError::InvalidIndex);
    }
    if shares >= issuance {
        return Err(MathError::InsufficientLiquidity);
    }
    let xp = match normalize_reserves(reserves) {
        Ok(v) => v,
        Err(e) => {
            return Err(e);
        },
    };
    proof {
        lemma_normalize_all_some(reserves@, xp@);
    }
    let d0 = match calculate_d(&xp, amplification) {
        Ok(v) => v,
        Err(e) => {
            return Err(e);
        },
    };
    let d0w = wide_from_u128(d0);
    let remw = wide_from_u128(issuance - shares);
    proof {
        lemma_u128_product_fits(d0w.val(), remw.val());
        lemma_interp_bounded(d0, (issuance - shares) as u128, issuance);
    }
    let p = wide_mul(&d0w, &remw).unwrap();
    let d1q = wide_div(&p, &wide_from_u128(issuance)).unwrap();
    let d1 = wide_to_u128(&d1q).unwrap();
    let xp_y = crate::swap::vec_update_remove(&xp, idx_in, xp[idx_in], idx_in);
    let y = match calculate_y(&xp_y, d1, amplification, n) {
        Ok(v) => v,
        Err(e) => {
            return Err(e);
        },
    };
    if y > xp[idx_in] {
        return Err(MathError::InsufficientLiquidity);
    }
    let gross = xp[idx_in] - y;
    let xw = wide_from_u128(xp[idx_in]);
    let sw = wide_from_u128(shares);
    proof {
        lemma_u128_product_fits(xw.val(), sw.val());
        lemma_interp_bounded(xp@[idx_in as int], shares, issuance);
    }
    let pp = wide_mul(&xw, &sw).unwrap();
    let propq = wide_div(&pp, &wide_from_u128(issuance)).unwrap();
    let prop = wide_to_u128(&propq).unwrap();
    let imbalance = if gross > prop {
        gross - prop
    } else {
        0
    };
    let charge = fee_amount(imbalance, fee);
    assert(charge <= gross);
    let net = gross - charge;
    match denormalize_value(net, reserves[idx_in].decimals) {
        Some(v) => Ok(v),
        None => Err(MathError::ArithmeticOverflow),
    }
}

} // verus!
