use vstd::prelude::*;
use crate::fees::{FEE_DENOMINATOR, apply_fee_on_output, apply_fee_on_input, spec_fee_amount};
use crate::norm::{lemma_normalize_all_some, normalize_reserves, denormalize_value,
    normalize_value, spec_denormalize, spec_normalize, spec_normalize_all};
use crate::solver::{calculate_d, calculate_y, lemma_calculate_d_error_kinds,
    lemma_calculate_y_error_kinds, spec_calculate_d, spec_calculate_y};
use crate::types::{AssetReserve, MathError};

verus! {

/// The reserve set a swap hands to the reserve solver: one entry replaced,
/// one entry left out.
pub open spec fn with_updated_removed(xp: Seq<u128>, upd_i: int, val: u128, rem_i: int)
    -> Seq<u128> {
    Seq::new((xp.len() - 1) as nat, |t: int| if t < rem_i {
        xp.update(upd_i, val)[t]
    } else {
        xp.update(upd_i, val)[t + 1]
    })
}

/// Builds the reserve set with one entry replaced and one left out.
pub(crate) fn vec_update_remove(xp: &Vec<u128>, upd_i: usize, val: u128, rem_i: usize) -> (r: Vec<u128>)
    requires
        upd_i < xp@.len(),
        rem_i < xp@.len(),
    ensures
        r@ == with_updated_removed(xp@, upd_i as int, val, rem_i as int),
{
    let len = xp.len();
    let mut r: Vec<u128> = Vec::new();
    let mut j: usize = 0;
    while j < len
        invariant
            j <= len,
            len == xp@.len(),
            upd_i < len,
            rem_i < len,
            r@.len() == (if j <= rem_i {
                j as int
            } else {
                j - 1
            }),
            forall|t: int| 0 <= t < r@.len() ==> r@[t] == (if t < rem_i {
                xp@.update(upd_i as int, val)[t]
            } else {
                xp@.update(upd_i as int, val)[t + 1]
            }),
        decreases len - j,
    {
        if j != rem_i {
            if j == upd_i {
                r.push(val);
            } else {
                r.push(xp[j]);
            }
        }
        j = j + 1;
    }
    proof {
        assert(r@ =~= with_updated_removed(xp@, upd_i as int, val, rem_i as int));
    }
    r
}

/// The amount a swapper receives for a given amount sent in: the invariant
/// over the current reserves is computed, the incoming reserve is raised by
/// the normalized input, the outgoing reserve is re-solved holding the
/// invariant fixed, and the gross difference, less the proportional fee and
/// rescaled to the outgoing asset's precision, is the result.
pub open spec fn spec_out_given_in(
    reserves: Seq<AssetReserve>,
    idx_in: int,
    idx_out: int,
    amount_in: u128,
    amplification: u128,
    fee: u32,
) -> Result<u128, MathError> {
    if !(0 <= idx_in < reserves.len()) || !(0 <= idx_out < reserves.len()) || idx_in == idx_out {
        Err(MathError::InvalidIndex)
    } else {
        match spec_normalize_all(reserves) {
            None => Err(MathError::ArithmeticOverflow),
            Some(xp) => match spec_normalize(amount_in, reserves[idx_in].decimals) {
                None => Err(MathError::ArithmeticOverflow),
                Some(ain) => match spec_calculate_d(xp, amplification) {
                    Err(e) => Err(e),
                    Ok(d) => if xp[idx_in] + ain > u128::MAX {
                        Err(MathError::ArithmeticOverflow)
                    } else {
                        let xp_y = with_updated_removed(xp, idx_in, (xp[idx_in] + ain) as u128,
                            idx_out);
                        match spec_calculate_y(xp_y, d, amplification, reserves.len() as nat) {
                            Err(e) => Err(e),
                            Ok(y) => if y > xp[idx_out] {
                                Err(MathError::InsufficientLiquidity)
                            } else {
                                let gross = (xp[idx_out] - y) as u128;
                                let net = (gross - spec_fee_amount(gross, fee)) as u128;
                                match spec_denormalize(net, reserves[idx_out].decimals) {
                                    None => Err(MathError::ArithmeticOverflow),
                                    Some(out) => Ok(out),
                                }
                            },
                        }
                    },
                },
            },
        }
    }
}

/// The amount a swapper must send in to receive a given amount: the desired
/// output is first inflated by the proportional fee, the outgoing reserve is
/// lowered by it, the incoming reserve is re-solved holding the invariant
/// fixed, and the difference, rescaled to the incoming asset's precision, is
/// the result. An output that meets or exceeds the available reserve cannot
/// be served.
pub open spec fn spec_in_given_out(
    reserves: Seq<AssetReserve>,
    idx_in: int,
    idx_out: int,
    amount_out: u128,
    amplification: u128,
    fee: u32,
) -> Result<u128, MathError> {
    if !(0 <= idx_in < reserves.len()) || !(0 <= idx_out < reserves.len()) || idx_in == idx_out {
        Err(MathError::InvalidIndex)
    } else {
        match spec_normalize_all(reserves) {
            None => Err(MathError::ArithmeticOverflow),
            Some(xp) => match spec_normalize(amount_out, reserves[idx_out].decimals) {
                None => Err(MathError::ArithmeticOverflow),
                Some(aout) => if aout + spec_fee_amount(aout, fee) > u128::MAX {
                    Err(MathError::ArithmeticOverflow)
                } else {
                    let with_fee = (aout + spec_fee_amount(aout, fee)) as u128;
                    if with_fee >= xp[idx_out] {
                        Err(MathError::InsufficientLiquidity)
                    } else {
                        match spec_calculate_d(xp, amplification) {
                            Err(e) => Err(e),
                            Ok(d) => {
                                let xp_y = with_updated_removed(xp, idx_out, (xp[idx_out]
                                    - with_fee) as u128, idx_in);
                                match spec_calculate_y(xp_y, d, amplification,
                                    reserves.len() as nat) {
                                    Err(e) => Err(e),
                                    Ok(y) => if y < xp[idx_in] {
                                        Err(MathError::ArithmeticOverflow)
                                    } else {
                                        let need = (y - xp[idx_in]) as u128;
                                        match spec_denormalize(need, reserves[idx_in].decimals) {
                                            None => Err(MathError::ArithmeticOverflow),
                                            Some(v) => Ok(v),
                                        }
                                    },
                                }
                            },
                        }
                    }
                },
            },
        }
    }
}

/// A swap fails with the index error exactly when one of its positions lies
/// out of range or the two coincide: no other input produces that error, and
/// no such input ever yields a numeric result.
pub proof fn lemma_swap_index_validation(
    reserves: Seq<AssetReserve>,
    idx_in: int,
    idx_out: int,
    amount_in: u128,
    amount_out: u128,
    amplification: u128,
    fee: u32,
)
    ensures
        (spec_out_given_in(reserves, idx_in, idx_out, amount_in, amplification, fee)
            == Err::<u128, MathError>(MathError::InvalidIndex)) <==> (!(0 <= idx_in
            < reserves.len()) || !(0 <= idx_out < reserves.len()) || idx_in == idx_out),
        (spec_in_given_out(reserves, idx_in, idx_out, amount_out, amplification, fee)
            == Err::<u128, MathError>(MathError::InvalidIndex)) <==> (!(0 <= idx_in
            < reserves.len()) || !(0 <= idx_out < reserves.len()) || idx_in == idx_out),
{
    if 0 <= idx_in < reserves.len() && 0 <= idx_out < reserves.len() && idx_in != idx_out {
        match spec_normalize_all(reserves) {
            None => {},
            Some(xp) => {
                lemma_calculate_d_error_kinds(xp, amplification);
                match spec_normalize(amount_in, reserves[idx_in].decimals) {
                    None => {},
                    Some(ain) => {
                        if xp[idx_in] + ain <= u128::MAX {
                            let xp_y = with_updated_removed(xp, idx_in, (xp[idx_in]
                                + ain) as u128, idx_out);
                            lemma_calculate_y_error_kinds(xp_y, spec_calculate_d(xp,
                                amplification)->Ok_0, amplification, reserves.len() as nat);
                        }
                    },
                }
                match spec_normalize(amount_out, reserves[idx_out].decimals) {
                    None => {},
                    Some(aout) => {
                        if aout + spec_fee_amount(aout, fee) <= u128::MAX {
                            let with_fee = (aout + spec_fee_amount(aout, fee)) as u128;
                            if with_fee < xp[idx_out] {
                                let xp_y = with_updated_removed(xp, idx_out, (xp[idx_out]
                                    - with_fee) as u128, idx_in);
                                lemma_calculate_y_error_kinds(xp_y, spec_calculate_d(xp,
                                    amplification)->Ok_0, amplification, reserves.len() as nat);
                            }
                        }
                    },
                }
            },
        }
    }
}

/// Given the amount sent to the pool, the amount received from it.
pub fn calculate_out_given_in(
    reserves: &Vec<AssetReserve>,
    idx_in: usize,
    idx_out: usize,
    amount_in: u128,
    amplification: u128,
    fee: u32,
) -> (r: Result<u128, MathError>)
    requires
        fee <= FEE_DENOMINATOR,
    ensures
        r == spec_out_given_in(reserves@, idx_in as int, idx_out as int, amount_in, amplification,
            fee),
{
    let n = reserves.len();
    if idx_in >= n || idx_out >= n || idx_in == idx_out {
        return Err(MathError::InvalidIndex);
    }
    let xp = match normalize_reserves(reserves) {
        Ok(v) => v,
        Err(e) => {
            return Err(e);
        },
    };
    proof {
        lemma_normalize_all_some(reserves@, xp@);
    }
    let ain = match normalize_value(amount_in, reserves[idx_in].decimals) {
        Some(v) => v,
        None => {
            return Err(MathError::ArithmeticOverflow);
        },
    };
    let d = match calculate_d(&xp, amplification) {
        Ok(v) => v,
        Err(e) => {
            return Err(e);
        },
    };
    let new_in = match xp[idx_in].checked_add(ain) {
        Some(v) => v,
        None => {
            return Err(MathError::ArithmeticOverflow);
        },
    };
    let xp_y = vec_update_remove(&xp, idx_in, new_in, idx_out);
    let y = match calculate_y(&xp_y, d, amplification, n) {
        Ok(v) => v,
        Err(e) => {
            return Err(e);
        },
    };
    if y > xp[idx_out] {
        return Err(MathError::InsufficientLiquidity);
    }
    let gross = xp[idx_out] - y;
    let net = apply_fee_on_output(gross, fee);
    match denormalize_value(net, reserves[idx_out].decimals) {
        Some(v) => Ok(v),
        None => Err(MathError::ArithmeticOverflow),
    }
}

/// Given the amount to be received from the pool, the amount to send to it.
pub fn calculate_in_given_out(
    reserves: &Vec<AssetReserve>,
    idx_in: usize,
    idx_out: usize,
    amount_out: u128,
    amplification: u128,
    fee: u32,
) -> (r: Result<u128, MathError>)
    requires
        fee <= FEE_DENOMINATOR,
    ensures
        r == spec_in_given_out(reserves@, idx_in as int, idx_out as int, amount_out,
            amplification, fee),
{
    let n = reserves.len();
    if idx_in >= n || idx_out >= n || idx_in == idx_out {
        return Err(MathError::InvalidIndex);
    }
    let xp = match normalize_reserves(reserves) {
        Ok(v) => v,
        Err(e) => {
            return Err(e);
        },
    };
    proof {
        lemma_normalize_all_some(reserves@, xp@);
    }
    let aout = match normalize_value(amount_out, reserves[idx_out].decimals) {
        Some(v) => v,
        None => {
            return Err(MathError::ArithmeticOverflow);
        },
    };
    let with_fee = match apply_fee_on_input(aout, fee) {
        Some(v) => v,
        None => {
            return Err(MathError::ArithmeticOverflow);
        },
    };
    if with_fee >= xp[idx_out] {
        return Err(MathError::InsufficientLiquidity);
    }
    let d = match calculate_d(&xp, amplification) {
        Ok(v) => v,
        Err(e) => {
            return Err(e);
        },
    };
    let xp_y = vec_update_remove(&xp, idx_out, xp[idx_out] - with_fee, idx_in);
    let y = match calculate_y(&xp_y, d, amplification, n) {
        Ok(v) => v,
        Err(e) => {
            return Err(e);
        },
    };
    if y < xp[idx_in] {
        return Err(MathError::ArithmeticOverflow);
    }
    let need = y - xp[idx_in];
    match denormalize_value(need, reserves[idx_in].decimals) {
        Some(v) => Ok(v),
        None => Err(MathError::ArithmeticOverflow),
    }
}

} // verus!
