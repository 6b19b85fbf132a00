use stableswap_math::{
    calculate_add_one_asset, calculate_amplification, calculate_d, calculate_in_given_out,
    calculate_out_given_in, calculate_shares, calculate_shares_for_amount, denormalize_value,
    normalize_value, pool_account_name, position_of_asset, AssetBalance, AssetReserve, MathError,
};

fn two_pool(amount: u128, decimals: u8) -> Vec<AssetReserve> {
    vec![AssetReserve::new(amount, decimals), AssetReserve::new(amount, decimals)]
}

#[test]
fn normalize_round_trip_widening() {
    let n = normalize_value(123456, 6).unwrap();
    assert_eq!(n, 123456 * 1_000_000_000_000);
    assert_eq!(denormalize_value(n, 6), Some(123456));
}

#[test]
fn normalize_round_trip_narrowing() {
    // 24 fractional digits: normalization divides by 10^6.
    let n = normalize_value(5_000_000, 24).unwrap();
    assert_eq!(n, 5);
    assert_eq!(denormalize_value(n, 24), Some(5_000_000));
}

#[test]
fn normalize_floors_lost_precision() {
    assert_eq!(normalize_value(123, 24), Some(0));
    assert_eq!(normalize_value(u128::MAX, 0), None);
}

#[test]
fn denormalize_overflow_fails() {
    assert_eq!(denormalize_value(u128::MAX, 30), None);
    assert_eq!(denormalize_value(0, 30), Some(0));
}

#[test]
fn amplification_boundaries() {
    // At or before the ramp start the initial value holds exactly.
    assert_eq!(calculate_amplification(100, 500, 1000, 2000, 999), 100);
    assert_eq!(calculate_amplification(100, 500, 1000, 2000, 1000), 100);
    // At or past the ramp end the final value holds exactly.
    assert_eq!(calculate_amplification(100, 500, 1000, 2000, 2000), 500);
    assert_eq!(calculate_amplification(100, 500, 1000, 2000, 2500), 500);
    // An empty ramp returns the final value immediately.
    assert_eq!(calculate_amplification(100, 500, 1500, 1500, 1200), 500);
}

#[test]
fn amplification_midpoint_and_interpolation() {
    // Exact midpoint of an even range: the mean of the endpoints.
    assert_eq!(calculate_amplification(100, 500, 1000, 2000, 1500), 300);
    // Downward ramp, same midpoint.
    assert_eq!(calculate_amplification(500, 100, 1000, 2000, 1500), 300);
    // A quarter of the way: 100 + 400 * 250 / 1000 = 200.
    assert_eq!(calculate_amplification(100, 500, 1000, 2000, 1250), 200);
    // Rounds down between exact steps: 100 + 400 * 333 / 1000 = 233.2.
    assert_eq!(calculate_amplification(100, 500, 1000, 2000, 1333), 233);
}

#[test]
fn account_name_bytes() {
    assert_eq!(pool_account_name(7), vec![115, 116, 115, 7, 0, 0, 0]);
    assert_eq!(pool_account_name(0x01020304), vec![115, 116, 115, 4, 3, 2, 1]);
}

#[test]
fn position_lookup() {
    let balances = vec![
        AssetBalance { asset_id: 3, amount: 10, decimals: 6 },
        AssetBalance { asset_id: 7, amount: 20, decimals: 12 },
    ];
    assert_eq!(position_of_asset(&balances, 7), Some(1));
    assert_eq!(position_of_asset(&balances, 4), None);
}

#[test]
fn invariant_reference_values() {
    // Two equal reserves at the reference precision settle two units above
    // the reserve sum.
    let xp = vec![1000u128, 1000u128];
    assert_eq!(calculate_d(&xp, 1), Ok(2002));
    let xp = vec![
        1_000_000_000_000_000_000_000u128,
        1_000_000_000_000_000_000_000u128,
    ];
    assert_eq!(calculate_d(&xp, 1), Ok(2_000_000_000_000_000_000_002));
    let xp = vec![1000u128, 2000u128];
    assert_eq!(calculate_d(&xp, 1), Ok(2942));
}

#[test]
fn invariant_degenerate_inputs() {
    assert_eq!(calculate_d(&vec![], 100), Err(MathError::DegenerateInput));
    assert_eq!(calculate_d(&vec![5, 5], 0), Err(MathError::DegenerateInput));
    assert_eq!(calculate_d(&vec![0, 0], 100), Ok(0));
    assert_eq!(calculate_d(&vec![0, 5], 100), Err(MathError::DegenerateInput));
}

#[test]
fn invariant_overflow_inputs() {
    // The very first interleaved product already leaves 256 bits.
    assert_eq!(
        calculate_d(&vec![u128::MAX, 1], 1),
        Err(MathError::ArithmeticOverflow)
    );
    // Folding the asset count into the amplification leaves 128 bits.
    assert_eq!(
        calculate_d(&vec![5, 5], u128::MAX),
        Err(MathError::ArithmeticOverflow)
    );
}

#[test]
fn swap_reference_values() {
    // A 1000/2000 pool at the reference precision, amplification 1, no fee.
    let reserves = vec![AssetReserve::new(1000, 18), AssetReserve::new(2000, 18)];
    assert_eq!(calculate_out_given_in(&reserves, 0, 1, 100, 1, 0), Ok(121));
    assert_eq!(calculate_in_given_out(&reserves, 0, 1, 100, 1, 0), Ok(83));
}

#[test]
fn balanced_pool_swap_near_peg() {
    // Two six-decimal assets of one million units each, amplification 100:
    // a thousand units in buy just under a thousand units out.
    let reserves = two_pool(1_000_000, 6);
    let out = calculate_out_given_in(&reserves, 0, 1, 1000, 100, 0).unwrap();
    assert!(out < 1000, "swap output {} must stay below the input near peg", out);
    assert!(out >= 990, "swap output {} should stay close to the input near peg", out);
}

#[test]
fn swap_invariant_preserved() {
    let reserves = two_pool(1_000_000, 6);
    let amount_in: u128 = 1000;
    let out = calculate_out_given_in(&reserves, 0, 1, amount_in, 100, 0).unwrap();
    let xp0 = vec![
        normalize_value(1_000_000, 6).unwrap(),
        normalize_value(1_000_000, 6).unwrap(),
    ];
    let d_before = calculate_d(&xp0, 100).unwrap();
    let xp1 = vec![
        xp0[0] + normalize_value(amount_in, 6).unwrap(),
        xp0[1] - normalize_value(out, 6).unwrap(),
    ];
    let d_after = calculate_d(&xp1, 100).unwrap();
    assert!(d_after >= d_before, "a swap may never lower the invariant");
    // The distance stays within one denormalized unit of the traded asset
    // plus the solver's own tolerance.
    assert!(d_after - d_before <= 2_000_000_000_000);
}

#[test]
fn swap_zero_fee_round_trip() {
    let reserves = two_pool(1_000_000, 6);
    let out = calculate_out_given_in(&reserves, 0, 1, 1000, 100, 0).unwrap();
    let recovered = calculate_in_given_out(&reserves, 0, 1, out, 100, 0).unwrap();
    assert!(
        recovered <= 1002 && recovered + 4 >= 1000,
        "round trip of 1000 gave {} out and {} back",
        out,
        recovered
    );
}

#[test]
fn swap_output_monotonic_in_input() {
    let reserves = two_pool(1_000_000, 6);
    let small = calculate_out_given_in(&reserves, 0, 1, 1_000, 100, 0).unwrap();
    let mid = calculate_out_given_in(&reserves, 0, 1, 10_000, 100, 0).unwrap();
    let large = calculate_out_given_in(&reserves, 0, 1, 100_000, 100, 0).unwrap();
    assert!(small < mid && mid < large);
}

#[test]
fn swap_fee_reduces_output() {
    let reserves = two_pool(1_000_000, 6);
    let no_fee = calculate_out_given_in(&reserves, 0, 1, 100_000, 100, 0).unwrap();
    // 3000 parts per million: 0.3 percent.
    let with_fee = calculate_out_given_in(&reserves, 0, 1, 100_000, 100, 3000).unwrap();
    assert!(with_fee < no_fee);
    // The fee is charged at the reference precision before the result is
    // rescaled, so the visible difference may sit one unit off the naive
    // proportion.
    let charged = no_fee - with_fee;
    let proportional = no_fee * 3000 / 1_000_000;
    assert!(charged >= proportional - 1 && charged <= proportional + 1);
}

#[test]
fn swap_invalid_indices_fail() {
    let reserves = two_pool(1_000_000, 6);
    assert_eq!(
        calculate_out_given_in(&reserves, 0, 0, 1000, 100, 0),
        Err(MathError::InvalidIndex)
    );
    assert_eq!(
        calculate_out_given_in(&reserves, 0, 5, 1000, 100, 0),
        Err(MathError::InvalidIndex)
    );
    assert_eq!(
        calculate_in_given_out(&reserves, 1, 1, 1000, 100, 0),
        Err(MathError::InvalidIndex)
    );
    assert_eq!(
        calculate_in_given_out(&reserves, 2, 1, 1000, 100, 0),
        Err(MathError::InvalidIndex)
    );
}

#[test]
fn swap_cannot_drain_reserve() {
    let reserves = two_pool(1_000_000, 6);
    assert_eq!(
        calculate_in_given_out(&reserves, 0, 1, 1_000_000, 100, 0),
        Err(MathError::InsufficientLiquidity)
    );
}

#[test]
fn swap_overflowing_normalization_fails() {
    let reserves = vec![AssetReserve::new(u128::MAX, 0), AssetReserve::new(1_000_000, 6)];
    assert_eq!(
        calculate_out_given_in(&reserves, 0, 1, 1000, 100, 0),
        Err(MathError::ArithmeticOverflow)
    );
}

#[test]
fn shares_initial_mint_equals_invariant() {
    // An empty pool bootstrapped with one unit of each asset mints the full
    // invariant of the deposited reserves.
    let reserves = two_pool(0, 6);
    let deposits = vec![(0usize, 1_000_000u128), (1usize, 1_000_000u128)];
    assert_eq!(
        calculate_shares(&reserves, &deposits, 100, 0, 0),
        Ok(2_000_000_000_000_000_002)
    );
}

#[test]
fn shares_balanced_deposit_proportional() {
    // Depositing one percent of each reserve mints about one percent of the
    // issuance, and a balanced deposit is charged no imbalance fee.
    let reserves = two_pool(1_000_000_000, 6);
    let deposits = vec![(0usize, 10_000_000u128), (1usize, 10_000_000u128)];
    let issuance: u128 = 1_000_000;
    let no_fee = calculate_shares(&reserves, &deposits, 100, issuance, 0).unwrap();
    assert!(no_fee >= 9_990 && no_fee <= 10_010, "one percent deposit minted {}", no_fee);
    let with_fee = calculate_shares(&reserves, &deposits, 100, issuance, 100_000).unwrap();
    assert_eq!(no_fee, with_fee);
}

#[test]
fn three_asset_swap_near_peg() {
    let reserves = vec![
        AssetReserve::new(1_000_000, 6),
        AssetReserve::new(1_000_000, 6),
        AssetReserve::new(1_000_000, 6),
    ];
    let out = calculate_out_given_in(&reserves, 0, 2, 1000, 100, 0).unwrap();
    assert!(out < 1000 && out >= 990, "three-asset swap gave {}", out);
}

#[test]
fn unbalanced_deposit_pays_imbalance_fee() {
    // A one-sided deposit moves the pool off its ratio, so a nonzero fee must
    // strictly reduce the minted shares.
    let reserves = two_pool(1_000_000_000, 6);
    let issuance: u128 = 1_000_000_000;
    let deposits = vec![(0usize, 100_000_000u128)];
    let no_fee = calculate_shares(&reserves, &deposits, 100, issuance, 0).unwrap();
    let with_fee = calculate_shares(&reserves, &deposits, 100, issuance, 100_000).unwrap();
    assert!(with_fee < no_fee, "fee {} must undercut fee-free {}", with_fee, no_fee);
}

#[test]
fn deposit_overflowing_native_balance_fails() {
    // The deposit is added at the asset's native precision before anything is
    // rescaled: a sum past the 128-bit domain is a hard failure even when the
    // deposited amount would vanish under flooring to the reference precision.
    let reserves = vec![
        AssetReserve::new(u128::MAX - 5, 24),
        AssetReserve::new(u128::MAX - 5, 24),
    ];
    let deposits = vec![(0usize, 10u128)];
    assert_eq!(
        calculate_shares(&reserves, &deposits, 100, 1000, 0),
        Err(MathError::ArithmeticOverflow)
    );
}

#[test]
fn deposit_below_reference_precision_still_counts() {
    // At 24 decimals one reference unit is a million native units. A deposit
    // below that must still raise the native balance before flooring, so here
    // it lifts the first reserve from one reference unit to two.
    let reserves = vec![
        AssetReserve::new(1_500_000, 24),
        AssetReserve::new(1_500_000, 24),
    ];
    let deposits = vec![(0usize, 600_000u128)];
    assert_eq!(calculate_shares(&reserves, &deposits, 100, 1000, 0), Ok(250));
}

#[test]
fn shares_degenerate_inputs_fail() {
    let reserves = two_pool(1_000_000, 6);
    let duplicated = vec![(0usize, 10u128), (0usize, 20u128)];
    assert_eq!(
        calculate_shares(&reserves, &duplicated, 100, 1000, 0),
        Err(MathError::DegenerateInput)
    );
    let too_many = vec![(0usize, 1u128), (1usize, 1u128), (1usize, 1u128)];
    assert_eq!(
        calculate_shares(&reserves, &too_many, 100, 1000, 0),
        Err(MathError::DegenerateInput)
    );
    let out_of_range = vec![(5usize, 10u128)];
    assert_eq!(
        calculate_shares(&reserves, &out_of_range, 100, 1000, 0),
        Err(MathError::InvalidIndex)
    );
    // A pool that already holds value cannot mint against a zero issuance.
    let deposit = vec![(0usize, 10u128)];
    assert_eq!(
        calculate_shares(&reserves, &deposit, 100, 0, 0),
        Err(MathError::DegenerateInput)
    );
}

#[test]
fn shares_for_amount_matches_single_deposit() {
    let reserves = two_pool(1_000_000_000, 6);
    let issuance: u128 = 1_000_000;
    let single = vec![(0usize, 10_000_000u128)];
    assert_eq!(
        calculate_shares_for_amount(&reserves, 0, 10_000_000, 100, issuance, 0),
        calculate_shares(&reserves, &single, 100, issuance, 0)
    );
}

#[test]
fn withdraw_single_asset_basic() {
    let reserves = two_pool(1_000_000_000, 6);
    let issuance: u128 = 2_000_000_000_000_000_000_000;
    let shares = issuance / 100;
    let out = calculate_add_one_asset(&reserves, shares, 0, 100, issuance, 0).unwrap();
    assert!(out > 0 && out < 1_000_000_000, "withdrew {}", out);
    // One percent of the shares frees about two percent of one reserve.
    assert!(out >= 19_000_000 && out <= 20_100_000, "withdrew {}", out);
    // A fee can only lower the payout.
    let with_fee = calculate_add_one_asset(&reserves, shares, 0, 100, issuance, 10_000).unwrap();
    assert!(with_fee <= out);
}

#[test]
fn withdraw_burning_all_shares_fails() {
    let reserves = two_pool(1_000_000_000, 6);
    assert_eq!(
        calculate_add_one_asset(&reserves, 1000, 0, 100, 1000, 0),
        Err(MathError::InsufficientLiquidity)
    );
    assert_eq!(
        calculate_add_one_asset(&reserves, 0, 0, 100, 0, 0),
        Err(MathError::InsufficientLiquidity)
    );
    assert_eq!(
        calculate_add_one_asset(&reserves, 10, 5, 100, 1000, 0),
        Err(MathError::InvalidIndex)
    );
}
