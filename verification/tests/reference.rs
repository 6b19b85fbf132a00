//! Cross-checks against an independent two-asset StableSwap implementation:
//! on pools of two assets at the reference precision the engine must agree
//! with it exactly.

use stableswap_math::{calculate_in_given_out, calculate_out_given_in, AssetReserve};

fn pool(a: u128, b: u128) -> Vec<AssetReserve> {
    vec![AssetReserve::new(a, 18), AssetReserve::new(b, 18)]
}

#[test]
fn out_given_in_matches_reference() {
    let cases: [(u128, u128, u128, u128); 3] = [
        (1000, 2000, 100, 1),
        (1_000_000_000_000_000_000, 1_000_000_000_000_000_000, 1_000_000_000_000_000, 100),
        (5_000_000_000_000, 7_000_000_000_000, 123_456_789, 310),
    ];
    for (reserve_in, reserve_out, amount_in, amp) in cases {
        let theirs = hydra_dx_math::stableswap::math::calculate_out_given_in::<128, 64>(
            reserve_in,
            reserve_out,
            amount_in,
            amp,
            1,
        )
        .unwrap();
        let ours = calculate_out_given_in(&pool(reserve_in, reserve_out), 0, 1, amount_in, amp, 0)
            .unwrap();
        assert_eq!(ours, theirs, "disagreement on reserves {}/{}", reserve_in, reserve_out);
    }
}

#[test]
fn in_given_out_matches_reference() {
    let cases: [(u128, u128, u128, u128); 2] = [
        (1000, 2000, 100, 1),
        (1_000_000_000_000_000_000, 1_000_000_000_000_000_000, 1_000_000_000_000_000, 100),
    ];
    for (reserve_in, reserve_out, amount_out, amp) in cases {
        let theirs = hydra_dx_math::stableswap::math::calculate_in_given_out::<128, 64>(
            reserve_in,
            reserve_out,
            amount_out,
            amp,
            1,
        )
        .unwrap();
        let ours = calculate_in_given_out(&pool(reserve_in, reserve_out), 0, 1, amount_out, amp,
            0)
        .unwrap();
        assert_eq!(ours, theirs, "disagreement on reserves {}/{}", reserve_in, reserve_out);
    }
}
