//! A deterministic StableSwap invariant engine: exact, overflow-checked
//! integer math for multi-asset pools with heterogeneous decimal precisions.
//!
//! Every operation is a pure function over plain values. The invariant and
//! reserve solvers iterate a fixed-point refinement under a fixed budget,
//! carrying intermediates at 256 bits; every public function's contract pins
//! its result to a mathematical model of that computation.

pub mod amplification;
pub mod fees;
pub mod liquidity;
pub mod norm;
pub mod solver;
pub mod swap;
pub mod types;
pub mod wide;

pub use amplification::calculate_amplification;
pub use fees::{FEE_DENOMINATOR, apply_fee_on_input, apply_fee_on_output, fee_amount};
pub use liquidity::{calculate_add_one_asset, calculate_shares, calculate_shares_for_amount};
pub use norm::{TARGET_DECIMALS, denormalize_value, normalize_reserves, normalize_value};
pub use solver::{D_ITERATIONS, Y_ITERATIONS, calculate_d, calculate_y};
pub use swap::{calculate_in_given_out, calculate_out_given_in};
pub use types::{AssetAmount, AssetBalance, AssetReserve, MathError, pool_account_name,
    position_of_asset};
