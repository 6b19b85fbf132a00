use vstd::prelude::*;
use crate::fees::lemma_u128_product_fits;
use crate::types::MathError;
use crate::wide::{Wide, wide_add, wide_div, wide_from_u128, wide_limit, wide_mul, wide_sub,
    wide_to_u128, wide_within_one, within_one};

verus! {

/// Iteration budget of the invariant solver.
pub const D_ITERATIONS: u8 = 128;

/// Iteration budget of the reserve solver.
pub const Y_ITERATIONS: u8 = 64;

/// Checked 256-bit addition over mathematical numbers.
pub open spec fn w_add(a: nat, b: nat) -> Option<nat> {
    if a + b < wide_limit() {
        Some(a + b)
    } else {
        None
    }
}

/// Checked subtraction over mathematical numbers.
pub open spec fn w_sub(a: nat, b: nat) -> Option<nat> {
    if b <= a {
        Some((a - b) as nat)
    } else {
        None
    }
}

/// Checked 256-bit multiplication over mathematical numbers.
pub open spec fn w_mul(a: nat, b: nat) -> Option<nat> {
    if a * b < wide_limit() {
        Some(a * b)
    } else {
        None
    }
}

/// Checked division over mathematical numbers, rounding down.
pub open spec fn w_div(a: nat, b: nat) -> Option<nat> {
    if b == 0 {
        None
    } else {
        Some(a / b)
    }
}

/// The amplification coefficient folded `k` more times with the asset count,
/// at 128 bits: after all folds this is `amplification * n^n`.
pub open spec fn spec_ann(acc: nat, n: nat, k: nat) -> Option<nat>
    decreases k,
{
    if k == 0 {
        Some(acc)
    } else if acc * n <= u128::MAX {
        spec_ann(acc * n, n, (k - 1) as nat)
    } else {
        None
    }
}

/// A fold that starts at one or more stays at one or more.
pub proof fn lemma_ann_positive(acc: nat, n: nat, k: nat)
    requires
        acc >= 1,
        n >= 1,
        spec_ann(acc, n, k) is Some,
    ensures
        spec_ann(acc, n, k)->Some_0 >= 1,
    decreases k,
{
    if k > 0 && acc * n <= u128::MAX {
        assert(acc * n >= 1) by (nonlinear_arith)
            requires
                acc >= 1,
                n >= 1,
        ;
        lemma_ann_positive(acc * n, n, (k - 1) as nat);
    }
}

/// The sum of the first `i` normalized reserves.
pub open spec fn sum_prefix(xp: Seq<u128>, i: int) -> nat
    decreases i,
{
    if i <= 0 {
        0
    } else {
        (sum_prefix(xp, i - 1) + xp[i - 1]) as nat
    }
}

/// Whether every entry is zero.
pub open spec fn all_zero(xp: Seq<u128>) -> bool {
    forall|i: int| 0 <= i < xp.len() ==> xp[i] == 0
}

/// Whether some entry is zero.
pub open spec fn has_zero(xp: Seq<u128>) -> bool {
    exists|i: int| 0 <= i < xp.len() && xp[i] == 0
}

/// The interleaved product fold of the solvers, starting at entry `i`:
/// each step multiplies the accumulator by `d` and divides by `n` times the
/// entry, keeping intermediates inside 256 bits.
pub open spec fn spec_d_p(xp: Seq<u128>, n: nat, d: nat, acc: nat, i: int) -> Option<nat>
    decreases xp.len() - i,
{
    if i < 0 || i >= xp.len() {
        Some(acc)
    } else {
        match w_mul(acc, d) {
            None => None,
            Some(t) => match w_div(t, (xp[i] as nat) * n) {
                None => None,
                Some(acc2) => spec_d_p(xp, n, d, acc2, i + 1),
            },
        }
    }
}

/// One refinement step of the invariant iteration:
/// `d' = (ann*s + n*d_p) * d / ((ann-1)*d + (n+1)*d_p) + 2`, every operation
/// checked at 256 bits.
pub open spec fn spec_d_step(xp: Seq<u128>, n: nat, ann: nat, s: nat, d: nat) -> Option<nat> {
    match spec_d_p(xp, n, d, d, 0) {
        None => None,
        Some(d_p) => match w_mul(ann, s) {
            None => None,
            Some(t1) => match w_mul(d_p, n) {
                None => None,
                Some(t2) => match w_add(t1, t2) {
                    None => None,
                    Some(t3) => match w_mul(t3, d) {
                        None => None,
                        Some(num) => match w_sub(ann, 1) {
                            None => None,
                            Some(a1) => match w_mul(a1, d) {
                                None => None,
                                Some(t4) => match w_mul(n + 1, d_p) {
                                    None => None,
                                    Some(t5) => match w_add(t4, t5) {
                                        None => None,
                                        Some(den) => match w_div(num, den) {
                                            None => None,
                                            Some(q) => w_add(q, 2),
                                        },
                                    },
                                },
                            },
                        },
                    },
                },
            },
        },
    }
}

/// The invariant iteration with a remaining budget: refine until two
/// consecutive iterates differ by at most one unit, fail on an exhausted
/// budget, and never return an approximate value silently.
pub open spec fn spec_d_rec(xp: Seq<u128>, n: nat, ann: nat, s: nat, d: nat, budget: nat)
    -> Result<u128, MathError>
    decreases budget,
{
    if budget == 0 {
        Err(MathError::NonConvergence)
    } else {
        match spec_d_step(xp, n, ann, s, d) {
            None => Err(MathError::ArithmeticOverflow),
            Some(d2) => if within_one(d2, d) {
                if d2 <= u128::MAX {
                    Ok(d2 as u128)
                } else {
                    Err(MathError::ArithmeticOverflow)
                }
            } else {
                spec_d_rec(xp, n, ann, s, d2, (budget - 1) as nat)
            },
        }
    }
}

/// The StableSwap invariant of a set of normalized reserves: the value the
/// bounded fixed-point iteration settles on, starting from the reserve sum.
/// An empty set, a zero amplification and a zero reserve next to nonzero ones
/// are degenerate; an all-zero pool has invariant zero. The product fold runs
/// over the reserves in caller order, so the callers' positional order — not
/// the reserves' numeric order — fixes the flooring of each iterate.
pub open spec fn spec_calculate_d(xp: Seq<u128>, amplification: u128) -> Result<u128, MathError> {
    if xp.len() == 0 || amplification == 0 {
        Err(MathError::DegenerateInput)
    } else if all_zero(xp) {
        Ok(0u128)
    } else if has_zero(xp) {
        Err(MathError::DegenerateInput)
    } else {
        match spec_ann(amplification as nat, xp.len(), xp.len()) {
            None => Err(MathError::ArithmeticOverflow),
            Some(ann) => spec_d_rec(xp, xp.len(), ann, sum_prefix(xp, xp.len() as int),
                sum_prefix(xp, xp.len() as int), D_ITERATIONS as nat),
        }
    }
}

/// One refinement step of the reserve iteration:
/// `y' = (y*y + c) / (2*y + b - d) + 2`, every operation checked at 256 bits.
pub open spec fn spec_y_step(c: nat, b: nat, d: nat, y: nat) -> Option<nat> {
    match w_mul(y, y) {
        None => None,
        Some(t1) => match w_add(t1, c) {
            None => None,
            Some(num) => match w_mul(2, y) {
                None => None,
                Some(t2) => match w_add(t2, b) {
                    None => None,
                    Some(t3) => match w_sub(t3, d) {
                        None => None,
                        Some(den) => match w_div(num, den) {
                            None => None,
                            Some(q) => w_add(q, 2),
                        },
                    },
                },
            },
        },
    }
}

/// The reserve iteration with a remaining budget, under the same convergence
/// and failure policy as the invariant iteration.
pub open spec fn spec_y_rec(c: nat, b: nat, d: nat, y: nat, budget: nat)
    -> Result<u128, MathError>
    decreases budget,
{
    if budget == 0 {
        Err(MathError::NonConvergence)
    } else {
        match spec_y_step(c, b, d, y) {
            None => Err(MathError::ArithmeticOverflow),
            Some(y2) => if within_one(y2, y) {
                if y2 <= u128::MAX {
                    Ok(y2 as u128)
                } else {
                    Err(MathError::ArithmeticOverflow)
                }
            } else {
                spec_y_rec(c, b, d, y2, (budget - 1) as nat)
            },
        }
    }
}

/// The missing reserve of a pool of `n` assets whose other normalized
/// reserves are `xp`, chosen so the invariant `d` is kept: the value the
/// bounded per-asset fixed-point iteration settles on, seeded with `d`, with
/// `c = d^(n+1) / (n^n * prod(xp) * ann)` and `b = sum(xp) + d/ann`.
pub open spec fn spec_calculate_y(xp: Seq<u128>, d: u128, amplification: u128, n: nat)
    -> Result<u128, MathError> {
    if n == 0 || amplification == 0 || has_zero(xp) {
        Err(MathError::DegenerateInput)
    } else {
        match spec_ann(amplification as nat, n, n) {
            None => Err(MathError::ArithmeticOverflow),
            Some(ann) => match spec_d_p(xp, n, d as nat, d as nat, 0) {
                None => Err(MathError::ArithmeticOverflow),
                Some(c0) => match w_mul(c0, d as nat) {
                    None => Err(MathError::ArithmeticOverflow),
                    Some(t) => match w_div(t, ann * n) {
                        None => Err(MathError::ArithmeticOverflow),
                        Some(c) => match w_add(sum_prefix(xp, xp.len() as int), (d as nat) / ann) {
                            None => Err(MathError::ArithmeticOverflow),
                            Some(b) => spec_y_rec(c, b, d as nat, d as nat, Y_ITERATIONS as nat),
                        },
                    },
                },
            },
        }
    }
}

/// Folds the asset count into the amplification coefficient, once per asset.
fn compute_ann(amplification: u128, n: usize) -> (r: Option<u128>)
    ensures
        r is Some <==> spec_ann(amplification as nat, n as nat, n as nat) is Some,
        (r matches Some(v) ==> spec_ann(amplification as nat, n as nat, n as nat)
            == Some(v as nat)),
{
    let mut acc = amplification;
    let mut k: usize = 0;
    while k < n
        invariant
            k <= n,
            spec_ann(amplification as nat, n as nat, n as nat) == spec_ann(acc as nat, n as nat,
                (n - k) as nat),
        decreases n - k,
    {
        acc = match acc.checked_mul(n as u128) {
            Some(v) => v,
            None => {
                return None;
            },
        };
        k = k + 1;
    }
    Some(acc)
}

/// Sums the normalized reserves at 256 bits; the sum always fits.
fn sum_wide(xp: &Vec<u128>) -> (s: Wide)
    ensures
        s.val() == sum_prefix(xp@, xp@.len() as int),
{
    let n = xp.len();
    let mut s = wide_from_u128(0);
    let mut i: usize = 0;
    while i < n
        invariant
            i <= n,
            n == xp@.len(),
            s.val() == sum_prefix(xp@, i as int),
            s.val() <= i * (u128::MAX as int),
        decreases n - i,
    {
        let e = wide_from_u128(xp[i]);
        assert((i + 1) * (u128::MAX as int) < wide_limit());
        s = wide_add(&s, &e).unwrap();
        i = i + 1;
    }
    s
}

/// Runs the interleaved product fold of the solvers at 256 bits.
fn d_p_fold(xp: &Vec<u128>, n_u: u128, d: &Wide) -> (r: Option<Wide>)
    ensures
        (r is None ==> spec_d_p(xp@, n_u as nat, d.val(), d.val(), 0) is None),
        (r matches Some(w) ==> spec_d_p(xp@, n_u as nat, d.val(), d.val(), 0) == Some(w.val())),
{
    let len = xp.len();
    let mut acc = *d;
    let mut i: usize = 0;
    while i < len
        invariant
            i <= len,
            len == xp@.len(),
            spec_d_p(xp@, n_u as nat, d.val(), d.val(), 0) == spec_d_p(xp@, n_u as nat, d.val(),
                acc.val(), i as int),
        decreases len - i,
    {
        let t = match wide_mul(&acc, d) {
            Some(t) => t,
            None => {
                return None;
            },
        };
        let xi = wide_from_u128(xp[i]);
        let nw = wide_from_u128(n_u);
        proof {
            lemma_u128_product_fits(xi.val(), nw.val());
        }
        let divisor = wide_mul(&xi, &nw).unwrap();
        let acc2 = match wide_div(&t, &divisor) {
            Some(v) => v,
            None => {
                return None;
            },
        };
        acc = acc2;
        i = i + 1;
    }
    Some(acc)
}

/// One refinement step of the invariant iteration at 256 bits.
fn d_step_exec(xp: &Vec<u128>, n_u: u128, ann_u: u128, s: &Wide, d: &Wide) -> (r: Option<Wide>)
    requires
        n_u < u128::MAX,
    ensures
        (r is None ==> spec_d_step(xp@, n_u as nat, ann_u as nat, s.val(), d.val()) is None),
        (r matches Some(w) ==> spec_d_step(xp@, n_u as nat, ann_u as nat, s.val(), d.val())
            == Some(w.val())),
{
    let d_p = match d_p_fold(xp, n_u, d) {
        Some(v) => v,
        None => {
            return None;
        },
    };
    let ann_w = wide_from_u128(ann_u);
    let n_w = wide_from_u128(n_u);
    let t1 = match wide_mul(&ann_w, s) {
        Some(v) => v,
        None => {
            return None;
        },
    };
    let t2 = match wide_mul(&d_p, &n_w) {
        Some(v) => v,
        None => {
            return None;
        },
    };
    let t3 = match wide_add(&t1, &t2) {
        Some(v) => v,
        None => {
            return None;
        },
    };
    let num = match wide_mul(&t3, d) {
        Some(v) => v,
        None => {
            return None;
        },
    };
    let one = wide_from_u128(1);
    let a1 = match wide_sub(&ann_w, &one) {
        Some(v) => v,
        None => {
            return None;
        },
    };
    let t4 = match wide_mul(&a1, d) {
        Some(v) => v,
        None => {
            return None;
        },
    };
    let n1_w = wide_from_u128(n_u + 1);
    let t5 = match wide_mul(&n1_w, &d_p) {
        Some(v) => v,
        None => {
            return None;
        },
    };
    let den = match wide_add(&t4, &t5) {
        Some(v) => v,
        None => {
            return None;
        },
    };
    let q = match wide_div(&num, &den) {
        Some(v) => v,
        None => {
            return None;
        },
    };
    let two = wide_from_u128(2);
    wide_add(&q, &two)
}

/// Computes the StableSwap invariant of a set of normalized reserves.
pub fn calculate_d(xp: &Vec<u128>, amplification: u128) -> (r: Result<u128, MathError>)
    ensures
        r == spec_calculate_d(xp@, amplification),
{
    let n = xp.len();
    if n == 0 || amplification == 0 {
        return Err(MathError::DegenerateInput);
    }
    let mut every_zero = true;
    let mut some_zero = false;
    let mut i: usize = 0;
    while i < n
        invariant
            i <= n,
            n == xp@.len(),
            every_zero == (forall|j: int| 0 <= j < i ==> xp@[j] == 0),
            some_zero == (exists|j: int| 0 <= j < i && xp@[j] == 0),
        decreases n - i,
    {
        if xp[i] == 0 {
            some_zero = true;
        } else {
            every_zero = false;
        }
        i = i + 1;
    }
    if every_zero {
        return Ok(0);
    }
    if some_zero {
        return Err(MathError::DegenerateInput);
    }
    let ann = match compute_ann(amplification, n) {
        Some(v) => v,
        None => {
            return Err(MathError::ArithmeticOverflow);
        },
    };
    let s = sum_wide(xp);
    let mut d = s;
    let mut iter: u8 = 0;
    let ghost goal = spec_calculate_d(xp@, amplification);
    assert(goal == spec_d_rec(xp@, n as nat, ann as nat, s.val(), s.val(), D_ITERATIONS as nat));
    while iter < D_ITERATIONS
        invariant
            iter <= D_ITERATIONS,
            n == xp@.len(),
            n > 0,
            (n as u128) < u128::MAX,
            goal == spec_calculate_d(xp@, amplification),
            goal == spec_d_rec(xp@, n as nat, ann as nat, s.val(), d.val(),
                (D_ITERATIONS - iter) as nat),
        decreases D_ITERATIONS - iter,
    {
        let d2 = match d_step_exec(xp, n as u128, ann, &s, &d) {
            Some(v) => v,
            None => {
                return Err(MathError::ArithmeticOverflow);
            },
        };
        if wide_within_one(&d2, &d) {
            return match wide_to_u128(&d2) {
                Some(v) => Ok(v),
                None => Err(MathError::ArithmeticOverflow),
            };
        }
        d = d2;
        iter = iter + 1;
    }
    Err(MathError::NonConvergence)
}

/// Solves for the reserve that keeps the invariant `d` in a pool of `n`
/// assets whose other normalized reserves are `xp`.
pub fn calculate_y(xp: &Vec<u128>, d: u128, amplification: u128, n: usize)
    -> (r: Result<u128, MathError>)
    ensures
        r == spec_calculate_y(xp@, d, amplification, n as nat),
{
    if n == 0 || amplification == 0 {
        return Err(MathError::DegenerateInput);
    }
    let len = xp.len();
    let mut i: usize = 0;
    while i < len
        invariant
            i <= len,
            len == xp@.len(),
            forall|j: int| 0 <= j < i ==> xp@[j] != 0,
        decreases len - i,
    {
        if xp[i] == 0 {
            return Err(MathError::DegenerateInput);
        }
        i = i + 1;
    }
    let ann = match compute_ann(amplification, n) {
        Some(v) => v,
        None => {
            return Err(MathError::ArithmeticOverflow);
        },
    };
    let d_w = wide_from_u128(d);
    let c0 = match d_p_fold(xp, n as u128, &d_w) {
        Some(v) => v,
        None => {
            return Err(MathError::ArithmeticOverflow);
        },
    };
    let t = match wide_mul(&c0, &d_w) {
        Some(v) => v,
        None => {
            return Err(MathError::ArithmeticOverflow);
        },
    };
    let ann_w = wide_from_u128(ann);
    let n_w = wide_from_u128(n as u128);
    proof {
        lemma_u128_product_fits(ann_w.val(), n_w.val());
        lemma_ann_positive(amplification as nat, n as nat, n as nat);
    }
    let ann_n = wide_mul(&ann_w, &n_w).unwrap();
    let c = match wide_div(&t, &ann_n) {
        Some(v) => v,
        None => {
            return Err(MathError::ArithmeticOverflow);
        },
    };
    let s = sum_wide(xp);
    let d_over_ann = wide_div(&d_w, &ann_w).unwrap();
    let b = match wide_add(&s, &d_over_ann) {
        Some(v) => v,
        None => {
            return Err(MathError::ArithmeticOverflow);
        },
    };
    let mut y = d_w;
    let mut iter: u8 = 0;
    let ghost goal = spec_calculate_y(xp@, d, amplification, n as nat);
    assert(goal == spec_y_rec(c.val(), b.val(), d as nat, d as nat, Y_ITERATIONS as nat));
    while iter < Y_ITERATIONS
        invariant
            iter <= Y_ITERATIONS,
            d_w.val() == d as nat,
            goal == spec_calculate_y(xp@, d, amplification, n as nat),
            goal == spec_y_rec(c.val(), b.val(), d as nat, y.val(),
                (Y_ITERATIONS - iter) as nat),
        decreases Y_ITERATIONS - iter,
    {
        let y2 = match y_step_exec(&c, &b, &d_w, &y) {
            Some(v) => v,
            None => {
                return Err(MathError::ArithmeticOverflow);
            },
        };
        if wide_within_one(&y2, &y) {
            return match wide_to_u128(&y2) {
                Some(v) => Ok(v),
                None => Err(MathError::ArithmeticOverflow),
            };
        }
        y = y2;
        iter = iter + 1;
    }
    Err(MathError::NonConvergence)
}

/// The invariant iteration fails only by exhausting its budget or by leaving
/// the checked domain.
pub proof fn lemma_d_rec_error_kinds(xp: Seq<u128>, n: nat, ann: nat, s: nat, d: nat, budget: nat)
    ensures
        spec_d_rec(xp, n, ann, s, d, budget) matches Err(e) ==> (e == MathError::NonConvergence
            || e == MathError::ArithmeticOverflow),
    decreases budget,
{
    if budget > 0 {
        match spec_d_step(xp, n, ann, s, d) {
            None => {},
            Some(d2) => {
                if !within_one(d2, d) {
                    lemma_d_rec_error_kinds(xp, n, ann, s, d2, (budget - 1) as nat);
                }
            },
        }
    }
}

/// The reserve iteration fails only by exhausting its budget or by leaving
/// the checked domain.
pub proof fn lemma_y_rec_error_kinds(c: nat, b: nat, d: nat, y: nat, budget: nat)
    ensures
        spec_y_rec(c, b, d, y, budget) matches Err(e) ==> (e == MathError::NonConvergence
            || e == MathError::ArithmeticOverflow),
    decreases budget,
{
    if budget > 0 {
        match spec_y_step(c, b, d, y) {
            None => {},
            Some(y2) => {
                if !within_one(y2, y) {
                    lemma_y_rec_error_kinds(c, b, d, y2, (budget - 1) as nat);
                }
            },
        }
    }
}

/// The invariant solver never reports an index or liquidity failure.
pub proof fn lemma_calculate_d_error_kinds(xp: Seq<u128>, amplification: u128)
    ensures
        spec_calculate_d(xp, amplification) matches Err(e) ==> (e == MathError::DegenerateInput
            || e == MathError::NonConvergence || e == MathError::ArithmeticOverflow),
{
    if !(xp.len() == 0 || amplification == 0) && !all_zero(xp) && !has_zero(xp) {
        match spec_ann(amplification as nat, xp.len(), xp.len()) {
            None => {},
            Some(ann) => {
                lemma_d_rec_error_kinds(xp, xp.len(), ann, sum_prefix(xp, xp.len() as int),
                    sum_prefix(xp, xp.len() as int), D_ITERATIONS as nat);
            },
        }
    }
}

/// The reserve solver never reports an index or liquidity failure.
pub proof fn lemma_calculate_y_error_kinds(xp: Seq<u128>, d: u128, amplification: u128, n: nat)
    ensures
        spec_calculate_y(xp, d, amplification, n) matches Err(e) ==> (e
            == MathError::DegenerateInput || e == MathError::NonConvergence || e
            == MathError::ArithmeticOverflow),
{
    if !(n == 0 || amplification == 0 || has_zero(xp)) {
        match spec_ann(amplification as nat, n, n) {
            None => {},
            Some(ann) => {
                match spec_d_p(xp, n, d as nat, d as nat, 0) {
                    None => {},
                    Some(c0) => {
                        match w_mul(c0, d as nat) {
                            None => {},
                            Some(t) => {
                                match w_div(t, ann * n) {
                                    None => {},
                                    Some(c) => {
                                        match w_add(sum_prefix(xp, xp.len() as int), (
                                        d as nat) / ann) {
                                            None => {},
                                            Some(b) => {
                                                lemma_y_rec_error_kinds(c, b, d as nat, d as nat,
                                                    Y_ITERATIONS as nat);
                                            },
                                        }
                                    },
                                }
                            },
                        }
                    },
                }
            },
        }
    }
}

/// One refinement step of the reserve iteration at 256 bits.
fn y_step_exec(c: &Wide, b: &Wide, d: &Wide, y: &Wide) -> (r: Option<Wide>)
    ensures
        (r is None ==> spec_y_step(c.val(), b.val(), d.val(), y.val()) is None),
        (r matches Some(w) ==> spec_y_step(c.val(), b.val(), d.val(), y.val())
            == Some(w.val())),
{
    let t1 = match wide_mul(y, y) {
        Some(v) => v,
        None => {
            return None;
        },
    };
    let num = match wide_add(&t1, c) {
        Some(v) => v,
        None => {
            return None;
        },
    };
    let two = wide_from_u128(2);
    let t2 = match wide_mul(&two, y) {
        Some(v) => v,
        None => {
            return None;
        },
    };
    let t3 = match wide_add(&t2, b) {
        Some(v) => v,
        None => {
            return None;
        },
    };
    let den = match wide_sub(&t3, d) {
        Some(v) => v,
        None => {
            return None;
        },
    };
    let q = match wide_div(&num, &den) {
        Some(v) => v,
        None => {
            return None;
        },
    };
    wide_add(&q, &two)
}

} // verus!
