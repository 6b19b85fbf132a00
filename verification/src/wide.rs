use vstd::prelude::*;

verus! {

/// A 256-bit unsigned value, kept as two 128-bit limbs. The invariant math
/// works on values of this width so that products of two 128-bit balances
/// never wrap.
#[derive(Clone, Copy, PartialEq, Eq, Structural)]
pub struct Wide {
    pub hi: u128,
    pub lo: u128,
}

impl Wide {
    /// The number a pair of limbs stands for.
    pub open spec fn val(self) -> nat {
        (self.hi as nat) * 0x100000000000000000000000000000000nat + (self.lo as nat)
    }
}

/// One more than the largest number two limbs can hold (2^256).
pub open spec fn wide_limit() -> nat {
    0x10000000000000000000000000000000000000000000000000000000000000000nat
}

/// Relies on primitive_types::U256::checked_add: the exact 256-bit sum,
/// or None when the sum does not fit in 256 bits.
#[verifier::external_body]
pub fn wide_add(a: &Wide, b: &Wide) -> (r: Option<Wide>)
    ensures
        r is Some <==> a.val() + b.val() < wide_limit(),
        (r matches Some(c) ==> c.val() == a.val() + b.val()),
{
    let x = primitive_types::U256([a.lo as u64, (a.lo >> 64) as u64, a.hi as u64, (a.hi >> 64) as u64]);
    let y = primitive_types::U256([b.lo as u64, (b.lo >> 64) as u64, b.hi as u64, (b.hi >> 64) as u64]);
    match x.checked_add(y) {
        None => None,
        Some(z) => Some(Wide {
            lo: (z.0[0] as u128) | ((z.0[1] as u128) << 64),
            hi: (z.0[2] as u128) | ((z.0[3] as u128) << 64),
        }),
    }
}

/// Relies on primitive_types::U256::checked_sub: the exact difference,
/// or None when the subtrahend is larger.
#[verifier::external_body]
pub fn wide_sub(a: &Wide, b: &Wide) -> (r: Option<Wide>)
    ensures
        r is Some <==> b.val() <= a.val(),
        (r matches Some(c) ==> c.val() == a.val() - b.val()),
{
    let x = primitive_types::U256([a.lo as u64, (a.lo >> 64) as u64, a.hi as u64, (a.hi >> 64) as u64]);
    let y = primitive_types::U256([b.lo as u64, (b.lo >> 64) as u64, b.hi as u64, (b.hi >> 64) as u64]);
    match x.checked_sub(y) {
        None => None,
        Some(z) => Some(Wide {
            lo: (z.0[0] as u128) | ((z.0[1] as u128) << 64),
            hi: (z.0[2] as u128) | ((z.0[3] as u128) << 64),
        }),
    }
}

/// Relies on primitive_types::U256::checked_mul: the exact product,
/// or None when the product does not fit in 256 bits.
#[verifier::external_body]
pub fn wide_mul(a: &Wide, b: &Wide) -> (r: Option<Wide>)
    ensures
        r is Some <==> a.val() * b.val() < wide_limit(),
        (r matches Some(c) ==> c.val() == a.val() * b.val()),
{
    let x = primitive_types::U256([a.lo as u64, (a.lo >> 64) as u64, a.hi as u64, (a.hi >> 64) as u64]);
    let y = primitive_types::U256([b.lo as u64, (b.lo >> 64) as u64, b.hi as u64, (b.hi >> 64) as u64]);
    match x.checked_mul(y) {
        None => None,
        Some(z) => Some(Wide {
            lo: (z.0[0] as u128) | ((z.0[1] as u128) << 64),
            hi: (z.0[2] as u128) | ((z.0[3] as u128) << 64),
        }),
    }
}

/// Relies on primitive_types::U256::checked_div: the quotient rounded
/// toward zero, or None when the divisor is zero.
#[verifier::external_body]
pub fn wide_div(a: &Wide, b: &Wide) -> (r: Option<Wide>)
    ensures
        r is Some <==> b.val() != 0,
        (r matches Some(c) ==> c.val() == a.val() / b.val()),
{
    let x = primitive_types::U256([a.lo as u64, (a.lo >> 64) as u64, a.hi as u64, (a.hi >> 64) as u64]);
    let y = primitive_types::U256([b.lo as u64, (b.lo >> 64) as u64, b.hi as u64, (b.hi >> 64) as u64]);
    match x.checked_div(y) {
        None => None,
        Some(z) => Some(Wide {
            lo: (z.0[0] as u128) | ((z.0[1] as u128) << 64),
            hi: (z.0[2] as u128) | ((z.0[3] as u128) << 64),
        }),
    }
}

/// Widens a 128-bit value.
pub fn wide_from_u128(x: u128) -> (r: Wide)
    ensures
        r.val() == x,
{
    Wide { hi: 0, lo: x }
}

/// Narrows back to 128 bits; None when the value does not fit.
pub fn wide_to_u128(a: &Wide) -> (r: Option<u128>)
    ensures
        r is Some <==> a.val() <= u128::MAX,
        (r matches Some(v) ==> v == a.val()),
{
    if a.hi == 0 {
        Some(a.lo)
    } else {
        assert(a.val() >= 0x100000000000000000000000000000000);
        None
    }
}

/// Compares two wide values.
pub fn wide_le(a: &Wide, b: &Wide) -> (r: bool)
    ensures
        r == (a.val() <= b.val()),
{
    if a.hi < b.hi {
        true
    } else if a.hi > b.hi {
        false
    } else {
        a.lo <= b.lo
    }
}

/// Whether two wide values differ by at most one unit.
pub open spec fn within_one(x: nat, y: nat) -> bool {
    -1 <= x - y <= 1
}

/// Decides whether two wide values differ by at most one unit.
pub fn wide_within_one(a: &Wide, b: &Wide) -> (r: bool)
    ensures
        r == within_one(a.val(), b.val()),
{
    if a.hi == b.hi {
        if a.lo >= b.lo {
            a.lo - b.lo <= 1
        } else {
            b.lo - a.lo <= 1
        }
    } else if a.hi > b.hi {
        a.hi - b.hi == 1 && a.lo == 0 && b.lo == u128::MAX
    } else {
        b.hi - a.hi == 1 && b.lo == 0 && a.lo == u128::MAX
    }
}

} // verus!
