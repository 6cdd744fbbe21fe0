//! Unsigned 256-bit integers, the word size of the ledger and pool state.
//!
//! A value is held as four 64-bit limbs, least significant first, and is
//! interpreted by the spec function `val`. The checked arithmetic operations
//! are carried out by `alloy_primitives::U256` behind trusted wrappers;
//! comparisons and the saturating subtraction are verified here.

use vstd::prelude::*;

verus! {


/// An unsigned 256-bit integer as four 64-bit limbs, least significant first.
#[derive(Clone, Copy, PartialEq, Eq, Structural, Debug)]
pub struct U256 {
    pub l0: u64,
    pub l1: u64,
    pub l2: u64,
    pub l3: u64,
}

/// 2^64
#[verifier::inline]
pub open spec fn p64() -> nat {
    0x1_0000_0000_0000_0000nat
}

/// 2^112
#[verifier::inline]
pub open spec fn p112() -> nat {
    0x1_0000_0000_0000_0000_0000_0000_0000nat
}

/// 2^128
#[verifier::inline]
pub open spec fn p128() -> nat {
    0x1_0000_0000_0000_0000_0000_0000_0000_0000nat
}

/// 2^192
#[verifier::inline]
pub open spec fn p192() -> nat {
    0x1_0000_0000_0000_0000_0000_0000_0000_0000_0000_0000_0000_0000nat
}

/// 2^256
#[verifier::inline]
pub open spec fn p256() -> nat {
    0x1_0000_0000_0000_0000_0000_0000_0000_0000_0000_0000_0000_0000_0000_0000_0000_0000nat
}

/// Subtraction on naturals floored at zero.
pub open spec fn sat_sub(a: nat, b: nat) -> nat {
    if a >= b {
        (a - b) as nat
    } else {
        0
    }
}

/// The smaller of two naturals.
pub open spec fn min_nat(a: nat, b: nat) -> nat {
    if a <= b {
        a
    } else {
        b
    }
}

impl U256 {
    /// The number this value denotes.
    pub open spec fn val(self) -> nat {
        (self.l0 + self.l1 * p64() + self.l2 * p128() + self.l3 * p192()) as nat
    }

    pub proof fn lemma_val_bound(self)
        ensures
            self.val() < p256(),
    {
    }

    pub fn zero() -> (r: U256)
        ensures
            r.val() == 0,
    {
        U256 { l0: 0, l1: 0, l2: 0, l3: 0 }
    }

    pub fn from_u64(x: u64) -> (r: U256)
        ensures
            r.val() == x,
    {
        U256 { l0: x, l1: 0, l2: 0, l3: 0 }
    }

    pub fn is_zero(&self) -> (r: bool)
        ensures
            r == (self.val() == 0),
    {
        self.l0 == 0 && self.l1 == 0 && self.l2 == 0 && self.l3 == 0
    }
}

/// Bounds on the partial sums of the limb decomposition.
pub proof fn lemma_low_bounds(a: U256)
    ensures
        a.l0 + a.l1 * p64() < p128(),
        a.l0 + a.l1 * p64() + a.l2 * p128() < p192(),
{
    assert(a.l0 + a.l1 * p64() + a.l2 * p128() < p192()) by (nonlinear_arith)
        requires
            a.l0 < 0x1_0000_0000_0000_0000,
            a.l1 < 0x1_0000_0000_0000_0000,
            a.l2 < 0x1_0000_0000_0000_0000,
            p64() == 0x1_0000_0000_0000_0000nat,
            p128() == 0x1_0000_0000_0000_0000_0000_0000_0000_0000nat,
            p192() == 0x1_0000_0000_0000_0000_0000_0000_0000_0000_0000_0000_0000_0000nat,
    ;
}

/// `a.val() < b.val()`, decided limb by limb from the most significant.
pub fn u256_lt(a: &U256, b: &U256) -> (r: bool)
    ensures
        r == (a.val() < b.val()),
{
    proof {
        lemma_low_bounds(*a);
        lemma_low_bounds(*b);
    }
    if a.l3 != b.l3 {
        a.l3 < b.l3
    } else if a.l2 != b.l2 {
        a.l2 < b.l2
    } else if a.l1 != b.l1 {
        a.l1 < b.l1
    } else {
        a.l0 < b.l0
    }
}

/// The smaller of two values.
pub fn u256_min(a: U256, b: U256) -> (r: U256)
    ensures
        r.val() == min_nat(a.val(), b.val()),
{
    if u256_lt(&a, &b) {
        a
    } else {
        b
    }
}

/// Relies on `alloy_primitives::U256::checked_add` (ruint): 256-bit addition,
/// `None` exactly on overflow.
#[verifier::external_body]
pub fn u256_checked_add(a: &U256, b: &U256) -> (r: Option<U256>)
    ensures
        (r is Some) == (a.val() + b.val() < p256()),
        r is Some ==> r->Some_0.val() == a.val() + b.val(),
{
    let x = alloy_primitives::U256::from_limbs([a.l0, a.l1, a.l2, a.l3]);
    let y = alloy_primitives::U256::from_limbs([b.l0, b.l1, b.l2, b.l3]);
    match x.checked_add(y) {
        Some(z) => {
            let l = z.into_limbs();
            Some(U256 { l0: l[0], l1: l[1], l2: l[2], l3: l[3] })
        }
        None => None,
    }
}

/// Relies on `alloy_primitives::U256::checked_sub` (ruint): 256-bit
/// subtraction, `None` exactly on underflow.
#[verifier::external_body]
pub fn u256_checked_sub(a: &U256, b: &U256) -> (r: Option<U256>)
    ensures
        (r is Some) == (a.val() >= b.val()),
        r is Some ==> r->Some_0.val() == a.val() - b.val(),
{
    let x = alloy_primitives::U256::from_limbs([a.l0, a.l1, a.l2, a.l3]);
    let y = alloy_primitives::U256::from_limbs([b.l0, b.l1, b.l2, b.l3]);
    match x.checked_sub(y) {
        Some(z) => {
            let l = z.into_limbs();
            Some(U256 { l0: l[0], l1: l[1], l2: l[2], l3: l[3] })
        }
        None => None,
    }
}

/// Relies on `alloy_primitives::U256::checked_mul` (ruint): 256-bit
/// multiplication, `None` exactly on overflow.
#[verifier::external_body]
pub fn u256_checked_mul(a: &U256, b: &U256) -> (r: Option<U256>)
    ensures
        (r is Some) == (a.val() * b.val() < p256()),
        r is Some ==> r->Some_0.val() == a.val() * b.val(),
{
    let x = alloy_primitives::U256::from_limbs([a.l0, a.l1, a.l2, a.l3]);
    let y = alloy_primitives::U256::from_limbs([b.l0, b.l1, b.l2, b.l3]);
    match x.checked_mul(y) {
        Some(z) => {
            let l = z.into_limbs();
            Some(U256 { l0: l[0], l1: l[1], l2: l[2], l3: l[3] })
        }
        None => None,
    }
}

/// Relies on `alloy_primitives::U256::checked_div` (ruint): flooring 256-bit
/// division, `None` exactly when the divisor is zero.
#[verifier::external_body]
pub fn u256_checked_div(a: &U256, b: &U256) -> (r: Option<U256>)
    ensures
        (r is Some) == (b.val() != 0),
        r is Some ==> r->Some_0.val() == a.val() / b.val(),
{
    let x = alloy_primitives::U256::from_limbs([a.l0, a.l1, a.l2, a.l3]);
    let y = alloy_primitives::U256::from_limbs([b.l0, b.l1, b.l2, b.l3]);
    match x.checked_div(y) {
        Some(z) => {
            let l = z.into_limbs();
            Some(U256 { l0: l[0], l1: l[1], l2: l[2], l3: l[3] })
        }
        None => None,
    }
}

/// Subtraction floored at zero.
pub fn u256_saturating_sub(a: &U256, b: &U256) -> (r: U256)
    ensures
        r.val() == sat_sub(a.val(), b.val()),
{
    match u256_checked_sub(a, b) {
        Some(c) => c,
        None => U256::zero(),
    }
}

} // verus!
