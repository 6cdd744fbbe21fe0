//! Integer square root by the Babylonian iteration, as the pool uses it to
//! price the very first deposit.

use vstd::prelude::*;

verus! {

use vstd::arithmetic::div_mod::{
    lemma_div_is_ordered,
    lemma_div_is_ordered_by_denominator,
    lemma_div_multiples_vanish,
    lemma_fundamental_div_mod,
};
use vstd::arithmetic::mul::lemma_mul_inequality;
use crate::u256::{U256, p256, u256_checked_add, u256_checked_div, u256_lt};

/// The integer square root: the largest `r` with `r * r <= n`.
pub open spec fn isqrt(n: nat) -> nat
    decreases n,
{
    if n == 0 {
        0
    } else {
        let r = isqrt((n - 1) as nat);
        if (r + 1) * (r + 1) <= n {
            r + 1
        } else {
            r
        }
    }
}

pub proof fn lemma_isqrt_bounds(n: nat)
    ensures
        isqrt(n) * isqrt(n) <= n,
        n < (isqrt(n) + 1) * (isqrt(n) + 1),
    decreases n,
{
    if n == 0 {
        assert(isqrt(0) == 0);
        assert(n < (isqrt(n) + 1) * (isqrt(n) + 1)) by (nonlinear_arith)
            requires n == 0, isqrt(n) == 0;
    } else {
        let m = (n - 1) as nat;
        lemma_isqrt_bounds(m);
        let r = isqrt(m);
        if (r + 1) * (r + 1) <= n {
            assert(isqrt(n) == r + 1);
            assert(n <= (r + 1) * (r + 1));
            assert((r + 1) * (r + 1) < (r + 2) * (r + 2)) by (nonlinear_arith)
                requires r >= 0;
            assert(n < (isqrt(n) + 1) * (isqrt(n) + 1));
        } else {
            assert(isqrt(n) == r);
            assert(isqrt(n) * isqrt(n) <= n);
            assert(n < (isqrt(n) + 1) * (isqrt(n) + 1));
        }
    }
}

/// The bounds pin the square root down.
pub proof fn lemma_isqrt_unique(n: nat, r: nat)
    requires
        r * r <= n,
        n < (r + 1) * (r + 1),
    ensures
        r == isqrt(n),
{
    lemma_isqrt_bounds(n);
    let s = isqrt(n);
    if r < s {
        lemma_mul_inequality((r + 1) as int, s as int, (r + 1) as int);
        lemma_mul_inequality((r + 1) as int, s as int, s as int);
        assert(s * (r + 1) <= s * s) by (nonlinear_arith)
            requires r + 1 <= s, s >= 0;
        assert(false);
    }
    if s < r {
        lemma_mul_inequality((s + 1) as int, r as int, (s + 1) as int);
        assert(r * (s + 1) <= r * r) by (nonlinear_arith)
            requires s + 1 <= r, r >= 0;
        assert(false);
    }
}

/// A square root of something below `b * b` lies below `b`.
pub proof fn lemma_isqrt_below(n: nat, b: nat)
    requires
        n < b * b,
    ensures
        isqrt(n) < b,
{
    lemma_isqrt_bounds(n);
    let s = isqrt(n);
    if s >= b {
        lemma_mul_inequality(b as int, s as int, b as int);
        assert(s * b <= s * s) by (nonlinear_arith)
            requires b <= s, s >= 0;
        assert(false);
    }
}

/// One Newton step from any point at or above the root stays at or above it.
proof fn lemma_newton_step_lower(y: nat, x: nat, s: nat)
    requires
        1 <= x,
        s * s <= y,
    ensures
        s <= (x + y / x) / 2,
{
    let q = y / x;
    let rr = y % x;
    lemma_fundamental_div_mod(y as int, x as int);
    assert(x * (x + q) > (2 * s - 1) * x) by (nonlinear_arith)
        requires
            1 <= x,
            s * s <= y,
            y == x * q + rr,
            0 <= rr,
            rr <= x - 1,
            s >= 0,
    ;
    assert(x + q >= 2 * s) by (nonlinear_arith)
        requires
            x * (x + q) > (2 * s - 1) * x,
            1 <= x,
    ;
    lemma_div_is_ordered(2 * s as int, (x + q) as int, 2);
    lemma_div_multiples_vanish(s as int, 2);
}

/// If a Newton step does not fall below its starting point, the starting
/// point already squares to at most `y`.
proof fn lemma_newton_fixed_point(y: nat, z: nat)
    requires
        1 <= z,
        (y / z + z) / 2 >= z,
    ensures
        z * z <= y,
{
    let q = y / z;
    lemma_fundamental_div_mod((q + z) as int, 2);
    assert(q >= z);
    lemma_fundamental_div_mod(y as int, z as int);
    lemma_mul_inequality(z as int, q as int, z as int);
}

/// The square root of a 256-bit value, by the Babylonian iteration: start
/// from `y / 2 + 1`, replace the iterate by the average of itself and
/// `y / iterate`, and stop once it no longer decreases.
pub fn sqrt(y: &U256) -> (r: U256)
    requires
        y.val() + 1 < p256(),
    ensures
        r.val() == isqrt(y.val()),
{
    let three = U256::from_u64(3);
    let yv: Ghost<nat> = Ghost(y.val());
    if u256_lt(&three, y) {
        let two = U256::from_u64(2);
        let one = U256::from_u64(1);
        proof {
            lemma_isqrt_bounds(yv@);
        }
        let ghost s: nat = isqrt(yv@);
        proof {
            // y >= 4, so the root is at least 2 and at most y / 2 + 1.
            assert(s >= 2) by (nonlinear_arith)
                requires
                    yv@ >= 4,
                    yv@ < (s + 1) * (s + 1),
                    s >= 0,
            ;
            lemma_div_is_ordered_by_denominator(yv@ as int, 2, s as int);
            lemma_div_is_ordered((s * s) as int, yv@ as int, s as int);
            lemma_div_multiples_vanish(s as int, s as int);
        }
        let mut z = *y;
        let half = u256_checked_div(y, &two).unwrap();
        let mut x = u256_checked_add(&half, &one).unwrap();
        while u256_lt(&x, &z)
            invariant
                yv@ == y.val(),
                two.val() == 2,
                yv@ > 3,
                yv@ + 1 < p256(),
                s == isqrt(yv@),
                s >= 2,
                s <= x.val(),
                s <= z.val(),
                z.val() <= yv@,
                x.val() <= yv@ / 2 + 1,
                x.val() >= z.val() ==> z.val() * z.val() <= yv@,
            decreases z.val(),
        {
            z = x;
            let q = u256_checked_div(y, &x).unwrap();
            proof {
                lemma_isqrt_bounds(yv@);
                lemma_div_is_ordered_by_denominator(yv@ as int, 2, x.val() as int);
                lemma_fundamental_div_mod(yv@ as int, 2);
            }
            let t = u256_checked_add(&q, &x).unwrap();
            x = u256_checked_div(&t, &two).unwrap();
            proof {
                lemma_newton_step_lower(yv@, z.val(), s);
                if x.val() >= z.val() {
                    lemma_newton_fixed_point(yv@, z.val());
                }
                lemma_fundamental_div_mod((q.val() + z.val()) as int, 2);
            }
        }
        proof {
            // On exit the iterate squares to at most `y` and sits at or
            // above the root, so it is the root.
            assert(z.val() * z.val() <= yv@);
            if z.val() > s {
                lemma_mul_inequality((s + 1) as int, z.val() as int, (s + 1) as int);
                lemma_mul_inequality((s + 1) as int, z.val() as int, z.val() as int);
                assert(z.val() * (s + 1) <= z.val() * z.val()) by (nonlinear_arith)
                    requires s + 1 <= z.val(), z.val() >= 0;
                assert(false);
            }
        }
        z
    } else if !y.is_zero() {
        proof {
            assert(1nat * 1nat <= yv@ && yv@ < (1nat + 1) * (1nat + 1)) by (nonlinear_arith)
                requires 1 <= yv@ <= 3;
            lemma_isqrt_unique(yv@, 1);
        }
        U256::from_u64(1)
    } else {
        proof {
            assert(isqrt(0) == 0);
        }
        U256::zero()
    }
}

} // verus!
