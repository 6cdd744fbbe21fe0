//! Laws of the pool, stated over the same spec functions the operation
//! contracts use.

use vstd::prelude::*;

verus! {

use vstd::arithmetic::div_mod::{
    lemma_div_is_ordered,
    lemma_div_multiples_vanish,
    lemma_fundamental_div_mod,
};
use crate::ledger::{UniswapV2ERC20, sum_amounts};
use crate::pair::UniswapV2Pair;
use crate::u256::min_nat;

/// Conservation: the total supply equals the sum of all ledger balances.
/// Every ledger operation requires well-formedness and ensures it again, so
/// this equality holds after any sequence of mints, burns, transfers and
/// approvals starting from the empty ledger.
pub proof fn lemma_total_supply_is_sum_of_balances(l: UniswapV2ERC20)
    requires
        l.wf(),
    ensures
        l.spec_total_supply() == sum_amounts(l.balances@),
{
}

/// What the swap check as implemented guarantees: when the fee-adjusted
/// balance product clears the threshold `r0 * r1 * 1000`, the raw product of
/// the new reserves, scaled by `1000 * 1000`, is at least that threshold.
pub proof fn lemma_swap_product_lower_bound(
    b0: nat,
    b1: nat,
    i0: nat,
    i1: nat,
    r0: nat,
    r1: nat,
)
    requires
        i0 * 3 <= b0 * 1000,
        i1 * 3 <= b1 * 1000,
        (b0 * 1000 - i0 * 3) * (b1 * 1000 - i1 * 3) >= r0 * r1 * 1000,
    ensures
        (b0 * b1) * (1000 * 1000) >= r0 * r1 * 1000,
{
    assert((b0 * b1) * (1000 * 1000) >= (b0 * 1000 - i0 * 3) * (b1 * 1000 - i1 * 3))
        by (nonlinear_arith)
        requires
            i0 * 3 <= b0 * 1000,
            i1 * 3 <= b1 * 1000,
    ;
}

/// Monotonicity of the invariant on swaps whose fee-adjusted balances clear
/// the threshold at the full `1000 * 1000` scale: the product of the
/// reserves never decreases across such a swap.
pub proof fn lemma_k_monotone(b0: nat, b1: nat, i0: nat, i1: nat, r0: nat, r1: nat)
    requires
        i0 * 3 <= b0 * 1000,
        i1 * 3 <= b1 * 1000,
        (b0 * 1000 - i0 * 3) * (b1 * 1000 - i1 * 3) >= r0 * r1 * (1000 * 1000),
    ensures
        b0 * b1 >= r0 * r1,
{
    assert(b0 * b1 >= r0 * r1) by (nonlinear_arith)
        requires
            i0 * 3 <= b0 * 1000,
            i1 * 3 <= b1 * 1000,
            (b0 * 1000 - i0 * 3) * (b1 * 1000 - i1 * 3) >= r0 * r1 * (1000 * 1000),
    ;
}

/// The bound in terms of a successful swap: when a swap on `pre` with the
/// given outputs and observed balances passes its invariant check, the new
/// reserves' product at the `1000 * 1000` scale is at least the old
/// reserves' product at the `1000` scale the check enforces.
pub proof fn lemma_swap_preserves_scaled_product(
    pre: UniswapV2Pair,
    out0: nat,
    out1: nat,
    b0: nat,
    b1: nat,
)
    requires
        (b0 * 1000 - 3 * pre.swap_in0(out0, b0)) * (b1 * 1000 - 3 * pre.swap_in1(out1, b1))
            >= pre.reserve0.val() * pre.reserve1.val() * 1000,
    ensures
        (b0 * b1) * (1000 * 1000) >= (pre.reserve0.val() * pre.reserve1.val()) * 1000,
{
    let i0 = pre.swap_in0(out0, b0);
    let i1 = pre.swap_in1(out1, b1);
    assert(i0 <= b0 && i1 <= b1);
    assert(i0 * 3 <= b0 * 1000 && i1 * 3 <= b1 * 1000) by (nonlinear_arith)
        requires
            i0 <= b0,
            i1 <= b1,
    ;
    lemma_swap_product_lower_bound(b0, b1, i0, i1, pre.reserve0.val(), pre.reserve1.val());
}

/// Round trip, one direction: a pro-rata deposit followed immediately by a
/// redemption of exactly the issued shares, with no other balance changes,
/// pays back at most what was deposited — the only loss is integer-division
/// rounding.
pub proof fn lemma_mint_burn_round_trip(b0: nat, b1: nat, s: nat, r0: nat, r1: nat, l: nat)
    requires
        s > 0,
        r0 > 0,
        r1 > 0,
        b0 >= r0,
        b1 >= r1,
        l == min_nat((b0 - r0) as nat * s / r0, (b1 - r1) as nat * s / r1),
    ensures
        l * b0 / (s + l) <= b0 - r0,
        l * b1 / (s + l) <= b1 - r1,
{
    let a0 = (b0 - r0) as nat;
    let a1 = (b1 - r1) as nat;
    lemma_fundamental_div_mod((a0 * s) as int, r0 as int);
    lemma_fundamental_div_mod((a1 * s) as int, r1 as int);
    assert(l * b0 <= a0 * (s + l)) by (nonlinear_arith)
        requires
            l <= a0 * s / r0,
            r0 * (a0 * s / r0) <= a0 * s,
            b0 == r0 + a0,
            r0 > 0,
    ;
    assert(l * b1 <= a1 * (s + l)) by (nonlinear_arith)
        requires
            l <= a1 * s / r1,
            r1 * (a1 * s / r1) <= a1 * s,
            b1 == r1 + a1,
            r1 > 0,
    ;
    lemma_div_is_ordered((l * b0) as int, (a0 * (s + l)) as int, (s + l) as int);
    lemma_div_is_ordered((l * b1) as int, (a1 * (s + l)) as int, (s + l) as int);
    lemma_div_multiples_vanish(a0 as int, (s + l) as int);
    lemma_div_multiples_vanish(a1 as int, (s + l) as int);
    assert(a0 * (s + l) == (s + l) * a0) by (nonlinear_arith);
    assert(a1 * (s + l) == (s + l) * a1) by (nonlinear_arith);
}

} // verus!
