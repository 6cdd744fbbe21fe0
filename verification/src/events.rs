//! Structured event records. Each state-changing operation appends the
//! records it emits, in order, to the log of the component it belongs to.

use vstd::prelude::*;

verus! {

use crate::addr::Addr;
use crate::u256::U256;

/// An emitted event record.
#[derive(Clone, Copy, PartialEq, Eq, Structural, Debug)]
pub enum Event {
    /// Shares moved between accounts; mints come from the zero address and
    /// burns go to it.
    Transfer { from: Addr, to: Addr, value: U256 },
    /// A spending authorization was overwritten.
    Approval { owner: Addr, spender: Addr, value: U256 },
    /// Liquidity was deposited.
    Mint { sender: Addr, amount0: U256, amount1: U256 },
    /// Liquidity was redeemed.
    Burn { sender: Addr, amount0: U256, amount1: U256, to: Addr },
    /// A swap was settled.
    Swap {
        sender: Addr,
        amount0_in: U256,
        amount1_in: U256,
        amount0_out: U256,
        amount1_out: U256,
        to: Addr,
    },
    /// The cached reserves were refreshed.
    Sync { reserve0: U256, reserve1: U256 },
}

/// `e` is a Transfer of `v` from `from` to `to`.
pub open spec fn is_transfer(e: Event, from: Addr, to: Addr, v: nat) -> bool {
    e matches Event::Transfer { from: f, to: t, value } && f == from && t == to && value.val()
        == v
}

/// `e` is an Approval of `v` by `owner` for `spender`.
pub open spec fn is_approval(e: Event, owner: Addr, spender: Addr, v: nat) -> bool {
    e matches Event::Approval { owner: o, spender: p, value } && o == owner && p == spender
        && value.val() == v
}

/// `e` is a Mint record with the given deposit amounts.
pub open spec fn is_mint(e: Event, sender: Addr, a0: nat, a1: nat) -> bool {
    e matches Event::Mint { sender: s, amount0, amount1 } && s == sender && amount0.val() == a0
        && amount1.val() == a1
}

/// `e` is a Burn record with the given redemption amounts.
pub open spec fn is_burn(e: Event, sender: Addr, a0: nat, a1: nat, to: Addr) -> bool {
    e matches Event::Burn { sender: s, amount0, amount1, to: t } && s == sender && amount0.val()
        == a0 && amount1.val() == a1 && t == to
}

/// `e` is a Swap record with the given flows.
pub open spec fn is_swap(
    e: Event,
    sender: Addr,
    in0: nat,
    in1: nat,
    out0: nat,
    out1: nat,
    to: Addr,
) -> bool {
    e matches Event::Swap { sender: s, amount0_in, amount1_in, amount0_out, amount1_out, to: t }
        && s == sender && amount0_in.val() == in0 && amount1_in.val() == in1
        && amount0_out.val() == out0 && amount1_out.val() == out1 && t == to
}

/// `e` is a Sync record carrying the given reserves.
pub open spec fn is_sync(e: Event, r0: nat, r1: nat) -> bool {
    e matches Event::Sync { reserve0, reserve1 } && reserve0.val() == r0 && reserve1.val() == r1
}

} // verus!
