//! The failure taxonomy. Every operation either completes in full or fails
//! with one of these and leaves the state untouched.

use vstd::prelude::*;

verus! {

/// Why an operation was refused.
#[derive(Clone, Copy, PartialEq, Eq, Structural, Debug)]
pub enum PairError {
    /// `initialize` was called a second time.
    AlreadyInitialized,
    /// A share transfer asked for more than the sender holds.
    InsufficientBalance,
    /// `transferFrom` asked for more than the caller is allowed.
    InsufficientAllowance,
    /// A redemption would pay out zero of one of the assets.
    InsufficientLiquidityBurned,
    /// A swap requested a zero output.
    InsufficientOutputAmount,
    /// A swap requested an output at or above a reserve.
    InsufficientLiquidity,
    /// A swap supplied no input of either asset.
    InsufficientInputAmount,
    /// A swap would decrease the fee-adjusted reserve product.
    KInvariantViolated,
    /// A deposit would be credited zero shares.
    ZeroLiquidity,
    /// A checked subtraction underflowed: an observed balance fell below
    /// what the operation needs it to cover.
    ArithmeticUnderflow,
    /// An external token's transfer call did not report success.
    TransferFailed,
}

} // verus!
