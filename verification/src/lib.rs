//! Settlement core of a two-asset constant-product automated market maker
//! pair: a fungible liquidity-share ledger and the reserve/swap engine that
//! issues shares against deposits and executes swaps against the product
//! invariant.
#![allow(non_snake_case)]

pub mod addr;
pub mod errors;
pub mod events;
pub mod laws;
pub mod ledger;
pub mod math;
pub mod pair;
pub mod u256;
