//! The reserve pool: cached reserves, the price accumulators, and the
//! mint / burn / swap / skim / sync operations over externally observed
//! token balances.
//!
//! The pool is a pure state machine. Everything the host environment
//! supplies — the caller, the clock, and the token balances observed through
//! the external value ledgers — comes in as plain arguments; the transfers an
//! operation asks for go out as plain results.

use vstd::prelude::*;

verus! {

use crate::addr::Addr;
use crate::errors::PairError;
use crate::events::{Event, is_sync};
use crate::ledger::UniswapV2ERC20;
use crate::math::{isqrt, sqrt};
use crate::u256::{
    U256, min_nat, p112, p256, sat_sub, u256_checked_add, u256_checked_div, u256_checked_mul,
    u256_checked_sub, u256_lt, u256_min, u256_saturating_sub,
};

/// 1000 shares locked at the zero address by the first deposit.
pub const MINIMUM_LIQUIDITY: u64 = 1_000;

/// The reserve pool and its embedded share ledger.
pub struct UniswapV2Pair {
    pub factory: Addr,
    pub token0: Addr,
    pub token1: Addr,
    pub reserve0: U256,
    pub reserve1: U256,
    pub block_timestamp_last: u32,
    pub price0_cumulative_last: U256,
    pub price1_cumulative_last: U256,
    pub k_last: U256,
    pub token: UniswapV2ERC20,
    pub log: Vec<Event>,
}

/// Elapsed time between two 32-bit timestamps, wrapping modulo 2^32.
pub open spec fn wrapped_elapsed(now: u32, last: u32) -> nat {
    if now >= last {
        (now - last) as nat
    } else {
        (0x1_0000_0000 - last + now) as nat
    }
}

/// What one accumulator gains: the Q112 fixed-point price of one asset in
/// the other, times the elapsed time.
pub open spec fn accrual(stored: nat, divisor: nat, e: nat) -> nat {
    (stored * p112() / divisor) * e
}

fn elapsed32(now: u32, last: u32) -> (r: u32)
    ensures
        r == wrapped_elapsed(now, last),
{
    if now >= last {
        now - last
    } else {
        ((0x1_0000_0000u64 + now as u64) - last as u64) as u32
    }
}

impl UniswapV2Pair {
    /// Well-formedness: reserves fit 112 bits and the ledger is consistent.
    pub open spec fn wf(self) -> bool {
        &&& self.reserve0.val() < p112()
        &&& self.reserve1.val() < p112()
        &&& self.token.wf()
    }

    /// The price accumulators can absorb the accrual for an update at `now`
    /// against the currently stored reserves without overflowing.
    pub open spec fn sync_fits(self, now: u32) -> bool {
        (wrapped_elapsed(now, self.block_timestamp_last) > 0 && self.reserve0.val() > 0
            && self.reserve1.val() > 0) ==> {
            &&& self.price0_cumulative_last.val() + accrual(
                self.reserve1.val(),
                self.reserve0.val(),
                wrapped_elapsed(now, self.block_timestamp_last),
            ) < p256()
            &&& self.price1_cumulative_last.val() + accrual(
                self.reserve0.val(),
                self.reserve1.val(),
                wrapped_elapsed(now, self.block_timestamp_last),
            ) < p256()
        }
    }

    /// How many shares a deposit of observed balances `(b0, b1)` earns, as
    /// an integer: negative means the first deposit was too small to cover
    /// the locked minimum.
    pub open spec fn mint_liquidity(self, b0: nat, b1: nat) -> int {
        if self.token.spec_total_supply() == 0 {
            isqrt(((b0 - self.reserve0.val()) * (b1 - self.reserve1.val())) as nat) - 1000
        } else {
            min_nat(
                ((b0 - self.reserve0.val()) as nat) * self.token.spec_total_supply()
                    / self.reserve0.val(),
                ((b1 - self.reserve1.val()) as nat) * self.token.spec_total_supply()
                    / self.reserve1.val(),
            ) as int
        }
    }

    /// The shares a deposit locks at the zero address: 1000 for the first
    /// deposit, none afterwards.
    pub open spec fn mint_lock(self, b0: nat, b1: nat) -> nat {
        if self.token.spec_total_supply() == 0 {
            1000
        } else {
            0
        }
    }

    /// The input of asset 0 a swap infers: the excess of the observed
    /// balance over what the reserve would be after paying the output.
    pub open spec fn swap_in0(self, out0: nat, b0: nat) -> nat {
        sat_sub(b0, sat_sub(self.reserve0.val(), out0))
    }

    /// The inferred input of asset 1.
    pub open spec fn swap_in1(self, out1: nat, b1: nat) -> nat {
        sat_sub(b1, sat_sub(self.reserve1.val(), out1))
    }

    /// A pool in its initial state: everything zero, an empty ledger.
    pub fn new() -> (r: UniswapV2Pair)
        ensures
            r.wf(),
            r.factory.spec_is_zero(),
            r.reserve0.val() == 0,
            r.reserve1.val() == 0,
            r.block_timestamp_last == 0,
            r.price0_cumulative_last.val() == 0,
            r.price1_cumulative_last.val() == 0,
            r.k_last.val() == 0,
            r.token.spec_total_supply() == 0,
            forall|a: Addr| r.token.spec_balance_of(a) == 0,
            r.log@ =~= Seq::<Event>::empty(),
            r.token.log@ =~= Seq::<Event>::empty(),
    {
        UniswapV2Pair {
            factory: Addr::zero(),
            token0: Addr::zero(),
            token1: Addr::zero(),
            reserve0: U256::zero(),
            reserve1: U256::zero(),
            block_timestamp_last: 0,
            price0_cumulative_last: U256::zero(),
            price1_cumulative_last: U256::zero(),
            k_last: U256::zero(),
            token: UniswapV2ERC20::new(),
            log: Vec::new(),
        }
    }

    /// Record the caller as factory and store the two token addresses. Works
    /// exactly once: a second call fails with `AlreadyInitialized`.
    pub fn initialize(&mut self, sender: Addr, token0: Addr, token1: Addr) -> (r: Result<
        (),
        PairError,
    >)
        requires
            old(self).wf(),
        ensures
            final(self).wf(),
            (r is Ok) == old(self).factory.spec_is_zero(),
            r is Err ==> r->Err_0 == PairError::AlreadyInitialized && *final(self) == *old(self),
            r is Ok ==> final(self).factory == sender && final(self).token0 == token0 && final(self).token1 == token1,
            r is Ok ==> final(self).reserve0 == old(self).reserve0 && final(self).reserve1 == old(self).reserve1 && final(self).block_timestamp_last == old(self).block_timestamp_last
                && final(self).price0_cumulative_last == old(self).price0_cumulative_last && final(self).price1_cumulative_last == old(self).price1_cumulative_last && final(self).k_last
                == old(self).k_last && final(self).token == old(self).token && final(self).log
                == old(self).log,
    {
        if !self.factory.is_zero() {
            return Err(PairError::AlreadyInitialized);
        }
        self.factory = sender;
        self.token0 = token0;
        self.token1 = token1;
        Ok(())
    }

    /// The cached reserves.
    pub fn getReserves(&self) -> (r: (U256, U256))
        ensures
            r.0 == self.reserve0,
            r.1 == self.reserve1,
    {
        (self.reserve0, self.reserve1)
    }

    /// Refresh the cached reserves from observed balances, accruing the
    /// time-weighted Q112 prices over the elapsed time when both prior
    /// reserves were live.
    fn _update(&mut self, balance0: U256, balance1: U256, reserve0: U256, reserve1: U256, now: u32)
        requires
            old(self).wf(),
            balance0.val() < p112(),
            balance1.val() < p112(),
            reserve0 == old(self).reserve0,
            reserve1 == old(self).reserve1,
            old(self).sync_fits(now),
        ensures
            final(self).wf(),
            final(self).reserve0 == balance0,
            final(self).reserve1 == balance1,
            final(self).block_timestamp_last == now,
            (wrapped_elapsed(now, old(self).block_timestamp_last) > 0 && reserve0.val() > 0
                && reserve1.val() > 0) ==> final(self).price0_cumulative_last.val() == old(self).price0_cumulative_last.val() + accrual(
                old(self).reserve1.val(),
                reserve0.val(),
                wrapped_elapsed(now, old(self).block_timestamp_last),
            ),
            (wrapped_elapsed(now, old(self).block_timestamp_last) > 0 && reserve0.val() > 0
                && reserve1.val() > 0) ==> final(self).price1_cumulative_last.val() == old(self).price1_cumulative_last.val() + accrual(
                old(self).reserve0.val(),
                reserve1.val(),
                wrapped_elapsed(now, old(self).block_timestamp_last),
            ),
            !(wrapped_elapsed(now, old(self).block_timestamp_last) > 0 && reserve0.val() > 0
                && reserve1.val() > 0) ==> final(self).price0_cumulative_last == old(self).price0_cumulative_last && final(self).price1_cumulative_last == old(self).price1_cumulative_last,
            final(self).factory == old(self).factory,
            final(self).token0 == old(self).token0,
            final(self).token1 == old(self).token1,
            final(self).k_last == old(self).k_last,
            final(self).token == old(self).token,
            final(self).log@ == old(self).log@.push(
                (Event::Sync { reserve0: balance0, reserve1: balance1 }),
            ),
    {
        let e = elapsed32(now, self.block_timestamp_last);
        if e > 0 && !self.reserve0.is_zero() && !self.reserve1.is_zero() {
            let q112 = U256 { l0: 0, l1: 0x1_0000_0000_0000, l2: 0, l3: 0 };
            assert(q112.val() == p112());
            proof {
                assert(self.reserve1.val() * q112.val() < p256()) by (nonlinear_arith)
                    requires
                        self.reserve1.val() < 0x1_0000_0000_0000_0000_0000_0000_0000,
                        q112.val() == 0x1_0000_0000_0000_0000_0000_0000_0000nat,
                ;
                assert(self.reserve0.val() * q112.val() < p256()) by (nonlinear_arith)
                    requires
                        self.reserve0.val() < 0x1_0000_0000_0000_0000_0000_0000_0000,
                        q112.val() == 0x1_0000_0000_0000_0000_0000_0000_0000nat,
                ;
            }
            let m0 = u256_checked_mul(&self.reserve1, &q112).unwrap();
            let d0 = u256_checked_div(&m0, &reserve0).unwrap();
            let m1 = u256_checked_mul(&self.reserve0, &q112).unwrap();
            let d1 = u256_checked_div(&m1, &reserve1).unwrap();
            let eu = U256::from_u64(e as u64);
            proof {
                vstd::arithmetic::div_mod::lemma_div_is_ordered_by_denominator(
                    m0.val() as int,
                    1,
                    reserve0.val() as int,
                );
                vstd::arithmetic::div_mod::lemma_div_is_ordered_by_denominator(
                    m1.val() as int,
                    1,
                    reserve1.val() as int,
                );
                assert(d0.val() * eu.val() < p256()) by (nonlinear_arith)
                    requires
                        d0.val() <= m0.val(),
                        m0.val() == self.reserve1.val() * 0x1_0000_0000_0000_0000_0000_0000_0000nat,
                        self.reserve1.val() < 0x1_0000_0000_0000_0000_0000_0000_0000,
                        eu.val() < 0x1_0000_0000,
                        p256() == 0x1_0000_0000_0000_0000_0000_0000_0000_0000_0000_0000_0000_0000_0000_0000_0000_0000nat,
                ;
                assert(d1.val() * eu.val() < p256()) by (nonlinear_arith)
                    requires
                        d1.val() <= m1.val(),
                        m1.val() == self.reserve0.val() * 0x1_0000_0000_0000_0000_0000_0000_0000nat,
                        self.reserve0.val() < 0x1_0000_0000_0000_0000_0000_0000_0000,
                        eu.val() < 0x1_0000_0000,
                        p256() == 0x1_0000_0000_0000_0000_0000_0000_0000_0000_0000_0000_0000_0000_0000_0000_0000_0000nat,
                ;
            }
            let a0 = u256_checked_mul(&d0, &eu).unwrap();
            let a1 = u256_checked_mul(&d1, &eu).unwrap();
            let np0 = u256_checked_add(&self.price0_cumulative_last, &a0).unwrap();
            let np1 = u256_checked_add(&self.price1_cumulative_last, &a1).unwrap();
            self.price0_cumulative_last = np0;
            self.price1_cumulative_last = np1;
        }
        self.block_timestamp_last = now;
        self.reserve0 = balance0;
        self.reserve1 = balance1;
        self.log.push(Event::Sync { reserve0: balance0, reserve1: balance1 });
    }

    /// Force the cached reserves to match the observed balances, with no
    /// transfers.
    pub fn sync(&mut self, balance0: U256, balance1: U256, now: u32)
        requires
            old(self).wf(),
            balance0.val() < p112(),
            balance1.val() < p112(),
            old(self).sync_fits(now),
        ensures
            final(self).wf(),
            final(self).reserve0 == balance0,
            final(self).reserve1 == balance1,
            final(self).block_timestamp_last == now,
            (wrapped_elapsed(now, old(self).block_timestamp_last) > 0 && old(self).reserve0.val()
                > 0 && old(self).reserve1.val() > 0) ==> final(self).price0_cumulative_last.val() == old(self).price0_cumulative_last.val() + accrual(
                old(self).reserve1.val(),
                old(self).reserve0.val(),
                wrapped_elapsed(now, old(self).block_timestamp_last),
            ) && final(self).price1_cumulative_last.val() == old(self).price1_cumulative_last.val() + accrual(
                old(self).reserve0.val(),
                old(self).reserve1.val(),
                wrapped_elapsed(now, old(self).block_timestamp_last),
            ),
            !(wrapped_elapsed(now, old(self).block_timestamp_last) > 0 && old(self).reserve0.val()
                > 0 && old(self).reserve1.val() > 0) ==> final(self).price0_cumulative_last == old(self).price0_cumulative_last && final(self).price1_cumulative_last == old(self).price1_cumulative_last,
            final(self).factory == old(self).factory,
            final(self).token0 == old(self).token0,
            final(self).token1 == old(self).token1,
            final(self).k_last == old(self).k_last,
            final(self).token == old(self).token,
            final(self).log@ == old(self).log@.push(
                (Event::Sync { reserve0: balance0, reserve1: balance1 }),
            ),
    {
        let r0 = self.reserve0;
        let r1 = self.reserve1;
        self._update(balance0, balance1, r0, r1, now);
    }

    /// The share token's name, by delegation to the embedded ledger.
    pub fn name(&self) -> (r: String)
        ensures
            r@ == "Uniswap V2"@,
    {
        self.token.name()
    }

    /// The share token's ticker symbol.
    pub fn symbol(&self) -> (r: String)
        ensures
            r@ == "UNI-V2"@,
    {
        self.token.symbol()
    }

    /// The share token's decimal places.
    pub fn decimals(&self) -> (r: u8)
        ensures
            r == 18,
    {
        self.token.decimals()
    }

    /// The total number of liquidity shares.
    pub fn totalSupply(&self) -> (r: U256)
        ensures
            r.val() == self.token.spec_total_supply(),
    {
        self.token.totalSupply()
    }

    /// The share balance of `address`.
    pub fn balanceOf(&self, address: Addr) -> (r: U256)
        ensures
            r.val() == self.token.spec_balance_of(address),
    {
        self.token.balanceOf(address)
    }

    /// How much `spender` may still spend on behalf of `owner`.
    pub fn allowance(&self, owner: Addr, spender: Addr) -> (r: U256)
        ensures
            r.val() == self.token.spec_allowance(owner, spender),
    {
        self.token.allowance(owner, spender)
    }

    /// The EIP-712 domain separator of the share token.
    pub fn DOMAIN_SEPARATOR(&self, chain_id: u64, contract_addr: Addr) -> (r: Vec<u8>)
        ensures
            r@ == crate::ledger::keccak_of(
                crate::ledger::domain_separator_preimage(chain_id, contract_addr),
            ),
            r@.len() == 32,
    {
        self.token.DOMAIN_SEPARATOR(chain_id, contract_addr)
    }

    /// Overwrite `sender`'s allowance for `spender` on the share ledger.
    pub fn approve(&mut self, sender: Addr, spender: Addr, value: U256) -> (r: bool)
        requires
            old(self).wf(),
        ensures
            final(self).wf(),
            r == true,
            final(self).token.spec_allowance(sender, spender) == value.val(),
            forall|x: Addr, y: Addr|
                !(x == sender && y == spender) ==> final(self).token.spec_allowance(x, y)
                    == old(self).token.spec_allowance(x, y),
            final(self).token.balances == old(self).token.balances,
            final(self).token.total_supply == old(self).token.total_supply,
            final(self).reserve0 == old(self).reserve0 && final(self).reserve1 == old(self).reserve1 && final(self).factory == old(self).factory && final(self).log == old(self).log,
    {
        self.token.approve(sender, spender, value)
    }

    /// Move `value` shares from `sender` to `to` on the share ledger.
    pub fn transfer(&mut self, sender: Addr, to: Addr, value: U256) -> (r: Result<
        bool,
        PairError,
    >)
        requires
            old(self).wf(),
        ensures
            final(self).wf(),
            (r is Ok) == (old(self).token.spec_balance_of(sender) >= value.val()),
            r is Err ==> r->Err_0 == PairError::InsufficientBalance && *final(self) == *old(self),
            r is Ok ==> final(self).token.spec_balance_of(sender) == (if sender == to {
                old(self).token.spec_balance_of(sender)
            } else {
                (old(self).token.spec_balance_of(sender) - value.val()) as nat
            }),
            r is Ok ==> final(self).token.spec_balance_of(to) == (if sender == to {
                old(self).token.spec_balance_of(to)
            } else {
                old(self).token.spec_balance_of(to) + value.val()
            }),
            r is Ok ==> (forall|c: Addr|
                c != sender && c != to ==> final(self).token.spec_balance_of(c) == old(self).token.spec_balance_of(c)),
            r is Ok ==> final(self).token.total_supply == old(self).token.total_supply,
            final(self).reserve0 == old(self).reserve0 && final(self).reserve1 == old(self).reserve1 && final(self).factory == old(self).factory && final(self).log == old(self).log,
    {
        self.token.transfer(sender, to, value)
    }

    /// Spend `value` of `sender`'s allowance from `from` and move the shares
    /// to `to`, on the share ledger.
    pub fn transferFrom(&mut self, sender: Addr, from: Addr, to: Addr, value: U256) -> (r:
        Result<bool, PairError>)
        requires
            old(self).wf(),
        ensures
            final(self).wf(),
            (r is Ok) == (old(self).token.spec_allowance(from, sender) >= value.val() && old(self).token.spec_balance_of(from) >= value.val()),
            r is Err ==> *final(self) == *old(self),
            old(self).token.spec_allowance(from, sender) < value.val() ==> r == Err::<bool, PairError>(PairError::InsufficientAllowance),
            old(self).token.spec_allowance(from, sender) >= value.val() && old(self).token.spec_balance_of(from) < value.val() ==> r == Err::<bool, PairError>(
                PairError::InsufficientBalance,
            ),
            r is Ok ==> final(self).token.spec_allowance(from, sender) == old(self).token.spec_allowance(from, sender) - value.val(),
            r is Ok ==> final(self).token.spec_balance_of(from) == (if from == to {
                old(self).token.spec_balance_of(from)
            } else {
                (old(self).token.spec_balance_of(from) - value.val()) as nat
            }),
            r is Ok ==> final(self).token.spec_balance_of(to) == (if from == to {
                old(self).token.spec_balance_of(to)
            } else {
                old(self).token.spec_balance_of(to) + value.val()
            }),
            r is Ok ==> (forall|c: Addr|
                c != from && c != to ==> final(self).token.spec_balance_of(c) == old(self).token.spec_balance_of(c)),
            final(self).reserve0 == old(self).reserve0 && final(self).reserve1 == old(self).reserve1 && final(self).factory == old(self).factory && final(self).log == old(self).log,
    {
        self.token.transferFrom(sender, from, to, value)
    }

    /// The protocol-fee hook, with the fee switch permanently off: it mints
    /// nothing, reports the switch as off, and clears a stale `k_last`.
    fn _mintFee(&mut self, sender: Addr, reserve0: U256, reserve1: U256) -> (r: bool)
        requires
            old(self).wf(),
        ensures
            final(self).wf(),
            r == false,
            final(self).k_last.val() == 0,
            final(self).factory == old(self).factory,
            final(self).token0 == old(self).token0,
            final(self).token1 == old(self).token1,
            final(self).reserve0 == old(self).reserve0,
            final(self).reserve1 == old(self).reserve1,
            final(self).block_timestamp_last == old(self).block_timestamp_last,
            final(self).price0_cumulative_last == old(self).price0_cumulative_last,
            final(self).price1_cumulative_last == old(self).price1_cumulative_last,
            final(self).token == old(self).token,
            final(self).log == old(self).log,
    {
        let fee_on = false;
        let k_last = self.k_last;
        if fee_on {
            if !k_last.is_zero() {
                let k = u256_checked_mul(&reserve0, &reserve1).unwrap();
                let root_k = sqrt(&k);
                let root_k_last = sqrt(&k_last);
                if u256_lt(&root_k_last, &root_k) {
                    let diff = u256_checked_sub(&root_k, &root_k_last).unwrap();
                    let total = self.token.totalSupply();
                    let numerator = u256_checked_mul(&total, &diff).unwrap();
                    let five = U256::from_u64(5);
                    let scaled = u256_checked_mul(&root_k, &five).unwrap();
                    let denominator = u256_checked_add(&scaled, &root_k_last).unwrap();
                    let liquidity = u256_checked_div(&numerator, &denominator).unwrap();
                    if !liquidity.is_zero() {
                        self.token._mint(sender, liquidity);
                    }
                }
            }
        } else if !k_last.is_zero() {
            self.k_last = U256::zero();
        }
        fee_on
    }

    /// Deposit: credit `to` with shares for whatever the observed balances
    /// hold beyond the cached reserves. The first deposit prices shares by
    /// the square root of the deposited product and locks 1000 shares at the
    /// zero address; later deposits are pro-rata, issuing the smaller of the
    /// two ratios so that neither asset is diluted.
    pub fn mint(&mut self, sender: Addr, to: Addr, balance0: U256, balance1: U256, now: u32) -> (r:
        Result<U256, PairError>)
        requires
            old(self).wf(),
            balance0.val() < p112(),
            balance1.val() < p112(),
            old(self).sync_fits(now),
            (old(self).token.spec_total_supply() != 0 && balance0.val() >= old(self).reserve0.val()
                && balance1.val() >= old(self).reserve1.val()) ==> {
                &&& old(self).reserve0.val() > 0
                &&& old(self).reserve1.val() > 0
                &&& (balance0.val() - old(self).reserve0.val()) * old(self).token.spec_total_supply() < p256()
                &&& (balance1.val() - old(self).reserve1.val()) * old(self).token.spec_total_supply() < p256()
                &&& old(self).token.spec_total_supply() + old(self).mint_liquidity(balance0.val(), balance1.val()) < p256()
            },
        ensures
            final(self).wf(),
            (balance0.val() < old(self).reserve0.val() || balance1.val() < old(self).reserve1.val())
                ==> r == Err::<U256, PairError>(PairError::ArithmeticUnderflow) && *final(self) == *old(self),
            (balance0.val() >= old(self).reserve0.val() && balance1.val() >= old(self).reserve1.val()
                && old(self).mint_liquidity(balance0.val(), balance1.val()) < 0) ==> r == Err::<U256, PairError>(PairError::ArithmeticUnderflow) && *final(self) == *old(self),
            (balance0.val() >= old(self).reserve0.val() && balance1.val() >= old(self).reserve1.val()
                && old(self).mint_liquidity(balance0.val(), balance1.val()) == 0) ==> r == Err::<U256, PairError>(PairError::ZeroLiquidity) && *final(self) == *old(self),
            (r is Ok) == (balance0.val() >= old(self).reserve0.val() && balance1.val() >= old(self).reserve1.val() && old(self).mint_liquidity(balance0.val(), balance1.val()) > 0),
            r is Ok ==> r->Ok_0.val() == old(self).mint_liquidity(balance0.val(), balance1.val()),
            r is Ok ==> final(self).token.spec_total_supply() == old(self).token.spec_total_supply()
                + old(self).mint_lock(balance0.val(), balance1.val()) + old(self).mint_liquidity(
                balance0.val(),
                balance1.val(),
            ),
            r is Ok ==> final(self).token.spec_balance_of(to) == old(self).token.spec_balance_of(to)
                + old(self).mint_liquidity(balance0.val(), balance1.val()) + (if to == (Addr {
                hi: 0,
                lo: 0,
            }) {
                old(self).mint_lock(balance0.val(), balance1.val())
            } else {
                0
            }),
            r is Ok ==> final(self).token.spec_balance_of((Addr { hi: 0, lo: 0 })) == old(self).token.spec_balance_of((Addr { hi: 0, lo: 0 })) + old(self).mint_lock(
                balance0.val(),
                balance1.val(),
            ) + (if to == (Addr { hi: 0, lo: 0 }) {
                old(self).mint_liquidity(balance0.val(), balance1.val())
            } else {
                0
            }),
            r is Ok ==> (forall|c: Addr|
                c != to && c != (Addr { hi: 0, lo: 0 }) ==> final(self).token.spec_balance_of(c)
                    == old(self).token.spec_balance_of(c)),
            r is Ok ==> final(self).token.allowances == old(self).token.allowances,
            r is Ok ==> final(self).reserve0 == balance0 && final(self).reserve1 == balance1
                && final(self).block_timestamp_last == now && final(self).k_last.val() == 0
                && final(self).factory == old(self).factory && final(self).token0 == old(self).token0 && final(self).token1 == old(self).token1,
            r is Ok ==> ((wrapped_elapsed(now, old(self).block_timestamp_last) > 0 && old(self).reserve0.val() > 0 && old(self).reserve1.val() > 0) ==> final(self).price0_cumulative_last.val() == old(self).price0_cumulative_last.val() + accrual(
                old(self).reserve1.val(),
                old(self).reserve0.val(),
                wrapped_elapsed(now, old(self).block_timestamp_last),
            ) && final(self).price1_cumulative_last.val() == old(self).price1_cumulative_last.val()
                + accrual(
                old(self).reserve0.val(),
                old(self).reserve1.val(),
                wrapped_elapsed(now, old(self).block_timestamp_last),
            )),
            r is Ok ==> (!(wrapped_elapsed(now, old(self).block_timestamp_last) > 0 && old(self).reserve0.val() > 0 && old(self).reserve1.val() > 0) ==> final(self).price0_cumulative_last == old(self).price0_cumulative_last && final(self).price1_cumulative_last == old(self).price1_cumulative_last),
            r is Ok ==> final(self).log@.len() == old(self).log@.len() + 2 && final(self).log@.subrange(0, old(self).log@.len() as int) == old(self).log@ && is_sync(
                final(self).log@[old(self).log@.len() as int],
                balance0.val(),
                balance1.val(),
            ) && crate::events::is_mint(
                final(self).log@.last(),
                sender,
                (balance0.val() - old(self).reserve0.val()) as nat,
                (balance1.val() - old(self).reserve1.val()) as nat,
            ),
            r is Ok ==> final(self).token.log@.len() == old(self).token.log@.len() + (if old(self).token.spec_total_supply() == 0 {
                2nat
            } else {
                1nat
            }) && final(self).token.log@.subrange(0, old(self).token.log@.len() as int) == old(self).token.log@ && crate::events::is_transfer(
                final(self).token.log@.last(),
                (Addr { hi: 0, lo: 0 }),
                to,
                old(self).mint_liquidity(balance0.val(), balance1.val()) as nat,
            ) && (old(self).token.spec_total_supply() == 0 ==> crate::events::is_transfer(
                final(self).token.log@[old(self).token.log@.len() as int],
                (Addr { hi: 0, lo: 0 }),
                (Addr { hi: 0, lo: 0 }),
                1000,
            )),
    {
        let r0 = self.reserve0;
        let r1 = self.reserve1;
        let amount0 = match u256_checked_sub(&balance0, &r0) {
            Some(a) => a,
            None => {
                return Err(PairError::ArithmeticUnderflow);
            }
        };
        let amount1 = match u256_checked_sub(&balance1, &r1) {
            Some(a) => a,
            None => {
                return Err(PairError::ArithmeticUnderflow);
            }
        };
        let total = self.token.totalSupply();
        let min_liq = U256::from_u64(MINIMUM_LIQUIDITY);
        let liquidity: U256;
        if total.is_zero() {
            proof {
                assert(amount0.val() * amount1.val() + 1 < p256()) by (nonlinear_arith)
                    requires
                        amount0.val() < 0x1_0000_0000_0000_0000_0000_0000_0000,
                        amount1.val() < 0x1_0000_0000_0000_0000_0000_0000_0000,
                        p256() == 0x1_0000_0000_0000_0000_0000_0000_0000_0000_0000_0000_0000_0000_0000_0000_0000_0000nat,
                ;
            }
            let prod = u256_checked_mul(&amount0, &amount1).unwrap();
            let root = sqrt(&prod);
            liquidity = match u256_checked_sub(&root, &min_liq) {
                Some(l) => l,
                None => {
                    return Err(PairError::ArithmeticUnderflow);
                }
            };
        } else {
            let n0 = u256_checked_mul(&amount0, &total).unwrap();
            let d0 = u256_checked_div(&n0, &r0).unwrap();
            let n1 = u256_checked_mul(&amount1, &total).unwrap();
            let d1 = u256_checked_div(&n1, &r1).unwrap();
            liquidity = u256_min(d0, d1);
        }
        if liquidity.is_zero() {
            return Err(PairError::ZeroLiquidity);
        }
        let fee_on = self._mintFee(sender, r0, r1);
        if total.is_zero() {
            self.token._mint(Addr::zero(), min_liq);
            proof {
                // The first deposit's total supply is the root of the
                // deposited product, which fits far below 2^256.
                assert(p112() * p112() == 0x1_0000_0000_0000_0000_0000_0000_0000_0000_0000_0000_0000_0000_0000_0000nat);
                assert(amount0.val() * amount1.val() < p112() * p112()) by (nonlinear_arith)
                    requires
                        amount0.val() < p112(),
                        amount1.val() < p112(),
                        p112() == 0x1_0000_0000_0000_0000_0000_0000_0000nat,
                        p112() * p112() == 0x1_0000_0000_0000_0000_0000_0000_0000_0000_0000_0000_0000_0000_0000_0000nat,
                ;
                crate::math::lemma_isqrt_below((amount0.val() * amount1.val()) as nat, p112());
            }
            self.token._mint(to, liquidity);
        } else {
            self.token._mint(to, liquidity);
        }
        self._update(balance0, balance1, r0, r1, now);
        if fee_on {
            let kr0 = self.reserve0;
            let kr1 = self.reserve1;
            let k1 = u256_checked_mul(&kr0, &kr1).unwrap();
            self.k_last = k1;
        }
        self.log.push(Event::Mint { sender, amount0, amount1 });
        Ok(liquidity)
    }

    /// What redeeming `liquidity` shares pays out against observed balances:
    /// the pro-rata slice of each, rounded down. Fails if either slice
    /// rounds to nothing. This is the decision half of a redemption; `burn`
    /// applies it to the state once the caller has moved the tokens.
    pub fn burn_amounts(&self, liquidity: U256, balance0: U256, balance1: U256) -> (r: Result<
        (U256, U256),
        PairError,
    >)
        requires
            self.token.spec_total_supply() != 0,
            liquidity.val() * balance0.val() < p256(),
            liquidity.val() * balance1.val() < p256(),
        ensures
            (r is Ok) == (liquidity.val() * balance0.val() / self.token.spec_total_supply() != 0
                && liquidity.val() * balance1.val() / self.token.spec_total_supply() != 0),
            r is Err ==> r->Err_0 == PairError::InsufficientLiquidityBurned,
            r is Ok ==> r->Ok_0.0.val() == liquidity.val() * balance0.val()
                / self.token.spec_total_supply() && r->Ok_0.1.val() == liquidity.val()
                * balance1.val() / self.token.spec_total_supply(),
    {
        let total = self.token.totalSupply();
        let n0 = u256_checked_mul(&liquidity, &balance0).unwrap();
        let a0 = u256_checked_div(&n0, &total).unwrap();
        let n1 = u256_checked_mul(&liquidity, &balance1).unwrap();
        let a1 = u256_checked_div(&n1, &total).unwrap();
        if a0.is_zero() || a1.is_zero() {
            return Err(PairError::InsufficientLiquidityBurned);
        }
        Ok((a0, a1))
    }

    /// Redemption: burn the shares that were sent to the pool itself (held
    /// by `self_addr`) and pay out the pro-rata slice of each observed
    /// balance. The caller performs the two transfers and reports the
    /// re-observed balances, which become the new reserves.
    pub fn burn(
        &mut self,
        sender: Addr,
        to: Addr,
        self_addr: Addr,
        balance0: U256,
        balance1: U256,
        balance0_after: U256,
        balance1_after: U256,
        now: u32,
    ) -> (r: Result<(U256, U256), PairError>)
        requires
            old(self).wf(),
            old(self).token.spec_total_supply() != 0,
            old(self).token.spec_balance_of(self_addr) * balance0.val() < p256(),
            old(self).token.spec_balance_of(self_addr) * balance1.val() < p256(),
            balance0_after.val() < p112(),
            balance1_after.val() < p112(),
            old(self).sync_fits(now),
        ensures
            final(self).wf(),
            (r is Ok) == (old(self).token.spec_balance_of(self_addr) * balance0.val() / old(self).token.spec_total_supply() != 0 && old(self).token.spec_balance_of(self_addr)
                * balance1.val() / old(self).token.spec_total_supply() != 0),
            r is Err ==> r->Err_0 == PairError::InsufficientLiquidityBurned && *final(self)
                == *old(self),
            r is Ok ==> r->Ok_0.0.val() == old(self).token.spec_balance_of(self_addr)
                * balance0.val() / old(self).token.spec_total_supply() && r->Ok_0.1.val() == old(self).token.spec_balance_of(self_addr) * balance1.val() / old(self).token.spec_total_supply(),
            r is Ok ==> final(self).token.spec_total_supply() == old(self).token.spec_total_supply() - old(self).token.spec_balance_of(self_addr),
            r is Ok ==> final(self).token.spec_balance_of(self_addr) == 0,
            r is Ok ==> (forall|c: Addr|
                c != self_addr ==> final(self).token.spec_balance_of(c) == old(self).token.spec_balance_of(c)),
            r is Ok ==> final(self).token.allowances == old(self).token.allowances,
            r is Ok ==> final(self).reserve0 == balance0_after && final(self).reserve1
                == balance1_after && final(self).block_timestamp_last == now && final(self).k_last.val() == 0 && final(self).factory == old(self).factory && final(self).token0
                == old(self).token0 && final(self).token1 == old(self).token1,
            r is Ok ==> ((wrapped_elapsed(now, old(self).block_timestamp_last) > 0 && old(self).reserve0.val() > 0 && old(self).reserve1.val() > 0) ==> final(self).price0_cumulative_last.val() == old(self).price0_cumulative_last.val() + accrual(
                old(self).reserve1.val(),
                old(self).reserve0.val(),
                wrapped_elapsed(now, old(self).block_timestamp_last),
            ) && final(self).price1_cumulative_last.val() == old(self).price1_cumulative_last.val()
                + accrual(
                old(self).reserve0.val(),
                old(self).reserve1.val(),
                wrapped_elapsed(now, old(self).block_timestamp_last),
            )),
            r is Ok ==> (!(wrapped_elapsed(now, old(self).block_timestamp_last) > 0 && old(self).reserve0.val() > 0 && old(self).reserve1.val() > 0) ==> final(self).price0_cumulative_last == old(self).price0_cumulative_last && final(self).price1_cumulative_last == old(self).price1_cumulative_last),
            r is Ok ==> final(self).token.log@.len() == old(self).token.log@.len() + 1 && final(self).token.log@.subrange(0, old(self).token.log@.len() as int) == old(self).token.log@
                && crate::events::is_transfer(
                final(self).token.log@.last(),
                self_addr,
                (Addr { hi: 0, lo: 0 }),
                old(self).token.spec_balance_of(self_addr),
            ),
            r is Ok ==> final(self).log@.len() == old(self).log@.len() + 2 && final(self).log@.subrange(0, old(self).log@.len() as int) == old(self).log@ && is_sync(
                final(self).log@[old(self).log@.len() as int],
                balance0_after.val(),
                balance1_after.val(),
            ) && crate::events::is_burn(
                final(self).log@.last(),
                sender,
                old(self).token.spec_balance_of(self_addr) * balance0.val() / old(self).token.spec_total_supply(),
                old(self).token.spec_balance_of(self_addr) * balance1.val() / old(self).token.spec_total_supply(),
                to,
            ),
    {
        let r0 = self.reserve0;
        let r1 = self.reserve1;
        let liquidity = self.token.balanceOf(self_addr);
        let amounts = match self.burn_amounts(liquidity, balance0, balance1) {
            Ok(a) => a,
            Err(e) => {
                return Err(e);
            }
        };
        let (amount0, amount1) = amounts;
        let fee_on = self._mintFee(sender, r0, r1);
        self.token._burn(self_addr, liquidity);
        self._update(balance0_after, balance1_after, r0, r1, now);
        if fee_on {
            let kr0 = self.reserve0;
            let kr1 = self.reserve1;
            let k1 = u256_checked_mul(&kr0, &kr1).unwrap();
            self.k_last = k1;
        }
        self.log.push(Event::Burn { sender, amount0, amount1, to });
        Ok((amount0, amount1))
    }

    /// Swap: the requested outputs have already been optimistically
    /// transferred by the caller (the flash-swap window); `balance0` and
    /// `balance1` are the balances observed afterwards. The inferred inputs
    /// must leave the fee-adjusted product of the balances at or above the
    /// scaled product of the prior reserves.
    pub fn swap(
        &mut self,
        sender: Addr,
        amount0_out: U256,
        amount1_out: U256,
        to: Addr,
        balance0: U256,
        balance1: U256,
        now: u32,
    ) -> (r: Result<(), PairError>)
        requires
            old(self).wf(),
            balance0.val() < p112(),
            balance1.val() < p112(),
            old(self).sync_fits(now),
        ensures
            final(self).wf(),
            (amount0_out.val() == 0 || amount1_out.val() == 0) ==> r == Err::<(), PairError>(
                PairError::InsufficientOutputAmount,
            ) && *final(self) == *old(self),
            (amount0_out.val() > 0 && amount1_out.val() > 0 && (amount0_out.val() >= old(self).reserve0.val() || amount1_out.val() >= old(self).reserve1.val())) ==> r == Err::<(), PairError>(PairError::InsufficientLiquidity) && *final(self) == *old(self),
            (amount0_out.val() > 0 && amount1_out.val() > 0 && amount0_out.val() < old(self).reserve0.val() && amount1_out.val() < old(self).reserve1.val() && old(self).swap_in0(amount0_out.val(), balance0.val()) == 0 && old(self).swap_in1(
                amount1_out.val(),
                balance1.val(),
            ) == 0) ==> r == Err::<(), PairError>(PairError::InsufficientInputAmount) && *final(self) == *old(self),
            (amount0_out.val() > 0 && amount1_out.val() > 0 && amount0_out.val() < old(self).reserve0.val() && amount1_out.val() < old(self).reserve1.val() && (old(self).swap_in0(amount0_out.val(), balance0.val()) > 0 || old(self).swap_in1(
                amount1_out.val(),
                balance1.val(),
            ) > 0) && (balance0.val() * 1000 - 3 * old(self).swap_in0(
                amount0_out.val(),
                balance0.val(),
            )) * (balance1.val() * 1000 - 3 * old(self).swap_in1(amount1_out.val(), balance1.val()))
                < old(self).reserve0.val() * old(self).reserve1.val() * 1000) ==> r == Err::<(), PairError>(PairError::KInvariantViolated) && *final(self) == *old(self),
            (r is Ok) == (amount0_out.val() > 0 && amount1_out.val() > 0 && amount0_out.val()
                < old(self).reserve0.val() && amount1_out.val() < old(self).reserve1.val() && (old(self).swap_in0(amount0_out.val(), balance0.val()) > 0 || old(self).swap_in1(
                amount1_out.val(),
                balance1.val(),
            ) > 0) && (balance0.val() * 1000 - 3 * old(self).swap_in0(
                amount0_out.val(),
                balance0.val(),
            )) * (balance1.val() * 1000 - 3 * old(self).swap_in1(amount1_out.val(), balance1.val()))
                >= old(self).reserve0.val() * old(self).reserve1.val() * 1000),
            r is Ok ==> final(self).reserve0 == balance0 && final(self).reserve1 == balance1
                && final(self).block_timestamp_last == now && final(self).k_last == old(self).k_last && final(self).token == old(self).token && final(self).factory == old(self).factory && final(self).token0 == old(self).token0 && final(self).token1 == old(self).token1,
            r is Ok ==> ((wrapped_elapsed(now, old(self).block_timestamp_last) > 0 && old(self).reserve0.val() > 0 && old(self).reserve1.val() > 0) ==> final(self).price0_cumulative_last.val() == old(self).price0_cumulative_last.val() + accrual(
                old(self).reserve1.val(),
                old(self).reserve0.val(),
                wrapped_elapsed(now, old(self).block_timestamp_last),
            ) && final(self).price1_cumulative_last.val() == old(self).price1_cumulative_last.val()
                + accrual(
                old(self).reserve0.val(),
                old(self).reserve1.val(),
                wrapped_elapsed(now, old(self).block_timestamp_last),
            )),
            r is Ok ==> (!(wrapped_elapsed(now, old(self).block_timestamp_last) > 0 && old(self).reserve0.val() > 0 && old(self).reserve1.val() > 0) ==> final(self).price0_cumulative_last == old(self).price0_cumulative_last && final(self).price1_cumulative_last == old(self).price1_cumulative_last),
            r is Ok ==> final(self).log@.len() == old(self).log@.len() + 2 && final(self).log@.subrange(0, old(self).log@.len() as int) == old(self).log@ && is_sync(
                final(self).log@[old(self).log@.len() as int],
                balance0.val(),
                balance1.val(),
            ) && crate::events::is_swap(
                final(self).log@.last(),
                sender,
                old(self).swap_in0(amount0_out.val(), balance0.val()),
                old(self).swap_in1(amount1_out.val(), balance1.val()),
                amount0_out.val(),
                amount1_out.val(),
                to,
            ),
    {
        if amount0_out.is_zero() || amount1_out.is_zero() {
            return Err(PairError::InsufficientOutputAmount);
        }
        let r0 = self.reserve0;
        let r1 = self.reserve1;
        if !u256_lt(&amount0_out, &r0) || !u256_lt(&amount1_out, &r1) {
            return Err(PairError::InsufficientLiquidity);
        }
        let in0 = u256_saturating_sub(&balance0, &u256_saturating_sub(&r0, &amount0_out));
        let in1 = u256_saturating_sub(&balance1, &u256_saturating_sub(&r1, &amount1_out));
        if in0.is_zero() && in1.is_zero() {
            return Err(PairError::InsufficientInputAmount);
        }
        let thousand = U256::from_u64(1000);
        let three = U256::from_u64(3);
        proof {
            assert(balance0.val() * 1000 < p256() && balance1.val() * 1000 < p256() && in0.val()
                * 3 <= balance0.val() * 1000 && in1.val() * 3 <= balance1.val() * 1000)
                by (nonlinear_arith)
                requires
                    balance0.val() < 0x1_0000_0000_0000_0000_0000_0000_0000,
                    balance1.val() < 0x1_0000_0000_0000_0000_0000_0000_0000,
                    in0.val() <= balance0.val(),
                    in1.val() <= balance1.val(),
                    p256() == 0x1_0000_0000_0000_0000_0000_0000_0000_0000_0000_0000_0000_0000_0000_0000_0000_0000nat,
            ;
        }
        let b0m = u256_checked_mul(&balance0, &thousand).unwrap();
        let i0m = u256_checked_mul(&in0, &three).unwrap();
        let adjusted0 = u256_checked_sub(&b0m, &i0m).unwrap();
        let b1m = u256_checked_mul(&balance1, &thousand).unwrap();
        let i1m = u256_checked_mul(&in1, &three).unwrap();
        let adjusted1 = u256_checked_sub(&b1m, &i1m).unwrap();
        proof {
            assert(r0.val() * r1.val() < p256() && (r0.val() * r1.val()) * 1000 < p256()
                && adjusted0.val() * adjusted1.val() < p256()) by (nonlinear_arith)
                requires
                    r0.val() < 0x1_0000_0000_0000_0000_0000_0000_0000,
                    r1.val() < 0x1_0000_0000_0000_0000_0000_0000_0000,
                    adjusted0.val() <= balance0.val() * 1000,
                    adjusted1.val() <= balance1.val() * 1000,
                    balance0.val() < 0x1_0000_0000_0000_0000_0000_0000_0000,
                    balance1.val() < 0x1_0000_0000_0000_0000_0000_0000_0000,
                    p256() == 0x1_0000_0000_0000_0000_0000_0000_0000_0000_0000_0000_0000_0000_0000_0000_0000_0000nat,
            ;
        }
        let k0 = u256_checked_mul(&r0, &r1).unwrap();
        let k = u256_checked_mul(&k0, &thousand).unwrap();
        let prod = u256_checked_mul(&adjusted0, &adjusted1).unwrap();
        if u256_lt(&prod, &k) {
            return Err(PairError::KInvariantViolated);
        }
        self._update(balance0, balance1, r0, r1, now);
        self.log.push(
            Event::Swap {
                sender,
                amount0_in: in0,
                amount1_in: in1,
                amount0_out,
                amount1_out,
                to,
            },
        );
        Ok(())
    }

    /// The amounts a skim would pay out: whatever the observed balances hold
    /// beyond the cached reserves. The caller performs the transfers; the
    /// pool state does not change.
    pub fn skim(&self, to: Addr, balance0: U256, balance1: U256) -> (r: (U256, U256))
        requires
            balance0.val() >= self.reserve0.val(),
            balance1.val() >= self.reserve1.val(),
        ensures
            r.0.val() == balance0.val() - self.reserve0.val(),
            r.1.val() == balance1.val() - self.reserve1.val(),
    {
        let a0 = u256_checked_sub(&balance0, &self.reserve0).unwrap();
        let a1 = u256_checked_sub(&balance1, &self.reserve1).unwrap();
        let _ = to;
        (a0, a1)
    }
}

/// Whether an external token's transfer call counts as successful: the call
/// must not have failed, and must have returned either no data at all or a
/// 32-byte word that is exactly the boolean `true`.
pub open spec fn transfer_return_ok(ret: Result<Vec<u8>, Vec<u8>>) -> bool {
    ret matches Ok(data) && (data@.len() == 0 || (data@.len() == 32 && data@[31] == 1
        && (forall|i: int| 0 <= i < 31 ==> data@[i] == 0)))
}

/// Whether the first 31 bytes of a 32-byte return word are all zero.
fn leading_zeros31(data: &Vec<u8>) -> (r: bool)
    requires
        data@.len() == 32,
    ensures
        r == (forall|k: int| 0 <= k < 31 ==> data@[k] == 0),
{
    let mut i: usize = 0;
    let mut all: bool = true;
    while i < 31
        invariant
            i <= 31,
            data@.len() == 32,
            all == (forall|k: int| 0 <= k < i ==> data@[k] == 0),
        decreases 31 - i,
    {
        if data[i] != 0 {
            all = false;
        }
        i += 1;
    }
    all
}

/// Judge the outcome of an external token transfer call, tolerating tokens
/// that return nothing as well as those that return an encoded boolean.
pub fn safe_transfer_check(call_result: &Result<Vec<u8>, Vec<u8>>) -> (r: Result<(), PairError>)
    ensures
        (r is Ok) == transfer_return_ok(*call_result),
        r is Err ==> r->Err_0 == PairError::TransferFailed,
{
    match call_result {
        Ok(data) => {
            let fine = if data.len() == 0 {
                true
            } else if data.len() == 32 {
                data[31] == 1 && leading_zeros31(data)
            } else {
                false
            };
            if fine {
                Ok(())
            } else {
                Err(PairError::TransferFailed)
            }
        }
        Err(_) => Err(PairError::TransferFailed),
    }
}

} // verus!
