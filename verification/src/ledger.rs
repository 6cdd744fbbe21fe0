//! The fungible liquidity-share ledger: per-account balances, spending
//! allowances and the total supply, with the invariant that the total supply
//! always equals the sum of all balances.
//!
//! Balances and allowances are association vectors with unique keys; an
//! absent entry means zero.

use vstd::prelude::*;

verus! {

use crate::addr::Addr;
use crate::errors::PairError;
use crate::events::Event;
use crate::u256::{U256, p256, u256_checked_add, u256_checked_sub, u256_lt};

/// One account's share balance.
#[derive(Clone, Copy, PartialEq, Eq, Structural, Debug)]
pub struct BalanceEntry {
    pub addr: Addr,
    pub amount: U256,
}

/// One spending authorization.
#[derive(Clone, Copy, PartialEq, Eq, Structural, Debug)]
pub struct AllowanceEntry {
    pub owner: Addr,
    pub spender: Addr,
    pub amount: U256,
}

/// The sum of all entry amounts.
pub open spec fn sum_amounts(s: Seq<BalanceEntry>) -> nat
    decreases s.len(),
{
    if s.len() == 0 {
        0
    } else {
        s[0].amount.val() + sum_amounts(s.skip(1))
    }
}

/// The balance of `a`: the amount of its first entry, zero when absent.
pub open spec fn bal_of(s: Seq<BalanceEntry>, a: Addr) -> nat
    decreases s.len(),
{
    if s.len() == 0 {
        0
    } else if s[0].addr == a {
        s[0].amount.val()
    } else {
        bal_of(s.skip(1), a)
    }
}

/// The allowance of `(o, p)`: the amount of its first entry, zero when absent.
pub open spec fn allow_of(s: Seq<AllowanceEntry>, o: Addr, p: Addr) -> nat
    decreases s.len(),
{
    if s.len() == 0 {
        0
    } else if s[0].owner == o && s[0].spender == p {
        s[0].amount.val()
    } else {
        allow_of(s.skip(1), o, p)
    }
}

/// No two entries share an address.
pub open spec fn unique_addrs(s: Seq<BalanceEntry>) -> bool {
    forall|i: int, j: int| 0 <= i < j < s.len() ==> s[i].addr != s[j].addr
}

/// No two entries share an owner-spender pair.
pub open spec fn unique_pairs(s: Seq<AllowanceEntry>) -> bool {
    forall|i: int, j: int|
        0 <= i < j < s.len() ==> !(s[i].owner == s[j].owner && s[i].spender == s[j].spender)
}

proof fn lemma_sum_update(s: Seq<BalanceEntry>, i: int, e: BalanceEntry)
    requires
        0 <= i < s.len(),
    ensures
        sum_amounts(s.update(i, e)) == sum_amounts(s) - s[i].amount.val() + e.amount.val(),
    decreases s.len(),
{
    if i == 0 {
        assert(s.update(0, e).skip(1) =~= s.skip(1));
    } else {
        assert(s.update(i, e).skip(1) =~= s.skip(1).update(i - 1, e));
        lemma_sum_update(s.skip(1), i - 1, e);
    }
}

proof fn lemma_sum_push(s: Seq<BalanceEntry>, e: BalanceEntry)
    ensures
        sum_amounts(s.push(e)) == sum_amounts(s) + e.amount.val(),
    decreases s.len(),
{
    if s.len() == 0 {
        assert(s.push(e)[0] == e);
        assert(s.push(e).skip(1) =~= Seq::<BalanceEntry>::empty());
        assert(sum_amounts(Seq::<BalanceEntry>::empty()) == 0);
        assert(s.push(e).len() == 1);
        assert(sum_amounts(s.push(e)) == e.amount.val() + sum_amounts(s.push(e).skip(1)));
        assert(sum_amounts(s) == 0);
    } else {
        assert(s.push(e)[0] == s[0]);
        assert(s.push(e).skip(1) =~= s.skip(1).push(e));
        lemma_sum_push(s.skip(1), e);
        assert(sum_amounts(s.push(e)) == s[0].amount.val() + sum_amounts(s.push(e).skip(1)));
        assert(sum_amounts(s.push(e).skip(1)) == sum_amounts(s.skip(1).push(e)));
        assert(sum_amounts(s) == s[0].amount.val() + sum_amounts(s.skip(1)));
    }
}

proof fn lemma_bal_update(s: Seq<BalanceEntry>, i: int, e: BalanceEntry, a: Addr)
    requires
        0 <= i < s.len(),
        e.addr == s[i].addr,
        forall|k: int| 0 <= k < i ==> s[k].addr != e.addr,
    ensures
        bal_of(s.update(i, e), a) == if a == e.addr {
            e.amount.val()
        } else {
            bal_of(s, a)
        },
    decreases s.len(),
{
    if i == 0 {
        assert(s.update(0, e).skip(1) =~= s.skip(1));
    } else {
        assert(s.update(i, e).skip(1) =~= s.skip(1).update(i - 1, e));
        lemma_bal_update(s.skip(1), i - 1, e, a);
    }
}

proof fn lemma_bal_push(s: Seq<BalanceEntry>, e: BalanceEntry, a: Addr)
    requires
        forall|k: int| 0 <= k < s.len() ==> s[k].addr != e.addr,
    ensures
        bal_of(s.push(e), a) == if a == e.addr {
            e.amount.val()
        } else {
            bal_of(s, a)
        },
    decreases s.len(),
{
    if s.len() == 0 {
        assert(s.push(e)[0] == e);
        assert(s.push(e).skip(1) =~= Seq::<BalanceEntry>::empty());
        assert(bal_of(Seq::<BalanceEntry>::empty(), a) == 0);
        assert(bal_of(s, a) == 0);
        assert(s.push(e).len() == 1);
    } else {
        assert(s.push(e)[0] == s[0]);
        assert(s.push(e).skip(1) =~= s.skip(1).push(e));
        lemma_bal_push(s.skip(1), e, a);
        assert(bal_of(s.push(e).skip(1), a) == bal_of(s.skip(1).push(e), a));
        assert(bal_of(s, a) == (if s[0].addr == a {
            s[0].amount.val()
        } else {
            bal_of(s.skip(1), a)
        }));
    }
}

proof fn lemma_bal_first(s: Seq<BalanceEntry>, i: int)
    requires
        0 <= i < s.len(),
        forall|k: int| 0 <= k < i ==> s[k].addr != s[i].addr,
    ensures
        bal_of(s, s[i].addr) == s[i].amount.val(),
    decreases i,
{
    if i > 0 {
        lemma_bal_first(s.skip(1), i - 1);
    }
}

proof fn lemma_bal_absent(s: Seq<BalanceEntry>, a: Addr)
    requires
        forall|k: int| 0 <= k < s.len() ==> s[k].addr != a,
    ensures
        bal_of(s, a) == 0,
    decreases s.len(),
{
    if s.len() > 0 {
        lemma_bal_absent(s.skip(1), a);
    }
}

/// A balance never exceeds the sum of all balances.
pub proof fn lemma_bal_le_sum(s: Seq<BalanceEntry>, a: Addr)
    ensures
        bal_of(s, a) <= sum_amounts(s),
    decreases s.len(),
{
    if s.len() > 0 {
        lemma_bal_le_sum(s.skip(1), a);
    }
}

proof fn lemma_allow_update(s: Seq<AllowanceEntry>, i: int, e: AllowanceEntry, o: Addr, p: Addr)
    requires
        0 <= i < s.len(),
        e.owner == s[i].owner,
        e.spender == s[i].spender,
        forall|k: int|
            0 <= k < i ==> !(s[k].owner == e.owner && s[k].spender == e.spender),
    ensures
        allow_of(s.update(i, e), o, p) == if o == e.owner && p == e.spender {
            e.amount.val()
        } else {
            allow_of(s, o, p)
        },
    decreases s.len(),
{
    if i == 0 {
        assert(s.update(0, e).skip(1) =~= s.skip(1));
    } else {
        assert(s.update(i, e).skip(1) =~= s.skip(1).update(i - 1, e));
        lemma_allow_update(s.skip(1), i - 1, e, o, p);
    }
}

proof fn lemma_allow_push(s: Seq<AllowanceEntry>, e: AllowanceEntry, o: Addr, p: Addr)
    requires
        forall|k: int|
            0 <= k < s.len() ==> !(s[k].owner == e.owner && s[k].spender == e.spender),
    ensures
        allow_of(s.push(e), o, p) == if o == e.owner && p == e.spender {
            e.amount.val()
        } else {
            allow_of(s, o, p)
        },
    decreases s.len(),
{
    if s.len() == 0 {
        assert(s.push(e)[0] == e);
        assert(s.push(e).skip(1) =~= Seq::<AllowanceEntry>::empty());
        assert(allow_of(Seq::<AllowanceEntry>::empty(), o, p) == 0);
        assert(allow_of(s, o, p) == 0);
        assert(s.push(e).len() == 1);
    } else {
        assert(s.push(e)[0] == s[0]);
        assert(s.push(e).skip(1) =~= s.skip(1).push(e));
        lemma_allow_push(s.skip(1), e, o, p);
        assert(allow_of(s.push(e).skip(1), o, p) == allow_of(s.skip(1).push(e), o, p));
        assert(allow_of(s, o, p) == (if s[0].owner == o && s[0].spender == p {
            s[0].amount.val()
        } else {
            allow_of(s.skip(1), o, p)
        }));
    }
}

proof fn lemma_allow_first(s: Seq<AllowanceEntry>, i: int)
    requires
        0 <= i < s.len(),
        forall|k: int|
            0 <= k < i ==> !(s[k].owner == s[i].owner && s[k].spender == s[i].spender),
    ensures
        allow_of(s, s[i].owner, s[i].spender) == s[i].amount.val(),
    decreases i,
{
    if i > 0 {
        lemma_allow_first(s.skip(1), i - 1);
    }
}

proof fn lemma_allow_absent(s: Seq<AllowanceEntry>, o: Addr, p: Addr)
    requires
        forall|k: int| 0 <= k < s.len() ==> !(s[k].owner == o && s[k].spender == p),
    ensures
        allow_of(s, o, p) == 0,
    decreases s.len(),
{
    if s.len() > 0 {
        lemma_allow_absent(s.skip(1), o, p);
    }
}

/// The 32-byte Keccak-256 digest of a byte sequence, as the hashing
/// primitive computes it.
pub uninterp spec fn keccak_of(input: Seq<u8>) -> Seq<u8>;

/// Relies on `alloy_primitives::keccak256`: the 32-byte Keccak-256 digest,
/// a function of the input bytes alone.
#[verifier::external_body]
fn keccak(input: &[u8]) -> (r: Vec<u8>)
    ensures
        r@ == keccak_of(input@),
        r@.len() == 32,
{
    alloy_primitives::keccak256(input).to_vec()
}

/// A 64-bit value as a 32-byte big-endian word.
pub open spec fn be32_u64(x: u64) -> Seq<u8> {
    seq![
        0u8, 0u8, 0u8, 0u8, 0u8, 0u8, 0u8, 0u8, 0u8, 0u8, 0u8, 0u8, 0u8, 0u8, 0u8, 0u8, 0u8,
        0u8, 0u8, 0u8, 0u8, 0u8, 0u8, 0u8, (x >> 56) as u8, (x >> 48) as u8, (x >> 40) as u8,
        (x >> 32) as u8, (x >> 24) as u8, (x >> 16) as u8, (x >> 8) as u8, x as u8,
    ]
}

/// A 160-bit address as a 32-byte word: twelve zero bytes, then the address
/// big-endian.
pub open spec fn be32_addr(a: Addr) -> Seq<u8> {
    seq![
        0u8, 0u8, 0u8, 0u8, 0u8, 0u8, 0u8, 0u8, 0u8, 0u8, 0u8, 0u8, (a.hi >> 24) as u8,
        (a.hi >> 16) as u8, (a.hi >> 8) as u8, a.hi as u8, (a.lo >> 120) as u8,
        (a.lo >> 112) as u8, (a.lo >> 104) as u8, (a.lo >> 96) as u8, (a.lo >> 88) as u8,
        (a.lo >> 80) as u8, (a.lo >> 72) as u8, (a.lo >> 64) as u8, (a.lo >> 56) as u8,
        (a.lo >> 48) as u8, (a.lo >> 40) as u8, (a.lo >> 32) as u8, (a.lo >> 24) as u8,
        (a.lo >> 16) as u8, (a.lo >> 8) as u8, a.lo as u8,
    ]
}

/// The 160 bytes hashed into the EIP-712 domain separator: the domain type
/// hash, the hashed name and version, the chain id and the contract address.
pub open spec fn domain_separator_preimage(chain_id: u64, contract_addr: Addr) -> Seq<u8> {
    keccak_of(
        vstd::utf8::encode_utf8(
            "EIP712Domain(string name,string version,uint256 chainId,address verifyingContract)"@,
        ),
    ) + keccak_of(vstd::utf8::encode_utf8("Uniswap V2"@)) + keccak_of(
        vstd::utf8::encode_utf8("1"@),
    ) + be32_u64(chain_id) + be32_addr(contract_addr)
}

fn append_bytes(dst: &mut Vec<u8>, src: &Vec<u8>)
    ensures
        final(dst)@ == old(dst)@ + src@,
{
    let n = src.len();
    let mut i: usize = 0;
    while i < n
        invariant
            n == src@.len(),
            i <= n,
            dst@ == old(dst)@ + src@.subrange(0, i as int),
        decreases n - i,
    {
        dst.push(src[i]);
        proof {
            assert(old(dst)@ + src@.subrange(0, i as int) + seq![src@[i as int]] =~= old(dst)@
                + src@.subrange(0, i + 1));
        }
        i += 1;
    }
    proof {
        assert(src@.subrange(0, n as int) =~= src@);
    }
}

fn push_be32_u64(dst: &mut Vec<u8>, x: u64)
    ensures
        final(dst)@ == old(dst)@ + be32_u64(x),
{
    let mut i: usize = 0;
    while i < 24
        invariant
            i <= 24,
            dst@.len() == old(dst)@.len() + i,
            dst@.subrange(0, old(dst)@.len() as int) == old(dst)@,
            forall|k: int| old(dst)@.len() <= k < dst@.len() ==> dst@[k] == 0u8,
        decreases 24 - i,
    {
        dst.push(0u8);
        i += 1;
    }
    dst.push((x >> 56) as u8);
    dst.push((x >> 48) as u8);
    dst.push((x >> 40) as u8);
    dst.push((x >> 32) as u8);
    dst.push((x >> 24) as u8);
    dst.push((x >> 16) as u8);
    dst.push((x >> 8) as u8);
    dst.push(x as u8);
    proof {
        assert(dst@ =~= old(dst)@ + be32_u64(x));
    }
}

fn push_be32_addr(dst: &mut Vec<u8>, a: Addr)
    ensures
        final(dst)@ == old(dst)@ + be32_addr(a),
{
    let mut i: usize = 0;
    while i < 12
        invariant
            i <= 12,
            dst@.len() == old(dst)@.len() + i,
            dst@.subrange(0, old(dst)@.len() as int) == old(dst)@,
            forall|k: int| old(dst)@.len() <= k < dst@.len() ==> dst@[k] == 0u8,
        decreases 12 - i,
    {
        dst.push(0u8);
        i += 1;
    }
    dst.push((a.hi >> 24) as u8);
    dst.push((a.hi >> 16) as u8);
    dst.push((a.hi >> 8) as u8);
    dst.push(a.hi as u8);
    dst.push((a.lo >> 120) as u8);
    dst.push((a.lo >> 112) as u8);
    dst.push((a.lo >> 104) as u8);
    dst.push((a.lo >> 96) as u8);
    dst.push((a.lo >> 88) as u8);
    dst.push((a.lo >> 80) as u8);
    dst.push((a.lo >> 72) as u8);
    dst.push((a.lo >> 64) as u8);
    dst.push((a.lo >> 56) as u8);
    dst.push((a.lo >> 48) as u8);
    dst.push((a.lo >> 40) as u8);
    dst.push((a.lo >> 32) as u8);
    dst.push((a.lo >> 24) as u8);
    dst.push((a.lo >> 16) as u8);
    dst.push((a.lo >> 8) as u8);
    dst.push(a.lo as u8);
    proof {
        assert(dst@ =~= old(dst)@ + be32_addr(a));
    }
}

/// The share ledger.
pub struct UniswapV2ERC20 {
    pub total_supply: U256,
    pub balances: Vec<BalanceEntry>,
    pub allowances: Vec<AllowanceEntry>,
    pub log: Vec<Event>,
}

impl UniswapV2ERC20 {
    /// Well-formedness: unique keys, and the total supply equals the sum of
    /// all balances.
    pub open spec fn wf(self) -> bool {
        &&& unique_addrs(self.balances@)
        &&& unique_pairs(self.allowances@)
        &&& self.total_supply.val() == sum_amounts(self.balances@)
    }

    pub open spec fn spec_total_supply(self) -> nat {
        self.total_supply.val()
    }

    pub open spec fn spec_balance_of(self, a: Addr) -> nat {
        bal_of(self.balances@, a)
    }

    pub open spec fn spec_allowance(self, o: Addr, p: Addr) -> nat {
        allow_of(self.allowances@, o, p)
    }

    /// An empty ledger: no supply, no balances, no allowances.
    pub fn new() -> (r: UniswapV2ERC20)
        ensures
            r.wf(),
            r.spec_total_supply() == 0,
            forall|a: Addr| r.spec_balance_of(a) == 0,
            forall|o: Addr, p: Addr| r.spec_allowance(o, p) == 0,
            r.log@ =~= Seq::<Event>::empty(),
    {
        UniswapV2ERC20 {
            total_supply: U256::zero(),
            balances: Vec::new(),
            allowances: Vec::new(),
            log: Vec::new(),
        }
    }

    fn find_balance(&self, a: Addr) -> (r: Option<usize>)
        ensures
            r is Some ==> r->Some_0 < self.balances@.len()
                && self.balances@[r->Some_0 as int].addr == a
                && (forall|k: int| 0 <= k < r->Some_0 ==> self.balances@[k].addr != a),
            r is None ==> (forall|k: int|
                0 <= k < self.balances@.len() ==> self.balances@[k].addr != a),
    {
        let n = self.balances.len();
        let mut j: usize = 0;
        while j < n
            invariant
                n == self.balances@.len(),
                j <= n,
                forall|k: int| 0 <= k < j ==> self.balances@[k].addr != a,
            decreases n - j,
        {
            if self.balances[j].addr == a {
                return Some(j);
            }
            j += 1;
        }
        None
    }

    fn find_allowance(&self, o: Addr, p: Addr) -> (r: Option<usize>)
        ensures
            r is Some ==> r->Some_0 < self.allowances@.len()
                && self.allowances@[r->Some_0 as int].owner == o
                && self.allowances@[r->Some_0 as int].spender == p
                && (forall|k: int|
                    0 <= k < r->Some_0 ==> !(self.allowances@[k].owner == o
                        && self.allowances@[k].spender == p)),
            r is None ==> (forall|k: int|
                0 <= k < self.allowances@.len() ==> !(self.allowances@[k].owner == o
                    && self.allowances@[k].spender == p)),
    {
        let n = self.allowances.len();
        let mut j: usize = 0;
        while j < n
            invariant
                n == self.allowances@.len(),
                j <= n,
                forall|k: int|
                    0 <= k < j ==> !(self.allowances@[k].owner == o
                        && self.allowances@[k].spender == p),
            decreases n - j,
        {
            if self.allowances[j].owner == o && self.allowances[j].spender == p {
                return Some(j);
            }
            j += 1;
        }
        None
    }

    /// Overwrite the balance of `a` with `v`.
    fn set_balance(&mut self, a: Addr, v: U256)
        requires
            unique_addrs(old(self).balances@),
        ensures
            unique_addrs(final(self).balances@),
            final(self).spec_balance_of(a) == v.val(),
            forall|b: Addr|
                b != a ==> final(self).spec_balance_of(b) == old(self).spec_balance_of(b),
            sum_amounts(final(self).balances@) == sum_amounts(old(self).balances@) + v.val()
                - old(self).spec_balance_of(a),
            final(self).total_supply == old(self).total_supply,
            final(self).allowances == old(self).allowances,
            final(self).log == old(self).log,
    {
        let ghost s0 = self.balances@;
        match self.find_balance(a) {
            Some(i) => {
                proof {
                    lemma_bal_first(s0, i as int);
                }
                self.balances.set(i, BalanceEntry { addr: a, amount: v });
                proof {
                    let e = BalanceEntry { addr: a, amount: v };
                    lemma_sum_update(s0, i as int, e);
                    assert forall|b: Addr| true implies bal_of(self.balances@, b) == (if b == a {
                        e.amount.val()
                    } else {
                        bal_of(s0, b)
                    }) by {
                        lemma_bal_update(s0, i as int, e, b);
                    }
                    assert forall|p: int, q: int|
                        0 <= p < q < self.balances@.len() implies self.balances@[p].addr
                        != self.balances@[q].addr by {
                        assert(self.balances@[p].addr == s0[p].addr);
                        assert(self.balances@[q].addr == s0[q].addr);
                    }
                }
            }
            None => {
                self.balances.push(BalanceEntry { addr: a, amount: v });
                proof {
                    let e = BalanceEntry { addr: a, amount: v };
                    lemma_sum_push(s0, e);
                    lemma_bal_absent(s0, a);
                    assert forall|b: Addr| true implies bal_of(self.balances@, b) == (if b == a {
                        e.amount.val()
                    } else {
                        bal_of(s0, b)
                    }) by {
                        lemma_bal_push(s0, e, b);
                    }
                    assert forall|p: int, q: int|
                        0 <= p < q < self.balances@.len() implies self.balances@[p].addr
                        != self.balances@[q].addr by {
                        if q < s0.len() {
                            assert(s0[p].addr != s0[q].addr);
                        } else {
                            assert(self.balances@[q].addr == a);
                            assert(s0[p].addr != a);
                        }
                    }
                }
            }
        }
    }

    /// The token's name.
    pub fn name(&self) -> (r: String)
        ensures
            r@ == "Uniswap V2"@,
    {
        "Uniswap V2".to_owned()
    }

    /// The token's ticker symbol.
    pub fn symbol(&self) -> (r: String)
        ensures
            r@ == "UNI-V2"@,
    {
        "UNI-V2".to_owned()
    }

    /// The token's decimal places.
    pub fn decimals(&self) -> (r: u8)
        ensures
            r == 18,
    {
        18
    }

    /// The total number of shares in existence.
    pub fn totalSupply(&self) -> (r: U256)
        ensures
            r.val() == self.spec_total_supply(),
    {
        self.total_supply
    }

    /// The share balance of `address`.
    pub fn balanceOf(&self, address: Addr) -> (r: U256)
        ensures
            r.val() == self.spec_balance_of(address),
    {
        match self.find_balance(address) {
            Some(i) => {
                proof {
                    lemma_bal_first(self.balances@, i as int);
                }
                self.balances[i].amount
            }
            None => {
                proof {
                    lemma_bal_absent(self.balances@, address);
                }
                U256::zero()
            }
        }
    }

    /// How much `spender` may still spend on behalf of `owner`.
    pub fn allowance(&self, owner: Addr, spender: Addr) -> (r: U256)
        ensures
            r.val() == self.spec_allowance(owner, spender),
    {
        match self.find_allowance(owner, spender) {
            Some(i) => {
                proof {
                    lemma_allow_first(self.allowances@, i as int);
                }
                self.allowances[i].amount
            }
            None => {
                proof {
                    lemma_allow_absent(self.allowances@, owner, spender);
                }
                U256::zero()
            }
        }
    }

    /// The EIP-712 domain separator for typed-data signing: the hash of the
    /// domain type hash, the hashed token name and version, the chain id
    /// and this contract's address. The caller supplies the chain id and
    /// the contract address, which only the host knows.
    pub fn DOMAIN_SEPARATOR(&self, chain_id: u64, contract_addr: Addr) -> (r: Vec<u8>)
        ensures
            r@ == keccak_of(domain_separator_preimage(chain_id, contract_addr)),
            r@.len() == 32,
    {
        let domain_hash = keccak(
            "EIP712Domain(string name,string version,uint256 chainId,address verifyingContract)".as_bytes(),
        );
        let nm = self.name();
        let name_hash = keccak(nm.as_str().as_bytes());
        let version_hash = keccak("1".as_bytes());
        let mut v: Vec<u8> = Vec::new();
        append_bytes(&mut v, &domain_hash);
        append_bytes(&mut v, &name_hash);
        append_bytes(&mut v, &version_hash);
        push_be32_u64(&mut v, chain_id);
        push_be32_addr(&mut v, contract_addr);
        proof {
            assert(v@ =~= domain_separator_preimage(chain_id, contract_addr));
        }
        keccak(v.as_slice())
    }

    /// Overwrite `sender`'s allowance for `spender`. Never fails.
    pub fn approve(&mut self, sender: Addr, spender: Addr, value: U256) -> (r: bool)
        requires
            old(self).wf(),
        ensures
            final(self).wf(),
            r == true,
            final(self).spec_allowance(sender, spender) == value.val(),
            forall|x: Addr, y: Addr|
                !(x == sender && y == spender) ==> final(self).spec_allowance(x, y) == old(self).spec_allowance(x, y),
            final(self).balances == old(self).balances,
            final(self).total_supply == old(self).total_supply,
            final(self).log@ == old(self).log@.push(
                (Event::Approval { owner: sender, spender, value }),
            ),
    {
        self._approve(sender, spender, value);
        true
    }

    /// Move `value` shares from `sender` to `to`.
    pub fn transfer(&mut self, sender: Addr, to: Addr, value: U256) -> (r: Result<
        bool,
        PairError,
    >)
        requires
            old(self).wf(),
        ensures
            final(self).wf(),
            (r is Ok) == (old(self).spec_balance_of(sender) >= value.val()),
            r is Ok ==> r->Ok_0 == true,
            r is Err ==> r->Err_0 == PairError::InsufficientBalance && *final(self) == *old(self),
            r is Ok ==> final(self).spec_balance_of(sender) == (if sender == to {
                old(self).spec_balance_of(sender)
            } else {
                (old(self).spec_balance_of(sender) - value.val()) as nat
            }),
            r is Ok ==> final(self).spec_balance_of(to) == (if sender == to {
                old(self).spec_balance_of(to)
            } else {
                old(self).spec_balance_of(to) + value.val()
            }),
            r is Ok ==> (forall|c: Addr|
                c != sender && c != to ==> final(self).spec_balance_of(c) == old(self).spec_balance_of(c)),
            r is Ok ==> final(self).total_supply == old(self).total_supply && final(self).allowances == old(self).allowances && final(self).log@ == old(self).log@.push(
                (Event::Transfer { from: sender, to, value }),
            ),
    {
        match self._transfer(sender, to, value) {
            Ok(()) => Ok(true),
            Err(e) => Err(e),
        }
    }

    /// Spend `value` of the caller's allowance from `from` and move the
    /// shares to `to`.
    pub fn transferFrom(&mut self, sender: Addr, from: Addr, to: Addr, value: U256) -> (r:
        Result<bool, PairError>)
        requires
            old(self).wf(),
        ensures
            final(self).wf(),
            (r is Ok) == (old(self).spec_allowance(from, sender) >= value.val() && old(self).spec_balance_of(from) >= value.val()),
            old(self).spec_allowance(from, sender) < value.val() ==> r == Err::<bool, PairError>(PairError::InsufficientAllowance) && *final(self) == *old(self),
            old(self).spec_allowance(from, sender) >= value.val() && old(self).spec_balance_of(
                from,
            ) < value.val() ==> r == Err::<bool, PairError>(PairError::InsufficientBalance)
                && *final(self) == *old(self),
            r is Ok ==> r->Ok_0 == true,
            r is Ok ==> final(self).spec_allowance(from, sender) == old(self).spec_allowance(
                from,
                sender,
            ) - value.val(),
            r is Ok ==> (forall|x: Addr, y: Addr|
                !(x == from && y == sender) ==> final(self).spec_allowance(x, y) == old(self).spec_allowance(x, y)),
            r is Ok ==> final(self).spec_balance_of(from) == (if from == to {
                old(self).spec_balance_of(from)
            } else {
                (old(self).spec_balance_of(from) - value.val()) as nat
            }),
            r is Ok ==> final(self).spec_balance_of(to) == (if from == to {
                old(self).spec_balance_of(to)
            } else {
                old(self).spec_balance_of(to) + value.val()
            }),
            r is Ok ==> (forall|c: Addr|
                c != from && c != to ==> final(self).spec_balance_of(c) == old(self).spec_balance_of(c)),
            r is Ok ==> final(self).total_supply == old(self).total_supply && final(self).log@ == old(self).log@.push((Event::Transfer { from, to, value })),
    {
        let al = self.allowance(from, sender);
        if u256_lt(&al, &value) {
            return Err(PairError::InsufficientAllowance);
        }
        let bf = self.balanceOf(from);
        if u256_lt(&bf, &value) {
            return Err(PairError::InsufficientBalance);
        }
        let na = u256_checked_sub(&al, &value).unwrap();
        self.set_allowance(from, sender, na);
        match self._transfer(from, to, value) {
            Ok(()) => Ok(true),
            Err(e) => Err(e),
        }
    }

    /// Create `value` shares out of nothing and credit them to `to`.
    pub fn _mint(&mut self, to: Addr, value: U256)
        requires
            old(self).wf(),
            old(self).spec_total_supply() + value.val() < p256(),
        ensures
            final(self).wf(),
            final(self).spec_total_supply() == old(self).spec_total_supply() + value.val(),
            final(self).spec_balance_of(to) == old(self).spec_balance_of(to) + value.val(),
            forall|c: Addr|
                c != to ==> final(self).spec_balance_of(c) == old(self).spec_balance_of(c),
            final(self).allowances == old(self).allowances,
            final(self).log@ == old(self).log@.push(
                (Event::Transfer { from: (Addr { hi: 0, lo: 0 }), to, value }),
            ),
    {
        proof {
            lemma_bal_le_sum(self.balances@, to);
        }
        let b = self.balanceOf(to);
        let nb = u256_checked_add(&b, &value).unwrap();
        self.set_balance(to, nb);
        let nt = u256_checked_add(&self.total_supply, &value).unwrap();
        self.total_supply = nt;
        self.log.push(Event::Transfer { from: Addr::zero(), to, value });
    }

    /// Destroy `value` shares held by `from`.
    pub fn _burn(&mut self, from: Addr, value: U256)
        requires
            old(self).wf(),
            old(self).spec_balance_of(from) >= value.val(),
        ensures
            final(self).wf(),
            final(self).spec_total_supply() == old(self).spec_total_supply() - value.val(),
            final(self).spec_balance_of(from) == old(self).spec_balance_of(from) - value.val(),
            forall|c: Addr|
                c != from ==> final(self).spec_balance_of(c) == old(self).spec_balance_of(c),
            final(self).allowances == old(self).allowances,
            final(self).log@ == old(self).log@.push(
                (Event::Transfer { from, to: (Addr { hi: 0, lo: 0 }), value }),
            ),
    {
        proof {
            lemma_bal_le_sum(self.balances@, from);
        }
        let b = self.balanceOf(from);
        let nb = u256_checked_sub(&b, &value).unwrap();
        self.set_balance(from, nb);
        let nt = u256_checked_sub(&self.total_supply, &value).unwrap();
        self.total_supply = nt;
        self.log.push(Event::Transfer { from, to: Addr::zero(), value });
    }

    /// Overwrite `owner`'s allowance for `spender`.
    pub fn _approve(&mut self, owner: Addr, spender: Addr, value: U256)
        requires
            old(self).wf(),
        ensures
            final(self).wf(),
            final(self).spec_allowance(owner, spender) == value.val(),
            forall|x: Addr, y: Addr|
                !(x == owner && y == spender) ==> final(self).spec_allowance(x, y) == old(self).spec_allowance(x, y),
            final(self).balances == old(self).balances,
            final(self).total_supply == old(self).total_supply,
            final(self).log@ == old(self).log@.push(
                (Event::Approval { owner, spender, value }),
            ),
    {
        self.set_allowance(owner, spender, value);
        self.log.push(Event::Approval { owner, spender, value });
    }

    /// Debit `from` and credit `to`, failing without any change if `from`
    /// holds fewer than `value` shares.
    pub fn _transfer(&mut self, from: Addr, to: Addr, value: U256) -> (r: Result<
        (),
        PairError,
    >)
        requires
            old(self).wf(),
        ensures
            final(self).wf(),
            (r is Ok) == (old(self).spec_balance_of(from) >= value.val()),
            r is Err ==> r->Err_0 == PairError::InsufficientBalance && *final(self) == *old(self),
            r is Ok ==> final(self).spec_balance_of(from) == (if from == to {
                old(self).spec_balance_of(from)
            } else {
                (old(self).spec_balance_of(from) - value.val()) as nat
            }),
            r is Ok ==> final(self).spec_balance_of(to) == (if from == to {
                old(self).spec_balance_of(to)
            } else {
                old(self).spec_balance_of(to) + value.val()
            }),
            r is Ok ==> (forall|c: Addr|
                c != from && c != to ==> final(self).spec_balance_of(c) == old(self).spec_balance_of(c)),
            r is Ok ==> final(self).total_supply == old(self).total_supply && final(self).allowances == old(self).allowances && final(self).log@ == old(self).log@.push(
                (Event::Transfer { from, to, value }),
            ),
    {
        let bal_from = self.balanceOf(from);
        if u256_lt(&bal_from, &value) {
            return Err(PairError::InsufficientBalance);
        }
        let nf = u256_checked_sub(&bal_from, &value).unwrap();
        self.set_balance(from, nf);
        let bal_to = self.balanceOf(to);
        proof {
            lemma_bal_le_sum(self.balances@, to);
            self.total_supply.lemma_val_bound();
        }
        let nt = u256_checked_add(&bal_to, &value).unwrap();
        self.set_balance(to, nt);
        self.log.push(Event::Transfer { from, to, value });
        Ok(())
    }

    /// Overwrite the allowance of `(o, p)` with `v`.
    fn set_allowance(&mut self, o: Addr, p: Addr, v: U256)
        requires
            unique_pairs(old(self).allowances@),
        ensures
            unique_pairs(final(self).allowances@),
            final(self).spec_allowance(o, p) == v.val(),
            forall|x: Addr, y: Addr|
                !(x == o && y == p) ==> final(self).spec_allowance(x, y) == old(self).spec_allowance(x, y),
            final(self).total_supply == old(self).total_supply,
            final(self).balances == old(self).balances,
            final(self).log == old(self).log,
    {
        let ghost s0 = self.allowances@;
        match self.find_allowance(o, p) {
            Some(i) => {
                self.allowances.set(i, AllowanceEntry { owner: o, spender: p, amount: v });
                proof {
                    let e = AllowanceEntry { owner: o, spender: p, amount: v };
                    assert forall|x: Addr, y: Addr| true implies allow_of(
                        self.allowances@,
                        x,
                        y,
                    ) == (if x == o && y == p {
                        e.amount.val()
                    } else {
                        allow_of(s0, x, y)
                    }) by {
                        lemma_allow_update(s0, i as int, e, x, y);
                    }
                    assert forall|u: int, w: int|
                        0 <= u < w < self.allowances@.len() implies !(self.allowances@[u].owner
                        == self.allowances@[w].owner && self.allowances@[u].spender
                        == self.allowances@[w].spender) by {
                        assert(self.allowances@[u].owner == s0[u].owner);
                        assert(self.allowances@[w].owner == s0[w].owner);
                        assert(self.allowances@[u].spender == s0[u].spender);
                        assert(self.allowances@[w].spender == s0[w].spender);
                    }
                }
            }
            None => {
                self.allowances.push(AllowanceEntry { owner: o, spender: p, amount: v });
                proof {
                    let e = AllowanceEntry { owner: o, spender: p, amount: v };
                    assert forall|x: Addr, y: Addr| true implies allow_of(
                        self.allowances@,
                        x,
                        y,
                    ) == (if x == o && y == p {
                        e.amount.val()
                    } else {
                        allow_of(s0, x, y)
                    }) by {
                        lemma_allow_push(s0, e, x, y);
                    }
                    assert forall|u: int, w: int|
                        0 <= u < w < self.allowances@.len() implies !(self.allowances@[u].owner
                        == self.allowances@[w].owner && self.allowances@[u].spender
                        == self.allowances@[w].spender) by {
                        if w < s0.len() {
                            assert(!(s0[u].owner == s0[w].owner && s0[u].spender
                                == s0[w].spender));
                        } else {
                            assert(!(s0[u].owner == o && s0[u].spender == p));
                        }
                    }
                }
            }
        }
    }
}

} // verus!
