use uniswap_pair::addr::Addr;
use uniswap_pair::errors::PairError;
use uniswap_pair::events::Event;
use uniswap_pair::math::sqrt;
use uniswap_pair::pair::{safe_transfer_check, UniswapV2Pair};
use uniswap_pair::u256::U256;

fn addr(n: u128) -> Addr {
    Addr { hi: 0, lo: n }
}

fn u(n: u64) -> U256 {
    U256::from_u64(n)
}

fn pool() -> UniswapV2Pair {
    let mut p = UniswapV2Pair::new();
    p.initialize(addr(7), addr(100), addr(101)).unwrap();
    p
}

/// A pool seeded by a first deposit of (2000, 8000) at time 100.
fn seeded() -> UniswapV2Pair {
    let mut p = pool();
    let issued = p.mint(addr(7), addr(1), u(2000), u(8000), 100).unwrap();
    assert_eq!(issued, u(3000));
    p
}

#[test]
fn initialize_only_once() {
    let mut p = UniswapV2Pair::new();
    assert_eq!(p.initialize(addr(7), addr(100), addr(101)), Ok(()));
    assert_eq!(
        p.initialize(addr(8), addr(100), addr(101)),
        Err(PairError::AlreadyInitialized)
    );
    assert_eq!(p.factory, addr(7));
    assert_eq!(p.token0, addr(100));
    assert_eq!(p.token1, addr(101));
}

#[test]
fn sqrt_closed_forms_and_iteration() {
    assert_eq!(sqrt(&u(0)), u(0));
    assert_eq!(sqrt(&u(1)), u(1));
    assert_eq!(sqrt(&u(3)), u(1));
    assert_eq!(sqrt(&u(4)), u(2));
    assert_eq!(sqrt(&u(15)), u(3));
    assert_eq!(sqrt(&u(16)), u(4));
    assert_eq!(sqrt(&u(16_000_000)), u(4000));
    assert_eq!(sqrt(&u(u64::MAX)), u(4294967295));
}

#[test]
fn first_mint_locks_minimum_liquidity() {
    // isqrt(2000 * 8000) = 4000, so the depositor gets 3000 and 1000 stay
    // locked at the zero address.
    let p = seeded();
    assert_eq!(p.token.totalSupply(), u(4000));
    assert_eq!(p.token.balanceOf(addr(1)), u(3000));
    assert_eq!(p.token.balanceOf(addr(0)), u(1000));
    let (r0, r1) = p.getReserves();
    assert_eq!(r0, u(2000));
    assert_eq!(r1, u(8000));
}

#[test]
fn first_mint_too_small() {
    // isqrt(100) = 10 < 1000: the deposit cannot cover the locked minimum.
    let mut p = pool();
    let r = p.mint(addr(7), addr(1), u(10), u(10), 100);
    assert_eq!(r, Err(PairError::ArithmeticUnderflow));
    assert_eq!(p.token.totalSupply(), u(0));
}

#[test]
fn first_mint_exactly_minimum_is_zero_liquidity() {
    // isqrt(1000 * 1000) = 1000: the depositor would get zero shares.
    let mut p = pool();
    let r = p.mint(addr(7), addr(1), u(1000), u(1000), 100);
    assert_eq!(r, Err(PairError::ZeroLiquidity));
    assert_eq!(p.token.totalSupply(), u(0));
}

#[test]
fn mint_balance_below_reserve() {
    let mut p = seeded();
    let r = p.mint(addr(7), addr(1), u(1000), u(8000), 101);
    assert_eq!(r, Err(PairError::ArithmeticUnderflow));
}

#[test]
fn pro_rata_mint() {
    // S = 4000, reserves (2000, 8000), new balances (3000, 12000):
    // min(1000 * 4000 / 2000, 4000 * 4000 / 8000) = min(2000, 2000) = 2000.
    let mut p = seeded();
    let issued = p.mint(addr(7), addr(2), u(3000), u(12000), 100).unwrap();
    assert_eq!(issued, u(2000));
    assert_eq!(p.token.totalSupply(), u(6000));
    assert_eq!(p.token.balanceOf(addr(2)), u(2000));
}

#[test]
fn pro_rata_mint_takes_smaller_ratio() {
    // Deposit 1000 of asset 0 but only 800 of asset 1: the smaller ratio
    // wins, so shares = min(1000*4000/2000, 800*4000/8000) = 400.
    let mut p = seeded();
    let issued = p.mint(addr(7), addr(2), u(3000), u(8800), 100).unwrap();
    assert_eq!(issued, u(400));
}

#[test]
fn burn_pays_pro_rata() {
    let mut p = seeded();
    let me = addr(1);
    let pool_addr = addr(50);
    // Send the issued 3000 shares to the pool, then redeem them.
    p.token.transfer(me, pool_addr, u(3000)).unwrap();
    let (a0, a1) = p
        .burn(me, me, pool_addr, u(2000), u(8000), u(500), u(2000), 100)
        .unwrap();
    // 3000 * 2000 / 4000 = 1500 and 3000 * 8000 / 4000 = 6000.
    assert_eq!(a0, u(1500));
    assert_eq!(a1, u(6000));
    assert_eq!(p.token.totalSupply(), u(1000));
    assert_eq!(p.token.balanceOf(pool_addr), u(0));
    let (r0, r1) = p.getReserves();
    assert_eq!(r0, u(500));
    assert_eq!(r1, u(2000));
}

#[test]
fn burn_round_trip_returns_at_most_deposit() {
    // Mint then burn exactly the issued shares with unchanged balances: the
    // redemption never exceeds the deposit.
    let mut p = seeded();
    let issued = p.mint(addr(7), addr(2), u(3100), u(12400), 100).unwrap();
    let pool_addr = addr(50);
    p.token.transfer(addr(2), pool_addr, issued).unwrap();
    let (a0, a1) = p
        .burn(addr(2), addr(2), pool_addr, u(3100), u(12400), u(1000), u(4000), 100)
        .unwrap();
    assert!(a0.l0 <= 1100 && a0.l1 == 0 && a0.l2 == 0 && a0.l3 == 0);
    assert!(a1.l0 <= 4400 && a1.l1 == 0 && a1.l2 == 0 && a1.l3 == 0);
}

#[test]
fn burn_zero_amount_fails() {
    let mut p = seeded();
    let pool_addr = addr(50);
    p.token.transfer(addr(1), pool_addr, u(1)).unwrap();
    // 1 * 2000 / 4000 rounds to zero.
    let r = p.burn(addr(1), addr(1), pool_addr, u(2000), u(8000), u(2000), u(8000), 100);
    assert_eq!(r, Err(PairError::InsufficientLiquidityBurned));
    assert_eq!(p.token.balanceOf(pool_addr), u(1));
}

#[test]
fn swap_rejects_any_zero_output() {
    // Both requested outputs must be nonzero, so a plain one-sided swap is
    // refused outright.
    let mut p = pool();
    p.sync(u(1000), u(1000), 50);
    let r = p.swap(addr(7), u(0), u(100), addr(9), u(1100), u(900), 60);
    assert_eq!(r, Err(PairError::InsufficientOutputAmount));
    let r2 = p.swap(addr(7), u(100), u(0), addr(9), u(900), u(1100), 60);
    assert_eq!(r2, Err(PairError::InsufficientOutputAmount));
}

#[test]
fn swap_rejects_output_at_reserve() {
    let mut p = pool();
    p.sync(u(1000), u(1000), 50);
    let r = p.swap(addr(7), u(1000), u(100), addr(9), u(200), u(900), 60);
    assert_eq!(r, Err(PairError::InsufficientLiquidity));
}

#[test]
fn swap_rejects_no_input() {
    let mut p = pool();
    p.sync(u(1000), u(1000), 50);
    let r = p.swap(addr(7), u(100), u(100), addr(9), u(900), u(900), 60);
    assert_eq!(r, Err(PairError::InsufficientInputAmount));
}

#[test]
fn swap_rejects_k_violation() {
    let mut p = pool();
    p.sync(u(1000), u(1000), 50);
    // Outputs nearly drain both reserves while almost nothing came in.
    let r = p.swap(addr(7), u(999), u(999), addr(9), u(2), u(1), 60);
    assert_eq!(r, Err(PairError::KInvariantViolated));
    let (r0, r1) = p.getReserves();
    assert_eq!(r0, u(1000));
    assert_eq!(r1, u(1000));
}

#[test]
fn swap_settles_and_updates_reserves() {
    let mut p = pool();
    p.sync(u(1000), u(1000), 50);
    // 100 of each goes out; 200 of asset 0 came in during the window.
    let r = p.swap(addr(7), u(100), u(100), addr(9), u(1100), u(900), 50);
    assert_eq!(r, Ok(()));
    let (r0, r1) = p.getReserves();
    assert_eq!(r0, u(1100));
    assert_eq!(r1, u(900));
}

#[test]
fn skim_returns_surplus() {
    let p = seeded();
    let (a0, a1) = p.skim(addr(9), u(2500), u(8100));
    assert_eq!(a0, u(500));
    assert_eq!(a1, u(100));
    let (r0, r1) = p.getReserves();
    assert_eq!(r0, u(2000));
    assert_eq!(r1, u(8000));
}

#[test]
fn sync_accrues_time_weighted_prices() {
    let mut p = seeded();
    // Ten seconds later: price0 gains (8000 << 112) / 2000 * 10 = 40 * 2^112
    // and price1 gains (2000 << 112) / 8000 * 10 = 10 * 2^110.
    p.sync(u(2000), u(8000), 110);
    assert_eq!(p.block_timestamp_last, 110);
    let forty_q112 = U256 { l0: 0, l1: 40 * (1u64 << 48), l2: 0, l3: 0 };
    let ten_q110 = U256 { l0: 0, l1: 10 * (1u64 << 46), l2: 0, l3: 0 };
    assert_eq!(p.price0_cumulative_last, forty_q112);
    assert_eq!(p.price1_cumulative_last, ten_q110);
}

#[test]
fn sync_without_elapsed_time_leaves_prices() {
    let mut p = seeded();
    p.sync(u(2500), u(8000), 100);
    assert_eq!(p.price0_cumulative_last, u(0));
    let (r0, _) = p.getReserves();
    assert_eq!(r0, u(2500));
}

#[test]
fn safe_transfer_accepts_true_word_and_empty() {
    let mut word = vec![0u8; 32];
    word[31] = 1;
    assert_eq!(safe_transfer_check(&Ok(word)), Ok(()));
    assert_eq!(safe_transfer_check(&Ok(vec![])), Ok(()));
}

#[test]
fn safe_transfer_rejects_bad_returns() {
    // 31 zero bytes: wrong length.
    assert_eq!(
        safe_transfer_check(&Ok(vec![0u8; 31])),
        Err(PairError::TransferFailed)
    );
    // 32 bytes encoding false.
    assert_eq!(
        safe_transfer_check(&Ok(vec![0u8; 32])),
        Err(PairError::TransferFailed)
    );
    // A word with a stray high bit set.
    let mut word = vec![0u8; 32];
    word[0] = 1;
    word[31] = 1;
    assert_eq!(safe_transfer_check(&Ok(word)), Err(PairError::TransferFailed));
    // The call itself failed.
    assert_eq!(
        safe_transfer_check(&Err(vec![1, 2, 3])),
        Err(PairError::TransferFailed)
    );
}

#[test]
fn k_last_stays_zero() {
    let mut p = seeded();
    p.mint(addr(7), addr(2), u(3000), u(12000), 100).unwrap();
    assert_eq!(p.k_last, u(0));
}

#[test]
fn events_are_recorded_in_order() {
    let p = seeded();
    assert_eq!(
        p.log,
        vec![
            Event::Sync { reserve0: u(2000), reserve1: u(8000) },
            Event::Mint { sender: addr(7), amount0: u(2000), amount1: u(8000) },
        ]
    );
    assert_eq!(
        p.token.log,
        vec![
            Event::Transfer { from: addr(0), to: addr(0), value: u(1000) },
            Event::Transfer { from: addr(0), to: addr(1), value: u(3000) },
        ]
    );
}

#[test]
fn swap_keeps_scaled_product_above_threshold() {
    // The settled swap from `swap_settles_and_updates_reserves`: the new
    // reserve product at the 1000*1000 scale stays above the old product at
    // the 1000 scale that the check enforces.
    let mut p = pool();
    p.sync(u(1000), u(1000), 50);
    p.swap(addr(7), u(100), u(100), addr(9), u(1100), u(900), 50).unwrap();
    let (r0, r1) = p.getReserves();
    let new_scaled: u128 = (r0.l0 as u128) * (r1.l0 as u128) * 1_000_000;
    let old_scaled: u128 = 1000u128 * 1000 * 1000;
    assert!(new_scaled >= old_scaled);
    assert_eq!(new_scaled, 990_000_000_000);
}

#[test]
fn elapsed_time_wraps_modulo_2_32() {
    // The last update sat just below the 32-bit clock's wrap; five seconds
    // later the clock reads 4, so ten seconds minus five have elapsed:
    // 2^32 - (2^32 - 1) + 4 = 5, and price0 gains (8000 << 112)/2000 * 5.
    let mut p = seeded();
    p.block_timestamp_last = u32::MAX;
    p.sync(u(2000), u(8000), 4);
    assert_eq!(p.block_timestamp_last, 4);
    let twenty_q112 = U256 { l0: 0, l1: 20 * (1u64 << 48), l2: 0, l3: 0 };
    assert_eq!(p.price0_cumulative_last, twenty_q112);
}

#[test]
fn pair_delegates_ledger_surface() {
    let mut p = seeded();
    assert_eq!(p.name(), "Uniswap V2");
    assert_eq!(p.symbol(), "UNI-V2");
    assert_eq!(p.decimals(), 18);
    assert_eq!(p.totalSupply(), u(4000));
    assert_eq!(p.balanceOf(addr(1)), u(3000));
    assert!(p.approve(addr(1), addr(9), u(5)));
    assert_eq!(p.allowance(addr(1), addr(9)), u(5));
    assert_eq!(p.transfer(addr(1), addr(2), u(10)), Ok(true));
    assert_eq!(p.transferFrom(addr(9), addr(1), addr(2), u(5)), Ok(true));
    assert_eq!(p.balanceOf(addr(2)), u(15));
    let ds = p.DOMAIN_SEPARATOR(1, addr(3));
    assert_eq!(ds.len(), 32);
}
