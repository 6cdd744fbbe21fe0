use uniswap_pair::addr::Addr;
use uniswap_pair::errors::PairError;
use uniswap_pair::events::Event;
use uniswap_pair::ledger::UniswapV2ERC20;
use uniswap_pair::u256::U256;

fn addr(n: u128) -> Addr {
    Addr { hi: 0, lo: n }
}

fn u(n: u64) -> U256 {
    U256::from_u64(n)
}

#[test]
fn metadata() {
    let l = UniswapV2ERC20::new();
    assert_eq!(l.name(), "Uniswap V2");
    assert_eq!(l.symbol(), "UNI-V2");
    assert_eq!(l.decimals(), 18);
    assert_eq!(l.totalSupply(), u(0));
}

#[test]
fn mint_and_balance() {
    let mut l = UniswapV2ERC20::new();
    l._mint(addr(1), u(500));
    l._mint(addr(2), u(250));
    assert_eq!(l.balanceOf(addr(1)), u(500));
    assert_eq!(l.balanceOf(addr(2)), u(250));
    assert_eq!(l.balanceOf(addr(3)), u(0));
    assert_eq!(l.totalSupply(), u(750));
    assert_eq!(
        l.log.first(),
        Some(&Event::Transfer { from: addr(0), to: addr(1), value: u(500) })
    );
}

#[test]
fn conservation_across_operations() {
    let mut l = UniswapV2ERC20::new();
    l._mint(addr(1), u(500));
    l._mint(addr(2), u(250));
    l.transfer(addr(1), addr(2), u(100)).unwrap();
    l._burn(addr(2), u(50));
    let sum: u64 = [1u128, 2, 3]
        .iter()
        .map(|&n| l.balanceOf(addr(n)).l0)
        .sum();
    assert_eq!(l.totalSupply(), u(sum));
    assert_eq!(l.totalSupply(), u(700));
}

#[test]
fn transfer_insufficient_balance() {
    let mut l = UniswapV2ERC20::new();
    l._mint(addr(1), u(10));
    let r = l.transfer(addr(1), addr(2), u(11));
    assert_eq!(r, Err(PairError::InsufficientBalance));
    assert_eq!(l.balanceOf(addr(1)), u(10));
    assert_eq!(l.balanceOf(addr(2)), u(0));
}

#[test]
fn approve_and_transfer_from() {
    let mut l = UniswapV2ERC20::new();
    l._mint(addr(1), u(100));
    assert!(l.approve(addr(1), addr(9), u(60)));
    assert_eq!(l.allowance(addr(1), addr(9)), u(60));
    let r = l.transferFrom(addr(9), addr(1), addr(2), u(40));
    assert_eq!(r, Ok(true));
    assert_eq!(l.balanceOf(addr(1)), u(60));
    assert_eq!(l.balanceOf(addr(2)), u(40));
    assert_eq!(l.allowance(addr(1), addr(9)), u(20));
}

#[test]
fn transfer_from_insufficient_allowance() {
    let mut l = UniswapV2ERC20::new();
    l._mint(addr(1), u(100));
    l.approve(addr(1), addr(9), u(30));
    let r = l.transferFrom(addr(9), addr(1), addr(2), u(40));
    assert_eq!(r, Err(PairError::InsufficientAllowance));
    assert_eq!(l.allowance(addr(1), addr(9)), u(30));
    assert_eq!(l.balanceOf(addr(1)), u(100));
}

#[test]
fn transfer_from_insufficient_balance() {
    let mut l = UniswapV2ERC20::new();
    l._mint(addr(1), u(10));
    l.approve(addr(1), addr(9), u(100));
    let r = l.transferFrom(addr(9), addr(1), addr(2), u(40));
    assert_eq!(r, Err(PairError::InsufficientBalance));
    assert_eq!(l.allowance(addr(1), addr(9)), u(100));
}

#[test]
fn self_transfer_keeps_balance() {
    let mut l = UniswapV2ERC20::new();
    l._mint(addr(1), u(10));
    l.transfer(addr(1), addr(1), u(7)).unwrap();
    assert_eq!(l.balanceOf(addr(1)), u(10));
    assert_eq!(l.totalSupply(), u(10));
}

#[test]
fn domain_separator_matches_direct_hash() {
    let l = UniswapV2ERC20::new();
    let contract = Addr { hi: 0xAABBCCDD, lo: 0x00112233445566778899AABBCCDDEEFF };
    let got = l.DOMAIN_SEPARATOR(42161, contract);

    let mut preimage: Vec<u8> = Vec::new();
    preimage.extend_from_slice(
        alloy_primitives::keccak256(
            "EIP712Domain(string name,string version,uint256 chainId,address verifyingContract)"
                .as_bytes(),
        )
        .as_slice(),
    );
    preimage.extend_from_slice(alloy_primitives::keccak256("Uniswap V2".as_bytes()).as_slice());
    preimage.extend_from_slice(alloy_primitives::keccak256("1".as_bytes()).as_slice());
    let mut chain: [u8; 32] = [0; 32];
    chain[24..32].copy_from_slice(&42161u64.to_be_bytes());
    preimage.extend_from_slice(&chain);
    let mut who: [u8; 32] = [0; 32];
    who[12..16].copy_from_slice(&contract.hi.to_be_bytes());
    who[16..32].copy_from_slice(&contract.lo.to_be_bytes());
    preimage.extend_from_slice(&who);
    let expected = alloy_primitives::keccak256(&preimage);
    assert_eq!(got.as_slice(), expected.as_slice());
}
