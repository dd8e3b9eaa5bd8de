use loyalty_dex::math::{checked_positive, get_amount_out, isqrt, lp_mint_amount};
use loyalty_dex::pool::{normalize_key, DexError, LoyaltyDexContract};

#[test]
fn create_pool_works() {
    let mut dex = LoyaltyDexContract::new();
    let token_a: u64 = 1;
    let token_b: u64 = 2;

    let result = dex.create_pool(token_a, token_b);
    assert!(result.is_ok());
}

#[test]
fn isqrt_small_values() {
    assert_eq!(isqrt(0), 0);
    assert_eq!(isqrt(1), 1);
    assert_eq!(isqrt(8), 2);
    assert_eq!(isqrt(9), 3);
}

#[test]
fn isqrt_more_values() {
    assert_eq!(isqrt(-5), 0);
    assert_eq!(isqrt(2), 1);
    assert_eq!(isqrt(3), 1);
    assert_eq!(isqrt(4), 2);
    assert_eq!(isqrt(99), 9);
    assert_eq!(isqrt(100), 10);
    assert_eq!(isqrt(4_000_000), 2000);
    assert_eq!(isqrt(1_000_000_000_000_000_000), 1_000_000_000);
}

#[test]
fn checked_positive_accepts_only_positive() {
    assert_eq!(checked_positive(1), Ok(()));
    assert_eq!(checked_positive(i128::MAX), Ok(()));
    assert_eq!(checked_positive(0), Err(DexError::InvalidAmount));
    assert_eq!(checked_positive(-1), Err(DexError::InvalidAmount));
}

#[test]
fn lp_mint_amount_formula() {
    // Seeding mints the geometric mean.
    assert_eq!(lp_mint_amount(1000, 4000, 0, 0, 0), 2000);
    // Later deposits mint the smaller proportional contribution.
    assert_eq!(lp_mint_amount(500, 2000, 1000, 4000, 2000), 1000);
    assert_eq!(lp_mint_amount(500, 1000, 1000, 4000, 2000), 500);
}

#[test]
fn get_amount_out_formula() {
    // floor(150 * 997 * 6000 / (1500 * 1000 + 150 * 997)) == 543
    assert_eq!(get_amount_out(150, 1500, 6000), 543);
    // A tiny trade into a deep pool rounds to zero.
    assert_eq!(get_amount_out(1, 1_000_000, 2), 0);
}

#[test]
fn normalize_key_is_symmetric() {
    assert_eq!(normalize_key(5, 9), normalize_key(9, 5));
    assert_eq!(normalize_key(5, 9).token_a, 5);
    assert_eq!(normalize_key(5, 9).token_b, 9);
    assert_eq!(normalize_key(7, 7), normalize_key(7, 7));
}

#[test]
fn pool_addressable_in_either_token_order() {
    let mut dex = LoyaltyDexContract::new();
    dex.create_pool(9, 5).unwrap();
    // The same unordered pair cannot be created again, whatever the order.
    assert_eq!(dex.create_pool(5, 9), Err(DexError::PoolAlreadyExists));
    let minted = dex.add_liquidity(101, 5, 9, 300, 600).unwrap();
    assert!(minted > 0);
    let pool = dex.get_pool(9, 5).unwrap();
    assert_eq!(pool.token_a, 5);
    assert_eq!(pool.reserve_a, 300);
    assert_eq!(pool.reserve_b, 600);
}

#[test]
fn create_pool_rejects_equal_tokens() {
    let mut dex = LoyaltyDexContract::new();
    assert_eq!(dex.create_pool(3, 3), Err(DexError::InvalidTokenPair));
    assert!(dex.get_pool(3, 3).is_none());
}

#[test]
fn add_liquidity_rejects_bad_inputs() {
    let mut dex = LoyaltyDexContract::new();
    dex.create_pool(1, 2).unwrap();
    assert_eq!(dex.add_liquidity(101, 1, 2, 0, 10), Err(DexError::InvalidAmount));
    assert_eq!(dex.add_liquidity(101, 1, 2, 10, -3), Err(DexError::InvalidAmount));
    assert_eq!(dex.add_liquidity(101, 1, 3, 10, 10), Err(DexError::PoolNotFound));
    // A deposit too small to mint a share is rejected too: the seeded pool
    // has 1000 shares over a million units of the first asset.
    dex.add_liquidity(101, 1, 2, 1_000_000, 1).unwrap();
    assert_eq!(dex.add_liquidity(102, 1, 2, 1, 1), Err(DexError::InvalidAmount));
}

#[test]
fn swap_error_taxonomy() {
    let mut dex = LoyaltyDexContract::new();
    dex.create_pool(1, 2).unwrap();
    assert_eq!(dex.swap(7, 1, 2, 0, 1), Err(DexError::InvalidAmount));
    assert_eq!(dex.swap(7, 1, 2, 10, 0), Err(DexError::InvalidAmount));
    assert_eq!(dex.swap(7, 1, 3, 10, 1), Err(DexError::PoolNotFound));
    // The pool exists but is empty: no liquidity to price against.
    assert_eq!(dex.swap(7, 1, 2, 10, 1), Err(DexError::InsufficientLiquidity));
}

#[test]
fn swap_rejects_pair_not_matching_pool() {
    let mut dex = LoyaltyDexContract::new();
    dex.create_pool(1, 2).unwrap();
    dex.create_pool(1, 3).unwrap();
    dex.add_liquidity(101, 1, 2, 1000, 1000).unwrap();
    // normalize(2, 3) is a missing pool, not a mismatched pair.
    assert_eq!(dex.swap(7, 2, 3, 10, 1), Err(DexError::PoolNotFound));
}

#[test]
fn swap_quote_of_zero_is_invalid_amount() {
    let mut dex = LoyaltyDexContract::new();
    dex.create_pool(1, 2).unwrap();
    dex.add_liquidity(101, 1, 2, 1_000_000, 2).unwrap();
    assert_eq!(dex.swap(7, 1, 2, 1, 1), Err(DexError::InvalidAmount));
}

#[test]
fn full_pool_scenario() {
    let mut dex = LoyaltyDexContract::new();
    let x: u64 = 1;
    let y: u64 = 2;
    let p1: u64 = 101;
    let p2: u64 = 102;
    let trader: u64 = 7;

    dex.create_pool(x, y).unwrap();

    let minted1 = dex.add_liquidity(p1, x, y, 1000, 4000).unwrap();
    assert_eq!(minted1, 2000); // isqrt(1000 * 4000)
    let pool = dex.get_pool(x, y).unwrap();
    assert_eq!((pool.reserve_a, pool.reserve_b, pool.lp_supply), (1000, 4000, 2000));

    let minted2 = dex.add_liquidity(p2, x, y, 500, 2000).unwrap();
    assert_eq!(minted2, 1000); // min(500 * 2000 / 1000, 2000 * 2000 / 4000)
    let pool = dex.get_pool(x, y).unwrap();
    assert_eq!((pool.reserve_a, pool.reserve_b, pool.lp_supply), (1500, 6000, 3000));

    let out = dex.swap(trader, x, y, 150, 1).unwrap();
    assert_eq!(out, 543); // floor(150 * 997 * 6000 / (1500 * 1000 + 150 * 997))
    let pool = dex.get_pool(x, y).unwrap();
    assert_eq!((pool.reserve_a, pool.reserve_b, pool.lp_supply), (1650, 5457, 3000));

    let (out_a, out_b) = dex.remove_liquidity(p1, x, y, 2000).unwrap();
    assert_eq!(out_a, 1100); // floor(2000 * 1650 / 3000)
    assert_eq!(out_b, 3638); // floor(2000 * 5457 / 3000)
    let pool = dex.get_pool(x, y).unwrap();
    assert_eq!((pool.reserve_a, pool.reserve_b, pool.lp_supply), (550, 1819, 1000));
    assert_eq!(dex.get_lp_balance(x, y, p1), 0);
    assert_eq!(dex.get_lp_balance(x, y, p2), 1000);
}

#[test]
fn swap_never_decreases_reserve_product() {
    let mut dex = LoyaltyDexContract::new();
    dex.create_pool(1, 2).unwrap();
    dex.add_liquidity(101, 1, 2, 1500, 6000).unwrap();
    let mut product: i128 = 1500 * 6000;
    // A run of swaps in both directions, with no deposits in between.
    for (from, to, amount) in [(1u64, 2u64, 150i128), (2, 1, 400), (1, 2, 7), (2, 1, 999)] {
        dex.swap(7, from, to, amount, 1).unwrap();
        let pool = dex.get_pool(1, 2).unwrap();
        let new_product = pool.reserve_a * pool.reserve_b;
        assert!(new_product >= product);
        product = new_product;
    }
}

#[test]
fn proportional_deposits_mint_proportional_shares() {
    let mut dex = LoyaltyDexContract::new();
    dex.create_pool(1, 2).unwrap();
    dex.add_liquidity(100, 1, 2, 1000, 4000).unwrap(); // seeds supply 2000
    // Two providers deposit in the exact current reserve ratio 1:4.
    let m1 = dex.add_liquidity(101, 1, 2, 500, 2000).unwrap();
    let m2 = dex.add_liquidity(102, 1, 2, 750, 3000).unwrap();
    // Shares are proportional to the deposited amounts: m1 / 500 == m2 / 750.
    assert_eq!(m1 * 750, m2 * 500);
    assert_eq!(m1, 1000);
    assert_eq!(m2, 1500);
}

#[test]
fn deposit_then_withdraw_returns_no_more_than_deposited() {
    let mut dex = LoyaltyDexContract::new();
    dex.create_pool(1, 2).unwrap();
    dex.add_liquidity(100, 1, 2, 777, 1303).unwrap();
    let minted = dex.add_liquidity(101, 1, 2, 331, 557).unwrap();
    let (back_a, back_b) = dex.remove_liquidity(101, 1, 2, minted).unwrap();
    assert!(back_a <= 331);
    assert!(back_b <= 557);
}

#[test]
fn slippage_floor_one_above_quote_fails_and_changes_nothing() {
    let mut dex = LoyaltyDexContract::new();
    dex.create_pool(1, 2).unwrap();
    dex.add_liquidity(101, 1, 2, 1500, 6000).unwrap();
    let quote = get_amount_out(150, 1500, 6000);
    assert!(quote > 0);
    let before = dex.get_pool(1, 2).unwrap();
    let result = dex.swap(7, 1, 2, 150, quote + 1);
    assert_eq!(result, Err(DexError::SlippageExceeded));
    let after = dex.get_pool(1, 2).unwrap();
    assert_eq!(before, after);
    // The same swap succeeds with the floor at the quote itself.
    assert_eq!(dex.swap(7, 1, 2, 150, quote), Ok(quote));
}

#[test]
fn remove_liquidity_error_taxonomy() {
    let mut dex = LoyaltyDexContract::new();
    dex.create_pool(1, 2).unwrap();
    assert_eq!(dex.remove_liquidity(101, 1, 2, 0), Err(DexError::InvalidAmount));
    assert_eq!(dex.remove_liquidity(101, 1, 3, 5), Err(DexError::PoolNotFound));
    // No shares outstanding yet.
    assert_eq!(dex.remove_liquidity(101, 1, 2, 5), Err(DexError::InsufficientLiquidity));
    dex.add_liquidity(101, 1, 2, 1000, 1000).unwrap();
    // Burning more than the provider owns signals an over-withdrawal.
    assert_eq!(dex.remove_liquidity(102, 1, 2, 5), Err(DexError::Unauthorized));
    assert_eq!(dex.remove_liquidity(101, 1, 2, 1001), Err(DexError::Unauthorized));
}

#[test]
fn drained_pool_can_be_reseeded() {
    let mut dex = LoyaltyDexContract::new();
    dex.create_pool(1, 2).unwrap();
    let minted = dex.add_liquidity(101, 1, 2, 400, 900).unwrap();
    let (out_a, out_b) = dex.remove_liquidity(101, 1, 2, minted).unwrap();
    assert_eq!((out_a, out_b), (400, 900));
    let pool = dex.get_pool(1, 2).unwrap();
    assert_eq!((pool.reserve_a, pool.reserve_b, pool.lp_supply), (0, 0, 0));
    // The record persists and a fresh deposit reseeds it as if new.
    let reseeded = dex.add_liquidity(102, 1, 2, 100, 100).unwrap();
    assert_eq!(reseeded, 100);
}

#[test]
fn get_exchange_rate_reports_unreduced_fraction() {
    let mut dex = LoyaltyDexContract::new();
    assert_eq!(dex.get_exchange_rate(1, 2), Err(DexError::PoolNotFound));
    dex.create_pool(1, 2).unwrap();
    assert_eq!(dex.get_exchange_rate(1, 2), Err(DexError::InsufficientLiquidity));
    dex.add_liquidity(101, 1, 2, 1500, 6000).unwrap();
    assert_eq!(dex.get_exchange_rate(1, 2), Ok((6000, 1500)));
}
