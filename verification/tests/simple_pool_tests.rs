use ref_exchange::errors::PoolError;
use ref_exchange::fees::AdminFees;
use ref_exchange::simple_pool::{SimplePool, INIT_SHARES_SUPPLY};
use ref_exchange::volume::SwapVolume;

fn id(name: &str) -> String {
    name.to_string()
}

fn empty_pool(fee: u32) -> SimplePool {
    let mut pool = SimplePool::new(vec![id("x"), id("y")], fee).unwrap();
    pool.state.share_register(&id("alice")).unwrap();
    pool
}

/// A pool holding 1_000_000 x and 2_000_000 y, all shares with alice.
fn funded_pool(fee: u32) -> SimplePool {
    let mut pool = empty_pool(fee);
    let mut amounts = vec![1_000_000, 2_000_000];
    pool.add_liquidity(&id("alice"), &mut amounts, false).unwrap();
    pool
}

fn reserves(pool: &SimplePool) -> Vec<u128> {
    pool.state.reserves().clone()
}

#[test]
fn simple_pool_creation_checks_tokens_and_fee() {
    assert!(matches!(
        SimplePool::new(vec![id("x")], 30),
        Err(PoolError::InvalidToken)
    ));
    assert!(matches!(
        SimplePool::new(vec![id("x"), id("y"), id("x")], 30),
        Err(PoolError::InvalidToken)
    ));
    assert!(matches!(
        SimplePool::new(vec![id("x"), id("y")], 10_000),
        Err(PoolError::FeeTooHigh)
    ));
    let pool = SimplePool::new(vec![id("x"), id("y")], 9_999).unwrap();
    assert_eq!(reserves(&pool), vec![0, 0]);
    assert_eq!(pool.state.total_fee(), 9_999);
    assert_eq!(pool.state.shares().total_supply(), 0);
    assert_eq!(pool.state.tokens(), &vec![id("x"), id("y")]);
}

#[test]
fn first_deposit_mints_the_initial_supply() {
    let mut pool = empty_pool(30);
    let mut amounts = vec![5, 123_456_789];
    assert_eq!(
        pool.add_liquidity(&id("alice"), &mut amounts, false),
        Ok(INIT_SHARES_SUPPLY)
    );
    assert_eq!(INIT_SHARES_SUPPLY, 1_000_000_000_000_000_000_000_000);
    assert_eq!(amounts, vec![5, 123_456_789]);
    assert_eq!(reserves(&pool), vec![5, 123_456_789]);
    assert_eq!(pool.state.shares().balance_of(&id("alice")), INIT_SHARES_SUPPLY);
    assert_eq!(pool.state.shares().total_supply(), INIT_SHARES_SUPPLY);
}

#[test]
fn round_trip_returns_the_first_deposit_exactly() {
    let mut pool = empty_pool(30);
    let mut amounts = vec![777, 1_000_000_000_000_000_000_000_000_000_001];
    let shares = pool.add_liquidity(&id("alice"), &mut amounts, false).unwrap();
    let back = pool
        .remove_liquidity(&id("alice"), shares, vec![0, 0], false)
        .unwrap();
    assert_eq!(back, vec![777, 1_000_000_000_000_000_000_000_000_000_001]);
    assert_eq!(reserves(&pool), vec![0, 0]);
    assert_eq!(pool.state.shares().total_supply(), 0);
    assert_eq!(pool.state.shares().balance_of(&id("alice")), 0);
}

#[test]
fn later_deposit_keeps_the_ratio_and_reports_what_it_took() {
    let mut pool = funded_pool(30);
    pool.state.share_register(&id("bob")).unwrap();
    let mut amounts = vec![1_000, 3_000];
    assert_eq!(
        pool.add_liquidity(&id("bob"), &mut amounts, false),
        Ok(1_000_000_000_000_000_000_000)
    );
    assert_eq!(amounts, vec![1_000, 2_000]);
    assert_eq!(reserves(&pool), vec![1_001_000, 2_002_000]);
    assert_eq!(
        pool.state.shares().balance_of(&id("bob")),
        1_000_000_000_000_000_000_000
    );
    assert_eq!(
        pool.state.shares().total_supply(),
        1_001_000_000_000_000_000_000_000
    );
}

#[test]
fn later_deposit_rounds_what_it_takes_up() {
    let mut pool = funded_pool(30);
    let mut amounts = vec![1_001, 2_001];
    assert_eq!(
        pool.add_liquidity(&id("alice"), &mut amounts, false),
        Ok(1_000_500_000_000_000_000_000)
    );
    assert_eq!(amounts, vec![1_001, 2_001]);
    assert_eq!(reserves(&pool), vec![1_001_001, 2_002_001]);
}

#[test]
fn deposit_refusals_change_nothing() {
    let mut pool = funded_pool(30);
    let before = reserves(&pool);

    let mut short = vec![1_000];
    assert_eq!(
        pool.add_liquidity(&id("alice"), &mut short, false),
        Err(PoolError::InvalidAmounts)
    );
    assert_eq!(short, vec![1_000]);

    let mut zero = vec![1_000, 0];
    assert_eq!(
        pool.add_liquidity(&id("alice"), &mut zero, false),
        Err(PoolError::InvalidAmounts)
    );

    let mut stranger = vec![1_000, 2_000];
    assert_eq!(
        pool.add_liquidity(&id("mallory"), &mut stranger, false),
        Err(PoolError::NotRegistered)
    );
    assert_eq!(stranger, vec![1_000, 2_000]);

    let mut huge = vec![u128::MAX, u128::MAX];
    assert_eq!(
        pool.add_liquidity(&id("alice"), &mut huge, false),
        Err(PoolError::ArithmeticOverflow)
    );

    assert_eq!(reserves(&pool), before);
    assert_eq!(pool.state.shares().total_supply(), INIT_SHARES_SUPPLY);
}

#[test]
fn simulated_deposit_reports_and_changes_nothing() {
    let mut pool = funded_pool(30);
    let mut amounts = vec![1_000, 3_000];
    assert_eq!(
        pool.add_liquidity(&id("alice"), &mut amounts, true),
        Ok(1_000_000_000_000_000_000_000)
    );
    assert_eq!(amounts, vec![1_000, 2_000]);
    assert_eq!(reserves(&pool), vec![1_000_000, 2_000_000]);
    assert_eq!(pool.state.shares().total_supply(), INIT_SHARES_SUPPLY);
}

#[test]
fn swap_pays_the_constant_product_amount() {
    let mut pool = funded_pool(30);
    let out = pool
        .swap(&id("x"), 10_000, &id("y"), 0, &AdminFees::zero(), false)
        .unwrap();
    assert_eq!(out, 19_743);
    assert_eq!(reserves(&pool), vec![1_010_000, 1_980_257]);
}

#[test]
fn swap_conserves_reserves_and_never_lowers_the_product() {
    let mut pool = funded_pool(30);
    let before = reserves(&pool);
    let out = pool
        .swap(&id("y"), 123_456, &id("x"), 0, &AdminFees::zero(), false)
        .unwrap();
    let after = reserves(&pool);
    assert_eq!(after[1] - before[1], 123_456);
    assert_eq!(before[0] - after[0], out);
    assert!(after[0] * after[1] >= before[0] * before[1]);
}

#[test]
fn swap_without_fee_keeps_the_product_from_falling() {
    let mut pool = funded_pool(0);
    let before = reserves(&pool);
    let out = pool
        .swap(&id("x"), 1, &id("y"), 0, &AdminFees::zero(), false)
        .unwrap();
    assert_eq!(out, 1);
    let after = reserves(&pool);
    assert!(after[0] * after[1] >= before[0] * before[1]);
}

#[test]
fn swap_records_volume() {
    let mut pool = funded_pool(30);
    pool.swap(&id("x"), 10_000, &id("y"), 0, &AdminFees::zero(), false)
        .unwrap();
    let volumes = pool.state.volumes();
    assert_eq!(volumes[0], SwapVolume { input: 10_000, output: 0 });
    assert_eq!(volumes[1], SwapVolume { input: 0, output: 19_743 });
}

#[test]
fn slippage_guard_refuses_and_leaves_reserves() {
    let mut pool = funded_pool(30);
    assert_eq!(
        pool.swap(&id("x"), 100, &id("y"), 10_000_000, &AdminFees::zero(), false),
        Err(PoolError::SlippageExceeded)
    );
    assert_eq!(reserves(&pool), vec![1_000_000, 2_000_000]);
    assert_eq!(pool.state.volumes()[0], SwapVolume { input: 0, output: 0 });
    assert_eq!(pool.state.shares().total_supply(), INIT_SHARES_SUPPLY);
}

#[test]
fn swap_at_the_minimum_is_accepted() {
    let mut pool = funded_pool(30);
    assert_eq!(
        pool.swap(&id("x"), 10_000, &id("y"), 19_744, &AdminFees::zero(), true),
        Err(PoolError::SlippageExceeded)
    );
    assert_eq!(
        pool.swap(&id("x"), 10_000, &id("y"), 19_743, &AdminFees::zero(), true),
        Ok(19_743)
    );
}

#[test]
fn swap_refuses_unknown_and_equal_tokens() {
    let mut pool = funded_pool(30);
    let fees = AdminFees::zero();
    assert_eq!(
        pool.swap(&id("z"), 100, &id("y"), 0, &fees, false),
        Err(PoolError::InvalidToken)
    );
    assert_eq!(
        pool.swap(&id("x"), 100, &id("z"), 0, &fees, false),
        Err(PoolError::InvalidToken)
    );
    assert_eq!(
        pool.swap(&id("x"), 100, &id("x"), 0, &fees, false),
        Err(PoolError::InvalidToken)
    );
    assert_eq!(reserves(&pool), vec![1_000_000, 2_000_000]);
}

#[test]
fn swap_on_an_empty_pool_is_refused() {
    let mut pool = empty_pool(30);
    assert_eq!(
        pool.swap(&id("x"), 0, &id("y"), 0, &AdminFees::zero(), false),
        Err(PoolError::InvalidAmounts)
    );
    assert_eq!(
        pool.swap(&id("x"), 10, &id("y"), 0, &AdminFees::zero(), false),
        Err(PoolError::InvalidAmounts)
    );
    assert_eq!(
        pool.swap_by_output(&id("x"), 0, &id("y"), None, &AdminFees::zero(), false),
        Err(PoolError::InvalidAmounts)
    );
    assert_eq!(reserves(&pool), vec![0, 0]);
}

#[test]
fn swap_of_nothing_pays_nothing() {
    let mut pool = funded_pool(30);
    assert_eq!(
        pool.swap(&id("x"), 0, &id("y"), 0, &AdminFees::zero(), false),
        Ok(0)
    );
    assert_eq!(reserves(&pool), vec![1_000_000, 2_000_000]);
}

#[test]
fn swap_refuses_amounts_beyond_128_bits() {
    let mut pool = funded_pool(30);
    assert_eq!(
        pool.swap(&id("x"), u128::MAX, &id("y"), 0, &AdminFees::zero(), false),
        Err(PoolError::ArithmeticOverflow)
    );
    assert_eq!(reserves(&pool), vec![1_000_000, 2_000_000]);
}

#[test]
fn simulated_swap_changes_nothing() {
    let mut pool = funded_pool(30);
    assert_eq!(
        pool.swap(&id("x"), 10_000, &id("y"), 0, &AdminFees::zero(), true),
        Ok(19_743)
    );
    assert_eq!(reserves(&pool), vec![1_000_000, 2_000_000]);
    assert_eq!(pool.state.volumes()[0], SwapVolume { input: 0, output: 0 });
    // and the real swap after it pays the same
    assert_eq!(
        pool.swap(&id("x"), 10_000, &id("y"), 0, &AdminFees::zero(), false),
        Ok(19_743)
    );
}

#[test]
fn swap_pays_the_exchange_in_shares() {
    let mut pool = funded_pool(30);
    pool.state.share_register(&id("exchange")).unwrap();
    let fees = AdminFees::new(10, id("exchange"), 0, None);
    let out = pool.swap(&id("x"), 10_000, &id("y"), 0, &fees, false).unwrap();
    assert_eq!(out, 19_743);
    // the fee of 30 stays in the reserves; a third of it is paid in shares
    assert_eq!(reserves(&pool), vec![1_010_000, 1_980_257]);
    assert_eq!(
        pool.state.shares().balance_of(&id("exchange")),
        4_950_495_049_504_950_495
    );
    assert_eq!(
        pool.state.shares().total_supply(),
        INIT_SHARES_SUPPLY + 4_950_495_049_504_950_495
    );
}

#[test]
fn swap_pays_nothing_to_an_unregistered_exchange() {
    let mut pool = funded_pool(30);
    let fees = AdminFees::new(10, id("exchange"), 5, Some(id("referrer")));
    assert_eq!(pool.swap(&id("x"), 10_000, &id("y"), 0, &fees, false), Ok(19_743));
    assert_eq!(pool.state.shares().total_supply(), INIT_SHARES_SUPPLY);
    assert!(!pool.state.shares().is_registered(&id("exchange")));
}

#[test]
fn swap_refuses_admin_fees_above_the_total_fee() {
    let mut pool = funded_pool(30);
    let fees = AdminFees::new(31, id("exchange"), 0, None);
    assert_eq!(
        pool.swap(&id("x"), 10_000, &id("y"), 0, &fees, false),
        Err(PoolError::FeeTooHigh)
    );
    assert_eq!(reserves(&pool), vec![1_000_000, 2_000_000]);
}

#[test]
fn swap_by_output_asks_for_enough() {
    let mut pool = funded_pool(30);
    let paid = pool
        .swap_by_output(&id("x"), 19_743, &id("y"), None, &AdminFees::zero(), false)
        .unwrap();
    assert_eq!(paid, 10_000);
    assert_eq!(reserves(&pool), vec![1_010_000, 1_980_257]);
}

#[test]
fn swap_by_output_small_pool() {
    let mut pool = empty_pool(30);
    let mut amounts = vec![1_000, 1_000];
    pool.add_liquidity(&id("alice"), &mut amounts, false).unwrap();
    assert_eq!(
        pool.swap_by_output(&id("x"), 100, &id("y"), Some(111), &AdminFees::zero(), false),
        Err(PoolError::SlippageExceeded)
    );
    assert_eq!(reserves(&pool), vec![1_000, 1_000]);
    assert_eq!(
        pool.swap_by_output(&id("x"), 100, &id("y"), Some(112), &AdminFees::zero(), false),
        Ok(112)
    );
    let after = reserves(&pool);
    assert_eq!(after, vec![1_112, 900]);
    assert!(after[0] * after[1] >= 1_000 * 1_000);
}

#[test]
fn swap_by_output_cannot_drain_a_reserve() {
    let mut pool = funded_pool(30);
    assert_eq!(
        pool.swap_by_output(&id("x"), 2_000_000, &id("y"), None, &AdminFees::zero(), false),
        Err(PoolError::InvalidAmounts)
    );
    assert_eq!(
        pool.swap_by_output(&id("x"), 1, &id("x"), None, &AdminFees::zero(), false),
        Err(PoolError::InvalidToken)
    );
}

#[test]
fn withdrawal_is_proportional_and_rounded_down() {
    let mut pool = funded_pool(30);
    pool.swap(&id("x"), 10_000, &id("y"), 0, &AdminFees::zero(), false)
        .unwrap();
    let third = INIT_SHARES_SUPPLY / 3;
    let paid = pool
        .remove_liquidity(&id("alice"), third, vec![336_666, 660_085], false)
        .unwrap();
    assert_eq!(paid, vec![336_666, 660_085]);
    assert_eq!(reserves(&pool), vec![1_010_000 - 336_666, 1_980_257 - 660_085]);
    assert_eq!(pool.state.shares().total_supply(), INIT_SHARES_SUPPLY - third);
    assert_eq!(
        pool.state.shares().balance_of(&id("alice")),
        INIT_SHARES_SUPPLY - third
    );
}

#[test]
fn withdrawal_refusals_change_nothing() {
    let mut pool = funded_pool(30);
    assert_eq!(
        pool.remove_liquidity(&id("alice"), INIT_SHARES_SUPPLY + 1, vec![0, 0], false),
        Err(PoolError::InsufficientShares)
    );
    assert_eq!(
        pool.remove_liquidity(&id("bob"), 1, vec![0, 0], false),
        Err(PoolError::InsufficientShares)
    );
    assert_eq!(
        pool.remove_liquidity(&id("alice"), 1_000, vec![0], false),
        Err(PoolError::InvalidAmounts)
    );
    assert_eq!(
        pool.remove_liquidity(&id("alice"), INIT_SHARES_SUPPLY / 2, vec![500_000, 1_000_001], false),
        Err(PoolError::SlippageExceeded)
    );
    assert_eq!(reserves(&pool), vec![1_000_000, 2_000_000]);
    assert_eq!(pool.state.shares().total_supply(), INIT_SHARES_SUPPLY);
}

#[test]
fn withdrawal_from_a_pool_without_shares_is_refused() {
    let mut pool = empty_pool(30);
    assert_eq!(
        pool.remove_liquidity(&id("alice"), 0, vec![0, 0], false),
        Err(PoolError::InsufficientShares)
    );
}

#[test]
fn simulated_withdrawal_changes_nothing() {
    let mut pool = funded_pool(30);
    assert_eq!(
        pool.remove_liquidity(&id("alice"), INIT_SHARES_SUPPLY / 2, vec![0, 0], true),
        Ok(vec![500_000, 1_000_000])
    );
    assert_eq!(reserves(&pool), vec![1_000_000, 2_000_000]);
    assert_eq!(pool.state.shares().total_supply(), INIT_SHARES_SUPPLY);
}

#[test]
fn three_token_pool_swaps_between_any_two() {
    let mut pool = SimplePool::new(vec![id("x"), id("y"), id("z")], 30).unwrap();
    pool.state.share_register(&id("alice")).unwrap();
    let mut amounts = vec![1_000_000, 2_000_000, 3_000_000];
    pool.add_liquidity(&id("alice"), &mut amounts, false).unwrap();
    let out = pool
        .swap(&id("x"), 10_000, &id("y"), 0, &AdminFees::zero(), false)
        .unwrap();
    assert_eq!(out, 19_743);
    assert_eq!(reserves(&pool), vec![1_010_000, 1_980_257, 3_000_000]);
}

#[test]
fn swap_with_fee_grows_the_product() {
    for amount in [1u128, 7, 10_000, 999_999, 123_456_789] {
        let mut pool = funded_pool(30);
        let before = reserves(&pool);
        pool.swap(&id("x"), amount, &id("y"), 0, &AdminFees::zero(), false)
            .unwrap();
        let after = reserves(&pool);
        assert!(after[0] * after[1] > before[0] * before[1]);
    }
}

#[test]
fn what_swap_by_output_asks_for_buys_the_output() {
    for wanted in [1u128, 100, 19_743, 1_000_000, 1_999_999] {
        let mut pool = funded_pool(30);
        let asked = pool
            .swap_by_output(&id("x"), wanted, &id("y"), None, &AdminFees::zero(), true)
            .unwrap();
        let bought = pool
            .swap(&id("x"), asked, &id("y"), 0, &AdminFees::zero(), true)
            .unwrap();
        assert!(bought >= wanted);
    }
}

#[test]
fn swap_touches_no_other_holder() {
    let mut pool = funded_pool(30);
    pool.state.share_register(&id("bob")).unwrap();
    pool.state.share_register(&id("exchange")).unwrap();
    pool.state.share_register(&id("referrer")).unwrap();
    pool.state
        .share_transfer(&id("alice"), &id("bob"), 1_000)
        .unwrap();
    let fees = AdminFees::new(10, id("exchange"), 10, Some(id("referrer")));
    pool.swap(&id("x"), 10_000, &id("y"), 0, &fees, false).unwrap();
    assert_eq!(pool.state.shares().balance_of(&id("bob")), 1_000);
    assert_eq!(
        pool.state.shares().balance_of(&id("alice")),
        INIT_SHARES_SUPPLY - 1_000
    );
    assert_eq!(
        pool.state.shares().balance_of(&id("exchange")),
        4_950_495_049_504_950_495
    );
    assert_eq!(
        pool.state.shares().balance_of(&id("referrer")),
        4_950_495_049_504_950_495
    );
}

#[test]
fn withdrawal_never_pays_more_than_the_shares_are_worth() {
    let mut pool = funded_pool(30);
    pool.swap(&id("x"), 12_345, &id("y"), 0, &AdminFees::zero(), false)
        .unwrap();
    let held = reserves(&pool);
    let shares: u128 = 333_333_333_333_333_333_333_333;
    let paid = pool
        .remove_liquidity(&id("alice"), shares, vec![0, 0], true)
        .unwrap();
    for i in 0..2 {
        assert_eq!(paid[i], held[i] * shares / INIT_SHARES_SUPPLY);
    }
}
