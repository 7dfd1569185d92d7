use ref_exchange::degen_swap::{DegenPoolLimit, DegenSwapPool};
use ref_exchange::errors::PoolError;
use ref_exchange::fees::AdminFees;
use ref_exchange::pool::Pool;
use ref_exchange::rated_swap::RatedSwapPool;
use ref_exchange::simple_pool::{SimplePool, INIT_SHARES_SUPPLY};
use ref_exchange::stable::PRECISION;
use ref_exchange::stable_swap::StableSwapPool;
use ref_exchange::volume::SwapVolume;
use std::collections::HashMap;

fn id(name: &str) -> String {
    name.to_string()
}

fn tokens() -> Vec<String> {
    vec![id("x"), id("y")]
}

fn simple() -> Pool {
    Pool::SimplePool(SimplePool::new(tokens(), 30).unwrap())
}

fn stable() -> Pool {
    Pool::StableSwapPool(StableSwapPool::new(tokens(), 100, 30).unwrap())
}

fn rated() -> Pool {
    Pool::RatedSwapPool(
        RatedSwapPool::new(tokens(), 100, 30, vec![PRECISION, 2 * PRECISION]).unwrap(),
    )
}

fn degen() -> Pool {
    Pool::DegenSwapPool(
        DegenSwapPool::new(tokens(), 100, 30, vec![PRECISION, PRECISION]).unwrap(),
    )
}

fn all_kinds() -> Vec<Pool> {
    vec![simple(), stable(), rated(), degen()]
}

fn reserves(pool: &Pool) -> Vec<u128> {
    match pool {
        Pool::SimplePool(p) => p.state.reserves().clone(),
        Pool::StableSwapPool(p) => p.curve.state.reserves().clone(),
        Pool::RatedSwapPool(p) => p.curve.state.reserves().clone(),
        Pool::DegenSwapPool(p) => p.curve.state.reserves().clone(),
    }
}

/// Registers alice and makes the first deposit of `amount` of each token.
fn fund(pool: &mut Pool, amount: u128) {
    pool.share_register(&id("alice")).unwrap();
    match pool {
        Pool::SimplePool(_) => {
            let mut amounts = vec![amount, amount];
            pool.add_liquidity(&id("alice"), &mut amounts, false).unwrap();
        }
        _ => {
            pool.add_stable_liquidity(
                &id("alice"),
                &vec![amount, amount],
                0,
                AdminFees::zero(),
                false,
            )
            .unwrap();
        }
    }
}

#[test]
fn kind_names() {
    assert_eq!(simple().kind(), "SIMPLE_POOL");
    assert_eq!(stable().kind(), "STABLE_SWAP");
    assert_eq!(rated().kind(), "RATED_SWAP");
    assert_eq!(degen().kind(), "DEGEN_SWAP");
}

#[test]
fn share_decimals() {
    assert_eq!(simple().get_share_decimal(), 24);
    assert_eq!(stable().get_share_decimal(), 18);
    assert_eq!(rated().get_share_decimal(), 24);
    assert_eq!(degen().get_share_decimal(), 24);
}

#[test]
fn tokens_fee_and_volumes_of_a_new_pool() {
    for pool in all_kinds() {
        assert_eq!(pool.tokens(), &tokens()[..]);
        assert_eq!(pool.get_fee(), 30);
        assert_eq!(
            pool.get_volumes(),
            vec![SwapVolume { input: 0, output: 0 }; 2]
        );
        assert_eq!(pool.share_total_balance(), 0);
    }
}

#[test]
fn fee_can_be_changed_below_the_divisor_only() {
    for mut pool in all_kinds() {
        assert_eq!(pool.modify_total_fee(10_000), Err(PoolError::FeeTooHigh));
        assert_eq!(pool.modify_total_fee(u32::MAX), Err(PoolError::FeeTooHigh));
        assert_eq!(pool.get_fee(), 30);
        assert_eq!(pool.modify_total_fee(9_999), Ok(()));
        assert_eq!(pool.get_fee(), 9_999);
        assert_eq!(pool.modify_total_fee(0), Ok(()));
        assert_eq!(pool.get_fee(), 0);
    }
}

#[test]
fn add_liquidity_is_unsupported_on_the_stable_family() {
    for mut pool in vec![stable(), rated(), degen()] {
        pool.share_register(&id("alice")).unwrap();
        let mut amounts = vec![1_000, 1_000];
        assert_eq!(
            pool.add_liquidity(&id("alice"), &mut amounts, false),
            Err(PoolError::UnsupportedOperation)
        );
        assert_eq!(amounts, vec![1_000, 1_000]);
        assert_eq!(reserves(&pool), vec![0, 0]);
        assert_eq!(pool.share_total_balance(), 0);
    }
}

#[test]
fn add_stable_liquidity_is_unsupported_on_the_simple_pool() {
    let mut pool = simple();
    pool.share_register(&id("alice")).unwrap();
    assert_eq!(
        pool.add_stable_liquidity(&id("alice"), &vec![1_000, 1_000], 0, AdminFees::zero(), false),
        Err(PoolError::UnsupportedOperation)
    );
    assert_eq!(reserves(&pool), vec![0, 0]);
}

#[test]
fn remove_by_tokens_and_share_price_are_unsupported_on_the_simple_pool() {
    let mut pool = simple();
    fund(&mut pool, 1_000_000);
    assert_eq!(
        pool.remove_liquidity_by_tokens(&id("alice"), vec![1, 1], u128::MAX, AdminFees::zero(), false),
        Err(PoolError::UnsupportedOperation)
    );
    assert_eq!(pool.get_share_price(), Err(PoolError::UnsupportedOperation));
    assert_eq!(reserves(&pool), vec![1_000_000, 1_000_000]);
}

#[test]
fn swap_by_output_is_unsupported_on_the_stable_family() {
    for mut pool in vec![stable(), rated(), degen()] {
        fund(&mut pool, 1_000_000);
        let before = reserves(&pool);
        assert_eq!(
            pool.swap_by_output(&id("x"), 10, &id("y"), None, AdminFees::zero(), false),
            Err(PoolError::UnsupportedOperation)
        );
        assert_eq!(reserves(&pool), before);
    }
}

#[test]
fn tvl_is_defined_on_the_degen_pool_only() {
    for mut pool in vec![simple(), stable(), rated()] {
        fund(&mut pool, 1_000_000);
        assert_eq!(pool.get_tvl(), Err(PoolError::UnsupportedOperation));
    }
    let mut pool = degen();
    fund(&mut pool, 1_000_000);
    assert_eq!(pool.get_tvl(), Ok(2_000_000));
}

#[test]
fn predictions_are_defined_on_the_kind_they_name() {
    let none = AdminFees::zero();
    let amounts = vec![1_000, 1_000];
    for mut pool in all_kinds() {
        fund(&mut pool, 1_000_000);
        let is_rated = matches!(pool, Pool::RatedSwapPool(_));
        let is_degen = matches!(pool, Pool::DegenSwapPool(_));
        let unsupported = Err(PoolError::UnsupportedOperation);
        assert_eq!(
            pool.predict_add_rated_liquidity(&amounts, &None, &none) == unsupported,
            !is_rated
        );
        assert_eq!(
            pool.predict_remove_rated_liquidity_by_tokens(&amounts, &None, &none) == unsupported,
            !is_rated
        );
        assert_eq!(
            pool.get_rated_return(&id("x"), 10, &id("y"), &None, &none) == unsupported,
            !is_rated
        );
        assert_eq!(
            pool.predict_add_degen_liquidity(&amounts, &None, &none) == unsupported,
            !is_degen
        );
        assert_eq!(
            pool.predict_remove_degen_liquidity_by_tokens(&amounts, &None, &none) == unsupported,
            !is_degen
        );
        assert_eq!(
            pool.get_degen_return(&id("x"), 10, &id("y"), &None, &none) == unsupported,
            !is_degen
        );
    }
}

#[test]
fn degen_predictions_give_amounts() {
    let mut pool = degen();
    fund(&mut pool, 1_000_000_000_000_000_000_000);
    let none = AdminFees::zero();
    let e18: u128 = 1_000_000_000_000_000_000;
    assert_eq!(
        pool.predict_add_degen_liquidity(&vec![100 * e18, 0], &None, &none),
        Ok(99_838_126_897_289_852_109)
    );
    assert_eq!(
        pool.predict_remove_degen_liquidity_by_tokens(&vec![100 * e18, 0], &None, &none),
        Ok(100_163_129_566_046_324_055)
    );
    assert_eq!(
        pool.get_degen_return(&id("x"), 10 * e18, &id("y"), &None, &none),
        Ok(9_969_505_444_021_224_165)
    );
    assert_eq!(
        pool.get_degen_return(
            &id("x"),
            10 * e18,
            &id("y"),
            &Some(vec![PRECISION, 12 * PRECISION / 10]),
            &none
        ),
        Ok(8_315_584_260_983_412_815)
    );
}

#[test]
fn swap_works_on_every_kind() {
    for mut pool in all_kinds() {
        fund(&mut pool, 1_000_000);
        let before = reserves(&pool);
        let out = pool
            .swap(&id("x"), 1_000, &id("y"), 1, AdminFees::zero(), false)
            .unwrap();
        let after = reserves(&pool);
        assert_eq!(after[0] - before[0], 1_000);
        assert_eq!(before[1] - after[1], out);
        assert!(out <= 1_000);
        assert_eq!(pool.get_volumes()[0].input, 1_000);
        assert_eq!(pool.get_volumes()[1].output, out);
    }
}

#[test]
fn swap_amounts_by_kind() {
    let mut pool = simple();
    fund(&mut pool, 1_000_000);
    assert_eq!(
        pool.swap(&id("x"), 1_000, &id("y"), 0, AdminFees::zero(), true),
        Ok(996)
    );
    let mut pool = stable();
    fund(&mut pool, 1_000_000);
    assert_eq!(
        pool.swap(&id("x"), 1_000, &id("y"), 0, AdminFees::zero(), true),
        Ok(996)
    );
    let mut pool = rated();
    fund(&mut pool, 1_000_000);
    // y counts double, so a unit of x buys about half a unit of y; x is the
    // scarcer side of this pool, which makes up for the fee
    assert_eq!(
        pool.swap(&id("x"), 1_000, &id("y"), 0, AdminFees::zero(), true),
        Ok(500)
    );
}

#[test]
fn slippage_guard_on_every_kind() {
    for mut pool in all_kinds() {
        fund(&mut pool, 1_000_000);
        assert_eq!(
            pool.swap(&id("x"), 100, &id("y"), 10_000_000, AdminFees::zero(), false),
            Err(PoolError::SlippageExceeded)
        );
        assert_eq!(reserves(&pool), vec![1_000_000, 1_000_000]);
        assert_eq!(pool.get_volumes()[0].input, 0);
    }
}

#[test]
fn invalid_tokens_on_every_kind() {
    for mut pool in all_kinds() {
        fund(&mut pool, 1_000_000);
        assert_eq!(
            pool.swap(&id("x"), 100, &id("x"), 0, AdminFees::zero(), false),
            Err(PoolError::InvalidToken)
        );
        assert_eq!(
            pool.swap(&id("x"), 100, &id("w"), 0, AdminFees::zero(), false),
            Err(PoolError::InvalidToken)
        );
    }
}

#[test]
fn proportional_withdrawal_on_every_kind() {
    for mut pool in all_kinds() {
        fund(&mut pool, 1_000_000);
        let total = pool.share_total_balance();
        let paid = pool
            .remove_liquidity(&id("alice"), total / 4, vec![250_000, 250_000], false)
            .unwrap();
        assert_eq!(paid, vec![250_000, 250_000]);
        assert_eq!(reserves(&pool), vec![750_000, 750_000]);
        assert_eq!(pool.share_total_balance(), total - total / 4);
        assert_eq!(
            pool.remove_liquidity(&id("alice"), total, vec![0, 0], false),
            Err(PoolError::InsufficientShares)
        );
        assert_eq!(
            pool.remove_liquidity(&id("alice"), 1_000, vec![0, 751], false),
            Err(PoolError::SlippageExceeded)
        );
        assert_eq!(reserves(&pool), vec![750_000, 750_000]);
    }
}

#[test]
fn share_ledger_through_the_pool() {
    for mut pool in all_kinds() {
        fund(&mut pool, 1_000_000);
        let total = pool.share_total_balance();
        assert!(pool.share_has_registered(&id("alice")));
        assert!(!pool.share_has_registered(&id("bob")));
        assert_eq!(pool.share_balances(&id("alice")), total);
        assert_eq!(pool.share_balances(&id("bob")), 0);
        assert_eq!(
            pool.share_transfer(&id("alice"), &id("bob"), 10),
            Err(PoolError::NotRegistered)
        );
        assert_eq!(pool.share_register(&id("bob")), Ok(()));
        assert_eq!(
            pool.share_register(&id("bob")),
            Err(PoolError::AlreadyRegistered)
        );
        assert_eq!(
            pool.share_transfer(&id("alice"), &id("bob"), total + 1),
            Err(PoolError::InsufficientShares)
        );
        assert_eq!(pool.share_transfer(&id("alice"), &id("bob"), 10), Ok(()));
        assert_eq!(pool.share_balances(&id("alice")), total - 10);
        assert_eq!(pool.share_balances(&id("bob")), 10);
        assert_eq!(pool.share_total_balance(), total);
        assert_eq!(
            pool.share_unregister(&id("bob")),
            Err(PoolError::NonZeroBalance)
        );
        assert_eq!(pool.share_transfer(&id("bob"), &id("alice"), 10), Ok(()));
        assert_eq!(pool.share_unregister(&id("bob")), Ok(()));
        assert_eq!(
            pool.share_unregister(&id("bob")),
            Err(PoolError::NotRegistered)
        );
        assert_eq!(reserves(&pool), vec![1_000_000, 1_000_000]);
    }
}

#[test]
fn first_deposit_share_supply_by_kind() {
    let mut pool = simple();
    fund(&mut pool, 1_000_000);
    assert_eq!(pool.share_total_balance(), INIT_SHARES_SUPPLY);
    let mut pool = stable();
    fund(&mut pool, 1_000_000);
    assert_eq!(pool.share_total_balance(), 2_000_000);
    assert_eq!(pool.get_share_price(), Ok(100_000_000));
    let mut pool = rated();
    fund(&mut pool, 1_000_000);
    assert_eq!(pool.get_share_price(), Ok(100_000_000));
}

fn limits(pool_id: u64, tvl_limit: u128) -> HashMap<u64, DegenPoolLimit> {
    let mut limits = HashMap::new();
    limits.insert(pool_id, DegenPoolLimit { tvl_limit });
    limits
}

#[test]
fn tvl_cap_passes_at_the_limit_and_fails_above() {
    let mut pool = degen();
    fund(&mut pool, 500_000);
    assert_eq!(pool.get_tvl(), Ok(1_000_000));
    assert_eq!(pool.assert_tvl_not_exceed_limit(7, &limits(7, 1_000_000)), Ok(()));
    assert_eq!(
        pool.assert_tvl_not_exceed_limit(7, &limits(7, 999_999)),
        Err(PoolError::TvlLimitExceeded)
    );
    // no cap configured for this pool
    assert_eq!(pool.assert_tvl_not_exceed_limit(8, &limits(7, 1)), Ok(()));
    assert_eq!(pool.assert_tvl_not_exceed_limit(7, &HashMap::new()), Ok(()));
}

#[test]
fn tvl_cap_is_a_no_op_on_other_kinds() {
    for mut pool in vec![simple(), stable(), rated()] {
        fund(&mut pool, 1_000_000);
        assert_eq!(pool.assert_tvl_not_exceed_limit(7, &limits(7, 1)), Ok(()));
    }
}

#[test]
fn tvl_cap_rejects_a_deposit_that_a_pool_without_cap_accepts() {
    let caps = limits(7, 1_000_000);
    let mut capped = degen();
    fund(&mut capped, 400_000);
    let mut free = stable();
    fund(&mut free, 400_000);

    let too_much = vec![100_001, 100_000];
    assert_eq!(
        capped.add_stable_liquidity_within_limit(
            &id("alice"),
            &too_much,
            0,
            AdminFees::zero(),
            7,
            &caps,
            false
        ),
        Err(PoolError::TvlLimitExceeded)
    );
    assert_eq!(reserves(&capped), vec![400_000, 400_000]);
    assert_eq!(capped.share_total_balance(), 800_000);
    assert_eq!(capped.share_balances(&id("alice")), 800_000);
    assert_eq!(capped.get_tvl(), Ok(800_000));

    assert!(free
        .add_stable_liquidity_within_limit(
            &id("alice"),
            &too_much,
            0,
            AdminFees::zero(),
            7,
            &caps,
            false
        )
        .is_ok());
    assert_eq!(reserves(&free), vec![500_001, 500_000]);

    let just_enough = vec![100_000, 100_000];
    assert_eq!(
        capped.add_stable_liquidity_within_limit(
            &id("alice"),
            &just_enough,
            0,
            AdminFees::zero(),
            7,
            &caps,
            false
        ),
        Ok(200_000)
    );
    assert_eq!(reserves(&capped), vec![500_000, 500_000]);
    assert_eq!(capped.get_tvl(), Ok(1_000_000));
}

#[test]
fn tvl_cap_applies_to_the_pool_it_is_configured_for() {
    let caps = limits(7, 1_000_000);
    let mut pool = degen();
    fund(&mut pool, 400_000);
    // another pool's cap does not bind this one
    assert!(pool
        .add_stable_liquidity_within_limit(
            &id("alice"),
            &vec![100_001, 100_000],
            0,
            AdminFees::zero(),
            8,
            &caps,
            false
        )
        .is_ok());
    assert_eq!(pool.get_tvl(), Ok(1_000_001));
    assert_eq!(
        pool.assert_tvl_not_exceed_limit(7, &caps),
        Err(PoolError::TvlLimitExceeded)
    );
}

#[test]
fn capped_deposit_keeps_the_refusals_of_the_deposit() {
    let caps = limits(7, 1);
    let mut pool = degen();
    fund(&mut pool, 400_000);
    assert_eq!(
        pool.add_stable_liquidity_within_limit(
            &id("alice"),
            &vec![1_000, 1_000],
            u128::MAX,
            AdminFees::zero(),
            7,
            &caps,
            false
        ),
        Err(PoolError::SlippageExceeded)
    );
    assert_eq!(
        pool.add_stable_liquidity_within_limit(
            &id("bob"),
            &vec![1_000, 1_000],
            0,
            AdminFees::zero(),
            7,
            &caps,
            false
        ),
        Err(PoolError::NotRegistered)
    );
    let mut simple_pool = simple();
    fund(&mut simple_pool, 1_000);
    assert_eq!(
        simple_pool.add_stable_liquidity_within_limit(
            &id("alice"),
            &vec![1_000, 1_000],
            0,
            AdminFees::zero(),
            7,
            &caps,
            false
        ),
        Err(PoolError::UnsupportedOperation)
    );
}

#[test]
fn simulated_capped_deposit_changes_nothing() {
    let caps = limits(7, 1_000_000);
    let mut pool = degen();
    fund(&mut pool, 400_000);
    assert_eq!(
        pool.add_stable_liquidity_within_limit(
            &id("alice"),
            &vec![100_000, 100_000],
            0,
            AdminFees::zero(),
            7,
            &caps,
            true
        ),
        Ok(200_000)
    );
    assert_eq!(
        pool.add_stable_liquidity_within_limit(
            &id("alice"),
            &vec![100_000, 100_001],
            0,
            AdminFees::zero(),
            7,
            &caps,
            true
        ),
        Err(PoolError::TvlLimitExceeded)
    );
    assert_eq!(reserves(&pool), vec![400_000, 400_000]);
    assert_eq!(pool.share_total_balance(), 800_000);
}

#[test]
fn tvl_cap_rejects_a_swap_that_raises_the_value() {
    // x counts double: paying x in for y raises what the pool is worth
    let mut pool = Pool::DegenSwapPool(
        DegenSwapPool::new(tokens(), 100, 30, vec![2 * PRECISION, PRECISION]).unwrap(),
    );
    fund(&mut pool, 250_000);
    assert_eq!(pool.get_tvl(), Ok(750_000));
    assert_eq!(
        pool.swap_within_limit(
            &id("x"),
            10_000,
            &id("y"),
            0,
            AdminFees::zero(),
            7,
            &limits(7, 750_154),
            false
        ),
        Err(PoolError::TvlLimitExceeded)
    );
    assert_eq!(reserves(&pool), vec![250_000, 250_000]);
    assert_eq!(pool.get_volumes()[0], SwapVolume { input: 0, output: 0 });
    assert_eq!(
        pool.swap_within_limit(
            &id("x"),
            10_000,
            &id("y"),
            0,
            AdminFees::zero(),
            7,
            &limits(7, 750_155),
            false
        ),
        Ok(19_845)
    );
    assert_eq!(reserves(&pool), vec![260_000, 230_155]);
    assert_eq!(pool.get_tvl(), Ok(750_155));
}

#[test]
fn swap_within_limit_is_a_plain_swap_on_other_kinds() {
    for mut pool in vec![simple(), stable(), rated()] {
        fund(&mut pool, 1_000_000);
        let expected = pool
            .swap(&id("x"), 1_000, &id("y"), 0, AdminFees::zero(), true)
            .unwrap();
        assert_eq!(
            pool.swap_within_limit(
                &id("x"),
                1_000,
                &id("y"),
                0,
                AdminFees::zero(),
                7,
                &limits(7, 1),
                false
            ),
            Ok(expected)
        );
        assert_eq!(reserves(&pool), vec![1_001_000, 1_000_000 - expected]);
    }
}

#[test]
fn rates_can_be_refreshed_on_rated_and_degen_pools() {
    let mut pool = RatedSwapPool::new(tokens(), 100, 30, vec![PRECISION, PRECISION]).unwrap();
    assert_eq!(pool.update_rates(vec![PRECISION]), Err(PoolError::InvalidAmounts));
    assert_eq!(pool.update_rates(vec![PRECISION, 3 * PRECISION]), Ok(()));
    assert_eq!(pool.curve.rates, vec![PRECISION, 3 * PRECISION]);

    let mut pool = DegenSwapPool::new(tokens(), 100, 30, vec![PRECISION, PRECISION]).unwrap();
    assert_eq!(pool.update_degens(vec![0, 1]), Err(PoolError::InvalidAmounts));
    assert_eq!(pool.update_degens(vec![PRECISION / 2, PRECISION]), Ok(()));
    assert_eq!(pool.curve.rates, vec![PRECISION / 2, PRECISION]);
    assert_eq!(pool.get_tvl(), Ok(0));
}

#[test]
fn stable_pool_counts_every_token_at_par() {
    let pool = StableSwapPool::new(vec![id("x"), id("y"), id("z")], 240, 5).unwrap();
    assert_eq!(pool.curve.rates, vec![PRECISION; 3]);
    assert_eq!(pool.curve.amp, 240);
}
