use ref_exchange::errors::PoolError;
use ref_exchange::fees::AdminFees;
use ref_exchange::stable::{StableCurve, MAX_AMP, PRECISION, SHARE_PRICE_SCALE};
use ref_exchange::stable_math::{compute_d, compute_y};

const E18: u128 = 1_000_000_000_000_000_000;

fn id(name: &str) -> String {
    name.to_string()
}

fn par(count: usize) -> Vec<u128> {
    vec![PRECISION; count]
}

/// A two-token pool at par holding 1000 units of each, all shares with alice.
fn funded(fee: u32) -> StableCurve {
    let mut curve = StableCurve::new(vec![id("x"), id("y")], 100, fee, par(2)).unwrap();
    curve.state.share_register(&id("alice")).unwrap();
    curve
        .add_liquidity(
            &id("alice"),
            &vec![1_000 * E18, 1_000 * E18],
            0,
            &AdminFees::zero(),
            false,
        )
        .unwrap();
    curve
}

fn reserves(curve: &StableCurve) -> Vec<u128> {
    curve.state.reserves().clone()
}

#[test]
fn invariant_of_a_balanced_pool_is_the_sum() {
    assert_eq!(compute_d(&vec![1_000, 1_000], 100), Some(2_000));
    assert_eq!(compute_d(&vec![1_000_000; 3], 240), Some(3_000_000));
    assert_eq!(compute_d(&vec![1_000 * E18, 1_000 * E18], 100), Some(2_000 * E18));
}

#[test]
fn invariant_of_an_unbalanced_pool_is_below_the_sum() {
    assert_eq!(compute_d(&vec![1_000_000, 2_000_000], 100), Some(2_999_068));
    assert_eq!(
        compute_d(&vec![1_000 * E18, 2_000 * E18, 1_500 * E18], 240),
        Some(4_499_913_241_303_109_360_359)
    );
}

#[test]
fn invariant_of_nothing_is_zero() {
    assert_eq!(compute_d(&vec![0, 0], 100), Some(0));
    assert_eq!(compute_d(&vec![], 100), Some(0));
}

#[test]
fn invariant_is_undefined_with_an_empty_reserve_or_no_amplification() {
    assert_eq!(compute_d(&vec![0, 5], 100), None);
    assert_eq!(compute_d(&vec![5, 5], 0), None);
    assert_eq!(compute_d(&vec![u128::MAX, 1], 100), None);
}

#[test]
fn balance_after_swap_follows_the_curve() {
    let xs = vec![1_000_000, 1_000_000];
    assert_eq!(compute_y(&xs, 100, 0, 1, 1_001_000, 2_000_000), Some(999_000));
    assert_eq!(compute_y(&xs, 100, 0, 1, 1_000_999, 2_000_000), Some(999_001));
    assert_eq!(compute_y(&xs, 100, 0, 1, 0, 2_000_000), None);
}

#[test]
fn stable_creation_checks_amplification_and_rates() {
    let tokens = || vec![id("x"), id("y")];
    assert!(matches!(
        StableCurve::new(tokens(), 0, 30, par(2)),
        Err(PoolError::InvalidAmounts)
    ));
    assert!(matches!(
        StableCurve::new(tokens(), MAX_AMP + 1, 30, par(2)),
        Err(PoolError::InvalidAmounts)
    ));
    assert!(matches!(
        StableCurve::new(tokens(), 100, 30, par(3)),
        Err(PoolError::InvalidAmounts)
    ));
    assert!(matches!(
        StableCurve::new(tokens(), 100, 30, vec![PRECISION, 0]),
        Err(PoolError::InvalidAmounts)
    ));
    assert!(matches!(
        StableCurve::new(vec![id("x"), id("x")], 100, 30, par(2)),
        Err(PoolError::InvalidToken)
    ));
    assert!(matches!(
        StableCurve::new(tokens(), 100, 10_000, par(2)),
        Err(PoolError::FeeTooHigh)
    ));
    assert!(StableCurve::new(tokens(), MAX_AMP, 30, par(2)).is_ok());
}

#[test]
fn first_stable_deposit_mints_the_invariant() {
    let curve = funded(30);
    assert_eq!(curve.state.shares().total_supply(), 2_000 * E18);
    assert_eq!(curve.state.shares().balance_of(&id("alice")), 2_000 * E18);
    assert_eq!(reserves(&curve), vec![1_000 * E18, 1_000 * E18]);
}

#[test]
fn first_stable_deposit_must_bring_every_token() {
    let mut curve = StableCurve::new(vec![id("x"), id("y")], 100, 30, par(2)).unwrap();
    curve.state.share_register(&id("alice")).unwrap();
    assert_eq!(
        curve.add_liquidity(&id("alice"), &vec![1_000, 0], 0, &AdminFees::zero(), false),
        Err(PoolError::InvalidAmounts)
    );
    assert_eq!(
        curve.add_liquidity(&id("alice"), &vec![1_000], 0, &AdminFees::zero(), false),
        Err(PoolError::InvalidAmounts)
    );
    assert_eq!(reserves(&curve), vec![0, 0]);
}

#[test]
fn unbalanced_deposit_pays_the_imbalance_fee() {
    let mut curve = funded(30);
    let minted = curve
        .add_liquidity(
            &id("alice"),
            &vec![100 * E18, 0],
            0,
            &AdminFees::zero(),
            false,
        )
        .unwrap();
    assert_eq!(minted, 99_838_126_897_289_852_109);
    assert!(minted < 100 * E18);
    assert_eq!(reserves(&curve), vec![1_100 * E18, 1_000 * E18]);
    assert_eq!(curve.state.shares().total_supply(), 2_000 * E18 + minted);
}

#[test]
fn deposit_pays_exchange_and_referrer_in_shares() {
    let mut curve = funded(30);
    curve.state.share_register(&id("exchange")).unwrap();
    curve.state.share_register(&id("referrer")).unwrap();
    let fees = AdminFees::new(10, id("exchange"), 5, Some(id("referrer")));
    let minted = curve
        .add_liquidity(&id("alice"), &vec![100 * E18, 0], 0, &fees, false)
        .unwrap();
    assert_eq!(minted, 99_838_126_897_289_852_109);
    assert_eq!(
        curve.state.shares().balance_of(&id("exchange")),
        47_619_047_619_047_618
    );
    assert_eq!(
        curve.state.shares().balance_of(&id("referrer")),
        23_809_523_809_523_808
    );
    assert_eq!(
        curve.state.shares().total_supply(),
        2_000 * E18 + minted + 47_619_047_619_047_618 + 23_809_523_809_523_808
    );
}

#[test]
fn deposit_below_the_minimum_is_refused() {
    let mut curve = funded(30);
    assert_eq!(
        curve.add_liquidity(
            &id("alice"),
            &vec![100 * E18, 0],
            99_838_126_897_289_852_110,
            &AdminFees::zero(),
            false
        ),
        Err(PoolError::SlippageExceeded)
    );
    assert_eq!(reserves(&curve), vec![1_000 * E18, 1_000 * E18]);
    assert_eq!(
        curve.add_liquidity(
            &id("alice"),
            &vec![100 * E18, 0],
            99_838_126_897_289_852_109,
            &AdminFees::zero(),
            true
        ),
        Ok(99_838_126_897_289_852_109)
    );
    assert_eq!(reserves(&curve), vec![1_000 * E18, 1_000 * E18]);
}

#[test]
fn deposit_of_nothing_is_refused() {
    let mut curve = funded(30);
    assert_eq!(
        curve.add_liquidity(&id("alice"), &vec![0, 0], 0, &AdminFees::zero(), false),
        Err(PoolError::InvalidAmounts)
    );
}

#[test]
fn stable_swap_near_parity_pays_almost_one_for_one() {
    let mut curve = funded(30);
    let out = curve
        .swap(&id("x"), 10 * E18, &id("y"), 0, &AdminFees::zero(), false)
        .unwrap();
    assert_eq!(out, 9_969_505_444_021_224_165);
    assert_eq!(
        reserves(&curve),
        vec![1_010 * E18, 1_000 * E18 - 9_969_505_444_021_224_165]
    );
}

#[test]
fn stable_swap_slippage_and_tokens() {
    let mut curve = funded(30);
    assert_eq!(
        curve.swap(
            &id("x"),
            10 * E18,
            &id("y"),
            9_969_505_444_021_224_166,
            &AdminFees::zero(),
            false
        ),
        Err(PoolError::SlippageExceeded)
    );
    assert_eq!(
        curve.swap(&id("x"), 10, &id("x"), 0, &AdminFees::zero(), false),
        Err(PoolError::InvalidToken)
    );
    assert_eq!(
        curve.swap(&id("q"), 10, &id("x"), 0, &AdminFees::zero(), false),
        Err(PoolError::InvalidToken)
    );
    assert_eq!(reserves(&curve), vec![1_000 * E18, 1_000 * E18]);
}

#[test]
fn stable_swap_on_an_empty_pool_is_refused() {
    let mut curve = StableCurve::new(vec![id("x"), id("y")], 100, 30, par(2)).unwrap();
    assert_eq!(
        curve.swap(&id("x"), 10, &id("y"), 0, &AdminFees::zero(), false),
        Err(PoolError::InvalidAmounts)
    );
}

#[test]
fn three_token_stable_swap() {
    let mut curve =
        StableCurve::new(vec![id("x"), id("y"), id("z")], 240, 20, par(3)).unwrap();
    curve.state.share_register(&id("alice")).unwrap();
    curve
        .add_liquidity(
            &id("alice"),
            &vec![1_000 * E18, 2_000 * E18, 1_500 * E18],
            0,
            &AdminFees::zero(),
            false,
        )
        .unwrap();
    assert_eq!(
        curve.state.shares().total_supply(),
        4_499_913_241_303_109_360_359
    );
    let out = curve
        .swap(&id("z"), 5 * E18, &id("x"), 0, &AdminFees::zero(), false)
        .unwrap();
    assert_eq!(out, 4_988_686_477_867_724_091);
    assert_eq!(reserves(&curve)[1], 2_000 * E18);
}

#[test]
fn withdrawal_by_tokens_burns_rounded_up() {
    let mut curve = funded(30);
    let burned = curve
        .remove_liquidity_by_tokens(
            &id("alice"),
            vec![100 * E18, 0],
            u128::MAX,
            &AdminFees::zero(),
            false,
        )
        .unwrap();
    assert_eq!(burned, 100_163_129_566_046_324_055);
    assert!(burned > 100 * E18);
    assert_eq!(reserves(&curve), vec![900 * E18, 1_000 * E18]);
    assert_eq!(curve.state.shares().total_supply(), 2_000 * E18 - burned);
}

#[test]
fn withdrawal_by_tokens_refusals_change_nothing() {
    let mut curve = funded(30);
    let none = AdminFees::zero();
    assert_eq!(
        curve.remove_liquidity_by_tokens(
            &id("alice"),
            vec![100 * E18, 0],
            100_163_129_566_046_324_054,
            &none,
            false
        ),
        Err(PoolError::SlippageExceeded)
    );
    assert_eq!(
        curve.remove_liquidity_by_tokens(&id("alice"), vec![1_001 * E18, 0], u128::MAX, &none, false),
        Err(PoolError::InvalidAmounts)
    );
    assert_eq!(
        curve.remove_liquidity_by_tokens(&id("alice"), vec![1_000 * E18, 0], u128::MAX, &none, false),
        Err(PoolError::InvalidAmounts)
    );
    assert_eq!(
        curve.remove_liquidity_by_tokens(&id("alice"), vec![0, 0], u128::MAX, &none, false),
        Err(PoolError::InvalidAmounts)
    );
    assert_eq!(
        curve.remove_liquidity_by_tokens(&id("alice"), vec![1], u128::MAX, &none, false),
        Err(PoolError::InvalidAmounts)
    );
    curve.state.share_register(&id("bob")).unwrap();
    assert_eq!(
        curve.remove_liquidity_by_tokens(&id("bob"), vec![100 * E18, 0], u128::MAX, &none, false),
        Err(PoolError::InsufficientShares)
    );
    assert_eq!(reserves(&curve), vec![1_000 * E18, 1_000 * E18]);
    assert_eq!(curve.state.shares().total_supply(), 2_000 * E18);
}

#[test]
fn withdrawal_by_shares_is_proportional() {
    let mut curve = funded(30);
    let paid = curve
        .remove_liquidity_by_shares(&id("alice"), 500 * E18, vec![0, 0], false)
        .unwrap();
    assert_eq!(paid, vec![250 * E18, 250 * E18]);
    assert_eq!(reserves(&curve), vec![750 * E18, 750 * E18]);
    assert_eq!(curve.state.shares().total_supply(), 1_500 * E18);
}

#[test]
fn share_price_of_a_fresh_pool_is_one() {
    let curve = funded(30);
    assert_eq!(curve.get_share_price(), Ok(SHARE_PRICE_SCALE));
    assert_eq!(SHARE_PRICE_SCALE, 100_000_000);
}

#[test]
fn share_price_rises_with_fees() {
    let mut curve = funded(30);
    curve
        .swap(&id("x"), 100 * E18, &id("y"), 0, &AdminFees::zero(), false)
        .unwrap();
    let price = curve.get_share_price().unwrap();
    assert!(price > SHARE_PRICE_SCALE);
}

#[test]
fn share_price_needs_shares() {
    let curve = StableCurve::new(vec![id("x"), id("y")], 100, 30, par(2)).unwrap();
    assert_eq!(curve.get_share_price(), Err(PoolError::InvalidAmounts));
}

#[test]
fn rates_change_what_a_swap_pays() {
    let rates = vec![PRECISION, 12 * PRECISION / 10];
    let mut curve = StableCurve::new(vec![id("x"), id("y")], 100, 30, rates).unwrap();
    curve.state.share_register(&id("alice")).unwrap();
    curve
        .add_liquidity(
            &id("alice"),
            &vec![1_000 * E18, 1_000 * E18],
            0,
            &AdminFees::zero(),
            false,
        )
        .unwrap();
    assert_eq!(curve.get_tvl(), Ok(2_200 * E18));
    assert_eq!(
        curve.state.shares().total_supply(),
        2_199_954_397_522_062_696_802
    );
    assert_eq!(
        curve.get_return(&id("x"), 10 * E18, &id("y"), &None, &AdminFees::zero()),
        Ok(8_315_584_260_983_412_815)
    );
    // quoted at par instead
    assert_eq!(
        curve.get_return(&id("x"), 10 * E18, &id("y"), &Some(par(2)), &AdminFees::zero()),
        Ok(9_969_505_444_021_224_165)
    );
    // the quote changed nothing, and the swap pays what was quoted
    assert_eq!(
        curve.swap(&id("x"), 10 * E18, &id("y"), 0, &AdminFees::zero(), false),
        Ok(8_315_584_260_983_412_815)
    );
}

#[test]
fn given_rates_must_be_one_positive_rate_per_token() {
    let curve = funded(30);
    let none = AdminFees::zero();
    assert_eq!(
        curve.get_return(&id("x"), 10, &id("y"), &Some(par(3)), &none),
        Err(PoolError::InvalidAmounts)
    );
    assert_eq!(
        curve.get_return(&id("x"), 10, &id("y"), &Some(vec![PRECISION, 0]), &none),
        Err(PoolError::InvalidAmounts)
    );
    assert_eq!(
        curve.predict_add_liquidity(&vec![1, 1], &Some(vec![]), &none),
        Err(PoolError::InvalidAmounts)
    );
}

#[test]
fn predictions_match_the_operations() {
    let mut curve = funded(30);
    let none = AdminFees::zero();
    assert_eq!(
        curve.predict_add_liquidity(&vec![100 * E18, 0], &None, &none),
        Ok(99_838_126_897_289_852_109)
    );
    assert_eq!(
        curve.predict_remove_liquidity_by_tokens(&vec![100 * E18, 0], &None, &none),
        Ok(100_163_129_566_046_324_055)
    );
    assert_eq!(reserves(&curve), vec![1_000 * E18, 1_000 * E18]);
    assert_eq!(
        curve.add_liquidity(&id("alice"), &vec![100 * E18, 0], 0, &none, false),
        Ok(99_838_126_897_289_852_109)
    );
}

#[test]
fn predictions_refuse_admin_fees_above_the_total_fee() {
    let curve = funded(30);
    let fees = AdminFees::new(25, id("exchange"), 6, Some(id("referrer")));
    assert_eq!(
        curve.get_return(&id("x"), 10 * E18, &id("y"), &None, &fees),
        Err(PoolError::FeeTooHigh)
    );
    assert_eq!(
        curve.predict_add_liquidity(&vec![100 * E18, 0], &None, &fees),
        Err(PoolError::FeeTooHigh)
    );
}

#[test]
fn set_rates_replaces_or_refuses() {
    let mut curve = funded(30);
    assert_eq!(curve.set_rates(vec![PRECISION]), Err(PoolError::InvalidAmounts));
    assert_eq!(curve.set_rates(vec![0, PRECISION]), Err(PoolError::InvalidAmounts));
    assert_eq!(curve.rates, par(2));
    assert_eq!(curve.set_rates(vec![2 * PRECISION, PRECISION]), Ok(()));
    assert_eq!(curve.get_tvl(), Ok(3_000 * E18));
}
