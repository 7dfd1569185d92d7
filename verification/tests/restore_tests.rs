use ref_exchange::errors::PoolError;
use ref_exchange::ledger::ShareLedger;
use ref_exchange::stable::{StableCurve, PRECISION};
use ref_exchange::stable_swap::StableSwapPool;
use ref_exchange::state::PoolState;
use ref_exchange::volume::SwapVolume;

fn id(name: &str) -> String {
    name.to_string()
}

fn ledger() -> ShareLedger {
    ShareLedger::restore(vec![id("a"), id("b")], vec![3, 4], 7).unwrap()
}

fn volumes(count: usize) -> Vec<SwapVolume> {
    vec![SwapVolume { input: 1, output: 2 }; count]
}

#[test]
fn ledger_is_restored_from_well_formed_parts() {
    let ledger = ledger();
    assert_eq!(ledger.total_supply(), 7);
    assert_eq!(ledger.balance_of(&id("a")), 3);
    assert_eq!(ledger.balance_of(&id("b")), 4);
    assert_eq!(ledger.accounts(), &vec![id("a"), id("b")]);
    assert_eq!(ledger.balances(), &vec![3, 4]);
    let empty = ShareLedger::restore(vec![], vec![], 0).unwrap();
    assert_eq!(empty.total_supply(), 0);
}

#[test]
fn ledger_restore_refuses_ill_formed_parts() {
    let refused = |accounts: Vec<String>, balances: Vec<u128>, total: u128| {
        matches!(
            ShareLedger::restore(accounts, balances, total),
            Err(PoolError::InvalidState)
        )
    };
    assert!(refused(vec![id("a"), id("b")], vec![3, 4], 8));
    assert!(refused(vec![id("a"), id("b")], vec![3], 3));
    assert!(refused(vec![id("a"), id("a")], vec![3, 4], 7));
    assert!(refused(vec![id("a"), id("b")], vec![u128::MAX, 1], 0));
    assert!(refused(vec![], vec![], 1));
}

#[test]
fn state_is_restored_from_well_formed_parts() {
    let state =
        PoolState::restore(vec![id("x"), id("y")], vec![10, 20], volumes(2), 30, ledger()).unwrap();
    assert_eq!(state.tokens(), &vec![id("x"), id("y")]);
    assert_eq!(state.reserves(), &vec![10, 20]);
    assert_eq!(state.volumes(), volumes(2));
    assert_eq!(state.total_fee(), 30);
    assert_eq!(state.shares().total_supply(), 7);
    assert_eq!(state.token_index(&id("y")), Some(1));
    assert_eq!(state.token_index(&id("z")), None);
}

#[test]
fn state_restore_refuses_ill_formed_parts() {
    let refused = |tokens: Vec<String>, amounts: Vec<u128>, count: usize, fee: u32| {
        matches!(
            PoolState::restore(tokens, amounts, volumes(count), fee, ledger()),
            Err(PoolError::InvalidState)
        )
    };
    assert!(refused(vec![id("x")], vec![10], 1, 30));
    assert!(refused(vec![id("x"), id("x")], vec![10, 20], 2, 30));
    assert!(refused(vec![id("x"), id("y")], vec![10], 2, 30));
    assert!(refused(vec![id("x"), id("y")], vec![10, 20], 3, 30));
    assert!(refused(vec![id("x"), id("y")], vec![10, 20], 2, 10_000));
}

#[test]
fn curve_is_restored_or_refused() {
    let state = || {
        PoolState::restore(vec![id("x"), id("y")], vec![10, 20], volumes(2), 30, ledger()).unwrap()
    };
    let curve = StableCurve::restore(state(), 100, vec![PRECISION, 2 * PRECISION]).unwrap();
    assert_eq!(curve.amp, 100);
    assert_eq!(curve.get_tvl(), Ok(50));
    assert!(matches!(
        StableCurve::restore(state(), 0, vec![PRECISION, PRECISION]),
        Err(PoolError::InvalidState)
    ));
    assert!(matches!(
        StableCurve::restore(state(), 100, vec![PRECISION]),
        Err(PoolError::InvalidState)
    ));
    assert!(matches!(
        StableCurve::restore(state(), 100, vec![PRECISION, 0]),
        Err(PoolError::InvalidState)
    ));
    let pool = StableSwapPool::restore(state(), 100).unwrap();
    assert_eq!(pool.curve.rates, vec![PRECISION, PRECISION]);
    assert!(matches!(
        StableSwapPool::restore(state(), 1_000_001),
        Err(PoolError::InvalidState)
    ));
}
