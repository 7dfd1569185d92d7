//! The plain stable pool: tokens that trade at par.

use crate::errors::PoolError;
use crate::stable::{par_rates, StableCurve, StableView, PRECISION};
use crate::state::{ids, PoolState};
use near_sdk::AccountId;
use vstd::prelude::*;

verus! {

/// The rates of a pool whose tokens all count at par.
pub open spec fn at_par(count: nat) -> Seq<nat> {
    Seq::new(count, |i: int| PRECISION as nat)
}

/// A pool on the stable curve with every rate at par.
pub struct StableSwapPool {
    pub curve: StableCurve,
}

impl StableSwapPool {
    pub open spec fn wf(&self) -> bool {
        self.curve.wf() && self.curve@.rates == at_par(self.curve@.rates.len())
    }

    /// A pool put together from stored parts. Refused with `InvalidState`
    /// unless the parts make up a well-formed pool.
    pub fn restore(state: PoolState, amp: u128) -> (res: Result<StableSwapPool, PoolError>)
        requires
            state.wf(),
        ensures
            res is Ok <==> (StableView {
                pool: state@,
                amp: amp as nat,
                rates: at_par(state@.tokens.len()),
            }).wf(),
            res matches Ok(pool) ==> pool.wf() && pool.curve@ == (StableView {
                pool: state@,
                amp: amp as nat,
                rates: at_par(state@.tokens.len()),
            }),
            res matches Err(e) ==> e == PoolError::InvalidState,
    {
        let rates = par_rates(state.reserves().len());
        proof {
            assert(crate::state::to_nats(rates@) =~= at_par(state@.tokens.len()));
        }
        match StableCurve::restore(state, amp, rates) {
            Ok(curve) => Ok(StableSwapPool { curve }),
            Err(e) => Err(e),
        }
    }

    /// An empty pool over the given tokens: see [`StableView::create`].
    pub fn new(tokens: Vec<AccountId>, amp: u128, total_fee: u32) -> (res: Result<
        StableSwapPool,
        PoolError,
    >)
        ensures
            match StableView::create(
                ids(tokens@),
                amp as nat,
                total_fee as nat,
                at_par(tokens@.len()),
            ) {
                Ok(v) => res matches Ok(pool) && pool.curve@ == v && pool.wf(),
                Err(e) => res matches Err(x) && x == e,
            },
    {
        let rates = par_rates(tokens.len());
        proof {
            assert(crate::state::to_nats(rates@) =~= at_par(tokens@.len()));
        }
        match StableCurve::new(tokens, amp, total_fee, rates) {
            Ok(curve) => Ok(StableSwapPool { curve }),
            Err(e) => Err(e),
        }
    }
}

} // verus!
