//! The rate-adjusted stable pool: tokens whose worth against the peg
//! drifts, each counted at an exchange rate supplied from outside. Until a
//! fresher rate is supplied the pool computes with the last one.

use crate::errors::PoolError;
use crate::stable::{StableCurve, StableView};
use crate::state::{ids, to_nats};
use near_sdk::{AccountId, Balance};
use vstd::prelude::*;

verus! {

/// A pool on the stable curve with one exchange rate per token.
pub struct RatedSwapPool {
    pub curve: StableCurve,
}

impl RatedSwapPool {
    pub open spec fn wf(&self) -> bool {
        self.curve.wf()
    }

    /// An empty pool over the given tokens: see [`StableView::create`].
    pub fn new(tokens: Vec<AccountId>, amp: u128, total_fee: u32, rates: Vec<Balance>) -> (res:
        Result<RatedSwapPool, PoolError>)
        ensures
            match StableView::create(
                ids(tokens@),
                amp as nat,
                total_fee as nat,
                to_nats(rates@),
            ) {
                Ok(v) => res matches Ok(pool) && pool.curve@ == v && pool.wf(),
                Err(e) => res matches Err(x) && x == e,
            },
    {
        match StableCurve::new(tokens, amp, total_fee, rates) {
            Ok(curve) => Ok(RatedSwapPool { curve }),
            Err(e) => Err(e),
        }
    }

    /// Replaces the exchange rates with fresher ones. Refused with
    /// `InvalidAmounts`, and nothing changed, unless there is one positive
    /// rate per token.
    pub fn update_rates(&mut self, rates: Vec<Balance>) -> (res: Result<(), PoolError>)
        requires
            old(self).wf(),
        ensures
            final(self).wf(),
            match old(self).curve@.chosen_rates(Some(to_nats(rates@))) {
                Ok(chosen) => res is Ok && final(self).curve@ == (StableView {
                    rates: chosen,
                    ..old(self).curve@
                }),
                Err(e) => res == Err::<(), PoolError>(e) && final(self).curve@ == old(
                    self,
                ).curve@,
            },
    {
        self.curve.set_rates(rates)
    }
}

} // verus!
