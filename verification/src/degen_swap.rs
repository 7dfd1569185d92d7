//! The risk-capped stable pool: each token is counted at a risk factor
//! supplied from outside, and the value the pool may hold is capped.

use crate::errors::PoolError;
use crate::fees::AdminFees;
use crate::stable::{
    deposit_grows_reserves, grown, swap_conserves, tvl_at, tvl_of, StableCurve, StableView,
};
use crate::state::{amount_outcome, ids, to_nats, PoolView};
use near_sdk::{AccountId, Balance};
use vstd::prelude::*;

verus! {

/// The cap configured for one risk-capped pool.
#[derive(Clone, Copy, Debug, PartialEq, Eq, Structural)]
pub struct DegenPoolLimit {
    /// The most the pool may be worth, in its valuation unit.
    pub tvl_limit: u128,
}

/// The cap check on a value: passes where no cap is configured, or the
/// value is computable and within the cap.
pub open spec fn within_limit(value: Result<nat, PoolError>, limit: Option<DegenPoolLimit>)
    -> Result<(), PoolError> {
    match limit {
        None => Ok(()),
        Some(configured) => match value {
            Err(e) => Err(e),
            Ok(v) => if v <= configured.tvl_limit {
                Ok(())
            } else {
                Err(PoolError::TvlLimitExceeded)
            },
        },
    }
}

/// An operation followed by the cap check on the pool it leaves: the
/// operation's outcome where the check passes, else the check's refusal.
pub open spec fn capped(
    outcome: Result<(nat, PoolView), PoolError>,
    rates: Seq<nat>,
    limit: Option<DegenPoolLimit>,
) -> Result<(nat, PoolView), PoolError> {
    match outcome {
        Err(e) => Err(e),
        Ok((amount, next)) => match within_limit(tvl_at(next.reserves, rates), limit) {
            Err(e) => Err(e),
            Ok(()) => outcome,
        },
    }
}

/// The cap holds after every capped operation that is accepted: where a
/// cap is configured, the pool that the operation leaves is worth no more
/// than the cap.
pub proof fn capped_is_within_limit(
    outcome: Result<(nat, PoolView), PoolError>,
    rates: Seq<nat>,
    configured: DegenPoolLimit,
)
    requires
        capped(outcome, rates, Some(configured)) is Ok,
    ensures
        capped(outcome, rates, Some(configured)) == outcome,
        tvl_at(outcome->Ok_0.1.reserves, rates) matches Ok(value) && value
            <= configured.tvl_limit,
{
}

/// A pool on the stable curve with one risk factor per token.
pub struct DegenSwapPool {
    pub curve: StableCurve,
}

impl DegenSwapPool {
    pub open spec fn wf(&self) -> bool {
        self.curve.wf()
    }

    /// An empty pool over the given tokens: see [`StableView::create`].
    pub fn new(tokens: Vec<AccountId>, amp: u128, total_fee: u32, degens: Vec<Balance>) -> (res:
        Result<DegenSwapPool, PoolError>)
        ensures
            match StableView::create(
                ids(tokens@),
                amp as nat,
                total_fee as nat,
                to_nats(degens@),
            ) {
                Ok(v) => res matches Ok(pool) && pool.curve@ == v && pool.wf(),
                Err(e) => res matches Err(x) && x == e,
            },
    {
        match StableCurve::new(tokens, amp, total_fee, degens) {
            Ok(curve) => Ok(DegenSwapPool { curve }),
            Err(e) => Err(e),
        }
    }

    /// Replaces the risk factors with fresher ones. Refused with
    /// `InvalidAmounts`, and nothing changed, unless there is one positive
    /// factor per token.
    pub fn update_degens(&mut self, degens: Vec<Balance>) -> (res: Result<(), PoolError>)
        requires
            old(self).wf(),
        ensures
            final(self).wf(),
            match old(self).curve@.chosen_rates(Some(to_nats(degens@))) {
                Ok(chosen) => res is Ok && final(self).curve@ == (StableView {
                    rates: chosen,
                    ..old(self).curve@
                }),
                Err(e) => res == Err::<(), PoolError>(e) && final(self).curve@ == old(
                    self,
                ).curve@,
            },
    {
        self.curve.set_rates(degens)
    }

    /// Checks the pool's value against a cap: see [`within_limit`].
    pub fn check_limit(&self, limit: Option<DegenPoolLimit>) -> (res: Result<(), PoolError>)
        requires
            self.wf(),
        ensures
            res == within_limit(self.curve@.tvl(), limit),
    {
        match limit {
            None => Ok(()),
            Some(configured) => match self.curve.get_tvl() {
                Err(e) => Err(e),
                Ok(value) => {
                    if value <= configured.tvl_limit {
                        Ok(())
                    } else {
                        Err(PoolError::TvlLimitExceeded)
                    }
                },
            },
        }
    }

    /// Deposits `amounts` unless the pool would then be worth more than the
    /// cap: the deposit and the cap check together, all or nothing.
    #[verifier::loop_isolation(false)]
    pub fn add_liquidity_within_limit(
        &mut self,
        sender_id: &AccountId,
        amounts: &Vec<Balance>,
        min_shares: Balance,
        admin_fee: &AdminFees,
        limit: Option<DegenPoolLimit>,
        is_view: bool,
    ) -> (res: Result<Balance, PoolError>)
        requires
            old(self).wf(),
        ensures
            final(self).wf(),
            final(self).curve@.amp == old(self).curve@.amp,
            final(self).curve@.rates == old(self).curve@.rates,
            amount_outcome(
                capped(
                    old(self).curve@.add_liquidity(
                        sender_id@,
                        to_nats(amounts@),
                        min_shares as nat,
                        admin_fee@,
                    ),
                    old(self).curve@.rates,
                    limit,
                ),
                is_view,
                old(self).curve@.pool,
                final(self).curve@.pool,
                res,
            ),
    {
        let minted: Balance = match self.curve.add_liquidity(
            sender_id,
            amounts,
            min_shares,
            admin_fee,
            true,
        ) {
            Ok(v) => v,
            Err(e) => {
                return Err(e);
            },
        };
        proof {
            deposit_grows_reserves(
                self.curve@,
                sender_id@,
                to_nats(amounts@),
                min_shares as nat,
                admin_fee@,
            );
        }
        if limit.is_some() {
            let held = self.curve.state.reserves();
            let ghost goal = grown(self.curve@.pool.reserves, to_nats(amounts@));
            let mut after: Vec<Balance> = Vec::new();
            let mut i: usize = 0;
            while i < held.len()
                invariant
                    i <= held@.len(),
                    after@.len() == i,
                    forall|j: int| 0 <= j < i ==> after@[j] == goal[j],
                decreases held@.len() - i,
            {
                assert(self.curve@.pool.reserves[i as int] == held@[i as int]);
                assert(to_nats(amounts@)[i as int] == amounts@[i as int]);
                assert(goal[i as int] <= u128::MAX);
                match held[i].checked_add(amounts[i]) {
                    Some(v) => {
                        after.push(v);
                    },
                    None => {
                        return Err(PoolError::ArithmeticOverflow);
                    },
                }
                i = i + 1;
            }
            proof {
                assert(to_nats(after@) =~= goal);
            }
            let value = tvl_of(&after, &self.curve.rates);
            match value {
                Err(e) => {
                    return Err(e);
                },
                Ok(v) => {
                    if v > limit.unwrap().tvl_limit {
                        return Err(PoolError::TvlLimitExceeded);
                    }
                },
            }
        }
        if is_view {
            return Ok(minted);
        }
        self.curve.add_liquidity(sender_id, amounts, min_shares, admin_fee, false)
    }

    /// Swaps unless the pool would then be worth more than the cap: the
    /// swap and the cap check together, all or nothing.
    #[verifier::loop_isolation(false)]
    pub fn swap_within_limit(
        &mut self,
        token_in: &AccountId,
        amount_in: Balance,
        token_out: &AccountId,
        min_amount_out: Balance,
        admin_fee: &AdminFees,
        limit: Option<DegenPoolLimit>,
        is_view: bool,
    ) -> (res: Result<Balance, PoolError>)
        requires
            old(self).wf(),
        ensures
            final(self).wf(),
            final(self).curve@.amp == old(self).curve@.amp,
            final(self).curve@.rates == old(self).curve@.rates,
            amount_outcome(
                capped(
                    old(self).curve@.swap(
                        token_in@,
                        amount_in as nat,
                        token_out@,
                        min_amount_out as nat,
                        admin_fee@,
                    ),
                    old(self).curve@.rates,
                    limit,
                ),
                is_view,
                old(self).curve@.pool,
                final(self).curve@.pool,
                res,
            ),
    {
        let paid: Balance = match self.curve.swap(
            token_in,
            amount_in,
            token_out,
            min_amount_out,
            admin_fee,
            true,
        ) {
            Ok(v) => v,
            Err(e) => {
                return Err(e);
            },
        };
        proof {
            swap_conserves(
                self.curve@,
                token_in@,
                amount_in as nat,
                token_out@,
                min_amount_out as nat,
                admin_fee@,
            );
        }
        if limit.is_some() {
            let ghost next = self.curve@.swap(
                token_in@,
                amount_in as nat,
                token_out@,
                min_amount_out as nat,
                admin_fee@,
            )->Ok_0.1;
            let index_in: usize = self.curve.state.token_index(token_in).unwrap();
            let index_out: usize = self.curve.state.token_index(token_out).unwrap();
            let held = self.curve.state.reserves();
            let mut after: Vec<Balance> = Vec::new();
            let mut i: usize = 0;
            while i < held.len()
                invariant
                    i <= held@.len(),
                    after@.len() == i,
                    forall|j: int| 0 <= j < i ==> after@[j] == next.reserves[j],
                decreases held@.len() - i,
            {
                assert(self.curve@.pool.reserves[i as int] == held@[i as int]);
                assert(next.reserves[i as int] <= u128::MAX);
                let v: Balance = if i == index_in {
                    held[i] + amount_in
                } else if i == index_out {
                    held[i] - paid
                } else {
                    held[i]
                };
                after.push(v);
                i = i + 1;
            }
            proof {
                assert(to_nats(after@) =~= next.reserves);
            }
            let value = tvl_of(&after, &self.curve.rates);
            match value {
                Err(e) => {
                    return Err(e);
                },
                Ok(v) => {
                    if v > limit.unwrap().tvl_limit {
                        return Err(PoolError::TvlLimitExceeded);
                    }
                },
            }
        }
        if is_view {
            return Ok(paid);
        }
        self.curve.swap(token_in, amount_in, token_out, min_amount_out, admin_fee, false)
    }

    /// The value of the reserves at the pool's risk factors.
    pub fn get_tvl(&self) -> (res: Result<u128, PoolError>)
        requires
            self.wf(),
        ensures
            match self.curve@.tvl() {
                Ok(value) => res matches Ok(v) && v == value,
                Err(e) => res matches Err(x) && x == e,
            },
    {
        self.curve.get_tvl()
    }
}

} // verus!
