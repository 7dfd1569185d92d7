//! The pool: one call surface over four curves.
//!
//! A pool is of one kind from its creation on. Every operation is offered
//! on every kind; one that a kind does not support is refused with
//! `UnsupportedOperation`. A refused operation, and one that was only
//! simulated, leaves the pool as it was.

use crate::degen_swap::{capped, within_limit, DegenPoolLimit, DegenSwapPool};
use crate::errors::PoolError;
use crate::fees::{AdminFees, AdminFeesView};
use crate::rated_swap::RatedSwapPool;
use crate::simple_pool::SimplePool;
use crate::stable::StableView;
use crate::stable_swap::StableSwapPool;
use crate::ledger::sum;
use crate::state::{
    amount_outcome, amounts_outcome, ids, swap_applied, to_nats, unit_outcome, PoolView,
};
use crate::volume::SwapVolume;
use near_sdk::{AccountId, Balance};
use std::collections::HashMap;
use vstd::prelude::*;

verus! {

broadcast use vstd::std_specs::hash::group_hash_axioms;

/// The four kinds of pool.
#[derive(Clone, Copy, Debug, PartialEq, Eq, Structural)]
pub enum PoolKind {
    Simple,
    Stable,
    Rated,
    Degen,
}

/// A pool of one of the four kinds.
pub enum Pool {
    SimplePool(SimplePool),
    StableSwapPool(StableSwapPool),
    RatedSwapPool(RatedSwapPool),
    DegenSwapPool(DegenSwapPool),
}

impl View for Pool {
    type V = PoolView;

    /// What every pool holds, whatever its kind.
    open spec fn view(&self) -> PoolView {
        match self {
            Pool::SimplePool(pool) => pool@,
            Pool::StableSwapPool(pool) => pool.curve@.pool,
            Pool::RatedSwapPool(pool) => pool.curve@.pool,
            Pool::DegenSwapPool(pool) => pool.curve@.pool,
        }
    }
}

impl Pool {
    pub open spec fn wf(&self) -> bool {
        match self {
            Pool::SimplePool(pool) => pool.wf(),
            Pool::StableSwapPool(pool) => pool.wf(),
            Pool::RatedSwapPool(pool) => pool.wf(),
            Pool::DegenSwapPool(pool) => pool.wf(),
        }
    }

    pub open spec fn kind_of(&self) -> PoolKind {
        match self {
            Pool::SimplePool(_) => PoolKind::Simple,
            Pool::StableSwapPool(_) => PoolKind::Stable,
            Pool::RatedSwapPool(_) => PoolKind::Rated,
            Pool::DegenSwapPool(_) => PoolKind::Degen,
        }
    }

    /// The pool as a stable curve, for the three kinds that are one.
    pub open spec fn curve(&self) -> Option<StableView> {
        match self {
            Pool::SimplePool(_) => None,
            Pool::StableSwapPool(pool) => Some(pool.curve@),
            Pool::RatedSwapPool(pool) => Some(pool.curve@),
            Pool::DegenSwapPool(pool) => Some(pool.curve@),
        }
    }

    /// Whether two pools are of one kind, with the same amplification
    /// coefficient and the same rates.
    pub open spec fn same_curve(&self, other: &Pool) -> bool {
        &&& self.kind_of() == other.kind_of()
        &&& self.curve() is Some ==> self.curve()->Some_0.amp == other.curve()->Some_0.amp
            && self.curve()->Some_0.rates == other.curve()->Some_0.rates
    }

    pub open spec fn kind_name(&self) -> Seq<char> {
        match self {
            Pool::SimplePool(_) => "SIMPLE_POOL"@,
            Pool::StableSwapPool(_) => "STABLE_SWAP"@,
            Pool::RatedSwapPool(_) => "RATED_SWAP"@,
            Pool::DegenSwapPool(_) => "DEGEN_SWAP"@,
        }
    }

    /// Decimals of the share unit: 18 for the plain stable pool, else 24.
    pub open spec fn share_decimal(&self) -> nat {
        match self {
            Pool::StableSwapPool(_) => 18,
            _ => 24,
        }
    }

    /// Returns pool kind.
    pub fn kind(&self) -> (res: String)
        ensures
            res@ == self.kind_name(),
    {
        match self {
            Pool::SimplePool(_) => "SIMPLE_POOL".to_owned(),
            Pool::StableSwapPool(_) => "STABLE_SWAP".to_owned(),
            Pool::RatedSwapPool(_) => "RATED_SWAP".to_owned(),
            Pool::DegenSwapPool(_) => "DEGEN_SWAP".to_owned(),
        }
    }

    /// Returns which tokens are in the underlying pool.
    pub fn tokens(&self) -> (res: &[AccountId])
        ensures
            ids(res@) == self@.tokens,
    {
        match self {
            Pool::SimplePool(pool) => pool.state.tokens().as_slice(),
            Pool::StableSwapPool(pool) => pool.curve.state.tokens().as_slice(),
            Pool::RatedSwapPool(pool) => pool.curve.state.tokens().as_slice(),
            Pool::DegenSwapPool(pool) => pool.curve.state.tokens().as_slice(),
        }
    }

    /// Return share decimal.
    pub fn get_share_decimal(&self) -> (res: u8)
        ensures
            res == self.share_decimal(),
    {
        match self {
            Pool::SimplePool(_) => 24,
            Pool::StableSwapPool(_) => 18,
            Pool::RatedSwapPool(_) => 24,
            Pool::DegenSwapPool(_) => 24,
        }
    }

    /// Returns given pool's total fee.
    pub fn get_fee(&self) -> (res: u32)
        ensures
            res == self@.total_fee,
    {
        match self {
            Pool::SimplePool(pool) => pool.state.total_fee(),
            Pool::StableSwapPool(pool) => pool.curve.state.total_fee(),
            Pool::RatedSwapPool(pool) => pool.curve.state.total_fee(),
            Pool::DegenSwapPool(pool) => pool.curve.state.total_fee(),
        }
    }

    /// Returns volumes of the given pool.
    pub fn get_volumes(&self) -> (res: Vec<SwapVolume>)
        ensures
            res@ == self@.volumes,
    {
        match self {
            Pool::SimplePool(pool) => pool.state.volumes(),
            Pool::StableSwapPool(pool) => pool.curve.state.volumes(),
            Pool::RatedSwapPool(pool) => pool.curve.state.volumes(),
            Pool::DegenSwapPool(pool) => pool.curve.state.volumes(),
        }
    }

    /// Sets the fee rate. Refused with `FeeTooHigh`, and nothing changed,
    /// where the rate is above the largest the pool's kind admits.
    pub fn modify_total_fee(&mut self, total_fee: u32) -> (res: Result<(), PoolError>)
        requires
            old(self).wf(),
        ensures
            final(self).wf(),
            final(self).same_curve(old(self)),
            unit_outcome(
                old(self)@.modify_total_fee(total_fee as nat),
                false,
                old(self)@,
                final(self)@,
                res,
            ),
    {
        match self {
            Pool::SimplePool(pool) => pool.state.modify_total_fee(total_fee),
            Pool::StableSwapPool(pool) => pool.curve.state.modify_total_fee(total_fee),
            Pool::RatedSwapPool(pool) => pool.curve.state.modify_total_fee(total_fee),
            Pool::DegenSwapPool(pool) => pool.curve.state.modify_total_fee(total_fee),
        }
    }

    pub fn share_total_balance(&self) -> (res: Balance)
        ensures
            res == self@.ledger.total,
    {
        match self {
            Pool::SimplePool(pool) => pool.state.shares().total_supply(),
            Pool::StableSwapPool(pool) => pool.curve.state.shares().total_supply(),
            Pool::RatedSwapPool(pool) => pool.curve.state.shares().total_supply(),
            Pool::DegenSwapPool(pool) => pool.curve.state.shares().total_supply(),
        }
    }

    pub fn share_balances(&self, account_id: &AccountId) -> (res: Balance)
        requires
            self.wf(),
        ensures
            res == self@.ledger.balance_of(account_id@),
    {
        match self {
            Pool::SimplePool(pool) => pool.state.shares().balance_of(account_id),
            Pool::StableSwapPool(pool) => pool.curve.state.shares().balance_of(account_id),
            Pool::RatedSwapPool(pool) => pool.curve.state.shares().balance_of(account_id),
            Pool::DegenSwapPool(pool) => pool.curve.state.shares().balance_of(account_id),
        }
    }

    /// See if the given account has been registered as a LP
    pub fn share_has_registered(&self, account_id: &AccountId) -> (res: bool)
        requires
            self.wf(),
        ensures
            res == self@.ledger.registered(account_id@),
    {
        match self {
            Pool::SimplePool(pool) => pool.state.shares().is_registered(account_id),
            Pool::StableSwapPool(pool) => pool.curve.state.shares().is_registered(account_id),
            Pool::RatedSwapPool(pool) => pool.curve.state.shares().is_registered(account_id),
            Pool::DegenSwapPool(pool) => pool.curve.state.shares().is_registered(account_id),
        }
    }

    /// Moves shares between two accounts. Refused with `InsufficientShares`
    /// where the sender holds less than `amount`, and with `NotRegistered`
    /// where either account is not registered.
    pub fn share_transfer(&mut self, sender_id: &AccountId, receiver_id: &AccountId, amount: u128)
        -> (res: Result<(), PoolError>)
        requires
            old(self).wf(),
        ensures
            final(self).wf(),
            final(self).same_curve(old(self)),
            match old(self)@.ledger.transfer(sender_id@, receiver_id@, amount as nat) {
                Ok(ledger) => res is Ok && final(self)@ == (PoolView { ledger, ..old(self)@ }),
                Err(e) => res == Err::<(), PoolError>(e) && final(self)@ == old(self)@,
            },
    {
        match self {
            Pool::SimplePool(pool) => pool.state.share_transfer(sender_id, receiver_id, amount),
            Pool::StableSwapPool(pool) => {
                pool.curve.state.share_transfer(sender_id, receiver_id, amount)
            },
            Pool::RatedSwapPool(pool) => {
                pool.curve.state.share_transfer(sender_id, receiver_id, amount)
            },
            Pool::DegenSwapPool(pool) => {
                pool.curve.state.share_transfer(sender_id, receiver_id, amount)
            },
        }
    }

    /// Registers an account with a balance of zero. Refused with
    /// `AlreadyRegistered` where it is registered.
    pub fn share_register(&mut self, account_id: &AccountId) -> (res: Result<(), PoolError>)
        requires
            old(self).wf(),
        ensures
            final(self).wf(),
            final(self).same_curve(old(self)),
            match old(self)@.ledger.register(account_id@) {
                Ok(ledger) => res is Ok && final(self)@ == (PoolView { ledger, ..old(self)@ }),
                Err(e) => res == Err::<(), PoolError>(e) && final(self)@ == old(self)@,
            },
    {
        match self {
            Pool::SimplePool(pool) => pool.state.share_register(account_id),
            Pool::StableSwapPool(pool) => pool.curve.state.share_register(account_id),
            Pool::RatedSwapPool(pool) => pool.curve.state.share_register(account_id),
            Pool::DegenSwapPool(pool) => pool.curve.state.share_register(account_id),
        }
    }

    /// Removes an account. Refused with `NotRegistered` where it is not
    /// registered and with `NonZeroBalance` where it holds shares.
    pub fn share_unregister(&mut self, account_id: &AccountId) -> (res: Result<(), PoolError>)
        requires
            old(self).wf(),
        ensures
            final(self).wf(),
            final(self).same_curve(old(self)),
            match old(self)@.ledger.unregister(account_id@) {
                Ok(ledger) => res is Ok && final(self)@ == (PoolView { ledger, ..old(self)@ }),
                Err(e) => res == Err::<(), PoolError>(e) && final(self)@ == old(self)@,
            },
    {
        match self {
            Pool::SimplePool(pool) => pool.state.share_unregister(account_id),
            Pool::StableSwapPool(pool) => pool.curve.state.share_unregister(account_id),
            Pool::RatedSwapPool(pool) => pool.curve.state.share_unregister(account_id),
            Pool::DegenSwapPool(pool) => pool.curve.state.share_unregister(account_id),
        }
    }
}

impl Pool {
    /// A deposit at the pool's ratio: defined on the constant-product pool.
    pub open spec fn add_liquidity_result(&self, sender: Seq<char>, amounts: Seq<nat>) -> Result<
        (nat, Seq<nat>, PoolView),
        PoolError,
    > {
        match self {
            Pool::SimplePool(pool) => crate::simple_pool::add_liquidity(pool@, sender, amounts),
            _ => Err(PoolError::UnsupportedOperation),
        }
    }

    /// Adds liquidity into underlying pool.
    /// Updates amounts to amount kept in the pool.
    pub fn add_liquidity(
        &mut self,
        sender_id: &AccountId,
        amounts: &mut Vec<Balance>,
        is_view: bool,
    ) -> (res: Result<Balance, PoolError>)
        requires
            old(self).wf(),
        ensures
            final(self).wf(),
            final(self).same_curve(old(self)),
            match old(self).add_liquidity_result(sender_id@, to_nats(old(amounts)@)) {
                Ok((shares, used, next)) => res matches Ok(v) && v == shares && to_nats(
                    final(amounts)@,
                ) == used && final(self)@ == (if is_view {
                    old(self)@
                } else {
                    next
                }),
                Err(e) => res == Err::<Balance, PoolError>(e) && final(self)@ == old(self)@
                    && final(amounts)@ == old(amounts)@,
            },
    {
        match self {
            Pool::SimplePool(pool) => pool.add_liquidity(sender_id, amounts, is_view),
            Pool::StableSwapPool(_) => Err(PoolError::UnsupportedOperation),
            Pool::RatedSwapPool(_) => Err(PoolError::UnsupportedOperation),
            Pool::DegenSwapPool(_) => Err(PoolError::UnsupportedOperation),
        }
    }

    /// A deposit of any amounts: defined on the stable family.
    pub open spec fn add_stable_liquidity_result(
        &self,
        sender: Seq<char>,
        amounts: Seq<nat>,
        min_shares: nat,
        fees: AdminFeesView,
    ) -> Result<(nat, PoolView), PoolError> {
        match self.curve() {
            Some(curve) => curve.add_liquidity(sender, amounts, min_shares, fees),
            None => Err(PoolError::UnsupportedOperation),
        }
    }

    /// Deposits any amounts into a pool of the stable family and returns
    /// the shares minted.
    pub fn add_stable_liquidity(
        &mut self,
        sender_id: &AccountId,
        amounts: &Vec<Balance>,
        min_shares: Balance,
        admin_fee: AdminFees,
        is_view: bool,
    ) -> (res: Result<Balance, PoolError>)
        requires
            old(self).wf(),
        ensures
            final(self).wf(),
            final(self).same_curve(old(self)),
            amount_outcome(
                old(self).add_stable_liquidity_result(
                    sender_id@,
                    to_nats(amounts@),
                    min_shares as nat,
                    admin_fee@,
                ),
                is_view,
                old(self)@,
                final(self)@,
                res,
            ),
    {
        match self {
            Pool::SimplePool(_) => Err(PoolError::UnsupportedOperation),
            Pool::StableSwapPool(pool) => {
                pool.curve.add_liquidity(sender_id, amounts, min_shares, &admin_fee, is_view)
            },
            Pool::RatedSwapPool(pool) => {
                pool.curve.add_liquidity(sender_id, amounts, min_shares, &admin_fee, is_view)
            },
            Pool::DegenSwapPool(pool) => {
                pool.curve.add_liquidity(sender_id, amounts, min_shares, &admin_fee, is_view)
            },
        }
    }

    /// Removes liquidity from underlying pool.
    pub fn remove_liquidity(
        &mut self,
        sender_id: &AccountId,
        shares: Balance,
        min_amounts: Vec<Balance>,
        is_view: bool,
    ) -> (res: Result<Vec<Balance>, PoolError>)
        requires
            old(self).wf(),
        ensures
            final(self).wf(),
            final(self).same_curve(old(self)),
            amounts_outcome(
                old(self)@.remove_liquidity(sender_id@, shares as nat, to_nats(min_amounts@)),
                is_view,
                old(self)@,
                final(self)@,
                res,
            ),
    {
        match self {
            Pool::SimplePool(pool) => {
                pool.remove_liquidity(sender_id, shares, min_amounts, is_view)
            },
            Pool::StableSwapPool(pool) => {
                pool.curve.remove_liquidity_by_shares(sender_id, shares, min_amounts, is_view)
            },
            Pool::RatedSwapPool(pool) => {
                pool.curve.remove_liquidity_by_shares(sender_id, shares, min_amounts, is_view)
            },
            Pool::DegenSwapPool(pool) => {
                pool.curve.remove_liquidity_by_shares(sender_id, shares, min_amounts, is_view)
            },
        }
    }

    /// A withdrawal of exact amounts: defined on the stable family.
    pub open spec fn remove_liquidity_by_tokens_result(
        &self,
        sender: Seq<char>,
        amounts: Seq<nat>,
        max_burn_shares: nat,
        fees: AdminFeesView,
    ) -> Result<(nat, PoolView), PoolError> {
        match self.curve() {
            Some(curve) => curve.remove_liquidity_by_tokens(sender, amounts, max_burn_shares, fees),
            None => Err(PoolError::UnsupportedOperation),
        }
    }

    /// Removes liquidity from underlying pool.
    pub fn remove_liquidity_by_tokens(
        &mut self,
        sender_id: &AccountId,
        amounts: Vec<Balance>,
        max_burn_shares: Balance,
        admin_fee: AdminFees,
        is_view: bool,
    ) -> (res: Result<Balance, PoolError>)
        requires
            old(self).wf(),
        ensures
            final(self).wf(),
            final(self).same_curve(old(self)),
            amount_outcome(
                old(self).remove_liquidity_by_tokens_result(
                    sender_id@,
                    to_nats(amounts@),
                    max_burn_shares as nat,
                    admin_fee@,
                ),
                is_view,
                old(self)@,
                final(self)@,
                res,
            ),
    {
        match self {
            Pool::SimplePool(_) => Err(PoolError::UnsupportedOperation),
            Pool::StableSwapPool(pool) => {
                pool.curve.remove_liquidity_by_tokens(
                    sender_id,
                    amounts,
                    max_burn_shares,
                    &admin_fee,
                    is_view,
                )
            },
            Pool::RatedSwapPool(pool) => {
                pool.curve.remove_liquidity_by_tokens(
                    sender_id,
                    amounts,
                    max_burn_shares,
                    &admin_fee,
                    is_view,
                )
            },
            Pool::DegenSwapPool(pool) => {
                pool.curve.remove_liquidity_by_tokens(
                    sender_id,
                    amounts,
                    max_burn_shares,
                    &admin_fee,
                    is_view,
                )
            },
        }
    }

    /// The share price: defined on the stable family.
    pub open spec fn share_price_result(&self) -> Result<nat, PoolError> {
        match self.curve() {
            Some(curve) => curve.share_price(),
            None => Err(PoolError::UnsupportedOperation),
        }
    }

    /// Returns given pool's share price in precision 1e8.
    pub fn get_share_price(&self) -> (res: Result<u128, PoolError>)
        requires
            self.wf(),
        ensures
            match self.share_price_result() {
                Ok(price) => res matches Ok(p) && p == price,
                Err(e) => res matches Err(x) && x == e,
            },
    {
        match self {
            Pool::SimplePool(_) => Err(PoolError::UnsupportedOperation),
            Pool::StableSwapPool(pool) => pool.curve.get_share_price(),
            Pool::RatedSwapPool(pool) => pool.curve.get_share_price(),
            Pool::DegenSwapPool(pool) => pool.curve.get_share_price(),
        }
    }

    /// The value of the pool: defined on the risk-capped pool.
    pub open spec fn tvl_result(&self) -> Result<nat, PoolError> {
        match self {
            Pool::DegenSwapPool(pool) => pool.curve@.tvl(),
            _ => Err(PoolError::UnsupportedOperation),
        }
    }

    /// The value of the pool's reserves in its valuation unit.
    pub fn get_tvl(&self) -> (res: Result<u128, PoolError>)
        requires
            self.wf(),
        ensures
            match self.tvl_result() {
                Ok(value) => res matches Ok(v) && v == value,
                Err(e) => res matches Err(x) && x == e,
            },
    {
        match self {
            Pool::SimplePool(_) => Err(PoolError::UnsupportedOperation),
            Pool::StableSwapPool(_) => Err(PoolError::UnsupportedOperation),
            Pool::RatedSwapPool(_) => Err(PoolError::UnsupportedOperation),
            Pool::DegenSwapPool(pool) => pool.get_tvl(),
        }
    }

    /// A swap of an exact amount paid in: defined on every kind.
    pub open spec fn swap_result(
        &self,
        token_in: Seq<char>,
        amount_in: nat,
        token_out: Seq<char>,
        min_amount_out: nat,
        fees: AdminFeesView,
    ) -> Result<(nat, PoolView), PoolError> {
        match self.curve() {
            Some(curve) => curve.swap(token_in, amount_in, token_out, min_amount_out, fees),
            None => crate::simple_pool::swap(
                self@,
                token_in,
                amount_in,
                token_out,
                min_amount_out,
                fees,
            ),
        }
    }

    /// Swaps given number of token_in for token_out and returns received
    /// amount.
    pub fn swap(
        &mut self,
        token_in: &AccountId,
        amount_in: Balance,
        token_out: &AccountId,
        min_amount_out: Balance,
        admin_fee: AdminFees,
        is_view: bool,
    ) -> (res: Result<Balance, PoolError>)
        requires
            old(self).wf(),
        ensures
            final(self).wf(),
            final(self).same_curve(old(self)),
            amount_outcome(
                old(self).swap_result(
                    token_in@,
                    amount_in as nat,
                    token_out@,
                    min_amount_out as nat,
                    admin_fee@,
                ),
                is_view,
                old(self)@,
                final(self)@,
                res,
            ),
    {
        match self {
            Pool::SimplePool(pool) => {
                pool.swap(token_in, amount_in, token_out, min_amount_out, &admin_fee, is_view)
            },
            Pool::StableSwapPool(pool) => {
                pool.curve.swap(token_in, amount_in, token_out, min_amount_out, &admin_fee, is_view)
            },
            Pool::RatedSwapPool(pool) => {
                pool.curve.swap(token_in, amount_in, token_out, min_amount_out, &admin_fee, is_view)
            },
            Pool::DegenSwapPool(pool) => {
                pool.curve.swap(token_in, amount_in, token_out, min_amount_out, &admin_fee, is_view)
            },
        }
    }

    /// A swap of an exact amount paid out: defined on the constant-product
    /// pool.
    pub open spec fn swap_by_output_result(
        &self,
        token_in: Seq<char>,
        amount_out: nat,
        token_out: Seq<char>,
        max_amount_in: Option<nat>,
        fees: AdminFeesView,
    ) -> Result<(nat, PoolView), PoolError> {
        match self {
            Pool::SimplePool(pool) => crate::simple_pool::swap_by_output(
                pool@,
                token_in,
                amount_out,
                token_out,
                max_amount_in,
                fees,
            ),
            _ => Err(PoolError::UnsupportedOperation),
        }
    }

    /// Swaps token_in for a given amount of token_out and returns the amount of
    /// token_in spent.
    pub fn swap_by_output(
        &mut self,
        token_in: &AccountId,
        amount_out: Balance,
        token_out: &AccountId,
        max_amount_in: Option<u128>,
        admin_fee: AdminFees,
        is_view: bool,
    ) -> (res: Result<Balance, PoolError>)
        requires
            old(self).wf(),
        ensures
            final(self).wf(),
            final(self).same_curve(old(self)),
            amount_outcome(
                old(self).swap_by_output_result(
                    token_in@,
                    amount_out as nat,
                    token_out@,
                    match max_amount_in {
                        Some(m) => Some(m as nat),
                        None => None,
                    },
                    admin_fee@,
                ),
                is_view,
                old(self)@,
                final(self)@,
                res,
            ),
    {
        match self {
            Pool::SimplePool(pool) => {
                pool.swap_by_output(
                    token_in,
                    amount_out,
                    token_out,
                    max_amount_in,
                    &admin_fee,
                    is_view,
                )
            },
            Pool::StableSwapPool(_) => Err(PoolError::UnsupportedOperation),
            Pool::RatedSwapPool(_) => Err(PoolError::UnsupportedOperation),
            Pool::DegenSwapPool(_) => Err(PoolError::UnsupportedOperation),
        }
    }

    /// The shares that a deposit into a rate-adjusted pool would mint, at the
    /// rates given or, where none are given, at the pool's own.
    pub open spec fn predict_add_rated_liquidity_result(
        &self,
        amounts: Seq<nat>,
        rates: Option<Seq<nat>>,
        fees: AdminFeesView,
    ) -> Result<nat, PoolError> {
        match self {
            Pool::RatedSwapPool(pool) => pool.curve@.expected_shares(amounts, rates, fees),
            _ => Err(PoolError::UnsupportedOperation),
        }
    }

    /// The shares that a deposit into a rate-adjusted pool would mint, at the
    /// rates given or, where none are given, at the pool's own. Changes
    /// nothing.
    pub fn predict_add_rated_liquidity(
        &self,
        amounts: &Vec<Balance>,
        rates: &Option<Vec<Balance>>,
        fees: &AdminFees,
    ) -> (res: Result<Balance, PoolError>)
        requires
            self.wf(),
        ensures
            match self.predict_add_rated_liquidity_result(
                to_nats(amounts@),
                match rates {
                    Some(r) => Some(to_nats(r@)),
                    None => None,
                },
                fees@,
            ) {
                Ok(amount) => res matches Ok(v) && v == amount,
                Err(e) => res matches Err(x) && x == e,
            },
    {
        match self {
            Pool::SimplePool(_) => Err(PoolError::UnsupportedOperation),
            Pool::StableSwapPool(_) => Err(PoolError::UnsupportedOperation),
            Pool::RatedSwapPool(pool) => pool.curve.predict_add_liquidity(amounts, rates, fees),
            Pool::DegenSwapPool(_) => Err(PoolError::UnsupportedOperation),
        }
    }

    /// The shares that a deposit into a risk-capped pool would mint, at the
    /// risk factors given or, where none are given, at the pool's own.
    pub open spec fn predict_add_degen_liquidity_result(
        &self,
        amounts: Seq<nat>,
        degens: Option<Seq<nat>>,
        fees: AdminFeesView,
    ) -> Result<nat, PoolError> {
        match self {
            Pool::DegenSwapPool(pool) => pool.curve@.expected_shares(amounts, degens, fees),
            _ => Err(PoolError::UnsupportedOperation),
        }
    }

    /// The shares that a deposit into a risk-capped pool would mint, at the
    /// risk factors given or, where none are given, at the pool's own. Changes
    /// nothing.
    pub fn predict_add_degen_liquidity(
        &self,
        amounts: &Vec<Balance>,
        degens: &Option<Vec<Balance>>,
        fees: &AdminFees,
    ) -> (res: Result<Balance, PoolError>)
        requires
            self.wf(),
        ensures
            match self.predict_add_degen_liquidity_result(
                to_nats(amounts@),
                match degens {
                    Some(r) => Some(to_nats(r@)),
                    None => None,
                },
                fees@,
            ) {
                Ok(amount) => res matches Ok(v) && v == amount,
                Err(e) => res matches Err(x) && x == e,
            },
    {
        match self {
            Pool::SimplePool(_) => Err(PoolError::UnsupportedOperation),
            Pool::StableSwapPool(_) => Err(PoolError::UnsupportedOperation),
            Pool::RatedSwapPool(_) => Err(PoolError::UnsupportedOperation),
            Pool::DegenSwapPool(pool) => pool.curve.predict_add_liquidity(amounts, degens, fees),
        }
    }

    /// The shares that a withdrawal of exact amounts from a rate-adjusted pool
    /// would burn, at the rates given or, where none are given, at the pool's
    /// own.
    pub open spec fn predict_remove_rated_liquidity_by_tokens_result(
        &self,
        amounts: Seq<nat>,
        rates: Option<Seq<nat>>,
        fees: AdminFeesView,
    ) -> Result<nat, PoolError> {
        match self {
            Pool::RatedSwapPool(pool) => pool.curve@.expected_burn(amounts, rates, fees),
            _ => Err(PoolError::UnsupportedOperation),
        }
    }

    /// The shares that a withdrawal of exact amounts from a rate-adjusted pool
    /// would burn, at the rates given or, where none are given, at the pool's
    /// own. Changes nothing.
    pub fn predict_remove_rated_liquidity_by_tokens(
        &self,
        amounts: &Vec<Balance>,
        rates: &Option<Vec<Balance>>,
        fees: &AdminFees,
    ) -> (res: Result<Balance, PoolError>)
        requires
            self.wf(),
        ensures
            match self.predict_remove_rated_liquidity_by_tokens_result(
                to_nats(amounts@),
                match rates {
                    Some(r) => Some(to_nats(r@)),
                    None => None,
                },
                fees@,
            ) {
                Ok(amount) => res matches Ok(v) && v == amount,
                Err(e) => res matches Err(x) && x == e,
            },
    {
        match self {
            Pool::SimplePool(_) => Err(PoolError::UnsupportedOperation),
            Pool::StableSwapPool(_) => Err(PoolError::UnsupportedOperation),
            Pool::RatedSwapPool(pool) => {
                pool.curve.predict_remove_liquidity_by_tokens(amounts, rates, fees)
            },
            Pool::DegenSwapPool(_) => Err(PoolError::UnsupportedOperation),
        }
    }

    /// The shares that a withdrawal of exact amounts from a risk-capped pool
    /// would burn, at the risk factors given or, where none are given, at the
    /// pool's own.
    pub open spec fn predict_remove_degen_liquidity_by_tokens_result(
        &self,
        amounts: Seq<nat>,
        degens: Option<Seq<nat>>,
        fees: AdminFeesView,
    ) -> Result<nat, PoolError> {
        match self {
            Pool::DegenSwapPool(pool) => pool.curve@.expected_burn(amounts, degens, fees),
            _ => Err(PoolError::UnsupportedOperation),
        }
    }

    /// The shares that a withdrawal of exact amounts from a risk-capped pool
    /// would burn, at the risk factors given or, where none are given, at the
    /// pool's own. Changes nothing.
    pub fn predict_remove_degen_liquidity_by_tokens(
        &self,
        amounts: &Vec<Balance>,
        degens: &Option<Vec<Balance>>,
        fees: &AdminFees,
    ) -> (res: Result<Balance, PoolError>)
        requires
            self.wf(),
        ensures
            match self.predict_remove_degen_liquidity_by_tokens_result(
                to_nats(amounts@),
                match degens {
                    Some(r) => Some(to_nats(r@)),
                    None => None,
                },
                fees@,
            ) {
                Ok(amount) => res matches Ok(v) && v == amount,
                Err(e) => res matches Err(x) && x == e,
            },
    {
        match self {
            Pool::SimplePool(_) => Err(PoolError::UnsupportedOperation),
            Pool::StableSwapPool(_) => Err(PoolError::UnsupportedOperation),
            Pool::RatedSwapPool(_) => Err(PoolError::UnsupportedOperation),
            Pool::DegenSwapPool(pool) => {
                pool.curve.predict_remove_liquidity_by_tokens(amounts, degens, fees)
            },
        }
    }

    /// What a swap on a rate-adjusted pool would pay out, at the rates given
    /// or, where none are given, at the pool's own.
    pub open spec fn get_rated_return_result(
        &self,
        token_in: Seq<char>,
        amount_in: nat,
        token_out: Seq<char>,
        rates: Option<Seq<nat>>,
        fees: AdminFeesView,
    ) -> Result<nat, PoolError> {
        match self {
            Pool::RatedSwapPool(pool) => pool.curve@.expected_return(
                token_in,
                amount_in,
                token_out,
                rates,
                fees,
            ),
            _ => Err(PoolError::UnsupportedOperation),
        }
    }

    /// What a swap on a rate-adjusted pool would pay out, at the rates given
    /// or, where none are given, at the pool's own. Changes nothing.
    pub fn get_rated_return(
        &self,
        token_in: &AccountId,
        amount_in: Balance,
        token_out: &AccountId,
        rates: &Option<Vec<Balance>>,
        fees: &AdminFees,
    ) -> (res: Result<Balance, PoolError>)
        requires
            self.wf(),
        ensures
            match self.get_rated_return_result(
                token_in@,
                amount_in as nat,
                token_out@,
                match rates {
                    Some(r) => Some(to_nats(r@)),
                    None => None,
                },
                fees@,
            ) {
                Ok(amount) => res matches Ok(v) && v == amount,
                Err(e) => res matches Err(x) && x == e,
            },
    {
        match self {
            Pool::SimplePool(_) => Err(PoolError::UnsupportedOperation),
            Pool::StableSwapPool(_) => Err(PoolError::UnsupportedOperation),
            Pool::RatedSwapPool(pool) => {
                pool.curve.get_return(token_in, amount_in, token_out, rates, fees)
            },
            Pool::DegenSwapPool(_) => Err(PoolError::UnsupportedOperation),
        }
    }

    /// What a swap on a risk-capped pool would pay out, at the risk factors
    /// given or, where none are given, at the pool's own.
    pub open spec fn get_degen_return_result(
        &self,
        token_in: Seq<char>,
        amount_in: nat,
        token_out: Seq<char>,
        degens: Option<Seq<nat>>,
        fees: AdminFeesView,
    ) -> Result<nat, PoolError> {
        match self {
            Pool::DegenSwapPool(pool) => pool.curve@.expected_return(
                token_in,
                amount_in,
                token_out,
                degens,
                fees,
            ),
            _ => Err(PoolError::UnsupportedOperation),
        }
    }

    /// What a swap on a risk-capped pool would pay out, at the risk factors
    /// given or, where none are given, at the pool's own. Changes nothing.
    pub fn get_degen_return(
        &self,
        token_in: &AccountId,
        amount_in: Balance,
        token_out: &AccountId,
        degens: &Option<Vec<Balance>>,
        fees: &AdminFees,
    ) -> (res: Result<Balance, PoolError>)
        requires
            self.wf(),
        ensures
            match self.get_degen_return_result(
                token_in@,
                amount_in as nat,
                token_out@,
                match degens {
                    Some(r) => Some(to_nats(r@)),
                    None => None,
                },
                fees@,
            ) {
                Ok(amount) => res matches Ok(v) && v == amount,
                Err(e) => res matches Err(x) && x == e,
            },
    {
        match self {
            Pool::SimplePool(_) => Err(PoolError::UnsupportedOperation),
            Pool::StableSwapPool(_) => Err(PoolError::UnsupportedOperation),
            Pool::RatedSwapPool(_) => Err(PoolError::UnsupportedOperation),
            Pool::DegenSwapPool(pool) => {
                pool.curve.get_return(token_in, amount_in, token_out, degens, fees)
            },
        }
    }

    /// The cap check: a risk-capped pool passes as [`within_limit`] says
    /// of its value; every other pool passes.
    pub open spec fn tvl_check(&self, limit: Option<DegenPoolLimit>) -> Result<(), PoolError> {
        match self {
            Pool::DegenSwapPool(pool) => within_limit(pool.curve@.tvl(), limit),
            _ => Ok(()),
        }
    }

    /// An operation followed by the cap check on the pool it leaves, for a
    /// risk-capped pool; the operation alone for every other.
    pub open spec fn capped_result(
        &self,
        outcome: Result<(nat, PoolView), PoolError>,
        limit: Option<DegenPoolLimit>,
    ) -> Result<(nat, PoolView), PoolError> {
        match self {
            Pool::DegenSwapPool(pool) => capped(outcome, pool.curve@.rates, limit),
            _ => outcome,
        }
    }

    /// The cap configured for a pool, if there is one.
    pub fn limit_of(pool_id: u64, limits: &HashMap<u64, DegenPoolLimit>) -> (res: Option<
        DegenPoolLimit,
    >)
        ensures
            res == limit_for(pool_id, limits@),
    {
        match limits.get(&pool_id) {
            Some(configured) => Some(*configured),
            None => None,
        }
    }

    /// Checks the pool's value against the cap configured for `pool_id` in
    /// `limits`. Refused with `TvlLimitExceeded` where a risk-capped pool is
    /// worth more than its cap.
    pub fn assert_tvl_not_exceed_limit(&self, pool_id: u64, limits: &HashMap<u64, DegenPoolLimit>)
        -> (res: Result<(), PoolError>)
        requires
            self.wf(),
        ensures
            res == self.tvl_check(limit_for(pool_id, limits@)),
    {
        match self {
            Pool::DegenSwapPool(pool) => pool.check_limit(Self::limit_of(pool_id, limits)),
            _ => Ok(()),
        }
    }

    /// Deposits any amounts into a pool of the stable family unless a
    /// risk-capped pool would then be worth more than the cap configured
    /// for `pool_id`: the deposit and the cap check together, all or
    /// nothing.
    pub fn add_stable_liquidity_within_limit(
        &mut self,
        sender_id: &AccountId,
        amounts: &Vec<Balance>,
        min_shares: Balance,
        admin_fee: AdminFees,
        pool_id: u64,
        limits: &HashMap<u64, DegenPoolLimit>,
        is_view: bool,
    ) -> (res: Result<Balance, PoolError>)
        requires
            old(self).wf(),
        ensures
            final(self).wf(),
            final(self).same_curve(old(self)),
            amount_outcome(
                old(self).capped_result(
                    old(self).add_stable_liquidity_result(
                        sender_id@,
                        to_nats(amounts@),
                        min_shares as nat,
                        admin_fee@,
                    ),
                    limit_for(pool_id, limits@),
                ),
                is_view,
                old(self)@,
                final(self)@,
                res,
            ),
    {
        match self {
            Pool::SimplePool(_) => Err(PoolError::UnsupportedOperation),
            Pool::StableSwapPool(pool) => {
                pool.curve.add_liquidity(sender_id, amounts, min_shares, &admin_fee, is_view)
            },
            Pool::RatedSwapPool(pool) => {
                pool.curve.add_liquidity(sender_id, amounts, min_shares, &admin_fee, is_view)
            },
            Pool::DegenSwapPool(pool) => {
                pool.add_liquidity_within_limit(
                    sender_id,
                    amounts,
                    min_shares,
                    &admin_fee,
                    Self::limit_of(pool_id, limits),
                    is_view,
                )
            },
        }
    }

    /// Swaps unless a risk-capped pool would then be worth more than the
    /// cap configured for `pool_id`: the swap and the cap check together,
    /// all or nothing.
    pub fn swap_within_limit(
        &mut self,
        token_in: &AccountId,
        amount_in: Balance,
        token_out: &AccountId,
        min_amount_out: Balance,
        admin_fee: AdminFees,
        pool_id: u64,
        limits: &HashMap<u64, DegenPoolLimit>,
        is_view: bool,
    ) -> (res: Result<Balance, PoolError>)
        requires
            old(self).wf(),
        ensures
            final(self).wf(),
            final(self).same_curve(old(self)),
            amount_outcome(
                old(self).capped_result(
                    old(self).swap_result(
                        token_in@,
                        amount_in as nat,
                        token_out@,
                        min_amount_out as nat,
                        admin_fee@,
                    ),
                    limit_for(pool_id, limits@),
                ),
                is_view,
                old(self)@,
                final(self)@,
                res,
            ),
    {
        match self {
            Pool::SimplePool(pool) => {
                pool.swap(token_in, amount_in, token_out, min_amount_out, &admin_fee, is_view)
            },
            Pool::StableSwapPool(pool) => {
                pool.curve.swap(token_in, amount_in, token_out, min_amount_out, &admin_fee, is_view)
            },
            Pool::RatedSwapPool(pool) => {
                pool.curve.swap(token_in, amount_in, token_out, min_amount_out, &admin_fee, is_view)
            },
            Pool::DegenSwapPool(pool) => {
                pool.swap_within_limit(
                    token_in,
                    amount_in,
                    token_out,
                    min_amount_out,
                    &admin_fee,
                    Self::limit_of(pool_id, limits),
                    is_view,
                )
            },
        }
    }
}

/// The cap configured for a pool, if there is one.
pub open spec fn limit_for(pool_id: u64, limits: Map<u64, DegenPoolLimit>) -> Option<
    DegenPoolLimit,
> {
    if limits.contains_key(pool_id) {
        Some(limits[pool_id])
    } else {
        None
    }
}

/// The cap holds: where a deposit into a risk-capped pool with a cap is
/// accepted, the pool is afterwards worth no more than the cap; where the
/// deposit alone would pass but leave the pool worth more, it is refused.
pub proof fn deposit_respects_cap(
    pool: Pool,
    sender: Seq<char>,
    amounts: Seq<nat>,
    min_shares: nat,
    fees: AdminFeesView,
    configured: DegenPoolLimit,
)
    requires
        pool.wf(),
        pool is DegenSwapPool,
        pool.add_stable_liquidity_result(sender, amounts, min_shares, fees) is Ok,
    ensures
        ({
            let alone = pool.add_stable_liquidity_result(sender, amounts, min_shares, fees);
            let checked = pool.capped_result(alone, Some(configured));
            let worth = crate::stable::tvl_at(alone->Ok_0.1.reserves, pool.curve()->Some_0.rates);
            &&& checked is Ok ==> checked == alone && worth is Ok && worth->Ok_0
                <= configured.tvl_limit
            &&& (worth is Ok && worth->Ok_0 > configured.tvl_limit) ==> checked == Err::<
                (nat, PoolView),
                PoolError,
            >(PoolError::TvlLimitExceeded)
        }),
{
}

/// Conservation, on every kind of pool: a swap adds exactly `amount_in` to
/// the reserve of the token paid in, takes exactly the amount paid out from
/// the reserve of the other and leaves every other reserve alone; it pays
/// out no less than the minimum asked for. On the constant-product pool the
/// product of the two reserves, and with it the product of all, never
/// falls.
pub proof fn swap_conserves(
    pool: Pool,
    token_in: Seq<char>,
    amount_in: nat,
    token_out: Seq<char>,
    min_amount_out: nat,
    fees: AdminFeesView,
)
    requires
        pool.wf(),
        pool.swap_result(token_in, amount_in, token_out, min_amount_out, fees) is Ok,
    ensures
        ({
            let (amount_out, next) = pool.swap_result(
                token_in,
                amount_in,
                token_out,
                min_amount_out,
                fees,
            )->Ok_0;
            let i = pool@.tokens.index_of(token_in);
            let o = pool@.tokens.index_of(token_out);
            &&& amount_out >= min_amount_out
            &&& token_in != token_out
            &&& pool@.tokens.contains(token_in) && pool@.tokens.contains(token_out)
            &&& swap_applied(pool@, next, i, o, amount_in, amount_out)
            &&& pool is SimplePool ==> next.reserves[i] * next.reserves[o] >= pool@.reserves[i]
                * pool@.reserves[o]
        }),
{
    match pool {
        Pool::SimplePool(p) => {
            crate::simple_pool::swap_conserves(
                p@,
                token_in,
                amount_in,
                token_out,
                min_amount_out,
                fees,
            );
        },
        Pool::StableSwapPool(p) => {
            crate::stable::swap_conserves(
                p.curve@,
                token_in,
                amount_in,
                token_out,
                min_amount_out,
                fees,
            );
        },
        Pool::RatedSwapPool(p) => {
            crate::stable::swap_conserves(
                p.curve@,
                token_in,
                amount_in,
                token_out,
                min_amount_out,
                fees,
            );
        },
        Pool::DegenSwapPool(p) => {
            crate::stable::swap_conserves(
                p.curve@,
                token_in,
                amount_in,
                token_out,
                min_amount_out,
                fees,
            );
        },
    }
}

/// The fee stays with the pool: on a constant-product pool with a fee
/// above zero, a swap that brings something in makes the product of the
/// two reserves strictly larger.
pub proof fn fee_grows_product(
    pool: Pool,
    token_in: Seq<char>,
    amount_in: nat,
    token_out: Seq<char>,
    min_amount_out: nat,
    fees: AdminFeesView,
)
    requires
        pool.wf(),
        pool is SimplePool,
        pool.swap_result(token_in, amount_in, token_out, min_amount_out, fees) is Ok,
        pool@.total_fee > 0,
        amount_in > 0,
    ensures
        ({
            let next = pool.swap_result(
                token_in,
                amount_in,
                token_out,
                min_amount_out,
                fees,
            )->Ok_0.1;
            let i = pool@.tokens.index_of(token_in);
            let o = pool@.tokens.index_of(token_out);
            next.reserves[i] * next.reserves[o] > pool@.reserves[i] * pool@.reserves[o]
        }),
{
    crate::simple_pool::fee_grows_product(
        pool@,
        token_in,
        amount_in,
        token_out,
        min_amount_out,
        fees,
    );
}

/// A swap, on every kind of pool, touches the share balances of the
/// exchange and of the referrer only: every other account holds afterwards
/// what it held before.
pub proof fn swap_spares_other_holders(
    pool: Pool,
    token_in: Seq<char>,
    amount_in: nat,
    token_out: Seq<char>,
    min_amount_out: nat,
    fees: AdminFeesView,
    other: Seq<char>,
)
    requires
        pool.wf(),
        pool.swap_result(token_in, amount_in, token_out, min_amount_out, fees) is Ok,
        other != fees.exchange_id,
        other != fees.referral_account(),
    ensures
        pool.swap_result(
            token_in,
            amount_in,
            token_out,
            min_amount_out,
            fees,
        )->Ok_0.1.ledger.balance_of(other) == pool@.ledger.balance_of(other),
{
    let i = pool@.tokens.index_of(token_in);
    let o = pool@.tokens.index_of(token_out);
    match pool.curve() {
        None => {
            let amount_out = crate::simple_pool::swap_output(
                pool@.reserves[i],
                pool@.reserves[o],
                amount_in,
                pool@.total_fee,
            );
            let (e, r) = pool@.admin_shares(
                fees,
                crate::fees::fee_on(amount_in, pool@.total_fee),
                crate::simple_pool::value_in_token(pool@, i, amount_in),
            )->Ok_0;
            crate::state::lemma_commit_swap_spares_others(
                pool@,
                i,
                o,
                amount_in,
                amount_out,
                fees,
                e,
                r,
                other,
            );
        },
        Some(curve) => {
            let q = crate::stable::swap_quote(
                curve.pool,
                curve.amp,
                curve.rates,
                token_in,
                amount_in,
                token_out,
            )->Ok_0;
            let (e, r) = curve.pool.admin_shares(fees, q.fee_value, q.pool_value)->Ok_0;
            crate::state::lemma_commit_swap_spares_others(
                curve.pool,
                q.index_in,
                q.index_out,
                amount_in,
                q.amount_out,
                fees,
                e,
                r,
                other,
            );
        },
    }
}

/// Conservation for a swap of an exact output: exactly the amount asked
/// for leaves the reserve of the token paid out, exactly the amount charged
/// enters the other, the amount charged is within the maximum given, and
/// the product of the two reserves never falls.
pub proof fn swap_by_output_conserves(
    pool: Pool,
    token_in: Seq<char>,
    amount_out: nat,
    token_out: Seq<char>,
    max_amount_in: Option<nat>,
    fees: AdminFeesView,
)
    requires
        pool.wf(),
        pool.swap_by_output_result(token_in, amount_out, token_out, max_amount_in, fees) is Ok,
    ensures
        ({
            let (amount_in, next) = pool.swap_by_output_result(
                token_in,
                amount_out,
                token_out,
                max_amount_in,
                fees,
            )->Ok_0;
            &&& pool is SimplePool
            &&& max_amount_in matches Some(m) ==> amount_in <= m
            &&& crate::simple_pool::swapped(
                pool@,
                next,
                token_in,
                amount_in,
                token_out,
                amount_out,
            )
        }),
{
    crate::simple_pool::swap_by_output_conserves(
        pool@,
        token_in,
        amount_out,
        token_out,
        max_amount_in,
        fees,
    );
}

/// Share proportionality, on every kind of pool: a withdrawal of `shares`
/// pays out of every reserve that reserve times `shares` over the total
/// supply, rounded down, and lowers the total supply by exactly `shares`.
pub proof fn withdrawal_is_proportional(
    pool: Pool,
    sender: Seq<char>,
    shares: nat,
    minimums: Seq<nat>,
)
    requires
        pool.wf(),
        pool@.remove_liquidity(sender, shares, minimums) is Ok,
    ensures
        ({
            let (paid, next) = pool@.remove_liquidity(sender, shares, minimums)->Ok_0;
            &&& shares <= pool@.ledger.total
            &&& paid.len() == pool@.reserves.len()
            &&& forall|i: int|
                0 <= i < paid.len() ==> paid[i] == (pool@.reserves[i] * shares)
                    / pool@.ledger.total
            &&& forall|i: int|
                0 <= i < paid.len() ==> next.reserves[i] == pool@.reserves[i] - paid[i]
            &&& next.ledger.total == pool@.ledger.total - shares
        }),
{
    crate::state::withdrawal_is_proportional(pool@, sender, shares, minimums);
}

/// Round trip: what is deposited into a constant-product pool that holds
/// nothing and has issued no share comes back exactly when all the shares
/// minted for it are withdrawn at once.
pub proof fn first_deposit_round_trip(pool: Pool, sender: Seq<char>, amounts: Seq<nat>)
    requires
        pool.wf(),
        pool@.ledger.total == 0,
        forall|i: int| 0 <= i < pool@.reserves.len() ==> pool@.reserves[i] == 0,
        pool.add_liquidity_result(sender, amounts) is Ok,
    ensures
        ({
            let (shares, used, next) = pool.add_liquidity_result(sender, amounts)->Ok_0;
            let back = next.remove_liquidity(
                sender,
                shares,
                Seq::new(amounts.len(), |i: int| 0nat),
            );
            &&& used == amounts
            &&& back matches Ok((paid, last)) && paid == amounts && last.ledger.total == 0
        }),
{
    crate::simple_pool::first_deposit_round_trip(pool@, sender, amounts);
}

/// Ledger invariant: in every well-formed pool the balances add up to the
/// total supply. Every operation of a pool, accepted, refused or simulated,
/// leaves the pool well formed.
pub proof fn balances_add_up(pool: Pool)
    requires
        pool.wf(),
    ensures
        sum(pool@.ledger.balances) == pool@.ledger.total,
        pool@.ledger.accounts.no_duplicates(),
        pool@.ledger.accounts.len() == pool@.ledger.balances.len(),
{
}

/// An operation that a kind of pool does not support is refused on every
/// input, and so changes nothing.
pub proof fn unsupported_is_refused(
    pool: Pool,
    sender: Seq<char>,
    amounts: Seq<nat>,
    bound: nat,
    fees: AdminFeesView,
)
    ensures
        !(pool is SimplePool) ==> pool.add_liquidity_result(sender, amounts) == Err::<
            (nat, Seq<nat>, PoolView),
            PoolError,
        >(PoolError::UnsupportedOperation),
        pool is SimplePool ==> pool.add_stable_liquidity_result(sender, amounts, bound, fees)
            == Err::<(nat, PoolView), PoolError>(PoolError::UnsupportedOperation),
        pool is SimplePool ==> pool.remove_liquidity_by_tokens_result(
            sender,
            amounts,
            bound,
            fees,
        ) == Err::<(nat, PoolView), PoolError>(PoolError::UnsupportedOperation),
        pool is SimplePool ==> pool.share_price_result() == Err::<nat, PoolError>(
            PoolError::UnsupportedOperation,
        ),
        !(pool is DegenSwapPool) ==> pool.tvl_result() == Err::<nat, PoolError>(
            PoolError::UnsupportedOperation,
        ),
{
}

} // verus!
