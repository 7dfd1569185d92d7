//! What every pool holds, whatever its curve: the token list, one reserve
//! and one volume record per token, the fee rate and the share ledger.
//!
//! A curve computes amounts; this module checks and commits them. Every
//! change to a pool goes through [`PoolState::commit_swap`] or
//! [`PoolState::commit_liquidity`], which apply all of an operation or none
//! of it.

use crate::errors::PoolError;
use crate::fees::{AdminFees, AdminFeesView, FEE_DIVISOR};
use crate::ledger::{all_distinct, lemma_settle_preserves_wf, LedgerView, ShareLedger};
use crate::math::{lemma_mul_div_bounded, mul_div, mul_div_floor};
use crate::volume::SwapVolume;
use near_sdk::{AccountId, Balance};
use vstd::prelude::*;

verus! {

/// Amounts as mathematical integers.
pub open spec fn to_nats(s: Seq<u128>) -> Seq<nat> {
    Seq::new(s.len(), |i: int| s[i] as nat)
}

/// Account or token identifiers as character sequences.
pub open spec fn ids(s: Seq<String>) -> Seq<Seq<char>> {
    Seq::new(s.len(), |i: int| s[i]@)
}

/// Whether some amount is zero.
pub open spec fn has_zero(s: Seq<nat>) -> bool {
    exists|i: int| 0 <= i < s.len() && s[i] == 0
}

/// Whether some amount does not fit in 128 bits.
pub open spec fn exceeds(s: Seq<nat>) -> bool {
    exists|i: int| 0 <= i < s.len() && s[i] > u128::MAX
}

/// What a pool's state is, mathematically.
pub struct PoolView {
    pub tokens: Seq<Seq<char>>,
    pub reserves: Seq<nat>,
    pub volumes: Seq<SwapVolume>,
    pub total_fee: nat,
    pub ledger: LedgerView,
}

impl PoolView {
    /// At least two distinct tokens, one reserve and one volume record for
    /// each, a fee rate below the divisor and a well-formed ledger.
    pub open spec fn wf(self) -> bool {
        &&& self.tokens.len() >= 2
        &&& self.tokens.no_duplicates()
        &&& self.reserves.len() == self.tokens.len()
        &&& self.volumes.len() == self.tokens.len()
        &&& forall|i: int| 0 <= i < self.reserves.len() ==> self.reserves[i] <= u128::MAX
        &&& self.total_fee < FEE_DIVISOR
        &&& self.ledger.wf()
    }

    /// A pool that holds nothing and has issued no share.
    pub open spec fn empty(tokens: Seq<Seq<char>>, total_fee: nat) -> PoolView {
        PoolView {
            tokens,
            reserves: Seq::new(tokens.len(), |i: int| 0nat),
            volumes: Seq::new(tokens.len(), |i: int| (SwapVolume { input: 0, output: 0 })),
            total_fee,
            ledger: LedgerView { accounts: Seq::empty(), balances: Seq::empty(), total: 0 },
        }
    }

    /// Creating a pool: refused with `InvalidToken` where there are fewer
    /// than two tokens or a token occurs twice, and with `FeeTooHigh` where
    /// the fee rate is not below the divisor.
    pub open spec fn create(tokens: Seq<Seq<char>>, total_fee: nat) -> Result<PoolView, PoolError> {
        if tokens.len() < 2 || !tokens.no_duplicates() {
            Err(PoolError::InvalidToken)
        } else if total_fee >= FEE_DIVISOR {
            Err(PoolError::FeeTooHigh)
        } else {
            Ok(Self::empty(tokens, total_fee))
        }
    }

    /// What `shares` out of the total supply are worth in each token,
    /// rounded down.
    pub open spec fn withdrawal(self, shares: nat) -> Seq<nat> {
        Seq::new(
            self.reserves.len(),
            |i: int| mul_div_floor(self.reserves[i], shares, self.ledger.total),
        )
    }

    pub open spec fn meets_minimums(amounts: Seq<nat>, minimums: Seq<nat>) -> bool {
        forall|i: int| 0 <= i < amounts.len() ==> amounts[i] >= minimums[i]
    }

    /// Setting the fee rate: refused where it is not below the divisor.
    pub open spec fn modify_total_fee(self, total_fee: nat) -> Result<PoolView, PoolError> {
        if total_fee >= FEE_DIVISOR {
            Err(PoolError::FeeTooHigh)
        } else {
            Ok(PoolView { total_fee, ..self })
        }
    }

    /// Shares that pay an account a fee part worth `part` out of a pool
    /// worth `pool_value`, both in one unit: the same fraction of the total
    /// supply, rounded down. An account that is not registered is paid
    /// nothing, and its part stays with liquidity providers.
    pub open spec fn fee_shares(self, account: Seq<char>, part: nat, pool_value: nat) -> nat {
        if pool_value == 0 || !self.ledger.registered(account) {
            0
        } else {
            mul_div_floor(self.ledger.total, part, pool_value)
        }
    }

    /// Shares owed to the exchange and to the referrer for a fee worth
    /// `fee_value`, charged on a pool worth `pool_value`.
    pub open spec fn admin_shares(self, fees: AdminFeesView, fee_value: nat, pool_value: nat)
        -> Result<(nat, nat), PoolError> {
        if !fees.within(self.total_fee) {
            Err(PoolError::FeeTooHigh)
        } else {
            let e = self.fee_shares(
                fees.exchange_id,
                fees.exchange_part(fee_value, self.total_fee),
                pool_value,
            );
            let r = self.fee_shares(
                fees.referral_account(),
                fees.referral_part(fee_value, self.total_fee),
                pool_value,
            );
            if e > u128::MAX || r > u128::MAX {
                Err(PoolError::ArithmeticOverflow)
            } else {
                Ok((e, r))
            }
        }
    }

    /// The pool after a liquidity operation: the reserves replaced, shares
    /// burned from and minted to the sender, fee shares granted.
    pub open spec fn commit_liquidity(
        self,
        reserves: Seq<nat>,
        sender: Seq<char>,
        burned: nat,
        minted: nat,
        fees: AdminFeesView,
        exchange_shares: nat,
        referral_shares: nat,
    ) -> Result<PoolView, PoolError> {
        match self.ledger.settle(
            sender,
            burned,
            minted,
            fees.exchange_id,
            exchange_shares,
            fees.referral_account(),
            referral_shares,
        ) {
            Err(e) => Err(e),
            Ok(ledger) => Ok(PoolView { reserves, ledger, ..self }),
        }
    }

    /// The pool after a swap: `amount_in` added to one reserve and to that
    /// token's input volume, `amount_out` taken from another reserve and
    /// added to that token's output volume, fee shares granted.
    pub open spec fn commit_swap(
        self,
        index_in: int,
        index_out: int,
        amount_in: nat,
        amount_out: nat,
        fees: AdminFeesView,
        exchange_shares: nat,
        referral_shares: nat,
    ) -> Result<PoolView, PoolError> {
        if self.reserves[index_out] < amount_out {
            Err(PoolError::InvalidAmounts)
        } else if self.reserves[index_in] + amount_in > u128::MAX
            || self.volumes[index_in].input + amount_in > u128::MAX
            || self.volumes[index_out].output + amount_out > u128::MAX {
            Err(PoolError::ArithmeticOverflow)
        } else {
            match self.ledger.settle(
                fees.exchange_id,
                0,
                0,
                fees.exchange_id,
                exchange_shares,
                fees.referral_account(),
                referral_shares,
            ) {
                Err(e) => Err(e),
                Ok(ledger) => Ok(
                    PoolView {
                        reserves: self.reserves.update(
                            index_in,
                            self.reserves[index_in] + amount_in,
                        ).update(index_out, (self.reserves[index_out] - amount_out) as nat),
                        volumes: self.volumes.update(
                            index_in,
                            (SwapVolume {
                                input: (self.volumes[index_in].input + amount_in) as u128,
                                output: self.volumes[index_in].output,
                            }),
                        ).update(
                            index_out,
                            (SwapVolume {
                                input: self.volumes[index_out].input,
                                output: (self.volumes[index_out].output + amount_out) as u128,
                            }),
                        ),
                        ledger,
                        ..self
                    },
                ),
            }
        }
    }

    /// Proportional withdrawal: the sender's shares are burned and the same
    /// fraction of every reserve is paid out, rounded down.
    pub open spec fn remove_liquidity(self, sender: Seq<char>, shares: nat, minimums: Seq<nat>)
        -> Result<(Seq<nat>, PoolView), PoolError> {
        if self.ledger.balance_of(sender) < shares || self.ledger.total == 0 {
            Err(PoolError::InsufficientShares)
        } else if minimums.len() != self.reserves.len() {
            Err(PoolError::InvalidAmounts)
        } else if !Self::meets_minimums(self.withdrawal(shares), minimums) {
            Err(PoolError::SlippageExceeded)
        } else {
            let paid = self.withdrawal(shares);
            let fees = AdminFeesView::zero();
            match self.commit_liquidity(
                Seq::new(self.reserves.len(), |i: int| (self.reserves[i] - paid[i]) as nat),
                sender,
                shares,
                0,
                fees,
                0,
                0,
            ) {
                Err(e) => Err(e),
                Ok(next) => Ok((paid, next)),
            }
        }
    }
}

/// Share proportionality: a withdrawal of `shares` pays out of every reserve
/// that reserve times `shares` over the total supply, rounded down, takes
/// exactly that from the reserve, and lowers the total supply and the
/// sender's balance by exactly `shares`.
pub proof fn withdrawal_is_proportional(
    pool: PoolView,
    sender: Seq<char>,
    shares: nat,
    minimums: Seq<nat>,
)
    requires
        pool.wf(),
        pool.remove_liquidity(sender, shares, minimums) is Ok,
    ensures
        ({
            let (paid, next) = pool.remove_liquidity(sender, shares, minimums)->Ok_0;
            &&& next.wf()
            &&& shares <= pool.ledger.total
            &&& paid.len() == pool.reserves.len()
            &&& forall|i: int|
                0 <= i < paid.len() ==> paid[i] == mul_div_floor(
                    pool.reserves[i],
                    shares,
                    pool.ledger.total,
                ) && paid[i] >= minimums[i] && paid[i] <= pool.reserves[i]
            &&& forall|i: int|
                0 <= i < paid.len() ==> next.reserves[i] == pool.reserves[i] - paid[i]
            &&& forall|i: int|
                0 <= i < paid.len() ==> paid[i] * pool.ledger.total <= pool.reserves[i] * shares
            &&& next.ledger.total == pool.ledger.total - shares
            &&& next.ledger.balance_of(sender) == pool.ledger.balance_of(sender) - shares
            &&& forall|other: Seq<char>|
                other != sender ==> #[trigger] next.ledger.balance_of(other)
                    == pool.ledger.balance_of(other)
            &&& next.tokens == pool.tokens
            &&& next.total_fee == pool.total_fee
            &&& next.volumes == pool.volumes
        }),
{
    let (paid, next) = pool.remove_liquidity(sender, shares, minimums)->Ok_0;
    crate::ledger::lemma_balance_within_total(pool.ledger, sender);
    lemma_settle_preserves_wf(
        pool.ledger,
        sender,
        shares,
        0,
        AdminFeesView::zero().exchange_id,
        0,
        AdminFeesView::zero().referral_account(),
        0,
    );
    assert forall|i: int| 0 <= i < paid.len() implies paid[i] <= pool.reserves[i] && paid[i]
        * pool.ledger.total <= pool.reserves[i] * shares by {
        lemma_mul_div_bounded(pool.reserves[i] as int, shares as int, pool.ledger.total as int);
        let x = pool.reserves[i] as int * shares as int;
        let t = pool.ledger.total as int;
        assert((x / t) * t <= x) by (nonlinear_arith)
            requires
                t > 0,
                x >= 0,
        ;
    }
    assert forall|other: Seq<char>| other != sender implies #[trigger] next.ledger.balance_of(
        other,
    ) == pool.ledger.balance_of(other) by {
        crate::ledger::lemma_settle_spares_others(
            pool.ledger,
            sender,
            shares,
            0,
            AdminFeesView::zero().exchange_id,
            0,
            AdminFeesView::zero().referral_account(),
            0,
            other,
        );
    }
    if shares > 0 {
        crate::ledger::lemma_with_balance(
            pool.ledger,
            sender,
            (pool.ledger.balance_of(sender) - shares) as nat,
            (pool.ledger.total - shares) as nat,
        );
    }
}

/// What a committed swap does to a pool on any curve: it adds exactly
/// `amount_in` to one reserve, takes exactly `amount_out` from another and
/// leaves every other reserve alone; the volume records follow; no account
/// is added or removed, and the total supply does not fall.
pub open spec fn swap_applied(
    pool: PoolView,
    next: PoolView,
    index_in: int,
    index_out: int,
    amount_in: nat,
    amount_out: nat,
) -> bool {
    &&& next.wf()
    &&& next.tokens == pool.tokens
    &&& next.total_fee == pool.total_fee
    &&& next.reserves.len() == pool.reserves.len()
    &&& next.reserves[index_in] - pool.reserves[index_in] == amount_in
    &&& pool.reserves[index_out] - next.reserves[index_out] == amount_out
    &&& forall|k: int|
        0 <= k < pool.reserves.len() && k != index_in && k != index_out ==> next.reserves[k]
            == pool.reserves[k]
    &&& next.volumes[index_in].input == pool.volumes[index_in].input + amount_in
    &&& next.volumes[index_out].output == pool.volumes[index_out].output + amount_out
    &&& next.ledger.total >= pool.ledger.total
    &&& next.ledger.accounts == pool.ledger.accounts
    &&& forall|k: int|
        0 <= k < pool.volumes.len() ==> next.volumes[k].input >= pool.volumes[k].input
            && next.volumes[k].output >= pool.volumes[k].output
}

/// A swap touches the share balances of the exchange and the referrer
/// only.
pub proof fn lemma_commit_swap_spares_others(
    pool: PoolView,
    index_in: int,
    index_out: int,
    amount_in: nat,
    amount_out: nat,
    fees: AdminFeesView,
    exchange_shares: nat,
    referral_shares: nat,
    other: Seq<char>,
)
    requires
        pool.wf(),
        pool.commit_swap(
            index_in,
            index_out,
            amount_in,
            amount_out,
            fees,
            exchange_shares,
            referral_shares,
        ) is Ok,
        other != fees.exchange_id,
        other != fees.referral_account(),
    ensures
        pool.commit_swap(
            index_in,
            index_out,
            amount_in,
            amount_out,
            fees,
            exchange_shares,
            referral_shares,
        )->Ok_0.ledger.balance_of(other) == pool.ledger.balance_of(other),
{
    crate::ledger::lemma_settle_spares_others(
        pool.ledger,
        fees.exchange_id,
        0,
        0,
        fees.exchange_id,
        exchange_shares,
        fees.referral_account(),
        referral_shares,
        other,
    );
}

pub proof fn lemma_commit_swap(
    pool: PoolView,
    index_in: int,
    index_out: int,
    amount_in: nat,
    amount_out: nat,
    fees: AdminFeesView,
    exchange_shares: nat,
    referral_shares: nat,
)
    requires
        pool.wf(),
        0 <= index_in < pool.reserves.len(),
        0 <= index_out < pool.reserves.len(),
        index_in != index_out,
        pool.commit_swap(
            index_in,
            index_out,
            amount_in,
            amount_out,
            fees,
            exchange_shares,
            referral_shares,
        ) is Ok,
    ensures
        swap_applied(
            pool,
            pool.commit_swap(
                index_in,
                index_out,
                amount_in,
                amount_out,
                fees,
                exchange_shares,
                referral_shares,
            )->Ok_0,
            index_in,
            index_out,
            amount_in,
            amount_out,
        ),
{
    lemma_settle_preserves_wf(
        pool.ledger,
        fees.exchange_id,
        0,
        0,
        fees.exchange_id,
        exchange_shares,
        fees.referral_account(),
        referral_shares,
    );
}

/// What an operation that returns one amount owes: on success the amount
/// and the new state, which is the old one when only simulating; on refusal
/// the error and the state as it was.
pub open spec fn amount_outcome(
    expected: Result<(nat, PoolView), PoolError>,
    simulate: bool,
    before: PoolView,
    after: PoolView,
    res: Result<Balance, PoolError>,
) -> bool {
    match expected {
        Ok((amount, next)) => res matches Ok(v) && v == amount && after == (if simulate {
            before
        } else {
            next
        }),
        Err(e) => res == Err::<Balance, PoolError>(e) && after == before,
    }
}

/// What an operation that returns nothing owes.
pub open spec fn unit_outcome(
    expected: Result<PoolView, PoolError>,
    simulate: bool,
    before: PoolView,
    after: PoolView,
    res: Result<(), PoolError>,
) -> bool {
    match expected {
        Ok(next) => res is Ok && after == (if simulate {
            before
        } else {
            next
        }),
        Err(e) => res == Err::<(), PoolError>(e) && after == before,
    }
}

/// What an operation that returns one amount per token owes.
pub open spec fn amounts_outcome(
    expected: Result<(Seq<nat>, PoolView), PoolError>,
    simulate: bool,
    before: PoolView,
    after: PoolView,
    res: Result<Vec<Balance>, PoolError>,
) -> bool {
    match expected {
        Ok((amounts, next)) => res matches Ok(v) && to_nats(v@) == amounts && after == (
        if simulate {
            before
        } else {
            next
        }),
        Err(e) => res == Err::<Vec<Balance>, PoolError>(e) && after == before,
    }
}

/// The state shared by all pools.
pub struct PoolState {
    tokens: Vec<AccountId>,
    amounts: Vec<Balance>,
    volumes: Vec<SwapVolume>,
    total_fee: u32,
    shares: ShareLedger,
}

impl View for PoolState {
    type V = PoolView;

    closed spec fn view(&self) -> PoolView {
        PoolView {
            tokens: ids(self.tokens@),
            reserves: to_nats(self.amounts@),
            volumes: self.volumes@,
            total_fee: self.total_fee as nat,
            ledger: self.shares@,
        }
    }
}

impl PoolState {
    pub open spec fn wf(&self) -> bool {
        self@.wf()
    }

    /// An empty pool over the given tokens: see [`PoolView::create`].
    pub fn new(tokens: Vec<AccountId>, total_fee: u32) -> (res: Result<PoolState, PoolError>)
        ensures
            match PoolView::create(ids(tokens@), total_fee as nat) {
                Ok(v) => res matches Ok(pool) && pool@ == v && pool.wf(),
                Err(e) => res matches Err(x) && x == e,
            },
    {
        if tokens.len() < 2 || !all_distinct(&tokens) {
            return Err(PoolError::InvalidToken);
        }
        if total_fee >= FEE_DIVISOR {
            return Err(PoolError::FeeTooHigh);
        }
        let mut amounts: Vec<Balance> = Vec::new();
        let mut volumes: Vec<SwapVolume> = Vec::new();
        let mut i: usize = 0;
        while i < tokens.len()
            invariant
                i <= tokens@.len(),
                amounts@.len() == i,
                volumes@.len() == i,
                forall|j: int| 0 <= j < i ==> amounts@[j] == 0,
                forall|j: int| 0 <= j < i ==> volumes@[j] == (SwapVolume { input: 0, output: 0 }),
            decreases tokens@.len() - i,
        {
            amounts.push(0);
            volumes.push(SwapVolume::new());
            i = i + 1;
        }
        let pool = PoolState { tokens, amounts, volumes, total_fee, shares: ShareLedger::new() };
        proof {
            let v = PoolView::empty(ids(tokens@), total_fee as nat);
            assert(pool@.reserves =~= v.reserves);
            assert(pool@.volumes =~= v.volumes);
            assert(pool@.ledger.accounts =~= v.ledger.accounts);
            assert(pool@.ledger.balances =~= v.ledger.balances);
            assert(crate::ledger::sum(v.ledger.balances) == 0);
        }
        Ok(pool)
    }

    /// A pool put together from stored parts. Refused with `InvalidState`
    /// unless the parts make up a well-formed pool.
    pub fn restore(
        tokens: Vec<AccountId>,
        amounts: Vec<Balance>,
        volumes: Vec<SwapVolume>,
        total_fee: u32,
        shares: ShareLedger,
    ) -> (res: Result<PoolState, PoolError>)
        requires
            shares.wf(),
        ensures
            res is Ok <==> (PoolView {
                tokens: ids(tokens@),
                reserves: to_nats(amounts@),
                volumes: volumes@,
                total_fee: total_fee as nat,
                ledger: shares@,
            }).wf(),
            res matches Ok(pool) ==> pool.wf() && pool@ == (PoolView {
                tokens: ids(tokens@),
                reserves: to_nats(amounts@),
                volumes: volumes@,
                total_fee: total_fee as nat,
                ledger: shares@,
            }),
            res matches Err(e) ==> e == PoolError::InvalidState,
    {
        if tokens.len() < 2 || amounts.len() != tokens.len() || volumes.len() != tokens.len()
            || total_fee >= FEE_DIVISOR || !all_distinct(&tokens) {
            return Err(PoolError::InvalidState);
        }
        Ok(PoolState { tokens, amounts, volumes, total_fee, shares })
    }

    /// The pool's tokens, in their fixed order.
    pub fn tokens(&self) -> (res: &Vec<AccountId>)
        ensures
            ids(res@) == self@.tokens,
    {
        &self.tokens
    }

    /// Position of a token in the pool, if it is one of the pool's tokens.
    pub fn token_index(&self, token: &AccountId) -> (res: Option<usize>)
        requires
            self.wf(),
        ensures
            res is Some <==> self@.tokens.contains(token@),
            res matches Some(i) ==> i < self@.tokens.len() && self@.tokens[i as int] == token@
                && i == self@.tokens.index_of(token@),
    {
        let mut i: usize = 0;
        while i < self.tokens.len()
            invariant
                i <= self.tokens@.len(),
                self.wf(),
                forall|j: int| 0 <= j < i ==> self@.tokens[j] != token@,
            decreases self.tokens@.len() - i,
        {
            if self.tokens[i] == *token {
                proof {
                    assert(self@.tokens[i as int] == token@);
                    crate::ledger::lemma_index_of_unique(self@.tokens, i as int);
                }
                return Some(i);
            }
            i = i + 1;
        }
        proof {
            if self@.tokens.contains(token@) {
                let j = self@.tokens.index_of(token@);
                assert(self@.tokens[j] == token@);
            }
        }
        None
    }

    /// The reserve of each token.
    pub fn reserves(&self) -> (res: &Vec<Balance>)
        ensures
            to_nats(res@) == self@.reserves,
    {
        &self.amounts
    }

    /// The fee rate, in parts of [`FEE_DIVISOR`].
    pub fn total_fee(&self) -> (res: u32)
        ensures
            res == self@.total_fee,
    {
        self.total_fee
    }

    /// The volume record of each token.
    pub fn volumes(&self) -> (res: Vec<SwapVolume>)
        ensures
            res@ == self@.volumes,
    {
        let mut out: Vec<SwapVolume> = Vec::new();
        let mut i: usize = 0;
        while i < self.volumes.len()
            invariant
                i <= self.volumes@.len(),
                out@ == self.volumes@.subrange(0, i as int),
            decreases self.volumes@.len() - i,
        {
            out.push(self.volumes[i]);
            proof {
                assert(out@ =~= self.volumes@.subrange(0, i + 1));
            }
            i = i + 1;
        }
        proof {
            assert(out@ =~= self.volumes@);
        }
        out
    }

    /// The share ledger.
    pub fn shares(&self) -> (res: &ShareLedger)
        ensures
            res@ == self@.ledger,
    {
        &self.shares
    }

    /// Sets the fee rate.
    pub fn modify_total_fee(&mut self, total_fee: u32) -> (res: Result<(), PoolError>)
        requires
            old(self).wf(),
        ensures
            final(self).wf(),
            unit_outcome(
                old(self)@.modify_total_fee(total_fee as nat),
                false,
                old(self)@,
                final(self)@,
                res,
            ),
    {
        if total_fee >= FEE_DIVISOR {
            return Err(PoolError::FeeTooHigh);
        }
        self.total_fee = total_fee;
        Ok(())
    }

    /// Registers an account in the share ledger.
    pub fn share_register(&mut self, account: &AccountId) -> (res: Result<(), PoolError>)
        requires
            old(self).wf(),
        ensures
            final(self).wf(),
            match old(self)@.ledger.register(account@) {
                Ok(ledger) => res is Ok && final(self)@ == (PoolView { ledger, ..old(self)@ }),
                Err(e) => res == Err::<(), PoolError>(e) && final(self)@ == old(self)@,
            },
    {
        self.shares.register(account)
    }

    /// Removes an account with a zero balance from the share ledger.
    pub fn share_unregister(&mut self, account: &AccountId) -> (res: Result<(), PoolError>)
        requires
            old(self).wf(),
        ensures
            final(self).wf(),
            match old(self)@.ledger.unregister(account@) {
                Ok(ledger) => res is Ok && final(self)@ == (PoolView { ledger, ..old(self)@ }),
                Err(e) => res == Err::<(), PoolError>(e) && final(self)@ == old(self)@,
            },
    {
        self.shares.unregister(account)
    }

    /// Moves shares between two registered accounts.
    pub fn share_transfer(&mut self, sender: &AccountId, receiver: &AccountId, amount: Balance)
        -> (res: Result<(), PoolError>)
        requires
            old(self).wf(),
        ensures
            final(self).wf(),
            match old(self)@.ledger.transfer(sender@, receiver@, amount as nat) {
                Ok(ledger) => res is Ok && final(self)@ == (PoolView { ledger, ..old(self)@ }),
                Err(e) => res == Err::<(), PoolError>(e) && final(self)@ == old(self)@,
            },
    {
        self.shares.transfer(sender, receiver, amount)
    }

    /// Shares owed to the exchange and to the referrer for a fee worth
    /// `fee_value`, charged on a pool worth `pool_value`.
    pub fn admin_shares(&self, fees: &AdminFees, fee_value: Balance, pool_value: Balance) -> (res:
        Result<(Balance, Balance), PoolError>)
        requires
            self.wf(),
        ensures
            match self@.admin_shares(fees@, fee_value as nat, pool_value as nat) {
                Ok((e, r)) => res matches Ok(pair) && pair.0 == e && pair.1 == r,
                Err(e) => res == Err::<(Balance, Balance), PoolError>(e),
            },
    {
        let parts = match fees.split(fee_value, self.total_fee) {
            Ok(parts) => parts,
            Err(e) => {
                return Err(e);
            },
        };
        let total: Balance = self.shares.total_supply();
        let mut exchange_shares: Balance = 0;
        if pool_value > 0 && self.shares.is_registered(&fees.exchange_id) {
            exchange_shares = match mul_div(total, parts.exchange, pool_value) {
                Some(q) => q,
                None => {
                    return Err(PoolError::ArithmeticOverflow);
                },
            };
        }
        let mut referral_shares: Balance = 0;
        if pool_value > 0 && self.shares.is_registered(fees.referral_account()) {
            referral_shares = match mul_div(total, parts.referral, pool_value) {
                Some(q) => q,
                None => {
                    return Err(PoolError::ArithmeticOverflow);
                },
            };
        }
        Ok((exchange_shares, referral_shares))
    }

    /// Commits a liquidity operation, all of it or none.
    pub fn commit_liquidity(
        &mut self,
        reserves: Vec<Balance>,
        sender: &AccountId,
        burned: Balance,
        minted: Balance,
        fees: &AdminFees,
        exchange_shares: Balance,
        referral_shares: Balance,
        simulate: bool,
    ) -> (res: Result<(), PoolError>)
        requires
            old(self).wf(),
            reserves@.len() == old(self)@.reserves.len(),
        ensures
            final(self).wf(),
            unit_outcome(
                old(self)@.commit_liquidity(
                    to_nats(reserves@),
                    sender@,
                    burned as nat,
                    minted as nat,
                    fees@,
                    exchange_shares as nat,
                    referral_shares as nat,
                ),
                simulate,
                old(self)@,
                final(self)@,
                res,
            ),
    {
        proof {
            lemma_settle_preserves_wf(
                self@.ledger,
                sender@,
                burned as nat,
                minted as nat,
                fees@.exchange_id,
                exchange_shares as nat,
                fees@.referral_account(),
                referral_shares as nat,
            );
        }
        if simulate {
            return self.shares.check_settle(
                sender,
                burned,
                minted,
                &fees.exchange_id,
                exchange_shares,
                fees.referral_account(),
                referral_shares,
            );
        }
        match self.shares.settle(
            sender,
            burned,
            minted,
            &fees.exchange_id,
            exchange_shares,
            fees.referral_account(),
            referral_shares,
        ) {
            Err(e) => Err(e),
            Ok(()) => {
                self.amounts = reserves;
                Ok(())
            },
        }
    }

    /// Commits a swap, all of it or none.
    pub fn commit_swap(
        &mut self,
        index_in: usize,
        index_out: usize,
        amount_in: Balance,
        amount_out: Balance,
        fees: &AdminFees,
        exchange_shares: Balance,
        referral_shares: Balance,
        simulate: bool,
    ) -> (res: Result<(), PoolError>)
        requires
            old(self).wf(),
            index_in < old(self)@.reserves.len(),
            index_out < old(self)@.reserves.len(),
            index_in != index_out,
        ensures
            final(self).wf(),
            unit_outcome(
                old(self)@.commit_swap(
                    index_in as int,
                    index_out as int,
                    amount_in as nat,
                    amount_out as nat,
                    fees@,
                    exchange_shares as nat,
                    referral_shares as nat,
                ),
                simulate,
                old(self)@,
                final(self)@,
                res,
            ),
    {
        if self.amounts[index_out] < amount_out {
            return Err(PoolError::InvalidAmounts);
        }
        let reserve_out: Balance = self.amounts[index_out] - amount_out;
        let reserve_in: Balance = match self.amounts[index_in].checked_add(amount_in) {
            Some(v) => v,
            None => {
                return Err(PoolError::ArithmeticOverflow);
            },
        };
        let volume_in: SwapVolume = match self.volumes[index_in].add_input(amount_in) {
            Ok(v) => v,
            Err(e) => {
                return Err(e);
            },
        };
        let volume_out: SwapVolume = match self.volumes[index_out].add_output(amount_out) {
            Ok(v) => v,
            Err(e) => {
                return Err(e);
            },
        };
        proof {
            lemma_settle_preserves_wf(
                self@.ledger,
                fees@.exchange_id,
                0,
                0,
                fees@.exchange_id,
                exchange_shares as nat,
                fees@.referral_account(),
                referral_shares as nat,
            );
        }
        if simulate {
            return self.shares.check_settle(
                &fees.exchange_id,
                0,
                0,
                &fees.exchange_id,
                exchange_shares,
                fees.referral_account(),
                referral_shares,
            );
        }
        match self.shares.settle(
            &fees.exchange_id,
            0,
            0,
            &fees.exchange_id,
            exchange_shares,
            fees.referral_account(),
            referral_shares,
        ) {
            Err(e) => Err(e),
            Ok(()) => {
                self.amounts.set(index_in, reserve_in);
                self.amounts.set(index_out, reserve_out);
                self.volumes.set(index_in, volume_in);
                self.volumes.set(index_out, volume_out);
                proof {
                    let next = old(self)@.commit_swap(
                        index_in as int,
                        index_out as int,
                        amount_in as nat,
                        amount_out as nat,
                        fees@,
                        exchange_shares as nat,
                        referral_shares as nat,
                    )->Ok_0;
                    assert(self@.reserves =~= next.reserves);
                    assert(self@.volumes =~= next.volumes);
                }
                Ok(())
            },
        }
    }

    /// Burns `shares` of the sender and pays out the same fraction of every
    /// reserve, rounded down.
    #[verifier::loop_isolation(false)]
    pub fn remove_liquidity(
        &mut self,
        sender: &AccountId,
        shares: Balance,
        min_amounts: Vec<Balance>,
        simulate: bool,
    ) -> (res: Result<Vec<Balance>, PoolError>)
        requires
            old(self).wf(),
        ensures
            final(self).wf(),
            amounts_outcome(
                old(self)@.remove_liquidity(sender@, shares as nat, to_nats(min_amounts@)),
                simulate,
                old(self)@,
                final(self)@,
                res,
            ),
    {
        let total: Balance = self.shares.total_supply();
        if self.shares.balance_of(sender) < shares || total == 0 {
            return Err(PoolError::InsufficientShares);
        }
        if min_amounts.len() != self.amounts.len() {
            return Err(PoolError::InvalidAmounts);
        }
        proof {
            crate::ledger::lemma_balance_within_total(self@.ledger, sender@);
        }
        let ghost expected = self@.withdrawal(shares as nat);
        let mut paid: Vec<Balance> = Vec::new();
        let mut left: Vec<Balance> = Vec::new();
        let mut i: usize = 0;
        while i < self.amounts.len()
            invariant
                i <= self.amounts@.len(),
                *self == *old(self),
                paid@.len() == i,
                left@.len() == i,
                forall|j: int| 0 <= j < i ==> paid@[j] == expected[j] && paid@[j] >= min_amounts@[j],
                forall|j: int| 0 <= j < i ==> left@[j] == self.amounts@[j] - paid@[j],
            decreases self.amounts@.len() - i,
        {
            proof {
                lemma_mul_div_bounded(self.amounts@[i as int] as int, shares as int, total as int);
            }
            let amount: Balance = mul_div(self.amounts[i], shares, total).unwrap();
            assert(amount == expected[i as int]);
            if amount < min_amounts[i] {
                proof {
                    assert(to_nats(min_amounts@)[i as int] == min_amounts@[i as int]);
                }
                return Err(PoolError::SlippageExceeded);
            }
            paid.push(amount);
            left.push(self.amounts[i] - amount);
            i = i + 1;
        }
        proof {
            assert(to_nats(paid@) =~= expected);
            assert(PoolView::meets_minimums(expected, to_nats(min_amounts@)));
            assert(to_nats(left@) =~= Seq::new(
                self@.reserves.len(),
                |i: int| (self@.reserves[i] - expected[i]) as nat,
            ));
        }
        let fees = AdminFees::zero();
        match self.commit_liquidity(left, sender, shares, 0, &fees, 0, 0, simulate) {
            Err(e) => Err(e),
            Ok(()) => Ok(paid),
        }
    }
}

} // verus!
