//! The stable curve, shared by the three pools of the stable family.
//!
//! Every token has a rate, in parts of [`PRECISION`], that turns an amount
//! of the token into its value in the pool's common unit. The invariant
//! math runs on values; results are turned back into amounts by the same
//! rate. A plain stable pool has every rate at [`PRECISION`].
//!
//! Fees. A swap charges the pool's fee on the amount paid in. A deposit or
//! a withdrawal by amounts charges, on each token, a fee on the distance
//! between the value the pool ends with and the value it would hold had it
//! grown or shrunk in proportion. The whole fee stays in the reserves; the
//! exchange and the referrer are paid their parts in newly minted shares.
//! All quotients round in favour of the pool.

use crate::errors::PoolError;
use crate::fees::{charge, fee_on, AdminFees, AdminFeesView, FEE_DIVISOR};
use crate::ledger::{lemma_sum_take, sum, total_of};
use crate::math::{lemma_mul_div_bounded, mul_div, mul_div_ceil, mul_div_up};
use crate::stable_math::{balance_y, checked_mul_div, compute_d, compute_y, invariant_d};
use crate::state::{
    amount_outcome, amounts_outcome, exceeds, has_zero, ids, to_nats, PoolState, PoolView,
};
use near_sdk::{AccountId, Balance};
use vstd::prelude::*;

verus! {

/// Rates are parts of this many.
pub const PRECISION: u128 = 1_000_000_000_000_000_000_000_000;

/// The largest amplification coefficient a pool may have.
pub const MAX_AMP: u128 = 1_000_000;

/// Share prices are parts of this many.
pub const SHARE_PRICE_SCALE: u128 = 100_000_000;

/// Value of an amount at a rate, rounded down.
pub open spec fn scale(amount: nat, rate: nat) -> Option<nat> {
    checked_mul_div(amount, rate, PRECISION as nat)
}

/// Amount that a value is worth at a rate, rounded down.
pub open spec fn unscale(value: nat, rate: nat) -> Option<nat> {
    checked_mul_div(value, PRECISION as nat, rate)
}

/// Whether the value of every amount fits in 128 bits.
pub open spec fn scalable(amounts: Seq<nat>, rates: Seq<nat>) -> bool {
    forall|i: int| 0 <= i < amounts.len() ==> (#[trigger] scale(amounts[i], rates[i])) is Some
}

/// The value of every amount.
pub open spec fn scaled(amounts: Seq<nat>, rates: Seq<nat>) -> Seq<nat> {
    Seq::new(amounts.len(), |i: int| scale(amounts[i], rates[i])->Some_0)
}

/// The fee on one token of a deposit or withdrawal: the pool's fee rate,
/// weighted by `n / (4 (n - 1))`, on the distance between the value held
/// afterwards and the value that proportional growth would have given.
pub open spec fn imbalance_fee(
    x_old: nat,
    x_new: nat,
    d_old: nat,
    d_new: nat,
    total_fee: nat,
    count: nat,
) -> Option<nat> {
    match checked_mul_div(d_new, x_old, d_old) {
        None => None,
        Some(ideal) => {
            let drift = if ideal > x_new {
                ideal - x_new
            } else {
                x_new - ideal
            };
            checked_mul_div(
                drift as nat,
                total_fee * count,
                (4 * (count - 1) * FEE_DIVISOR) as nat,
            )
        },
    }
}

pub open spec fn fee_at(
    xs_old: Seq<nat>,
    xs_new: Seq<nat>,
    d_old: nat,
    d_new: nat,
    total_fee: nat,
    i: int,
) -> Option<nat> {
    imbalance_fee(xs_old[i], xs_new[i], d_old, d_new, total_fee, xs_old.len())
}

/// Whether every token's fee is defined and within the value held.
pub open spec fn chargeable(
    xs_old: Seq<nat>,
    xs_new: Seq<nat>,
    d_old: nat,
    d_new: nat,
    total_fee: nat,
) -> bool {
    forall|i: int|
        0 <= i < xs_old.len() ==> (#[trigger] fee_at(xs_old, xs_new, d_old, d_new, total_fee, i))
            is Some && fee_at(xs_old, xs_new, d_old, d_new, total_fee, i)->Some_0 <= xs_new[i]
}

pub open spec fn imbalance_fees(
    xs_old: Seq<nat>,
    xs_new: Seq<nat>,
    d_old: nat,
    d_new: nat,
    total_fee: nat,
) -> Seq<nat> {
    Seq::new(xs_old.len(), |i: int| fee_at(xs_old, xs_new, d_old, d_new, total_fee, i)->Some_0)
}

/// How the invariant moves when the reserves change other than by a swap.
pub struct Drift {
    /// The invariant of the reserves before.
    pub before: nat,
    /// The invariant of the reserves after.
    pub after: nat,
    /// The invariant of the reserves after, less the imbalance fees.
    pub charged: nat,
    /// The imbalance fees, in value.
    pub fee_value: nat,
    /// The value of the reserves after.
    pub pool_value: nat,
}

/// The invariants around a change of the reserves to `target`.
pub open spec fn rebalance(
    reserves: Seq<nat>,
    target: Seq<nat>,
    amp: nat,
    rates: Seq<nat>,
    total_fee: nat,
) -> Result<Drift, PoolError> {
    let xs_old = scaled(reserves, rates);
    let xs_new = scaled(target, rates);
    if !scalable(target, rates) {
        Err(PoolError::ArithmeticOverflow)
    } else if has_zero(xs_new) {
        Err(PoolError::InvalidAmounts)
    } else if invariant_d(xs_new, amp) is None || !scalable(reserves, rates) {
        Err(PoolError::ArithmeticOverflow)
    } else if has_zero(xs_old) {
        Err(PoolError::InvalidAmounts)
    } else if invariant_d(xs_old, amp) is None {
        Err(PoolError::ArithmeticOverflow)
    } else if invariant_d(xs_old, amp)->Some_0 == 0 {
        Err(PoolError::InvalidAmounts)
    } else {
        let d_old = invariant_d(xs_old, amp)->Some_0;
        let d_new = invariant_d(xs_new, amp)->Some_0;
        let fees = imbalance_fees(xs_old, xs_new, d_old, d_new, total_fee);
        let xs_net = Seq::new(xs_new.len(), |i: int| (xs_new[i] - fees[i]) as nat);
        if !chargeable(xs_old, xs_new, d_old, d_new, total_fee) || sum(fees) > u128::MAX
            || invariant_d(xs_net, amp) is None {
            Err(PoolError::ArithmeticOverflow)
        } else {
            Ok(
                Drift {
                    before: d_old,
                    after: d_new,
                    charged: invariant_d(xs_net, amp)->Some_0,
                    fee_value: sum(fees),
                    pool_value: sum(xs_new),
                },
            )
        }
    }
}

/// What a swap would pay, and the fee it would charge.
pub struct SwapQuoteView {
    pub index_in: int,
    pub index_out: int,
    pub amount_out: nat,
    /// The fee, in value.
    pub fee_value: nat,
    /// The value of the reserves after the swap came in.
    pub pool_value: nat,
}

/// The quote for a swap of an exact amount paid in. The fee is taken from
/// the amount first; the rest moves the balance of the token paid in, and
/// the balance of the token paid out follows the curve. One unit of value
/// is kept back against rounding.
pub open spec fn swap_quote(
    pool: PoolView,
    amp: nat,
    rates: Seq<nat>,
    token_in: Seq<char>,
    amount_in: nat,
    token_out: Seq<char>,
) -> Result<SwapQuoteView, PoolError> {
    if token_in == token_out || !pool.tokens.contains(token_in) || !pool.tokens.contains(
        token_out,
    ) {
        Err(PoolError::InvalidToken)
    } else if !scalable(pool.reserves, rates) {
        Err(PoolError::ArithmeticOverflow)
    } else if has_zero(scaled(pool.reserves, rates)) {
        Err(PoolError::InvalidAmounts)
    } else {
        let i = pool.tokens.index_of(token_in);
        let o = pool.tokens.index_of(token_out);
        let xs = scaled(pool.reserves, rates);
        let fee = fee_on(amount_in, pool.total_fee);
        let d = invariant_d(xs, amp);
        let net_value = scale((amount_in - fee) as nat, rates[i]);
        let fee_value = scale(fee, rates[i]);
        if d is None || net_value is None || fee_value is None || xs[i] + net_value->Some_0
            > u128::MAX {
            Err(PoolError::ArithmeticOverflow)
        } else {
            let y = balance_y(xs, amp, i, o, xs[i] + net_value->Some_0, d->Some_0);
            if y is None {
                Err(PoolError::ArithmeticOverflow)
            } else {
                let paid_value = if xs[o] > y->Some_0 + 1 {
                    (xs[o] - y->Some_0 - 1) as nat
                } else {
                    0
                };
                let amount_out = unscale(paid_value, rates[o]);
                let pool_value = sum(xs) + net_value->Some_0 + fee_value->Some_0;
                if amount_out is None || pool_value > u128::MAX {
                    Err(PoolError::ArithmeticOverflow)
                } else {
                    Ok(
                        SwapQuoteView {
                            index_in: i,
                            index_out: o,
                            amount_out: amount_out->Some_0,
                            fee_value: fee_value->Some_0,
                            pool_value,
                        },
                    )
                }
            }
        }
    }
}

/// The value of every amount, or `None` where one does not fit in 128 bits.
pub fn normalize(amounts: &Vec<Balance>, rates: &Vec<u128>) -> (res: Option<Vec<u128>>)
    requires
        amounts@.len() == rates@.len(),
    ensures
        res is Some <==> scalable(to_nats(amounts@), to_nats(rates@)),
        res matches Some(v) ==> to_nats(v@) == scaled(to_nats(amounts@), to_nats(rates@)),
{
    let ghost a = to_nats(amounts@);
    let ghost r = to_nats(rates@);
    let mut out: Vec<u128> = Vec::new();
    let mut i: usize = 0;
    while i < amounts.len()
        invariant
            i <= amounts@.len(),
            amounts@.len() == rates@.len(),
            a == to_nats(amounts@),
            r == to_nats(rates@),
            out@.len() == i,
            forall|j: int| 0 <= j < i ==> (#[trigger] scale(a[j], r[j])) is Some,
            forall|j: int| 0 <= j < i ==> out@[j] == scale(a[j], r[j])->Some_0,
        decreases amounts@.len() - i,
    {
        assert(a[i as int] == amounts@[i as int] && r[i as int] == rates@[i as int]);
        match mul_div(amounts[i], rates[i], PRECISION) {
            Some(v) => {
                out.push(v);
            },
            None => {
                assert(scale(a[i as int], r[i as int]) is None);
                return None;
            },
        }
        i = i + 1;
    }
    proof {
        assert(to_nats(out@) =~= scaled(a, r));
    }
    Some(out)
}

/// Whether some value is zero.
pub fn any_zero(xs: &Vec<u128>) -> (res: bool)
    ensures
        res == has_zero(to_nats(xs@)),
{
    let ghost s = to_nats(xs@);
    let mut i: usize = 0;
    while i < xs.len()
        invariant
            i <= xs@.len(),
            s == to_nats(xs@),
            forall|j: int| 0 <= j < i ==> s[j] != 0,
        decreases xs@.len() - i,
    {
        if xs[i] == 0 {
            assert(s[i as int] == 0);
            return true;
        }
        i = i + 1;
    }
    false
}

/// How the invariant moves: see [`Drift`].
pub struct DriftQuote {
    pub before: u128,
    pub after: u128,
    pub charged: u128,
    pub fee_value: u128,
    pub pool_value: u128,
}

impl View for DriftQuote {
    type V = Drift;

    open spec fn view(&self) -> Drift {
        Drift {
            before: self.before as nat,
            after: self.after as nat,
            charged: self.charged as nat,
            fee_value: self.fee_value as nat,
            pool_value: self.pool_value as nat,
        }
    }
}

/// What a swap would pay: see [`SwapQuoteView`].
pub struct SwapQuote {
    pub index_in: usize,
    pub index_out: usize,
    pub amount_out: Balance,
    pub fee_value: u128,
    pub pool_value: u128,
}

impl View for SwapQuote {
    type V = SwapQuoteView;

    open spec fn view(&self) -> SwapQuoteView {
        SwapQuoteView {
            index_in: self.index_in as int,
            index_out: self.index_out as int,
            amount_out: self.amount_out as nat,
            fee_value: self.fee_value as nat,
            pool_value: self.pool_value as nat,
        }
    }
}

/// The invariants around a change of the reserves to `target`: see
/// [`rebalance`].
#[verifier::loop_isolation(false)]
pub fn rebalance_of(
    reserves: &Vec<Balance>,
    target: &Vec<Balance>,
    amp: u128,
    rates: &Vec<u128>,
    total_fee: u32,
) -> (res: Result<DriftQuote, PoolError>)
    requires
        reserves@.len() == rates@.len(),
        target@.len() == rates@.len(),
        rates@.len() >= 2,
        total_fee < FEE_DIVISOR,
    ensures
        match rebalance(
            to_nats(reserves@),
            to_nats(target@),
            amp as nat,
            to_nats(rates@),
            total_fee as nat,
        ) {
            Ok(d) => res matches Ok(q) && q@ == d,
            Err(e) => res matches Err(x) && x == e,
        },
{
    let xs_new: Vec<u128> = match normalize(target, rates) {
        Some(v) => v,
        None => {
            return Err(PoolError::ArithmeticOverflow);
        },
    };
    if any_zero(&xs_new) {
        return Err(PoolError::InvalidAmounts);
    }
    let d_new: u128 = match compute_d(&xs_new, amp) {
        Some(d) => d,
        None => {
            return Err(PoolError::ArithmeticOverflow);
        },
    };
    let xs_old: Vec<u128> = match normalize(reserves, rates) {
        Some(v) => v,
        None => {
            return Err(PoolError::ArithmeticOverflow);
        },
    };
    if any_zero(&xs_old) {
        return Err(PoolError::InvalidAmounts);
    }
    let d_old: u128 = match compute_d(&xs_old, amp) {
        Some(d) => d,
        None => {
            return Err(PoolError::ArithmeticOverflow);
        },
    };
    if d_old == 0 {
        return Err(PoolError::InvalidAmounts);
    }
    let count: u128 = rates.len() as u128;
    assert(total_fee as u128 * count <= 10_000 * 0x1_0000_0000_0000_0000) by (nonlinear_arith)
        requires
            total_fee < 10_000,
            count < 0x1_0000_0000_0000_0000,
    ;
    let weight: u128 = total_fee as u128 * count;
    let span: u128 = 4 * (count - 1) * (FEE_DIVISOR as u128);
    let ghost old_values = to_nats(xs_old@);
    let ghost new_values = to_nats(xs_new@);
    let ghost fees = imbalance_fees(
        old_values,
        new_values,
        d_old as nat,
        d_new as nat,
        total_fee as nat,
    );
    let mut xs_net: Vec<u128> = Vec::new();
    let mut fee_total: u128 = 0;
    let mut i: usize = 0;
    proof {
        lemma_sum_take(fees, 0);
    }
    while i < xs_new.len()
        invariant
            i <= xs_new@.len(),
            xs_net@.len() == i,
            fee_total == sum(fees.take(i as int)),
            forall|j: int|
                0 <= j < i ==> (#[trigger] fee_at(
                    old_values,
                    new_values,
                    d_old as nat,
                    d_new as nat,
                    total_fee as nat,
                    j,
                )) is Some && fees[j] <= new_values[j] && xs_net@[j] == new_values[j] - fees[j],
        decreases xs_new@.len() - i,
    {
        assert(old_values[i as int] == xs_old@[i as int]);
        assert(new_values[i as int] == xs_new@[i as int]);
        let ghost here = fee_at(
            old_values,
            new_values,
            d_old as nat,
            d_new as nat,
            total_fee as nat,
            i as int,
        );
        let ideal: u128 = match mul_div(d_new, xs_old[i], d_old) {
            Some(v) => v,
            None => {
                assert(here is None);
                return Err(PoolError::ArithmeticOverflow);
            },
        };
        let drift: u128 = if ideal > xs_new[i] {
            ideal - xs_new[i]
        } else {
            xs_new[i] - ideal
        };
        let fee: u128 = match mul_div(drift, weight, span) {
            Some(v) => v,
            None => {
                assert(here is None);
                return Err(PoolError::ArithmeticOverflow);
            },
        };
        assert(here == Some(fee as nat));
        if fee > xs_new[i] {
            return Err(PoolError::ArithmeticOverflow);
        }
        proof {
            lemma_sum_take(fees, i as int);
            lemma_sum_take(fees, i + 1);
        }
        fee_total = match fee_total.checked_add(fee) {
            Some(v) => v,
            None => {
                return Err(PoolError::ArithmeticOverflow);
            },
        };
        xs_net.push(xs_new[i] - fee);
        i = i + 1;
    }
    proof {
        lemma_sum_take(fees, i as int);
        assert(to_nats(xs_net@) =~= Seq::new(
            new_values.len(),
            |i: int| (new_values[i] - fees[i]) as nat,
        ));
    }
    let charged: u128 = match compute_d(&xs_net, amp) {
        Some(d) => d,
        None => {
            return Err(PoolError::ArithmeticOverflow);
        },
    };
    let pool_value: u128 = total_of(&xs_new).unwrap();
    Ok(DriftQuote { before: d_old, after: d_new, charged, fee_value: fee_total, pool_value })
}

/// What a swap of an exact amount paid in would pay: see [`swap_quote`].
pub fn quote_swap(
    state: &PoolState,
    amp: u128,
    rates: &Vec<u128>,
    token_in: &AccountId,
    amount_in: Balance,
    token_out: &AccountId,
) -> (res: Result<SwapQuote, PoolError>)
    requires
        state.wf(),
        rates@.len() == state@.tokens.len(),
    ensures
        match swap_quote(
            state@,
            amp as nat,
            to_nats(rates@),
            token_in@,
            amount_in as nat,
            token_out@,
        ) {
            Ok(q) => res matches Ok(r) && r@ == q,
            Err(e) => res matches Err(x) && x == e,
        },
{
    let index_in: usize = match state.token_index(token_in) {
        Some(i) => i,
        None => {
            return Err(PoolError::InvalidToken);
        },
    };
    let index_out: usize = match state.token_index(token_out) {
        Some(i) => i,
        None => {
            return Err(PoolError::InvalidToken);
        },
    };
    if index_in == index_out {
        return Err(PoolError::InvalidToken);
    }
    let xs: Vec<u128> = match normalize(state.reserves(), rates) {
        Some(v) => v,
        None => {
            return Err(PoolError::ArithmeticOverflow);
        },
    };
    if any_zero(&xs) {
        return Err(PoolError::InvalidAmounts);
    }
    let ghost values = to_nats(xs@);
    let ghost r = to_nats(rates@);
    assert(values[index_in as int] == xs@[index_in as int]);
    assert(values[index_out as int] == xs@[index_out as int]);
    assert(r[index_in as int] == rates@[index_in as int]);
    assert(r[index_out as int] == rates@[index_out as int]);
    let fee: Balance = charge(amount_in, state.total_fee());
    let d: u128 = match compute_d(&xs, amp) {
        Some(d) => d,
        None => {
            return Err(PoolError::ArithmeticOverflow);
        },
    };
    let net_value: u128 = match mul_div(amount_in - fee, rates[index_in], PRECISION) {
        Some(v) => v,
        None => {
            return Err(PoolError::ArithmeticOverflow);
        },
    };
    let fee_value: u128 = match mul_div(fee, rates[index_in], PRECISION) {
        Some(v) => v,
        None => {
            return Err(PoolError::ArithmeticOverflow);
        },
    };
    let x_in: u128 = match xs[index_in].checked_add(net_value) {
        Some(v) => v,
        None => {
            return Err(PoolError::ArithmeticOverflow);
        },
    };
    let y: u128 = match compute_y(&xs, amp, index_in, index_out, x_in, d) {
        Some(y) => y,
        None => {
            return Err(PoolError::ArithmeticOverflow);
        },
    };
    let paid_value: u128 = if y < u128::MAX && xs[index_out] > y + 1 {
        xs[index_out] - y - 1
    } else {
        0
    };
    let amount_out: Balance = match mul_div(paid_value, PRECISION, rates[index_out]) {
        Some(v) => v,
        None => {
            return Err(PoolError::ArithmeticOverflow);
        },
    };
    let held: u128 = total_of(&xs).unwrap();
    let pool_value: u128 = match held.checked_add(net_value) {
        Some(v) => match v.checked_add(fee_value) {
            Some(w) => w,
            None => {
                return Err(PoolError::ArithmeticOverflow);
            },
        },
        None => {
            return Err(PoolError::ArithmeticOverflow);
        },
    };
    Ok(SwapQuote { index_in, index_out, amount_out, fee_value, pool_value })
}

/// What a deposit or a withdrawal by amounts would do.
pub struct LiquidityQuoteView {
    /// Shares to mint for a deposit, to burn for a withdrawal.
    pub shares: nat,
    /// The imbalance fees, in value.
    pub fee_value: nat,
    /// The value of the reserves afterwards.
    pub pool_value: nat,
    /// The reserves afterwards.
    pub reserves: Seq<nat>,
}

/// The reserves after a deposit of `amounts`.
pub open spec fn grown(reserves: Seq<nat>, amounts: Seq<nat>) -> Seq<nat> {
    Seq::new(reserves.len(), |i: int| reserves[i] + amounts[i])
}

/// The reserves after a withdrawal of `amounts`.
pub open spec fn shrunk(reserves: Seq<nat>, amounts: Seq<nat>) -> Seq<nat> {
    Seq::new(reserves.len(), |i: int| (reserves[i] - amounts[i]) as nat)
}

/// Whether every reserve holds the amount asked of it.
pub open spec fn covers(reserves: Seq<nat>, amounts: Seq<nat>) -> bool {
    forall|i: int| 0 <= i < reserves.len() ==> amounts[i] <= reserves[i]
}

/// The quote for a deposit. The first deposit into a pool without shares
/// must bring every token and mints the invariant it creates. A later
/// deposit mints the total supply times the growth of the invariant, after
/// fees, over the invariant before, rounded down.
pub open spec fn deposit_quote(pool: PoolView, amp: nat, rates: Seq<nat>, amounts: Seq<nat>)
    -> Result<LiquidityQuoteView, PoolError> {
    let target = grown(pool.reserves, amounts);
    if amounts.len() != pool.reserves.len() {
        Err(PoolError::InvalidAmounts)
    } else if exceeds(target) {
        Err(PoolError::ArithmeticOverflow)
    } else if pool.ledger.total == 0 {
        if !scalable(target, rates) {
            Err(PoolError::ArithmeticOverflow)
        } else if has_zero(scaled(target, rates)) {
            Err(PoolError::InvalidAmounts)
        } else {
            match invariant_d(scaled(target, rates), amp) {
                None => Err(PoolError::ArithmeticOverflow),
                Some(d) => if d == 0 {
                    Err(PoolError::InvalidAmounts)
                } else {
                    Ok(
                        LiquidityQuoteView {
                            shares: d,
                            fee_value: 0,
                            pool_value: sum(scaled(target, rates)),
                            reserves: target,
                        },
                    )
                },
            }
        }
    } else {
        match rebalance(pool.reserves, target, amp, rates, pool.total_fee) {
            Err(e) => Err(e),
            Ok(drift) => if drift.after <= drift.before || drift.charged <= drift.before {
                Err(PoolError::InvalidAmounts)
            } else {
                match checked_mul_div(
                    pool.ledger.total,
                    (drift.charged - drift.before) as nat,
                    drift.before,
                ) {
                    None => Err(PoolError::ArithmeticOverflow),
                    Some(shares) => if shares == 0 {
                        Err(PoolError::InvalidAmounts)
                    } else {
                        Ok(
                            LiquidityQuoteView {
                                shares,
                                fee_value: drift.fee_value,
                                pool_value: drift.pool_value,
                                reserves: target,
                            },
                        )
                    },
                }
            },
        }
    }
}

/// The quote for a withdrawal of exact amounts: it burns the total supply
/// times the fall of the invariant, after fees, over the invariant before,
/// rounded up.
pub open spec fn withdrawal_quote(pool: PoolView, amp: nat, rates: Seq<nat>, amounts: Seq<nat>)
    -> Result<LiquidityQuoteView, PoolError> {
    let target = shrunk(pool.reserves, amounts);
    if amounts.len() != pool.reserves.len() {
        Err(PoolError::InvalidAmounts)
    } else if pool.ledger.total == 0 {
        Err(PoolError::InsufficientShares)
    } else if !covers(pool.reserves, amounts) {
        Err(PoolError::InvalidAmounts)
    } else {
        match rebalance(pool.reserves, target, amp, rates, pool.total_fee) {
            Err(e) => Err(e),
            Ok(drift) => if drift.after >= drift.before || drift.charged >= drift.before {
                Err(PoolError::InvalidAmounts)
            } else {
                Ok(
                    LiquidityQuoteView {
                        shares: mul_div_ceil(
                            pool.ledger.total,
                            (drift.before - drift.charged) as nat,
                            drift.before,
                        ),
                        fee_value: drift.fee_value,
                        pool_value: drift.pool_value,
                        reserves: target,
                    },
                )
            },
        }
    }
}

/// What a deposit or a withdrawal would do: see [`LiquidityQuoteView`].
pub struct LiquidityQuote {
    pub shares: Balance,
    pub fee_value: u128,
    pub pool_value: u128,
    pub reserves: Vec<Balance>,
}

impl View for LiquidityQuote {
    type V = LiquidityQuoteView;

    open spec fn view(&self) -> LiquidityQuoteView {
        LiquidityQuoteView {
            shares: self.shares as nat,
            fee_value: self.fee_value as nat,
            pool_value: self.pool_value as nat,
            reserves: to_nats(self.reserves@),
        }
    }
}

/// What a deposit would do: see [`deposit_quote`].
#[verifier::loop_isolation(false)]
pub fn quote_deposit(state: &PoolState, amp: u128, rates: &Vec<u128>, amounts: &Vec<Balance>)
    -> (res: Result<LiquidityQuote, PoolError>)
    requires
        state.wf(),
        rates@.len() == state@.tokens.len(),
    ensures
        match deposit_quote(state@, amp as nat, to_nats(rates@), to_nats(amounts@)) {
            Ok(q) => res matches Ok(r) && r@ == q,
            Err(e) => res matches Err(x) && x == e,
        },
{
    let held = state.reserves();
    if amounts.len() != held.len() {
        return Err(PoolError::InvalidAmounts);
    }
    let ghost goal = grown(state@.reserves, to_nats(amounts@));
    let mut target: Vec<Balance> = Vec::new();
    let mut i: usize = 0;
    while i < held.len()
        invariant
            i <= held@.len(),
            target@.len() == i,
            forall|j: int| 0 <= j < i ==> target@[j] == goal[j],
        decreases held@.len() - i,
    {
        assert(state@.reserves[i as int] == held@[i as int]);
        assert(to_nats(amounts@)[i as int] == amounts@[i as int]);
        match held[i].checked_add(amounts[i]) {
            Some(v) => {
                target.push(v);
            },
            None => {
                assert(goal[i as int] > u128::MAX);
                return Err(PoolError::ArithmeticOverflow);
            },
        }
        i = i + 1;
    }
    proof {
        assert(to_nats(target@) =~= goal);
        assert(!exceeds(goal));
    }
    let total: Balance = state.shares().total_supply();
    if total == 0 {
        let xs: Vec<u128> = match normalize(&target, rates) {
            Some(v) => v,
            None => {
                return Err(PoolError::ArithmeticOverflow);
            },
        };
        if any_zero(&xs) {
            return Err(PoolError::InvalidAmounts);
        }
        let d: u128 = match compute_d(&xs, amp) {
            Some(d) => d,
            None => {
                return Err(PoolError::ArithmeticOverflow);
            },
        };
        if d == 0 {
            return Err(PoolError::InvalidAmounts);
        }
        let pool_value: u128 = total_of(&xs).unwrap();
        Ok(LiquidityQuote { shares: d, fee_value: 0, pool_value, reserves: target })
    } else {
        let drift = match rebalance_of(held, &target, amp, rates, state.total_fee()) {
            Ok(d) => d,
            Err(e) => {
                return Err(e);
            },
        };
        if drift.after <= drift.before || drift.charged <= drift.before {
            return Err(PoolError::InvalidAmounts);
        }
        let shares: Balance = match mul_div(total, drift.charged - drift.before, drift.before) {
            Some(v) => v,
            None => {
                return Err(PoolError::ArithmeticOverflow);
            },
        };
        if shares == 0 {
            return Err(PoolError::InvalidAmounts);
        }
        Ok(
            LiquidityQuote {
                shares,
                fee_value: drift.fee_value,
                pool_value: drift.pool_value,
                reserves: target,
            },
        )
    }
}

/// What a withdrawal of exact amounts would do: see [`withdrawal_quote`].
#[verifier::loop_isolation(false)]
pub fn quote_withdrawal(state: &PoolState, amp: u128, rates: &Vec<u128>, amounts: &Vec<Balance>)
    -> (res: Result<LiquidityQuote, PoolError>)
    requires
        state.wf(),
        rates@.len() == state@.tokens.len(),
    ensures
        match withdrawal_quote(state@, amp as nat, to_nats(rates@), to_nats(amounts@)) {
            Ok(q) => res matches Ok(r) && r@ == q,
            Err(e) => res matches Err(x) && x == e,
        },
{
    let held = state.reserves();
    if amounts.len() != held.len() {
        return Err(PoolError::InvalidAmounts);
    }
    let total: Balance = state.shares().total_supply();
    if total == 0 {
        return Err(PoolError::InsufficientShares);
    }
    let ghost goal = shrunk(state@.reserves, to_nats(amounts@));
    let mut target: Vec<Balance> = Vec::new();
    let mut i: usize = 0;
    while i < held.len()
        invariant
            i <= held@.len(),
            target@.len() == i,
            forall|j: int| 0 <= j < i ==> to_nats(amounts@)[j] <= state@.reserves[j],
            forall|j: int| 0 <= j < i ==> target@[j] == goal[j],
        decreases held@.len() - i,
    {
        assert(state@.reserves[i as int] == held@[i as int]);
        assert(to_nats(amounts@)[i as int] == amounts@[i as int]);
        if amounts[i] > held[i] {
            return Err(PoolError::InvalidAmounts);
        }
        target.push(held[i] - amounts[i]);
        i = i + 1;
    }
    proof {
        assert(to_nats(target@) =~= goal);
    }
    let drift = match rebalance_of(held, &target, amp, rates, state.total_fee()) {
        Ok(d) => d,
        Err(e) => {
            return Err(e);
        },
    };
    if drift.after >= drift.before || drift.charged >= drift.before {
        return Err(PoolError::InvalidAmounts);
    }
    proof {
        lemma_mul_div_bounded(
            total as int,
            (drift.before - drift.charged) as int,
            drift.before as int,
        );
        let x = total as int * (drift.before - drift.charged) as int;
        let b = drift.before as int;
        assert(x % b != 0 ==> x / b < total) by (nonlinear_arith)
            requires
                x == total as int * (drift.before - drift.charged) as int,
                b == drift.before as int,
                0 < drift.before - drift.charged <= b,
                0 <= total,
        ;
    }
    let fall: u128 = drift.before - drift.charged;
    let shares: Balance = mul_div_up(total, fall, drift.before).unwrap();
    Ok(
        LiquidityQuote {
            shares,
            fee_value: drift.fee_value,
            pool_value: drift.pool_value,
            reserves: target,
        },
    )
}

/// The value of reserves at rates.
pub open spec fn tvl_at(reserves: Seq<nat>, rates: Seq<nat>) -> Result<nat, PoolError> {
    if !scalable(reserves, rates) || sum(scaled(reserves, rates)) > u128::MAX {
        Err(PoolError::ArithmeticOverflow)
    } else {
        Ok(sum(scaled(reserves, rates)))
    }
}

/// The value of reserves at rates: see [`tvl_at`].
pub fn tvl_of(reserves: &Vec<Balance>, rates: &Vec<u128>) -> (res: Result<u128, PoolError>)
    requires
        reserves@.len() == rates@.len(),
    ensures
        match tvl_at(to_nats(reserves@), to_nats(rates@)) {
            Ok(value) => res matches Ok(v) && v == value,
            Err(e) => res matches Err(x) && x == e,
        },
{
    let xs: Vec<u128> = match normalize(reserves, rates) {
        Some(v) => v,
        None => {
            return Err(PoolError::ArithmeticOverflow);
        },
    };
    match total_of(&xs) {
        Some(value) => Ok(value),
        None => Err(PoolError::ArithmeticOverflow),
    }
}

/// What a pool on the stable curve is, mathematically.
pub struct StableView {
    pub pool: PoolView,
    /// The amplification coefficient.
    pub amp: nat,
    /// The rate of each token, in parts of [`PRECISION`].
    pub rates: Seq<nat>,
}

impl StableView {
    /// A well-formed pool, an amplification coefficient between one and
    /// [`MAX_AMP`], and one positive rate per token.
    pub open spec fn wf(self) -> bool {
        &&& self.pool.wf()
        &&& 1 <= self.amp <= MAX_AMP
        &&& self.rates.len() == self.pool.tokens.len()
        &&& !has_zero(self.rates)
    }

    /// Creating a pool: refused as [`PoolView::create`] refuses, and with
    /// `InvalidAmounts` where the amplification coefficient is out of range
    /// or the rates are not one positive rate per token.
    pub open spec fn create(tokens: Seq<Seq<char>>, amp: nat, total_fee: nat, rates: Seq<nat>)
        -> Result<StableView, PoolError> {
        match PoolView::create(tokens, total_fee) {
            Err(e) => Err(e),
            Ok(pool) => if amp == 0 || amp > MAX_AMP || rates.len() != tokens.len() || has_zero(
                rates,
            ) {
                Err(PoolError::InvalidAmounts)
            } else {
                Ok(StableView { pool, amp, rates })
            },
        }
    }

    /// The rates to compute with: those given, where they are one positive
    /// rate per token, else the pool's own.
    pub open spec fn chosen_rates(self, given: Option<Seq<nat>>) -> Result<Seq<nat>, PoolError> {
        match given {
            None => Ok(self.rates),
            Some(rates) => if rates.len() != self.rates.len() || has_zero(rates) {
                Err(PoolError::InvalidAmounts)
            } else {
                Ok(rates)
            },
        }
    }

    /// What a swap would pay out at the rates chosen, where the pool would
    /// accept the admin fees.
    pub open spec fn expected_return(
        self,
        token_in: Seq<char>,
        amount_in: nat,
        token_out: Seq<char>,
        given: Option<Seq<nat>>,
        fees: AdminFeesView,
    ) -> Result<nat, PoolError> {
        match self.chosen_rates(given) {
            Err(e) => Err(e),
            Ok(rates) => match swap_quote(self.pool, self.amp, rates, token_in, amount_in, token_out) {
                Err(e) => Err(e),
                Ok(q) => match self.pool.admin_shares(fees, q.fee_value, q.pool_value) {
                    Err(e) => Err(e),
                    Ok(_) => Ok(q.amount_out),
                },
            },
        }
    }

    /// A swap of an exact amount paid in.
    pub open spec fn swap(
        self,
        token_in: Seq<char>,
        amount_in: nat,
        token_out: Seq<char>,
        min_amount_out: nat,
        fees: AdminFeesView,
    ) -> Result<(nat, PoolView), PoolError> {
        match swap_quote(self.pool, self.amp, self.rates, token_in, amount_in, token_out) {
            Err(e) => Err(e),
            Ok(q) => if q.amount_out < min_amount_out {
                Err(PoolError::SlippageExceeded)
            } else {
                match self.pool.admin_shares(fees, q.fee_value, q.pool_value) {
                    Err(e) => Err(e),
                    Ok((e, r)) => match self.pool.commit_swap(
                        q.index_in,
                        q.index_out,
                        amount_in,
                        q.amount_out,
                        fees,
                        e,
                        r,
                    ) {
                        Err(e) => Err(e),
                        Ok(next) => Ok((q.amount_out, next)),
                    },
                }
            },
        }
    }

    /// The shares that a deposit would mint at the rates chosen.
    pub open spec fn expected_shares(
        self,
        amounts: Seq<nat>,
        given: Option<Seq<nat>>,
        fees: AdminFeesView,
    ) -> Result<nat, PoolError> {
        match self.chosen_rates(given) {
            Err(e) => Err(e),
            Ok(rates) => match deposit_quote(self.pool, self.amp, rates, amounts) {
                Err(e) => Err(e),
                Ok(q) => match self.pool.admin_shares(fees, q.fee_value, q.pool_value) {
                    Err(e) => Err(e),
                    Ok(_) => Ok(q.shares),
                },
            },
        }
    }

    /// A deposit.
    pub open spec fn add_liquidity(
        self,
        sender: Seq<char>,
        amounts: Seq<nat>,
        min_shares: nat,
        fees: AdminFeesView,
    ) -> Result<(nat, PoolView), PoolError> {
        match deposit_quote(self.pool, self.amp, self.rates, amounts) {
            Err(e) => Err(e),
            Ok(q) => if q.shares < min_shares {
                Err(PoolError::SlippageExceeded)
            } else {
                match self.pool.admin_shares(fees, q.fee_value, q.pool_value) {
                    Err(e) => Err(e),
                    Ok((e, r)) => match self.pool.commit_liquidity(
                        q.reserves,
                        sender,
                        0,
                        q.shares,
                        fees,
                        e,
                        r,
                    ) {
                        Err(e) => Err(e),
                        Ok(next) => Ok((q.shares, next)),
                    },
                }
            },
        }
    }

    /// The shares that a withdrawal of exact amounts would burn at the
    /// rates chosen.
    pub open spec fn expected_burn(
        self,
        amounts: Seq<nat>,
        given: Option<Seq<nat>>,
        fees: AdminFeesView,
    ) -> Result<nat, PoolError> {
        match self.chosen_rates(given) {
            Err(e) => Err(e),
            Ok(rates) => match withdrawal_quote(self.pool, self.amp, rates, amounts) {
                Err(e) => Err(e),
                Ok(q) => match self.pool.admin_shares(fees, q.fee_value, q.pool_value) {
                    Err(e) => Err(e),
                    Ok(_) => Ok(q.shares),
                },
            },
        }
    }

    /// A withdrawal of exact amounts.
    pub open spec fn remove_liquidity_by_tokens(
        self,
        sender: Seq<char>,
        amounts: Seq<nat>,
        max_burn_shares: nat,
        fees: AdminFeesView,
    ) -> Result<(nat, PoolView), PoolError> {
        match withdrawal_quote(self.pool, self.amp, self.rates, amounts) {
            Err(e) => Err(e),
            Ok(q) => if q.shares > max_burn_shares {
                Err(PoolError::SlippageExceeded)
            } else {
                match self.pool.admin_shares(fees, q.fee_value, q.pool_value) {
                    Err(e) => Err(e),
                    Ok((e, r)) => match self.pool.commit_liquidity(
                        q.reserves,
                        sender,
                        q.shares,
                        0,
                        fees,
                        e,
                        r,
                    ) {
                        Err(e) => Err(e),
                        Ok(next) => Ok((q.shares, next)),
                    },
                }
            },
        }
    }

    /// The invariant per share, in parts of [`SHARE_PRICE_SCALE`], rounded
    /// down. Undefined, with `InvalidAmounts`, for a pool without shares.
    pub open spec fn share_price(self) -> Result<nat, PoolError> {
        if self.pool.ledger.total == 0 {
            Err(PoolError::InvalidAmounts)
        } else if !scalable(self.pool.reserves, self.rates) {
            Err(PoolError::ArithmeticOverflow)
        } else {
            match invariant_d(scaled(self.pool.reserves, self.rates), self.amp) {
                None => Err(PoolError::ArithmeticOverflow),
                Some(d) => match checked_mul_div(
                    d,
                    SHARE_PRICE_SCALE as nat,
                    self.pool.ledger.total,
                ) {
                    None => Err(PoolError::ArithmeticOverflow),
                    Some(price) => Ok(price),
                },
            }
        }
    }

    /// The value of the reserves at the pool's rates.
    pub open spec fn tvl(self) -> Result<nat, PoolError> {
        tvl_at(self.pool.reserves, self.rates)
    }
}

/// Conservation on the stable curve: a swap adds exactly `amount_in` to the
/// reserve of the token paid in, takes exactly the amount paid out from the
/// reserve of the other, leaves every other reserve alone, and pays out no
/// less than the minimum asked for.
pub proof fn swap_conserves(
    v: StableView,
    token_in: Seq<char>,
    amount_in: nat,
    token_out: Seq<char>,
    min_amount_out: nat,
    fees: AdminFeesView,
)
    requires
        v.wf(),
        v.swap(token_in, amount_in, token_out, min_amount_out, fees) is Ok,
    ensures
        ({
            let (amount_out, next) = v.swap(
                token_in,
                amount_in,
                token_out,
                min_amount_out,
                fees,
            )->Ok_0;
            &&& amount_out >= min_amount_out
            &&& token_in != token_out
            &&& v.pool.tokens.contains(token_in) && v.pool.tokens.contains(token_out)
            &&& crate::state::swap_applied(
                v.pool,
                next,
                v.pool.tokens.index_of(token_in),
                v.pool.tokens.index_of(token_out),
                amount_in,
                amount_out,
            )
        }),
{
    let q = swap_quote(v.pool, v.amp, v.rates, token_in, amount_in, token_out)->Ok_0;
    let (e, r) = v.pool.admin_shares(fees, q.fee_value, q.pool_value)->Ok_0;
    let i = v.pool.tokens.index_of(token_in);
    let o = v.pool.tokens.index_of(token_out);
    assert(v.pool.tokens[i] == token_in && v.pool.tokens[o] == token_out);
    crate::state::lemma_commit_swap(v.pool, i, o, amount_in, q.amount_out, fees, e, r);
}

/// A deposit adds exactly the amounts deposited to the reserves.
pub proof fn deposit_grows_reserves(
    v: StableView,
    sender: Seq<char>,
    amounts: Seq<nat>,
    min_shares: nat,
    fees: AdminFeesView,
)
    requires
        v.wf(),
        v.add_liquidity(sender, amounts, min_shares, fees) is Ok,
    ensures
        ({
            let (shares, next) = v.add_liquidity(sender, amounts, min_shares, fees)->Ok_0;
            &&& shares >= min_shares
            &&& shares > 0
            &&& amounts.len() == v.pool.reserves.len()
            &&& next.reserves == grown(v.pool.reserves, amounts)
            &&& forall|i: int| 0 <= i < next.reserves.len() ==> next.reserves[i] <= u128::MAX
            &&& next.tokens == v.pool.tokens
            &&& next.ledger.total >= v.pool.ledger.total + shares
        }),
{
    let q = deposit_quote(v.pool, v.amp, v.rates, amounts)->Ok_0;
    let (e, r) = v.pool.admin_shares(fees, q.fee_value, q.pool_value)->Ok_0;
    crate::ledger::lemma_settle_preserves_wf(
        v.pool.ledger,
        sender,
        0,
        q.shares,
        fees.exchange_id,
        e,
        fees.referral_account(),
        r,
    );
}

/// A withdrawal of exact amounts takes exactly those amounts from the
/// reserves, and burns no more of the sender's shares than the maximum
/// given.
pub proof fn withdrawal_shrinks_reserves(
    v: StableView,
    sender: Seq<char>,
    amounts: Seq<nat>,
    max_burn_shares: nat,
    fees: AdminFeesView,
)
    requires
        v.wf(),
        v.remove_liquidity_by_tokens(sender, amounts, max_burn_shares, fees) is Ok,
    ensures
        ({
            let (burned, next) = v.remove_liquidity_by_tokens(
                sender,
                amounts,
                max_burn_shares,
                fees,
            )->Ok_0;
            &&& 0 < burned <= max_burn_shares
            &&& burned <= v.pool.ledger.balance_of(sender)
            &&& amounts.len() == v.pool.reserves.len()
            &&& covers(v.pool.reserves, amounts)
            &&& next.reserves == shrunk(v.pool.reserves, amounts)
            &&& next.tokens == v.pool.tokens
        }),
{
    let q = withdrawal_quote(v.pool, v.amp, v.rates, amounts)->Ok_0;
    let drift = rebalance(
        v.pool.reserves,
        shrunk(v.pool.reserves, amounts),
        v.amp,
        v.rates,
        v.pool.total_fee,
    )->Ok_0;
    let x = v.pool.ledger.total as int * (drift.before - drift.charged) as int;
    assert(x > 0) by (nonlinear_arith)
        requires
            x == v.pool.ledger.total as int * (drift.before - drift.charged) as int,
            v.pool.ledger.total > 0,
            drift.before - drift.charged > 0,
    ;
    assert(x % (drift.before as int) == 0 ==> x / (drift.before as int) > 0) by (nonlinear_arith)
        requires
            x > 0,
            drift.before > 0,
    ;
    assert(x / (drift.before as int) >= 0) by (nonlinear_arith)
        requires
            x > 0,
            drift.before > 0,
    ;
}

/// A pool on the stable curve.
pub struct StableCurve {
    pub state: PoolState,
    /// The amplification coefficient.
    pub amp: u128,
    /// The rate of each token, in parts of [`PRECISION`].
    pub rates: Vec<u128>,
}

impl View for StableCurve {
    type V = StableView;

    open spec fn view(&self) -> StableView {
        StableView { pool: self.state@, amp: self.amp as nat, rates: to_nats(self.rates@) }
    }
}

/// The rates of a pool whose tokens all count at par.
pub fn par_rates(count: usize) -> (res: Vec<u128>)
    ensures
        res@.len() == count,
        forall|i: int| 0 <= i < count ==> res@[i] == PRECISION,
        !has_zero(to_nats(res@)),
{
    let mut rates: Vec<u128> = Vec::new();
    let mut i: usize = 0;
    while i < count
        invariant
            i <= count,
            rates@.len() == i,
            forall|j: int| 0 <= j < i ==> rates@[j] == PRECISION,
        decreases count - i,
    {
        rates.push(PRECISION);
        i = i + 1;
    }
    rates
}

impl StableCurve {
    pub open spec fn wf(&self) -> bool {
        self@.wf()
    }

    /// An empty pool: see [`StableView::create`].
    pub fn new(tokens: Vec<AccountId>, amp: u128, total_fee: u32, rates: Vec<u128>) -> (res:
        Result<StableCurve, PoolError>)
        ensures
            match StableView::create(
                ids(tokens@),
                amp as nat,
                total_fee as nat,
                to_nats(rates@),
            ) {
                Ok(v) => res matches Ok(curve) && curve@ == v && curve.wf(),
                Err(e) => res matches Err(x) && x == e,
            },
    {
        let count: usize = tokens.len();
        let state = match PoolState::new(tokens, total_fee) {
            Ok(state) => state,
            Err(e) => {
                return Err(e);
            },
        };
        if amp == 0 || amp > MAX_AMP || rates.len() != count || any_zero(&rates) {
            return Err(PoolError::InvalidAmounts);
        }
        Ok(StableCurve { state, amp, rates })
    }

    /// A pool put together from stored parts. Refused with `InvalidState`
    /// unless the parts make up a well-formed pool.
    pub fn restore(state: PoolState, amp: u128, rates: Vec<u128>) -> (res: Result<
        StableCurve,
        PoolError,
    >)
        requires
            state.wf(),
        ensures
            res is Ok <==> (StableView {
                pool: state@,
                amp: amp as nat,
                rates: to_nats(rates@),
            }).wf(),
            res matches Ok(curve) ==> curve.wf() && curve@ == (StableView {
                pool: state@,
                amp: amp as nat,
                rates: to_nats(rates@),
            }),
            res matches Err(e) ==> e == PoolError::InvalidState,
    {
        if amp == 0 || amp > MAX_AMP || rates.len() != state.reserves().len() || any_zero(&rates) {
            return Err(PoolError::InvalidState);
        }
        Ok(StableCurve { state, amp, rates })
    }

    /// Replaces the rates. Refused with `InvalidAmounts`, and nothing
    /// changed, unless there is one positive rate per token.
    pub fn set_rates(&mut self, rates: Vec<u128>) -> (res: Result<(), PoolError>)
        requires
            old(self).wf(),
        ensures
            final(self).wf(),
            match old(self)@.chosen_rates(Some(to_nats(rates@))) {
                Ok(chosen) => res is Ok && final(self)@ == (StableView {
                    rates: chosen,
                    ..old(self)@
                }),
                Err(e) => res == Err::<(), PoolError>(e) && final(self)@ == old(self)@,
            },
    {
        if rates.len() != self.rates.len() || any_zero(&rates) {
            return Err(PoolError::InvalidAmounts);
        }
        self.rates = rates;
        Ok(())
    }

    /// The rates to compute with: see [`StableView::chosen_rates`].
    pub fn chosen_rates<'a>(&'a self, given: &'a Option<Vec<Balance>>) -> (res: Result<
        &'a Vec<u128>,
        PoolError,
    >)
        ensures
            match self@.chosen_rates(
                match given {
                    Some(rates) => Some(to_nats(rates@)),
                    None => None,
                },
            ) {
                Ok(chosen) => res matches Ok(rates) && to_nats(rates@) == chosen,
                Err(e) => res matches Err(x) && x == e,
            },
    {
        match given {
            None => Ok(&self.rates),
            Some(rates) => {
                if rates.len() != self.rates.len() || any_zero(rates) {
                    Err(PoolError::InvalidAmounts)
                } else {
                    Ok(rates)
                }
            },
        }
    }

    /// Swaps `amount_in` of one token for another and returns the amount
    /// paid out.
    pub fn swap(
        &mut self,
        token_in: &AccountId,
        amount_in: Balance,
        token_out: &AccountId,
        min_amount_out: Balance,
        admin_fee: &AdminFees,
        is_view: bool,
    ) -> (res: Result<Balance, PoolError>)
        requires
            old(self).wf(),
        ensures
            final(self).wf(),
            final(self)@.amp == old(self)@.amp,
            final(self)@.rates == old(self)@.rates,
            amount_outcome(
                old(self)@.swap(
                    token_in@,
                    amount_in as nat,
                    token_out@,
                    min_amount_out as nat,
                    admin_fee@,
                ),
                is_view,
                old(self)@.pool,
                final(self)@.pool,
                res,
            ),
    {
        let quote = match quote_swap(
            &self.state,
            self.amp,
            &self.rates,
            token_in,
            amount_in,
            token_out,
        ) {
            Ok(q) => q,
            Err(e) => {
                return Err(e);
            },
        };
        if quote.amount_out < min_amount_out {
            return Err(PoolError::SlippageExceeded);
        }
        let (exchange_shares, referral_shares) = match self.state.admin_shares(
            admin_fee,
            quote.fee_value,
            quote.pool_value,
        ) {
            Ok(pair) => pair,
            Err(e) => {
                return Err(e);
            },
        };
        proof {
            assert(self@.pool.tokens[quote.index_in as int] == token_in@
                && self@.pool.tokens[quote.index_out as int] == token_out@) by {
                let i = self@.pool.tokens.index_of(token_in@);
                let o = self@.pool.tokens.index_of(token_out@);
                assert(self@.pool.tokens[i] == token_in@ && self@.pool.tokens[o] == token_out@);
            }
        }
        match self.state.commit_swap(
            quote.index_in,
            quote.index_out,
            amount_in,
            quote.amount_out,
            admin_fee,
            exchange_shares,
            referral_shares,
            is_view,
        ) {
            Err(e) => Err(e),
            Ok(()) => Ok(quote.amount_out),
        }
    }

    /// Deposits `amounts` and returns the shares minted.
    pub fn add_liquidity(
        &mut self,
        sender_id: &AccountId,
        amounts: &Vec<Balance>,
        min_shares: Balance,
        admin_fee: &AdminFees,
        is_view: bool,
    ) -> (res: Result<Balance, PoolError>)
        requires
            old(self).wf(),
        ensures
            final(self).wf(),
            final(self)@.amp == old(self)@.amp,
            final(self)@.rates == old(self)@.rates,
            amount_outcome(
                old(self)@.add_liquidity(
                    sender_id@,
                    to_nats(amounts@),
                    min_shares as nat,
                    admin_fee@,
                ),
                is_view,
                old(self)@.pool,
                final(self)@.pool,
                res,
            ),
    {
        let quote = match quote_deposit(&self.state, self.amp, &self.rates, amounts) {
            Ok(q) => q,
            Err(e) => {
                return Err(e);
            },
        };
        if quote.shares < min_shares {
            return Err(PoolError::SlippageExceeded);
        }
        let (exchange_shares, referral_shares) = match self.state.admin_shares(
            admin_fee,
            quote.fee_value,
            quote.pool_value,
        ) {
            Ok(pair) => pair,
            Err(e) => {
                return Err(e);
            },
        };
        let shares: Balance = quote.shares;
        match self.state.commit_liquidity(
            quote.reserves,
            sender_id,
            0,
            shares,
            admin_fee,
            exchange_shares,
            referral_shares,
            is_view,
        ) {
            Err(e) => Err(e),
            Ok(()) => Ok(shares),
        }
    }

    /// Withdraws exactly `amounts` and returns the shares burned.
    pub fn remove_liquidity_by_tokens(
        &mut self,
        sender_id: &AccountId,
        amounts: Vec<Balance>,
        max_burn_shares: Balance,
        admin_fee: &AdminFees,
        is_view: bool,
    ) -> (res: Result<Balance, PoolError>)
        requires
            old(self).wf(),
        ensures
            final(self).wf(),
            final(self)@.amp == old(self)@.amp,
            final(self)@.rates == old(self)@.rates,
            amount_outcome(
                old(self)@.remove_liquidity_by_tokens(
                    sender_id@,
                    to_nats(amounts@),
                    max_burn_shares as nat,
                    admin_fee@,
                ),
                is_view,
                old(self)@.pool,
                final(self)@.pool,
                res,
            ),
    {
        let quote = match quote_withdrawal(&self.state, self.amp, &self.rates, &amounts) {
            Ok(q) => q,
            Err(e) => {
                return Err(e);
            },
        };
        if quote.shares > max_burn_shares {
            return Err(PoolError::SlippageExceeded);
        }
        let (exchange_shares, referral_shares) = match self.state.admin_shares(
            admin_fee,
            quote.fee_value,
            quote.pool_value,
        ) {
            Ok(pair) => pair,
            Err(e) => {
                return Err(e);
            },
        };
        let shares: Balance = quote.shares;
        match self.state.commit_liquidity(
            quote.reserves,
            sender_id,
            shares,
            0,
            admin_fee,
            exchange_shares,
            referral_shares,
            is_view,
        ) {
            Err(e) => Err(e),
            Ok(()) => Ok(shares),
        }
    }

    /// Burns `shares` of the sender and pays out the same fraction of every
    /// reserve, rounded down.
    pub fn remove_liquidity_by_shares(
        &mut self,
        sender_id: &AccountId,
        shares: Balance,
        min_amounts: Vec<Balance>,
        is_view: bool,
    ) -> (res: Result<Vec<Balance>, PoolError>)
        requires
            old(self).wf(),
        ensures
            final(self).wf(),
            final(self)@.amp == old(self)@.amp,
            final(self)@.rates == old(self)@.rates,
            amounts_outcome(
                old(self)@.pool.remove_liquidity(sender_id@, shares as nat, to_nats(min_amounts@)),
                is_view,
                old(self)@.pool,
                final(self)@.pool,
                res,
            ),
    {
        self.state.remove_liquidity(sender_id, shares, min_amounts, is_view)
    }

    /// The invariant per share: see [`StableView::share_price`].
    pub fn get_share_price(&self) -> (res: Result<u128, PoolError>)
        requires
            self.wf(),
        ensures
            match self@.share_price() {
                Ok(price) => res matches Ok(p) && p == price,
                Err(e) => res matches Err(x) && x == e,
            },
    {
        let total: Balance = self.state.shares().total_supply();
        if total == 0 {
            return Err(PoolError::InvalidAmounts);
        }
        let xs: Vec<u128> = match normalize(self.state.reserves(), &self.rates) {
            Some(v) => v,
            None => {
                return Err(PoolError::ArithmeticOverflow);
            },
        };
        let d: u128 = match compute_d(&xs, self.amp) {
            Some(d) => d,
            None => {
                return Err(PoolError::ArithmeticOverflow);
            },
        };
        match mul_div(d, SHARE_PRICE_SCALE, total) {
            Some(price) => Ok(price),
            None => Err(PoolError::ArithmeticOverflow),
        }
    }

    /// The value of the reserves at the pool's rates.
    pub fn get_tvl(&self) -> (res: Result<u128, PoolError>)
        requires
            self.wf(),
        ensures
            match self@.tvl() {
                Ok(value) => res matches Ok(v) && v == value,
                Err(e) => res matches Err(x) && x == e,
            },
    {
        tvl_of(self.state.reserves(), &self.rates)
    }

    /// The shares that a deposit would mint, at the rates given or, where
    /// none are given, at the pool's own. Changes nothing.
    pub fn predict_add_liquidity(
        &self,
        amounts: &Vec<Balance>,
        rates: &Option<Vec<Balance>>,
        fees: &AdminFees,
    ) -> (res: Result<Balance, PoolError>)
        requires
            self.wf(),
        ensures
            match self@.expected_shares(
                to_nats(amounts@),
                match rates {
                    Some(r) => Some(to_nats(r@)),
                    None => None,
                },
                fees@,
            ) {
                Ok(shares) => res matches Ok(v) && v == shares,
                Err(e) => res matches Err(x) && x == e,
            },
    {
        let chosen = match self.chosen_rates(rates) {
            Ok(r) => r,
            Err(e) => {
                return Err(e);
            },
        };
        let quote = match quote_deposit(&self.state, self.amp, chosen, amounts) {
            Ok(q) => q,
            Err(e) => {
                return Err(e);
            },
        };
        match self.state.admin_shares(fees, quote.fee_value, quote.pool_value) {
            Ok(_) => Ok(quote.shares),
            Err(e) => Err(e),
        }
    }

    /// The shares that a withdrawal of exact amounts would burn, at the
    /// rates given or, where none are given, at the pool's own. Changes
    /// nothing.
    pub fn predict_remove_liquidity_by_tokens(
        &self,
        amounts: &Vec<Balance>,
        rates: &Option<Vec<Balance>>,
        fees: &AdminFees,
    ) -> (res: Result<Balance, PoolError>)
        requires
            self.wf(),
        ensures
            match self@.expected_burn(
                to_nats(amounts@),
                match rates {
                    Some(r) => Some(to_nats(r@)),
                    None => None,
                },
                fees@,
            ) {
                Ok(shares) => res matches Ok(v) && v == shares,
                Err(e) => res matches Err(x) && x == e,
            },
    {
        let chosen = match self.chosen_rates(rates) {
            Ok(r) => r,
            Err(e) => {
                return Err(e);
            },
        };
        let quote = match quote_withdrawal(&self.state, self.amp, chosen, amounts) {
            Ok(q) => q,
            Err(e) => {
                return Err(e);
            },
        };
        match self.state.admin_shares(fees, quote.fee_value, quote.pool_value) {
            Ok(_) => Ok(quote.shares),
            Err(e) => Err(e),
        }
    }

    /// What a swap would pay out, at the rates given or, where none are
    /// given, at the pool's own. Changes nothing.
    pub fn get_return(
        &self,
        token_in: &AccountId,
        amount_in: Balance,
        token_out: &AccountId,
        rates: &Option<Vec<Balance>>,
        fees: &AdminFees,
    ) -> (res: Result<Balance, PoolError>)
        requires
            self.wf(),
        ensures
            match self@.expected_return(
                token_in@,
                amount_in as nat,
                token_out@,
                match rates {
                    Some(r) => Some(to_nats(r@)),
                    None => None,
                },
                fees@,
            ) {
                Ok(amount) => res matches Ok(v) && v == amount,
                Err(e) => res matches Err(x) && x == e,
            },
    {
        let chosen = match self.chosen_rates(rates) {
            Ok(r) => r,
            Err(e) => {
                return Err(e);
            },
        };
        let quote = match quote_swap(&self.state, self.amp, chosen, token_in, amount_in, token_out) {
            Ok(q) => q,
            Err(e) => {
                return Err(e);
            },
        };
        match self.state.admin_shares(fees, quote.fee_value, quote.pool_value) {
            Ok(_) => Ok(quote.amount_out),
            Err(e) => Err(e),
        }
    }
}

} // verus!
