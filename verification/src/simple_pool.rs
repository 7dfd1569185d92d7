//! The constant-product curve: the product of the reserves never decreases.
//!
//! A swap between two tokens holds every other reserve fixed, so the
//! product of all reserves moves as the product of the two that take part.

use crate::errors::PoolError;
use crate::fees::{charge, fee_on, AdminFees, AdminFeesView, FEE_DIVISOR};
use crate::math::{lemma_mul_div_bounded, mul_div, mul_div_ceil, mul_div_floor, mul_div_up};
use crate::state::{
    amount_outcome, amounts_outcome, exceeds, has_zero, to_nats, PoolState, PoolView,
};
use near_sdk::{AccountId, Balance};
use vstd::prelude::*;

verus! {

/// Shares minted by the first deposit into an empty pool, whatever the
/// deposit: one share unit at 24 decimals.
pub const INIT_SHARES_SUPPLY: u128 = 1_000_000_000_000_000_000_000_000;

/// What is left of an amount after the fee, times the fee divisor.
pub open spec fn net_of_fee(amount: nat, total_fee: nat) -> nat {
    (amount * (FEE_DIVISOR - total_fee)) as nat
}

/// What a swap pays out for `amount_in`: the amount that keeps the product
/// of the two reserves where it was had only the net amount come in,
/// rounded down.
pub open spec fn swap_output(reserve_in: nat, reserve_out: nat, amount_in: nat, total_fee: nat)
    -> nat {
    mul_div_floor(
        net_of_fee(amount_in, total_fee),
        reserve_out,
        (FEE_DIVISOR * reserve_in + net_of_fee(amount_in, total_fee)) as nat,
    )
}

/// What a swap asks for to pay out `amount_out`: one more than the quotient
/// rounded down, so that the product of the two reserves does not decrease.
pub open spec fn swap_input(reserve_in: nat, reserve_out: nat, amount_out: nat, total_fee: nat)
    -> nat {
    mul_div_floor(
        (reserve_in * FEE_DIVISOR) as nat,
        amount_out,
        ((reserve_out - amount_out) * (FEE_DIVISOR - total_fee)) as nat,
    ) + 1
}

/// Value of the whole pool in units of one token, after `amount_in` of it
/// came in: every token of a constant-product pool is worth the same.
pub open spec fn value_in_token(pool: PoolView, index: int, amount_in: nat) -> nat {
    (pool.tokens.len() * (pool.reserves[index] + amount_in)) as nat
}

/// Fee shares and commit, common to both directions of a swap.
pub open spec fn settle_swap(
    pool: PoolView,
    index_in: int,
    index_out: int,
    amount_in: nat,
    amount_out: nat,
    fees: AdminFeesView,
) -> Result<PoolView, PoolError> {
    if value_in_token(pool, index_in, amount_in) > u128::MAX {
        Err(PoolError::ArithmeticOverflow)
    } else {
        match pool.admin_shares(
            fees,
            fee_on(amount_in, pool.total_fee),
            value_in_token(pool, index_in, amount_in),
        ) {
            Err(e) => Err(e),
            Ok((e, r)) => pool.commit_swap(index_in, index_out, amount_in, amount_out, fees, e, r),
        }
    }
}

/// A swap of an exact amount paid in. Refused with `InvalidAmounts` on a
/// pool that holds nothing of either token.
pub open spec fn swap(
    pool: PoolView,
    token_in: Seq<char>,
    amount_in: nat,
    token_out: Seq<char>,
    min_amount_out: nat,
    fees: AdminFeesView,
) -> Result<(nat, PoolView), PoolError> {
    if token_in == token_out || !pool.tokens.contains(token_in) || !pool.tokens.contains(
        token_out,
    ) {
        Err(PoolError::InvalidToken)
    } else {
        let i = pool.tokens.index_of(token_in);
        let o = pool.tokens.index_of(token_out);
        let net = net_of_fee(amount_in, pool.total_fee);
        if pool.reserves[i] == 0 || pool.reserves[o] == 0 {
            Err(PoolError::InvalidAmounts)
        } else if net > u128::MAX || FEE_DIVISOR * pool.reserves[i] + net > u128::MAX {
            Err(PoolError::ArithmeticOverflow)
        } else {
            let amount_out = swap_output(
                pool.reserves[i],
                pool.reserves[o],
                amount_in,
                pool.total_fee,
            );
            if amount_out < min_amount_out {
                Err(PoolError::SlippageExceeded)
            } else {
                match settle_swap(pool, i, o, amount_in, amount_out, fees) {
                    Err(e) => Err(e),
                    Ok(next) => Ok((amount_out, next)),
                }
            }
        }
    }
}

/// A swap of an exact amount paid out. Refused with `InvalidAmounts` on a
/// pool that holds nothing of the token paid in, and where the amount is
/// not below the reserve of the token paid out.
pub open spec fn swap_by_output(
    pool: PoolView,
    token_in: Seq<char>,
    amount_out: nat,
    token_out: Seq<char>,
    max_amount_in: Option<nat>,
    fees: AdminFeesView,
) -> Result<(nat, PoolView), PoolError> {
    if token_in == token_out || !pool.tokens.contains(token_in) || !pool.tokens.contains(
        token_out,
    ) {
        Err(PoolError::InvalidToken)
    } else {
        let i = pool.tokens.index_of(token_in);
        let o = pool.tokens.index_of(token_out);
        if pool.reserves[i] == 0 || amount_out >= pool.reserves[o] {
            Err(PoolError::InvalidAmounts)
        } else if pool.reserves[i] * FEE_DIVISOR > u128::MAX || (pool.reserves[o] - amount_out)
            * (FEE_DIVISOR - pool.total_fee) > u128::MAX || swap_input(
            pool.reserves[i],
            pool.reserves[o],
            amount_out,
            pool.total_fee,
        ) > u128::MAX {
            Err(PoolError::ArithmeticOverflow)
        } else {
            let amount_in = swap_input(
                pool.reserves[i],
                pool.reserves[o],
                amount_out,
                pool.total_fee,
            );
            if max_amount_in matches Some(m) && amount_in > m {
                Err(PoolError::SlippageExceeded)
            } else {
                match settle_swap(pool, i, o, amount_in, amount_out, fees) {
                    Err(e) => Err(e),
                    Ok(next) => Ok((amount_in, next)),
                }
            }
        }
    }
}

/// The quotient that a swap pays out never lets the product of the two
/// reserves fall.
pub proof fn lemma_output_keeps_product(
    reserve_in: int,
    reserve_out: int,
    amount_in: int,
    net: int,
    amount_out: int,
)
    by (nonlinear_arith)
    requires
        0 <= reserve_in,
        0 <= reserve_out,
        0 <= amount_in,
        0 <= net <= amount_in * FEE_DIVISOR,
        FEE_DIVISOR * reserve_in + net > 0,
        amount_out == (net * reserve_out) / (FEE_DIVISOR * reserve_in + net),
    ensures
        0 <= amount_out <= reserve_out,
        (reserve_in + amount_in) * (reserve_out - amount_out) >= reserve_in * reserve_out,
{
    let den = FEE_DIVISOR * reserve_in + net;
    assert(amount_out * den <= net * reserve_out);
    assert(amount_out * (FEE_DIVISOR * reserve_in) <= net * (reserve_out - amount_out));
    assert(net * reserve_out <= den * reserve_out);
    assert(amount_out <= reserve_out);
    assert(net * (reserve_out - amount_out) <= amount_in * FEE_DIVISOR * (reserve_out
        - amount_out));
    assert(FEE_DIVISOR * (amount_out * reserve_in) <= FEE_DIVISOR * (amount_in * (reserve_out
        - amount_out)));
    assert(amount_out * reserve_in <= amount_in * (reserve_out - amount_out));
}

/// The amount that a swap asks for never lets the product of the two
/// reserves fall.
pub proof fn lemma_input_keeps_product(
    reserve_in: int,
    reserve_out: int,
    amount_out: int,
    keep: int,
    amount_in: int,
)
    by (nonlinear_arith)
    requires
        0 <= reserve_in,
        0 <= amount_out < reserve_out,
        0 < keep <= FEE_DIVISOR,
        amount_in == (reserve_in * FEE_DIVISOR * amount_out) / ((reserve_out - amount_out)
            * keep) + 1,
    ensures
        amount_in > 0,
        (reserve_in + amount_in) * (reserve_out - amount_out) >= reserve_in * reserve_out,
{
    let den = (reserve_out - amount_out) * keep;
    let x = reserve_in * FEE_DIVISOR * amount_out;
    assert(den > 0);
    assert(x / den >= 0);
    assert(amount_in * den > x);
    assert(amount_in * (reserve_out - amount_out) * FEE_DIVISOR >= amount_in * den);
    assert(FEE_DIVISOR * (amount_in * (reserve_out - amount_out)) > FEE_DIVISOR * (reserve_in
        * amount_out));
    assert(amount_in * (reserve_out - amount_out) > reserve_in * amount_out);
}

/// With a fee, a swap that brings something into a funded pool makes the
/// product of the two reserves strictly larger: the fee stays in the pool.
pub proof fn lemma_fee_grows_product(
    reserve_in: int,
    reserve_out: int,
    amount_in: int,
    total_fee: int,
    amount_out: int,
)
    by (nonlinear_arith)
    requires
        0 < reserve_in,
        0 < reserve_out,
        0 < amount_in,
        0 < total_fee < FEE_DIVISOR,
        amount_out == (amount_in * (FEE_DIVISOR - total_fee) * reserve_out) / (FEE_DIVISOR
            * reserve_in + amount_in * (FEE_DIVISOR - total_fee)),
    ensures
        0 <= amount_out < reserve_out,
        (reserve_in + amount_in) * (reserve_out - amount_out) > reserve_in * reserve_out,
{
    let net = amount_in * (FEE_DIVISOR - total_fee);
    let den = FEE_DIVISOR * reserve_in + net;
    assert(0 < net < amount_in * FEE_DIVISOR);
    assert(amount_out * den <= net * reserve_out);
    assert(net * reserve_out < den * reserve_out);
    assert(amount_out < reserve_out);
    assert(amount_out * (FEE_DIVISOR * reserve_in) <= net * (reserve_out - amount_out));
    assert(net * (reserve_out - amount_out) < amount_in * FEE_DIVISOR * (reserve_out
        - amount_out));
    assert(FEE_DIVISOR * (amount_out * reserve_in) < FEE_DIVISOR * (amount_in * (reserve_out
        - amount_out)));
    assert(amount_out * reserve_in < amount_in * (reserve_out - amount_out));
}

/// What a swap asks for to pay out an amount is enough: a swap of that
/// exact input would pay out at least the amount.
pub proof fn lemma_input_buys_output(
    reserve_in: int,
    reserve_out: int,
    amount_out: int,
    total_fee: int,
    amount_in: int,
)
    by (nonlinear_arith)
    requires
        0 <= reserve_in,
        0 <= amount_out < reserve_out,
        0 <= total_fee < FEE_DIVISOR,
        amount_in == (reserve_in * FEE_DIVISOR * amount_out) / ((reserve_out - amount_out) * (
        FEE_DIVISOR - total_fee)) + 1,
    ensures
        (amount_in * (FEE_DIVISOR - total_fee) * reserve_out) / (FEE_DIVISOR * reserve_in
            + amount_in * (FEE_DIVISOR - total_fee)) >= amount_out,
{
    let keep = FEE_DIVISOR - total_fee;
    let den = (reserve_out - amount_out) * keep;
    let x = reserve_in * FEE_DIVISOR * amount_out;
    assert(den > 0);
    assert(x / den >= 0);
    assert(amount_in * den > x);
    let net = amount_in * keep;
    assert(net * (reserve_out - amount_out) > reserve_in * FEE_DIVISOR * amount_out);
    assert(net * reserve_out > amount_out * (FEE_DIVISOR * reserve_in + net));
    let whole = FEE_DIVISOR * reserve_in + net;
    assert(whole > 0);
    assert((net * reserve_out) / whole >= amount_out) by {
        assert(amount_out * whole <= net * reserve_out);
    }
}

/// What a committed swap does to a pool, whichever side was fixed.
pub open spec fn swapped(
    pool: PoolView,
    next: PoolView,
    token_in: Seq<char>,
    amount_in: nat,
    token_out: Seq<char>,
    amount_out: nat,
) -> bool {
    let i = pool.tokens.index_of(token_in);
    let o = pool.tokens.index_of(token_out);
    &&& next.wf()
    &&& 0 <= i < pool.tokens.len() && 0 <= o < pool.tokens.len() && i != o
    &&& next.tokens == pool.tokens
    &&& next.total_fee == pool.total_fee
    &&& next.reserves.len() == pool.reserves.len()
    &&& next.reserves[i] - pool.reserves[i] == amount_in
    &&& pool.reserves[o] - next.reserves[o] == amount_out
    &&& forall|k: int|
        0 <= k < pool.reserves.len() && k != i && k != o ==> next.reserves[k] == pool.reserves[k]
    &&& next.reserves[i] * next.reserves[o] >= pool.reserves[i] * pool.reserves[o]
    &&& next.volumes[i].input == pool.volumes[i].input + amount_in
    &&& next.volumes[o].output == pool.volumes[o].output + amount_out
    &&& next.ledger.total >= pool.ledger.total
    &&& next.ledger.accounts == pool.ledger.accounts
}

proof fn lemma_settle_swap(
    pool: PoolView,
    token_in: Seq<char>,
    amount_in: nat,
    token_out: Seq<char>,
    amount_out: nat,
    fees: AdminFeesView,
)
    requires
        pool.wf(),
        token_in != token_out,
        pool.tokens.contains(token_in),
        pool.tokens.contains(token_out),
        amount_out <= pool.reserves[pool.tokens.index_of(token_out)],
        (pool.reserves[pool.tokens.index_of(token_in)] + amount_in) * (pool.reserves[pool.tokens.index_of(
            token_out,
        )] - amount_out) >= pool.reserves[pool.tokens.index_of(token_in)]
            * pool.reserves[pool.tokens.index_of(token_out)],
        settle_swap(
            pool,
            pool.tokens.index_of(token_in),
            pool.tokens.index_of(token_out),
            amount_in,
            amount_out,
            fees,
        ) is Ok,
    ensures
        swapped(
            pool,
            settle_swap(
                pool,
                pool.tokens.index_of(token_in),
                pool.tokens.index_of(token_out),
                amount_in,
                amount_out,
                fees,
            )->Ok_0,
            token_in,
            amount_in,
            token_out,
            amount_out,
        ),
{
    let i = pool.tokens.index_of(token_in);
    let o = pool.tokens.index_of(token_out);
    assert(pool.tokens[i] == token_in && pool.tokens[o] == token_out);
    let (e, r) = pool.admin_shares(
        fees,
        fee_on(amount_in, pool.total_fee),
        value_in_token(pool, i, amount_in),
    )->Ok_0;
    crate::ledger::lemma_settle_preserves_wf(
        pool.ledger,
        fees.exchange_id,
        0,
        0,
        fees.exchange_id,
        e,
        fees.referral_account(),
        r,
    );
}

/// Conservation: a swap of an exact input adds exactly `amount_in` to the
/// reserve of the token paid in, takes exactly the amount paid out from the
/// reserve of the other, leaves every other reserve alone, pays out no less
/// than the minimum asked for, and never lets the product of the reserves
/// fall.
pub proof fn swap_conserves(
    pool: PoolView,
    token_in: Seq<char>,
    amount_in: nat,
    token_out: Seq<char>,
    min_amount_out: nat,
    fees: AdminFeesView,
)
    requires
        pool.wf(),
        swap(pool, token_in, amount_in, token_out, min_amount_out, fees) is Ok,
    ensures
        ({
            let (amount_out, next) = swap(
                pool,
                token_in,
                amount_in,
                token_out,
                min_amount_out,
                fees,
            )->Ok_0;
            amount_out >= min_amount_out && swapped(
                pool,
                next,
                token_in,
                amount_in,
                token_out,
                amount_out,
            )
        }),
{
    let i = pool.tokens.index_of(token_in);
    let o = pool.tokens.index_of(token_out);
    let net = net_of_fee(amount_in, pool.total_fee);
    let amount_out = swap_output(pool.reserves[i], pool.reserves[o], amount_in, pool.total_fee);
    assert(net <= amount_in * FEE_DIVISOR) by (nonlinear_arith)
        requires
            net == amount_in * (FEE_DIVISOR - pool.total_fee),
            0 <= pool.total_fee,
    ;
    lemma_output_keeps_product(
        pool.reserves[i] as int,
        pool.reserves[o] as int,
        amount_in as int,
        net as int,
        amount_out as int,
    );
    lemma_settle_swap(pool, token_in, amount_in, token_out, amount_out, fees);
}

/// The fee stays with the pool: with a fee above zero, a swap that brings
/// something in makes the product of the two reserves strictly larger.
/// Without a fee the product does not fall.
pub proof fn fee_grows_product(
    pool: PoolView,
    token_in: Seq<char>,
    amount_in: nat,
    token_out: Seq<char>,
    min_amount_out: nat,
    fees: AdminFeesView,
)
    requires
        pool.wf(),
        swap(pool, token_in, amount_in, token_out, min_amount_out, fees) is Ok,
        pool.total_fee > 0,
        amount_in > 0,
    ensures
        ({
            let next = swap(pool, token_in, amount_in, token_out, min_amount_out, fees)->Ok_0.1;
            let i = pool.tokens.index_of(token_in);
            let o = pool.tokens.index_of(token_out);
            next.reserves[i] * next.reserves[o] > pool.reserves[i] * pool.reserves[o]
        }),
{
    let i = pool.tokens.index_of(token_in);
    let o = pool.tokens.index_of(token_out);
    let amount_out = swap_output(pool.reserves[i], pool.reserves[o], amount_in, pool.total_fee);
    swap_conserves(pool, token_in, amount_in, token_out, min_amount_out, fees);
    lemma_fee_grows_product(
        pool.reserves[i] as int,
        pool.reserves[o] as int,
        amount_in as int,
        pool.total_fee as int,
        amount_out as int,
    );
}

/// What a swap of an exact output asks for is enough: a swap of that exact
/// input between the same reserves would pay out at least the amount.
pub proof fn input_buys_output(reserve_in: nat, reserve_out: nat, amount_out: nat, total_fee: nat)
    requires
        amount_out < reserve_out,
        total_fee < FEE_DIVISOR,
    ensures
        swap_output(
            reserve_in,
            reserve_out,
            swap_input(reserve_in, reserve_out, amount_out, total_fee),
            total_fee,
        ) >= amount_out,
{
    lemma_input_buys_output(
        reserve_in as int,
        reserve_out as int,
        amount_out as int,
        total_fee as int,
        swap_input(reserve_in, reserve_out, amount_out, total_fee) as int,
    );
}

/// Conservation for a swap of an exact output: the same, with the amount
/// asked for within the maximum given.
pub proof fn swap_by_output_conserves(
    pool: PoolView,
    token_in: Seq<char>,
    amount_out: nat,
    token_out: Seq<char>,
    max_amount_in: Option<nat>,
    fees: AdminFeesView,
)
    requires
        pool.wf(),
        swap_by_output(pool, token_in, amount_out, token_out, max_amount_in, fees) is Ok,
    ensures
        ({
            let (amount_in, next) = swap_by_output(
                pool,
                token_in,
                amount_out,
                token_out,
                max_amount_in,
                fees,
            )->Ok_0;
            &&& max_amount_in matches Some(m) ==> amount_in <= m
            &&& swapped(pool, next, token_in, amount_in, token_out, amount_out)
        }),
{
    let i = pool.tokens.index_of(token_in);
    let o = pool.tokens.index_of(token_out);
    let amount_in = swap_input(pool.reserves[i], pool.reserves[o], amount_out, pool.total_fee);
    lemma_input_keeps_product(
        pool.reserves[i] as int,
        pool.reserves[o] as int,
        amount_out as int,
        (FEE_DIVISOR - pool.total_fee) as int,
        amount_in as int,
    );
    lemma_settle_swap(pool, token_in, amount_in, token_out, amount_out, fees);
}

/// The least of a sequence of amounts.
pub open spec fn minimum(s: Seq<nat>) -> nat
    decreases s.len(),
{
    if s.len() == 0 {
        0
    } else if s.len() == 1 {
        s[0]
    } else if s.last() < minimum(s.drop_last()) {
        s.last()
    } else {
        minimum(s.drop_last())
    }
}

pub proof fn lemma_minimum_is_least(s: Seq<nat>, i: int)
    requires
        0 <= i < s.len(),
    ensures
        minimum(s) <= s[i],
    decreases s.len(),
{
    if s.len() > 1 && i < s.len() - 1 {
        lemma_minimum_is_least(s.drop_last(), i);
    }
}

/// For each token, the shares that the amount offered would buy alone at
/// the pool's present ratio, rounded down.
pub open spec fn quotes(pool: PoolView, amounts: Seq<nat>) -> Seq<nat> {
    Seq::new(
        amounts.len(),
        |i: int| mul_div_floor(amounts[i], pool.ledger.total, pool.reserves[i]),
    )
}

/// Shares minted for a deposit: the fixed initial supply for the first
/// deposit into a pool without shares, else what the scarcest amount
/// offered buys.
pub open spec fn deposit_shares(pool: PoolView, amounts: Seq<nat>) -> nat {
    if pool.ledger.total == 0 {
        INIT_SHARES_SUPPLY as nat
    } else {
        minimum(quotes(pool, amounts))
    }
}

/// What a deposit takes of each amount offered: all of it for the first
/// deposit, else the amount that keeps the pool's ratio for the shares
/// minted, rounded up.
pub open spec fn deposit_used(pool: PoolView, amounts: Seq<nat>) -> Seq<nat> {
    if pool.ledger.total == 0 {
        amounts
    } else {
        Seq::new(
            amounts.len(),
            |i: int|
                mul_div_ceil(pool.reserves[i], deposit_shares(pool, amounts), pool.ledger.total),
        )
    }
}

/// The reserves after a deposit.
pub open spec fn deposit_reserves(pool: PoolView, amounts: Seq<nat>) -> Seq<nat> {
    Seq::new(amounts.len(), |i: int| pool.reserves[i] + deposit_used(pool, amounts)[i])
}

/// A deposit: the shares minted, what was taken of each amount offered, and
/// the pool afterwards.
pub open spec fn add_liquidity(pool: PoolView, sender: Seq<char>, amounts: Seq<nat>) -> Result<
    (nat, Seq<nat>, PoolView),
    PoolError,
> {
    if amounts.len() != pool.reserves.len() || has_zero(amounts) {
        Err(PoolError::InvalidAmounts)
    } else if pool.ledger.total > 0 && has_zero(pool.reserves) {
        Err(PoolError::InvalidAmounts)
    } else if pool.ledger.total > 0 && exceeds(quotes(pool, amounts)) {
        Err(PoolError::ArithmeticOverflow)
    } else if deposit_shares(pool, amounts) == 0 {
        Err(PoolError::InvalidAmounts)
    } else if exceeds(deposit_reserves(pool, amounts)) {
        Err(PoolError::ArithmeticOverflow)
    } else {
        match pool.commit_liquidity(
            deposit_reserves(pool, amounts),
            sender,
            0,
            deposit_shares(pool, amounts),
            AdminFeesView::zero(),
            0,
            0,
        ) {
            Err(e) => Err(e),
            Ok(next) => Ok((deposit_shares(pool, amounts), deposit_used(pool, amounts), next)),
        }
    }
}

/// What keeps the ratio for shares bought at a quote is within what was
/// offered.
pub proof fn lemma_used_within_offer(offered: int, reserve: int, total: int, shares: int)
    by (nonlinear_arith)
    requires
        0 <= offered,
        0 < reserve,
        0 < total,
        0 <= shares <= (offered * total) / reserve,
    ensures
        (reserve * shares) / total <= offered,
        (reserve * shares) % total != 0 ==> (reserve * shares) / total + 1 <= offered,
        (reserve * shares) / total >= 0,
{
    let q = (offered * total) / reserve;
    assert(q * reserve <= offered * total);
    assert(shares * reserve <= q * reserve);
    let x = reserve * shares;
    assert(x <= offered * total);
    assert(x == total * (x / total) + x % total);
    assert(0 <= x % total < total);
    if x % total != 0 {
        assert(total * (x / total) < offered * total);
        assert(x / total < offered);
    } else {
        assert(total * (x / total) <= offered * total);
        assert(x / total <= offered);
    }
}

/// A deposit takes no more than was offered and adds exactly what it takes
/// to the reserves. Into a pool with shares it takes of every token at
/// least the worth of the shares minted; into a pool without shares it
/// takes all that was offered and mints the initial supply.
pub proof fn deposit_is_fair(pool: PoolView, sender: Seq<char>, amounts: Seq<nat>)
    requires
        pool.wf(),
        add_liquidity(pool, sender, amounts) is Ok,
    ensures
        ({
            let (shares, used, next) = add_liquidity(pool, sender, amounts)->Ok_0;
            &&& next.wf()
            &&& shares > 0
            &&& used.len() == amounts.len()
            &&& forall|i: int| 0 <= i < used.len() ==> used[i] <= amounts[i]
            &&& forall|i: int|
                0 <= i < used.len() ==> next.reserves[i] == pool.reserves[i] + used[i]
            &&& pool.ledger.total > 0 ==> forall|i: int|
                0 <= i < used.len() ==> used[i] * pool.ledger.total >= pool.reserves[i] * shares
            &&& pool.ledger.total == 0 ==> used == amounts && shares == INIT_SHARES_SUPPLY
            &&& next.ledger.total == pool.ledger.total + shares
            &&& next.ledger.balance_of(sender) == pool.ledger.balance_of(sender) + shares
        }),
{
    let (shares, used, next) = add_liquidity(pool, sender, amounts)->Ok_0;
    crate::ledger::lemma_settle_preserves_wf(
        pool.ledger,
        sender,
        0,
        shares,
        AdminFeesView::zero().exchange_id,
        0,
        AdminFeesView::zero().referral_account(),
        0,
    );
    crate::ledger::lemma_with_balance(
        pool.ledger,
        sender,
        pool.ledger.balance_of(sender) + shares,
        pool.ledger.total + shares,
    );
    assert forall|i: int| 0 <= i < used.len() implies next.reserves[i] <= u128::MAX by {
        assert(deposit_reserves(pool, amounts)[i] <= u128::MAX);
    }
    if pool.ledger.total > 0 {
        assert forall|i: int| 0 <= i < used.len() implies used[i] <= amounts[i] && used[i]
            * pool.ledger.total >= pool.reserves[i] * shares by {
            lemma_minimum_is_least(quotes(pool, amounts), i);
            assert(pool.reserves[i] != 0);
            lemma_used_within_offer(
                amounts[i] as int,
                pool.reserves[i] as int,
                pool.ledger.total as int,
                shares as int,
            );
            let x = pool.reserves[i] as int * shares as int;
            let t = pool.ledger.total as int;
            assert(used[i] * t >= x) by (nonlinear_arith)
                requires
                    t > 0,
                    x >= 0,
                    used[i] == if x % t == 0 {
                        x / t
                    } else {
                        x / t + 1
                    },
            ;
        }
    }
}

/// Round trip: what is deposited into a pool that holds nothing and has
/// issued no share comes back exactly when all the minted shares are
/// withdrawn at once, and the pool is then empty again.
pub proof fn first_deposit_round_trip(pool: PoolView, sender: Seq<char>, amounts: Seq<nat>)
    requires
        pool.wf(),
        pool.ledger.total == 0,
        forall|i: int| 0 <= i < pool.reserves.len() ==> pool.reserves[i] == 0,
        add_liquidity(pool, sender, amounts) is Ok,
    ensures
        ({
            let (shares, used, next) = add_liquidity(pool, sender, amounts)->Ok_0;
            let back = next.remove_liquidity(
                sender,
                shares,
                Seq::new(amounts.len(), |i: int| 0nat),
            );
            &&& used == amounts
            &&& back matches Ok((paid, last)) && paid == amounts && last.ledger.total == 0
                && forall|i: int| 0 <= i < last.reserves.len() ==> last.reserves[i] == 0
        }),
{
    let (shares, used, next) = add_liquidity(pool, sender, amounts)->Ok_0;
    deposit_is_fair(pool, sender, amounts);
    let minimums = Seq::new(amounts.len(), |i: int| 0nat);
    let paid = next.withdrawal(shares);
    assert forall|i: int| 0 <= i < paid.len() implies paid[i] == amounts[i] by {
        assert(next.reserves[i] == amounts[i]);
        assert((amounts[i] * shares) / shares == amounts[i]) by (nonlinear_arith)
            requires
                shares > 0,
        ;
    }
    assert(paid =~= amounts);
    assert(PoolView::meets_minimums(paid, minimums));
    crate::ledger::lemma_settle_preserves_wf(
        next.ledger,
        sender,
        shares,
        0,
        AdminFeesView::zero().exchange_id,
        0,
        AdminFeesView::zero().referral_account(),
        0,
    );
    crate::state::withdrawal_is_proportional(next, sender, shares, minimums);
}

/// A pool on the constant-product curve.
pub struct SimplePool {
    pub state: PoolState,
}

impl View for SimplePool {
    type V = PoolView;

    open spec fn view(&self) -> PoolView {
        self.state@
    }
}

impl SimplePool {
    pub open spec fn wf(&self) -> bool {
        self.state.wf()
    }

    /// An empty pool over the given tokens.
    pub fn new(tokens: Vec<AccountId>, total_fee: u32) -> (res: Result<SimplePool, PoolError>)
        ensures
            match PoolView::create(crate::state::ids(tokens@), total_fee as nat) {
                Ok(v) => res matches Ok(pool) && pool@ == v && pool.wf(),
                Err(e) => res matches Err(x) && x == e,
            },
    {
        match PoolState::new(tokens, total_fee) {
            Ok(state) => Ok(SimplePool { state }),
            Err(e) => Err(e),
        }
    }

    fn settle_swap(
        &mut self,
        index_in: usize,
        index_out: usize,
        amount_in: Balance,
        amount_out: Balance,
        fees: &AdminFees,
        simulate: bool,
    ) -> (res: Result<(), PoolError>)
        requires
            old(self).wf(),
            index_in < old(self)@.reserves.len(),
            index_out < old(self)@.reserves.len(),
            index_in != index_out,
        ensures
            final(self).wf(),
            crate::state::unit_outcome(
                settle_swap(
                    old(self)@,
                    index_in as int,
                    index_out as int,
                    amount_in as nat,
                    amount_out as nat,
                    fees@,
                ),
                simulate,
                old(self)@,
                final(self)@,
                res,
            ),
    {
        let reserves = self.state.reserves();
        let count: u128 = reserves.len() as u128;
        assert(crate::state::to_nats(reserves@)[index_in as int] == reserves@[index_in as int]);
        let total_in: Option<u128> = reserves[index_in].checked_add(amount_in);
        let pool_value: Balance = match total_in {
            Some(t) => match t.checked_mul(count) {
                Some(v) => v,
                None => {
                    assert(count * t == t * count) by (nonlinear_arith);
                    return Err(PoolError::ArithmeticOverflow);
                },
            },
            None => {
                assert(count * (reserves@[index_in as int] + amount_in) >= reserves@[index_in as int]
                    + amount_in) by (nonlinear_arith)
                    requires
                        count >= 2,
                ;
                return Err(PoolError::ArithmeticOverflow);
            },
        };
        assert(pool_value == value_in_token(self@, index_in as int, amount_in as nat)) by {
            let t = (reserves@[index_in as int] + amount_in) as int;
            assert(count * t == t * count) by (nonlinear_arith);
        }
        let fee_value: Balance = charge(amount_in, self.state.total_fee());
        let (exchange_shares, referral_shares) = match self.state.admin_shares(
            fees,
            fee_value,
            pool_value,
        ) {
            Ok(pair) => pair,
            Err(e) => {
                return Err(e);
            },
        };
        self.state.commit_swap(
            index_in,
            index_out,
            amount_in,
            amount_out,
            fees,
            exchange_shares,
            referral_shares,
            simulate,
        )
    }

    /// Swaps `amount_in` of one token for another and returns the amount
    /// paid out.
    pub fn swap(
        &mut self,
        token_in: &AccountId,
        amount_in: Balance,
        token_out: &AccountId,
        min_amount_out: Balance,
        admin_fee: &AdminFees,
        is_view: bool,
    ) -> (res: Result<Balance, PoolError>)
        requires
            old(self).wf(),
        ensures
            final(self).wf(),
            amount_outcome(
                swap(
                    old(self)@,
                    token_in@,
                    amount_in as nat,
                    token_out@,
                    min_amount_out as nat,
                    admin_fee@,
                ),
                is_view,
                old(self)@,
                final(self)@,
                res,
            ),
    {
        let index_in: usize = match self.state.token_index(token_in) {
            Some(i) => i,
            None => {
                return Err(PoolError::InvalidToken);
            },
        };
        let index_out: usize = match self.state.token_index(token_out) {
            Some(i) => i,
            None => {
                return Err(PoolError::InvalidToken);
            },
        };
        if index_in == index_out {
            return Err(PoolError::InvalidToken);
        }
        let total_fee: u32 = self.state.total_fee();
        let reserves = self.state.reserves();
        let reserve_in: Balance = reserves[index_in];
        let reserve_out: Balance = reserves[index_out];
        assert(crate::state::to_nats(reserves@)[index_in as int] == reserve_in);
        assert(crate::state::to_nats(reserves@)[index_out as int] == reserve_out);
        if reserve_in == 0 || reserve_out == 0 {
            return Err(PoolError::InvalidAmounts);
        }
        let net: Balance = match amount_in.checked_mul((FEE_DIVISOR - total_fee) as u128) {
            Some(v) => v,
            None => {
                return Err(PoolError::ArithmeticOverflow);
            },
        };
        let scaled: Option<u128> = reserve_in.checked_mul(FEE_DIVISOR as u128);
        let denominator: Balance = match scaled {
            Some(s) => match s.checked_add(net) {
                Some(v) => v,
                None => {
                    assert(FEE_DIVISOR * reserve_in == reserve_in * FEE_DIVISOR)
                        by (nonlinear_arith);
                    return Err(PoolError::ArithmeticOverflow);
                },
            },
            None => {
                assert(FEE_DIVISOR * reserve_in == reserve_in * FEE_DIVISOR) by (nonlinear_arith);
                return Err(PoolError::ArithmeticOverflow);
            },
        };
        assert(FEE_DIVISOR * reserve_in == reserve_in * FEE_DIVISOR) by (nonlinear_arith);
        proof {
            lemma_mul_div_bounded(reserve_out as int, net as int, denominator as int);
            assert(net as int * reserve_out as int == reserve_out as int * net as int)
                by (nonlinear_arith);
        }
        let amount_out: Balance = mul_div(net, reserve_out, denominator).unwrap();
        if amount_out < min_amount_out {
            return Err(PoolError::SlippageExceeded);
        }
        match self.settle_swap(index_in, index_out, amount_in, amount_out, admin_fee, is_view) {
            Err(e) => Err(e),
            Ok(()) => Ok(amount_out),
        }
    }

    /// Swaps one token for `amount_out` of another and returns the amount
    /// that had to be paid in.
    pub fn swap_by_output(
        &mut self,
        token_in: &AccountId,
        amount_out: Balance,
        token_out: &AccountId,
        max_amount_in: Option<u128>,
        admin_fee: &AdminFees,
        is_view: bool,
    ) -> (res: Result<Balance, PoolError>)
        requires
            old(self).wf(),
        ensures
            final(self).wf(),
            amount_outcome(
                swap_by_output(
                    old(self)@,
                    token_in@,
                    amount_out as nat,
                    token_out@,
                    match max_amount_in {
                        Some(m) => Some(m as nat),
                        None => None,
                    },
                    admin_fee@,
                ),
                is_view,
                old(self)@,
                final(self)@,
                res,
            ),
    {
        let index_in: usize = match self.state.token_index(token_in) {
            Some(i) => i,
            None => {
                return Err(PoolError::InvalidToken);
            },
        };
        let index_out: usize = match self.state.token_index(token_out) {
            Some(i) => i,
            None => {
                return Err(PoolError::InvalidToken);
            },
        };
        if index_in == index_out {
            return Err(PoolError::InvalidToken);
        }
        let total_fee: u32 = self.state.total_fee();
        let reserves = self.state.reserves();
        let reserve_in: Balance = reserves[index_in];
        let reserve_out: Balance = reserves[index_out];
        assert(crate::state::to_nats(reserves@)[index_in as int] == reserve_in);
        assert(crate::state::to_nats(reserves@)[index_out as int] == reserve_out);
        if reserve_in == 0 || amount_out >= reserve_out {
            return Err(PoolError::InvalidAmounts);
        }
        let scaled: Balance = match reserve_in.checked_mul(FEE_DIVISOR as u128) {
            Some(v) => v,
            None => {
                return Err(PoolError::ArithmeticOverflow);
            },
        };
        let denominator: Balance = match (reserve_out - amount_out).checked_mul(
            (FEE_DIVISOR - total_fee) as u128,
        ) {
            Some(v) => v,
            None => {
                return Err(PoolError::ArithmeticOverflow);
            },
        };
        assert(denominator > 0) by (nonlinear_arith)
            requires
                denominator == (reserve_out - amount_out) * (FEE_DIVISOR - total_fee),
                reserve_out - amount_out > 0,
                FEE_DIVISOR - total_fee > 0,
        ;
        let amount_in: Balance = match mul_div(scaled, amount_out, denominator) {
            Some(q) => match q.checked_add(1) {
                Some(v) => v,
                None => {
                    return Err(PoolError::ArithmeticOverflow);
                },
            },
            None => {
                return Err(PoolError::ArithmeticOverflow);
            },
        };
        match max_amount_in {
            Some(m) => {
                if amount_in > m {
                    return Err(PoolError::SlippageExceeded);
                }
            },
            None => {},
        }
        match self.settle_swap(index_in, index_out, amount_in, amount_out, admin_fee, is_view) {
            Err(e) => Err(e),
            Ok(()) => Ok(amount_in),
        }
    }

    /// Deposits into the pool at its present ratio and returns the shares
    /// minted. `amounts` holds what is offered of each token and, after the
    /// call, what was taken.
    #[verifier::loop_isolation(false)]
    pub fn add_liquidity(
        &mut self,
        sender_id: &AccountId,
        amounts: &mut Vec<Balance>,
        is_view: bool,
    ) -> (res: Result<Balance, PoolError>)
        requires
            old(self).wf(),
        ensures
            final(self).wf(),
            match add_liquidity(old(self)@, sender_id@, to_nats(old(amounts)@)) {
                Ok((shares, used, next)) => res matches Ok(v) && v == shares && to_nats(
                    final(amounts)@,
                ) == used && final(self)@ == (if is_view {
                    old(self)@
                } else {
                    next
                }),
                Err(e) => res == Err::<Balance, PoolError>(e) && final(self)@ == old(self)@
                    && final(amounts)@ == old(amounts)@,
            },
    {
        let ghost pool = self@;
        let ghost given = to_nats(amounts@);
        let held = self.state.reserves();
        let count: usize = held.len();
        if amounts.len() != count {
            return Err(PoolError::InvalidAmounts);
        }
        let total: Balance = self.state.shares().total_supply();
        let mut i: usize = 0;
        while i < count
            invariant
                i <= count,
                forall|j: int| 0 <= j < i ==> given[j] != 0,
            decreases count - i,
        {
            if amounts[i] == 0 {
                assert(given[i as int] == 0);
                return Err(PoolError::InvalidAmounts);
            }
            i = i + 1;
        }
        assert(!has_zero(given));
        let mut shares: Balance = INIT_SHARES_SUPPLY;
        if total > 0 {
            i = 0;
            while i < count
                invariant
                    i <= count,
                    forall|j: int| 0 <= j < i ==> pool.reserves[j] != 0,
                decreases count - i,
            {
                if held[i] == 0 {
                    assert(pool.reserves[i as int] == 0);
                    return Err(PoolError::InvalidAmounts);
                }
                i = i + 1;
            }
            assert(!has_zero(pool.reserves));
            let ghost quoted = quotes(pool, given);
            i = 0;
            while i < count
                invariant
                    i <= count,
                    forall|j: int| 0 <= j < i ==> quoted[j] <= u128::MAX,
                    i > 0 ==> shares == minimum(quoted.take(i as int)),
                decreases count - i,
            {
                assert(pool.reserves[i as int] == held@[i as int]);
                assert(given[i as int] == amounts@[i as int]);
                let quote: Balance = match mul_div(amounts[i], total, held[i]) {
                    Some(q) => q,
                    None => {
                        assert(quoted[i as int] > u128::MAX);
                        return Err(PoolError::ArithmeticOverflow);
                    },
                };
                proof {
                    assert(quoted.take(i + 1).drop_last() =~= quoted.take(i as int));
                    assert(quoted.take(i + 1).last() == quote);
                }
                if i == 0 || quote < shares {
                    shares = quote;
                }
                i = i + 1;
            }
            proof {
                assert(quoted.take(count as int) =~= quoted);
            }
            assert(!exceeds(quoted));
        }
        assert(shares == deposit_shares(pool, given));
        if shares == 0 {
            return Err(PoolError::InvalidAmounts);
        }
        let ghost taken = deposit_used(pool, given);
        let ghost grown = deposit_reserves(pool, given);
        let mut used: Vec<Balance> = Vec::new();
        let mut reserves: Vec<Balance> = Vec::new();
        i = 0;
        while i < count
            invariant
                i <= count,
                used@.len() == i,
                reserves@.len() == i,
                forall|j: int| 0 <= j < i ==> used@[j] == taken[j],
                forall|j: int| 0 <= j < i ==> reserves@[j] == grown[j],
            decreases count - i,
        {
            assert(pool.reserves[i as int] == held@[i as int]);
            assert(given[i as int] == amounts@[i as int]);
            let take: Balance = if total == 0 {
                amounts[i]
            } else {
                proof {
                    lemma_minimum_is_least(quotes(pool, given), i as int);
                    lemma_used_within_offer(
                        given[i as int] as int,
                        pool.reserves[i as int] as int,
                        total as int,
                        shares as int,
                    );
                }
                mul_div_up(held[i], shares, total).unwrap()
            };
            assert(take == taken[i as int]);
            let reserve: Balance = match held[i].checked_add(take) {
                Some(v) => v,
                None => {
                    assert(grown[i as int] > u128::MAX);
                    return Err(PoolError::ArithmeticOverflow);
                },
            };
            used.push(take);
            reserves.push(reserve);
            i = i + 1;
        }
        proof {
            assert(!exceeds(grown));
            assert(to_nats(used@) =~= taken);
            assert(to_nats(reserves@) =~= grown);
        }
        let fees = AdminFees::zero();
        match self.state.commit_liquidity(reserves, sender_id, 0, shares, &fees, 0, 0, is_view) {
            Err(e) => Err(e),
            Ok(()) => {
                *amounts = used;
                Ok(shares)
            },
        }
    }

    /// Burns `shares` of the sender and pays out the same fraction of every
    /// reserve, rounded down.
    pub fn remove_liquidity(
        &mut self,
        sender_id: &AccountId,
        shares: Balance,
        min_amounts: Vec<Balance>,
        is_view: bool,
    ) -> (res: Result<Vec<Balance>, PoolError>)
        requires
            old(self).wf(),
        ensures
            final(self).wf(),
            amounts_outcome(
                old(self)@.remove_liquidity(sender_id@, shares as nat, to_nats(min_amounts@)),
                is_view,
                old(self)@,
                final(self)@,
                res,
            ),
    {
        self.state.remove_liquidity(sender_id, shares, min_amounts, is_view)
    }
}

} // verus!
