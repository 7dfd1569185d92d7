//! How a pool's fee is divided between liquidity providers, the exchange
//! and a referrer.

use crate::errors::PoolError;
use crate::math::{lemma_mul_div_bounded, mul_div, mul_div_floor};
use near_sdk::{AccountId, Balance};
use vstd::prelude::*;

verus! {

/// Fee rates are parts of this many.
pub const FEE_DIVISOR: u32 = 10_000;

/// The fee charged on an amount paid in, rounded up.
pub open spec fn fee_on(amount: nat, total_fee: nat) -> nat {
    (amount - mul_div_floor(amount, (FEE_DIVISOR - total_fee) as nat, FEE_DIVISOR as nat)) as nat
}

/// The fee charged on an amount: see [`fee_on`].
pub fn charge(amount: Balance, total_fee: u32) -> (res: Balance)
    requires
        total_fee <= FEE_DIVISOR,
    ensures
        res == fee_on(amount as nat, total_fee as nat),
        res <= amount,
{
    proof {
        lemma_mul_div_bounded(amount as int, (FEE_DIVISOR - total_fee) as int, FEE_DIVISOR as int);
    }
    let kept: Balance = mul_div(
        amount,
        (FEE_DIVISOR - total_fee) as u128,
        FEE_DIVISOR as u128,
    ).unwrap();
    amount - kept
}

/// The part of a pool's fee that does not stay with liquidity providers.
///
/// Both rates are parts of the pool's total fee rate, in the same unit, so
/// together they may not exceed it. The referrer's rate applies only where a
/// referrer is named.
pub struct AdminFees {
    /// Rate that goes to the exchange.
    pub exchange_fee: u32,
    /// Account of the exchange.
    pub exchange_id: AccountId,
    /// Rate that goes to the referrer.
    pub referral_fee: u32,
    /// Account of the referrer, if there is one.
    pub referral_id: Option<AccountId>,
}

/// A fee amount divided among its three recipients.
#[derive(Clone, Copy, Debug, PartialEq, Eq, Structural)]
pub struct FeeSplit {
    /// Stays in the reserves for liquidity providers.
    pub lp: Balance,
    /// Goes to the exchange.
    pub exchange: Balance,
    /// Goes to the referrer.
    pub referral: Balance,
}

/// What [`AdminFees`] is, mathematically.
pub struct AdminFeesView {
    pub exchange_fee: nat,
    pub exchange_id: Seq<char>,
    pub referral_fee: nat,
    pub referral_id: Option<Seq<char>>,
}

impl AdminFeesView {
    /// No admin fee: the whole fee stays with liquidity providers.
    pub open spec fn zero() -> AdminFeesView {
        AdminFeesView {
            exchange_fee: 0,
            exchange_id: Seq::empty(),
            referral_fee: 0,
            referral_id: None,
        }
    }

    /// The referrer's rate, which is zero where no referrer is named.
    pub open spec fn effective_referral_fee(self) -> nat {
        if self.referral_id is Some {
            self.referral_fee
        } else {
            0
        }
    }

    /// The account that receives the referrer's part. Where no referrer is
    /// named that part is zero, and the exchange's account stands in.
    pub open spec fn referral_account(self) -> Seq<char> {
        match self.referral_id {
            Some(id) => id,
            None => self.exchange_id,
        }
    }

    /// Whether the two rates fit inside a total fee rate.
    pub open spec fn within(self, total_fee: nat) -> bool {
        self.exchange_fee + self.effective_referral_fee() <= total_fee
    }

    /// The exchange's part of a fee amount charged at rate `total_fee`,
    /// rounded down.
    pub open spec fn exchange_part(self, amount: nat, total_fee: nat) -> nat {
        if total_fee == 0 {
            0
        } else {
            mul_div_floor(amount, self.exchange_fee, total_fee)
        }
    }

    /// The referrer's part of a fee amount charged at rate `total_fee`,
    /// rounded down.
    pub open spec fn referral_part(self, amount: nat, total_fee: nat) -> nat {
        if total_fee == 0 {
            0
        } else {
            mul_div_floor(amount, self.effective_referral_fee(), total_fee)
        }
    }
}

impl View for AdminFees {
    type V = AdminFeesView;

    open spec fn view(&self) -> AdminFeesView {
        AdminFeesView {
            exchange_fee: self.exchange_fee as nat,
            exchange_id: self.exchange_id@,
            referral_fee: self.referral_fee as nat,
            referral_id: match self.referral_id {
                Some(id) => Some(id@),
                None => None,
            },
        }
    }
}

/// The two admin parts of a fee amount never exceed the amount.
pub proof fn lemma_parts_within_amount(fees: AdminFeesView, amount: nat, total_fee: nat)
    requires
        fees.within(total_fee),
    ensures
        fees.exchange_part(amount, total_fee) + fees.referral_part(amount, total_fee) <= amount,
{
    if total_fee > 0 {
        let e = fees.exchange_fee as int;
        let r = fees.effective_referral_fee() as int;
        let a = amount as int;
        let t = total_fee as int;
        lemma_mul_div_bounded(a, e + r, t);
        assert((a * e) / t + (a * r) / t <= (a * (e + r)) / t) by (nonlinear_arith)
            requires
                0 <= a,
                0 <= e,
                0 <= r,
                0 < t,
        ;
    }
}

impl AdminFees {
    /// Admin fees with the given rates and recipients.
    pub fn new(
        exchange_fee: u32,
        exchange_id: AccountId,
        referral_fee: u32,
        referral_id: Option<AccountId>,
    ) -> (res: AdminFees)
        ensures
            res.exchange_fee == exchange_fee,
            res.exchange_id == exchange_id,
            res.referral_fee == referral_fee,
            res.referral_id == referral_id,
    {
        AdminFees { exchange_fee, exchange_id, referral_fee, referral_id }
    }

    /// Admin fees of zero: the whole fee stays with liquidity providers.
    pub fn zero() -> (res: AdminFees)
        ensures
            res@ == AdminFeesView::zero(),
    {
        AdminFees {
            exchange_fee: 0,
            exchange_id: String::new(),
            referral_fee: 0,
            referral_id: None,
        }
    }

    /// The account that receives the referrer's part; the exchange's where
    /// no referrer is named.
    pub fn referral_account(&self) -> (res: &AccountId)
        ensures
            res@ == self@.referral_account(),
    {
        match &self.referral_id {
            Some(id) => id,
            None => &self.exchange_id,
        }
    }

    /// Divides `amount`, a fee charged at rate `total_fee`, among liquidity
    /// providers, exchange and referrer. The three parts add up to `amount`;
    /// what rounding leaves over stays with liquidity providers. Refused
    /// with `FeeTooHigh` where the admin rates exceed `total_fee`.
    pub fn split(&self, amount: Balance, total_fee: u32) -> (res: Result<FeeSplit, PoolError>)
        ensures
            !self@.within(total_fee as nat) ==> res == Err::<FeeSplit, PoolError>(
                PoolError::FeeTooHigh,
            ),
            self@.within(total_fee as nat) ==> (res matches Ok(parts) && parts.exchange
                == self@.exchange_part(amount as nat, total_fee as nat) && parts.referral
                == self@.referral_part(amount as nat, total_fee as nat) && parts.lp
                + parts.exchange + parts.referral == amount),
    {
        let referral_fee: u32 = if self.referral_id.is_some() {
            self.referral_fee
        } else {
            0
        };
        let within: bool = match self.exchange_fee.checked_add(referral_fee) {
            Some(admin) => admin <= total_fee,
            None => false,
        };
        if !within {
            return Err(PoolError::FeeTooHigh);
        }
        if total_fee == 0 {
            return Ok(FeeSplit { lp: amount, exchange: 0, referral: 0 });
        }
        proof {
            lemma_parts_within_amount(self@, amount as nat, total_fee as nat);
            lemma_mul_div_bounded(amount as int, self.exchange_fee as int, total_fee as int);
            lemma_mul_div_bounded(amount as int, referral_fee as int, total_fee as int);
        }
        let rate: u128 = total_fee as u128;
        let exchange: Balance = mul_div(amount, self.exchange_fee as u128, rate).unwrap();
        let referral: Balance = mul_div(amount, referral_fee as u128, rate).unwrap();
        Ok(FeeSplit { lp: amount - exchange - referral, exchange, referral })
    }
}

} // verus!
