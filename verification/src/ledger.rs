//! Fungible ownership ledger of a pool: a total supply and one balance per
//! registered account.

use crate::errors::PoolError;
use crate::state::{ids, to_nats};
use near_sdk::{AccountId, Balance};
use vstd::prelude::*;

verus! {

/// Sum of a sequence of amounts.
pub open spec fn sum(s: Seq<nat>) -> nat
    decreases s.len(),
{
    if s.len() == 0 {
        0
    } else {
        sum(s.drop_last()) + s.last()
    }
}

pub proof fn lemma_sum_push(s: Seq<nat>, v: nat)
    ensures
        sum(s.push(v)) == sum(s) + v,
{
    assert(s.push(v).drop_last() =~= s);
}

pub proof fn lemma_sum_update(s: Seq<nat>, i: int, v: nat)
    requires
        0 <= i < s.len(),
    ensures
        sum(s.update(i, v)) == sum(s) - s[i] + v,
        s[i] <= sum(s),
    decreases s.len(),
{
    if i == s.len() - 1 {
        assert(s.update(i, v).drop_last() =~= s.drop_last());
    } else {
        lemma_sum_update(s.drop_last(), i, v);
        assert(s.update(i, v).drop_last() =~= s.drop_last().update(i, v));
    }
}

pub proof fn lemma_sum_remove(s: Seq<nat>, i: int)
    requires
        0 <= i < s.len(),
    ensures
        sum(s.remove(i)) == sum(s) - s[i],
    decreases s.len(),
{
    if i == s.len() - 1 {
        assert(s.remove(i) =~= s.drop_last());
    } else {
        lemma_sum_remove(s.drop_last(), i);
        assert(s.remove(i).drop_last() =~= s.drop_last().remove(i));
        assert(s.remove(i).last() == s.last());
    }
}

/// The sum of a prefix is the sum so far, and never exceeds the whole.
pub proof fn lemma_sum_take(s: Seq<nat>, k: int)
    requires
        0 <= k <= s.len(),
    ensures
        sum(s.take(k)) <= sum(s),
        k < s.len() ==> sum(s.take(k + 1)) == sum(s.take(k)) + s[k],
        sum(s.take(0)) == 0,
        sum(s.take(s.len() as int)) == sum(s),
    decreases s.len() - k,
{
    assert(s.take(s.len() as int) =~= s);
    assert(s.take(0) =~= Seq::<nat>::empty());
    if k < s.len() {
        assert(s.take(k + 1).drop_last() =~= s.take(k));
        lemma_sum_take(s, k + 1);
    }
}

/// In a sequence without repetition an element's position is determined.
pub proof fn lemma_index_of_unique<A>(s: Seq<A>, i: int)
    requires
        s.no_duplicates(),
        0 <= i < s.len(),
    ensures
        s.contains(s[i]),
        s.index_of(s[i]) == i,
{
    let j = s.index_of(s[i]);
    assert(0 <= j < s.len() && s[j] == s[i]);
}

/// What a ledger is, mathematically: registered accounts in registration
/// order, the balance of each, and the total supply.
pub struct LedgerView {
    pub accounts: Seq<Seq<char>>,
    pub balances: Seq<nat>,
    pub total: nat,
}

impl LedgerView {
    /// No account twice, one balance per account, and the balances add up to
    /// the total supply, which fits in 128 bits.
    pub open spec fn wf(self) -> bool {
        &&& self.accounts.len() == self.balances.len()
        &&& self.accounts.no_duplicates()
        &&& sum(self.balances) == self.total
        &&& self.total <= u128::MAX
    }

    pub open spec fn registered(self, account: Seq<char>) -> bool {
        self.accounts.contains(account)
    }

    /// Balance of an account; zero for one that is not registered.
    pub open spec fn balance_of(self, account: Seq<char>) -> nat {
        if self.registered(account) {
            self.balances[self.accounts.index_of(account)]
        } else {
            0
        }
    }

    /// The ledger with one registered account's balance replaced and the
    /// total supply set.
    pub open spec fn with_balance(self, account: Seq<char>, balance: nat, total: nat) -> LedgerView {
        LedgerView {
            accounts: self.accounts,
            balances: self.balances.update(self.accounts.index_of(account), balance),
            total,
        }
    }

    pub open spec fn register(self, account: Seq<char>) -> Result<LedgerView, PoolError> {
        if self.registered(account) {
            Err(PoolError::AlreadyRegistered)
        } else {
            Ok(
                LedgerView {
                    accounts: self.accounts.push(account),
                    balances: self.balances.push(0),
                    total: self.total,
                },
            )
        }
    }

    pub open spec fn unregister(self, account: Seq<char>) -> Result<LedgerView, PoolError> {
        if !self.registered(account) {
            Err(PoolError::NotRegistered)
        } else if self.balance_of(account) != 0 {
            Err(PoolError::NonZeroBalance)
        } else {
            Ok(
                LedgerView {
                    accounts: self.accounts.remove(self.accounts.index_of(account)),
                    balances: self.balances.remove(self.accounts.index_of(account)),
                    total: self.total,
                },
            )
        }
    }

    pub open spec fn mint(self, account: Seq<char>, amount: nat) -> Result<LedgerView, PoolError> {
        if !self.registered(account) {
            Err(PoolError::NotRegistered)
        } else if self.total + amount > u128::MAX {
            Err(PoolError::ArithmeticOverflow)
        } else {
            Ok(self.with_balance(account, self.balance_of(account) + amount, self.total + amount))
        }
    }

    pub open spec fn burn(self, account: Seq<char>, amount: nat) -> Result<LedgerView, PoolError> {
        if !self.registered(account) {
            Err(PoolError::NotRegistered)
        } else if self.balance_of(account) < amount {
            Err(PoolError::InsufficientShares)
        } else {
            Ok(
                self.with_balance(
                    account,
                    (self.balance_of(account) - amount) as nat,
                    (self.total - amount) as nat,
                ),
            )
        }
    }

    pub open spec fn transfer(self, sender: Seq<char>, receiver: Seq<char>, amount: nat) -> Result<
        LedgerView,
        PoolError,
    > {
        if self.balance_of(sender) < amount {
            Err(PoolError::InsufficientShares)
        } else if !self.registered(receiver) || !self.registered(sender) {
            Err(PoolError::NotRegistered)
        } else {
            let debited = self.with_balance(
                sender,
                (self.balance_of(sender) - amount) as nat,
                self.total,
            );
            Ok(debited.with_balance(receiver, debited.balance_of(receiver) + amount, self.total))
        }
    }

    /// Shares created for an account, where the amount is positive; an
    /// amount of zero asks nothing of the account.
    pub open spec fn grant(self, account: Seq<char>, amount: nat) -> Result<LedgerView, PoolError> {
        if amount == 0 {
            Ok(self)
        } else {
            self.mint(account, amount)
        }
    }

    /// Shares destroyed in an account, where the amount is positive; an
    /// amount of zero asks nothing of the account.
    pub open spec fn release(self, account: Seq<char>, amount: nat) -> Result<
        LedgerView,
        PoolError,
    > {
        if amount == 0 {
            Ok(self)
        } else {
            self.burn(account, amount)
        }
    }

    /// The ledger changes of one pool operation, in order: shares burned
    /// from the sender, shares minted to the sender, shares granted to the
    /// exchange, shares granted to the referrer.
    pub open spec fn settle(
        self,
        sender: Seq<char>,
        burned: nat,
        minted: nat,
        exchange: Seq<char>,
        exchange_shares: nat,
        referral: Seq<char>,
        referral_shares: nat,
    ) -> Result<LedgerView, PoolError> {
        match self.release(sender, burned) {
            Err(e) => Err(e),
            Ok(a) => match a.grant(sender, minted) {
                Err(e) => Err(e),
                Ok(b) => match b.grant(exchange, exchange_shares) {
                    Err(e) => Err(e),
                    Ok(c) => c.grant(referral, referral_shares),
                },
            },
        }
    }

    /// The ledger after an operation: what the operation produces, or the
    /// ledger unchanged where the operation is refused.
    pub open spec fn apply(self, op: LedgerOp) -> LedgerView {
        let outcome = match op {
            LedgerOp::Register(a) => self.register(a),
            LedgerOp::Unregister(a) => self.unregister(a),
            LedgerOp::Mint(a, n) => self.mint(a, n),
            LedgerOp::Burn(a, n) => self.burn(a, n),
            LedgerOp::Transfer(a, b, n) => self.transfer(a, b, n),
        };
        match outcome {
            Ok(next) => next,
            Err(_) => self,
        }
    }

    /// The ledger after a sequence of operations, applied first to last.
    pub open spec fn run(self, ops: Seq<LedgerOp>) -> LedgerView
        decreases ops.len(),
    {
        if ops.len() == 0 {
            self
        } else {
            self.run(ops.drop_last()).apply(ops.last())
        }
    }
}

/// One operation on a ledger.
pub enum LedgerOp {
    Register(Seq<char>),
    Unregister(Seq<char>),
    Mint(Seq<char>, nat),
    Burn(Seq<char>, nat),
    Transfer(Seq<char>, Seq<char>, nat),
}

/// A registered account's balance never exceeds the total supply.
pub proof fn lemma_balance_within_total(v: LedgerView, account: Seq<char>)
    requires
        v.wf(),
    ensures
        v.balance_of(account) <= v.total,
{
    if v.registered(account) {
        lemma_sum_update(v.balances, v.accounts.index_of(account), 0);
    }
}

/// Replacing a registered account's balance changes that balance and no
/// other, and keeps the ledger well formed when the total follows.
pub proof fn lemma_with_balance(v: LedgerView, account: Seq<char>, balance: nat, total: nat)
    requires
        v.wf(),
        v.registered(account),
        total == v.total - v.balance_of(account) + balance,
        total <= u128::MAX,
    ensures
        v.with_balance(account, balance, total).wf(),
        v.with_balance(account, balance, total).balance_of(account) == balance,
        forall|other: Seq<char>|
            other != account ==> #[trigger] v.with_balance(account, balance, total).balance_of(
                other,
            ) == v.balance_of(other),
        forall|other: Seq<char>|
            #[trigger] v.with_balance(account, balance, total).registered(other) == v.registered(
                other,
            ),
{
    let i = v.accounts.index_of(account);
    lemma_sum_update(v.balances, i, balance);
    let w = v.with_balance(account, balance, total);
    assert forall|other: Seq<char>| other != account implies #[trigger] w.balance_of(other)
        == v.balance_of(other) by {
        if v.registered(other) {
            let j = v.accounts.index_of(other);
            assert(j != i);
        }
    }
}

/// Every operation keeps the balances adding up to the total supply.
pub proof fn lemma_apply_preserves_wf(v: LedgerView, op: LedgerOp)
    requires
        v.wf(),
    ensures
        v.apply(op).wf(),
{
    match op {
        LedgerOp::Register(a) => {
            if !v.registered(a) {
                lemma_sum_push(v.balances, 0);
                let w = v.register(a)->Ok_0;
                assert forall|i: int, j: int|
                    0 <= i < w.accounts.len() && 0 <= j < w.accounts.len() && i != j implies w.accounts[i]
                    != w.accounts[j] by {
                    if i == v.accounts.len() {
                        assert(v.accounts[j] == w.accounts[j]);
                    } else if j == v.accounts.len() {
                        assert(v.accounts[i] == w.accounts[i]);
                    }
                }
            }
        },
        LedgerOp::Unregister(a) => {
            if v.registered(a) && v.balance_of(a) == 0 {
                let i = v.accounts.index_of(a);
                lemma_sum_remove(v.balances, i);
                let w = v.unregister(a)->Ok_0;
                assert forall|x: int, y: int|
                    0 <= x < w.accounts.len() && 0 <= y < w.accounts.len() && x != y implies w.accounts[x]
                    != w.accounts[y] by {
                    let xx = if x < i { x } else { x + 1 };
                    let yy = if y < i { y } else { y + 1 };
                    assert(w.accounts[x] == v.accounts[xx]);
                    assert(w.accounts[y] == v.accounts[yy]);
                }
            }
        },
        LedgerOp::Mint(a, n) => {
            if v.registered(a) && v.total + n <= u128::MAX {
                lemma_with_balance(v, a, v.balance_of(a) + n, v.total + n);
            }
        },
        LedgerOp::Burn(a, n) => {
            if v.registered(a) && v.balance_of(a) >= n {
                lemma_balance_within_total(v, a);
                lemma_with_balance(
                    v,
                    a,
                    (v.balance_of(a) - n) as nat,
                    (v.total - n) as nat,
                );
            }
        },
        LedgerOp::Transfer(a, b, n) => {
            if v.registered(a) && v.balance_of(a) >= n && v.registered(b) {
                lemma_balance_within_total(v, a);
                let debited_total = (v.total - n) as nat;
                let d = v.with_balance(a, (v.balance_of(a) - n) as nat, debited_total);
                lemma_with_balance(v, a, (v.balance_of(a) - n) as nat, debited_total);
                assert(d.registered(b));
                lemma_with_balance(d, b, d.balance_of(b) + n, v.total);
                let debited = v.with_balance(a, (v.balance_of(a) - n) as nat, v.total);
                assert(debited.balance_of(b) == d.balance_of(b));
                assert(debited.with_balance(b, debited.balance_of(b) + n, v.total) == d.with_balance(
                    b,
                    d.balance_of(b) + n,
                    v.total,
                ));
            }
        },
    }
}

/// Ledger invariant: after every sequence of register, unregister, mint,
/// burn and transfer operations, accepted or refused, the balances add up to
/// the total supply.
pub proof fn ledger_invariant(v: LedgerView, ops: Seq<LedgerOp>)
    requires
        v.wf(),
    ensures
        v.run(ops).wf(),
        sum(v.run(ops).balances) == v.run(ops).total,
    decreases ops.len(),
{
    if ops.len() > 0 {
        ledger_invariant(v, ops.drop_last());
        lemma_apply_preserves_wf(v.run(ops.drop_last()), ops.last());
    }
}

/// Settling a pool operation keeps the balances adding up to the total
/// supply.
pub proof fn lemma_settle_preserves_wf(
    v: LedgerView,
    sender: Seq<char>,
    burned: nat,
    minted: nat,
    exchange: Seq<char>,
    exchange_shares: nat,
    referral: Seq<char>,
    referral_shares: nat,
)
    requires
        v.wf(),
    ensures
        v.settle(sender, burned, minted, exchange, exchange_shares, referral, referral_shares)
            matches Ok(next) ==> next.wf() && next.total == v.total - burned + minted
            + exchange_shares + referral_shares && next.accounts == v.accounts,
{
    if let Ok(a) = v.release(sender, burned) {
        lemma_balance_within_total(v, sender);
        lemma_apply_preserves_wf(v, LedgerOp::Burn(sender, burned));
        if let Ok(b) = a.grant(sender, minted) {
            lemma_apply_preserves_wf(a, LedgerOp::Mint(sender, minted));
            if let Ok(c) = b.grant(exchange, exchange_shares) {
                lemma_apply_preserves_wf(b, LedgerOp::Mint(exchange, exchange_shares));
                lemma_apply_preserves_wf(c, LedgerOp::Mint(referral, referral_shares));
            }
        }
    }
}

/// Settling a pool operation touches the balances of its parties only: an
/// account other than those for which shares are burned or minted holds
/// afterwards what it held before, and is registered as before.
pub proof fn lemma_settle_spares_others(
    v: LedgerView,
    sender: Seq<char>,
    burned: nat,
    minted: nat,
    exchange: Seq<char>,
    exchange_shares: nat,
    referral: Seq<char>,
    referral_shares: nat,
    other: Seq<char>,
)
    requires
        v.wf(),
        v.settle(sender, burned, minted, exchange, exchange_shares, referral, referral_shares)
            is Ok,
        burned > 0 || minted > 0 ==> other != sender,
        exchange_shares > 0 ==> other != exchange,
        referral_shares > 0 ==> other != referral,
    ensures
        ({
            let next = v.settle(
                sender,
                burned,
                minted,
                exchange,
                exchange_shares,
                referral,
                referral_shares,
            )->Ok_0;
            next.balance_of(other) == v.balance_of(other) && next.registered(other)
                == v.registered(other)
        }),
{
    let a = v.release(sender, burned)->Ok_0;
    lemma_balance_within_total(v, sender);
    lemma_apply_preserves_wf(v, LedgerOp::Burn(sender, burned));
    if burned > 0 {
        lemma_with_balance(
            v,
            sender,
            (v.balance_of(sender) - burned) as nat,
            (v.total - burned) as nat,
        );
    }
    let b = a.grant(sender, minted)->Ok_0;
    lemma_apply_preserves_wf(a, LedgerOp::Mint(sender, minted));
    if minted > 0 {
        lemma_with_balance(a, sender, a.balance_of(sender) + minted, a.total + minted);
    }
    let c = b.grant(exchange, exchange_shares)->Ok_0;
    lemma_apply_preserves_wf(b, LedgerOp::Mint(exchange, exchange_shares));
    if exchange_shares > 0 {
        lemma_with_balance(
            b,
            exchange,
            b.balance_of(exchange) + exchange_shares,
            b.total + exchange_shares,
        );
    }
    if referral_shares > 0 {
        lemma_with_balance(
            c,
            referral,
            c.balance_of(referral) + referral_shares,
            c.total + referral_shares,
        );
    }
}

/// A transfer moves shares between accounts and leaves the total supply as
/// it was.
pub proof fn transfer_keeps_total(v: LedgerView, sender: Seq<char>, receiver: Seq<char>, amount: nat)
    requires
        v.wf(),
    ensures
        v.apply(LedgerOp::Transfer(sender, receiver, amount)).total == v.total,
{
}

/// Sum of amounts, or `None` where it does not fit in 128 bits.
pub fn total_of(xs: &Vec<u128>) -> (res: Option<u128>)
    ensures
        res is None <==> sum(to_nats(xs@)) > u128::MAX,
        res matches Some(total) ==> total == sum(to_nats(xs@)),
{
    let ghost s = to_nats(xs@);
    let mut total: u128 = 0;
    let mut i: usize = 0;
    proof {
        lemma_sum_take(s, 0);
    }
    while i < xs.len()
        invariant
            i <= xs@.len(),
            s == to_nats(xs@),
            total == sum(s.take(i as int)),
        decreases xs@.len() - i,
    {
        proof {
            lemma_sum_take(s, i as int);
            lemma_sum_take(s, i + 1);
        }
        total = match total.checked_add(xs[i]) {
            Some(t) => t,
            None => {
                return None;
            },
        };
        i = i + 1;
    }
    proof {
        lemma_sum_take(s, i as int);
    }
    Some(total)
}

/// Whether no identifier occurs twice.
pub fn all_distinct(names: &Vec<AccountId>) -> (res: bool)
    ensures
        res == ids(names@).no_duplicates(),
{
    let mut i: usize = 0;
    while i < names.len()
        invariant
            i <= names@.len(),
            forall|a: int, b: int|
                0 <= a < i && 0 <= b < names@.len() && a != b ==> #[trigger] ids(names@)[a]
                    != #[trigger] ids(names@)[b],
        decreases names@.len() - i,
    {
        let mut j: usize = i + 1;
        while j < names.len()
            invariant
                i < names@.len(),
                i < j <= names@.len(),
                forall|b: int| i < b < j ==> ids(names@)[i as int] != #[trigger] ids(names@)[b],
            decreases names@.len() - j,
        {
            if names[i] == names[j] {
                proof {
                    assert(ids(names@)[i as int] == ids(names@)[j as int]);
                }
                return false;
            }
            j = j + 1;
        }
        i = i + 1;
    }
    true
}

/// The share ledger of one pool.
pub struct ShareLedger {
    accounts: Vec<AccountId>,
    balances: Vec<Balance>,
    total: Balance,
}

impl View for ShareLedger {
    type V = LedgerView;

    closed spec fn view(&self) -> LedgerView {
        LedgerView {
            accounts: ids(self.accounts@),
            balances: to_nats(self.balances@),
            total: self.total as nat,
        }
    }
}

/// What a ledger operation owes: on success the new ledger, on refusal the
/// error and the ledger as it was.
pub open spec fn ledger_outcome(
    expected: Result<LedgerView, PoolError>,
    before: LedgerView,
    after: LedgerView,
    res: Result<(), PoolError>,
) -> bool {
    match expected {
        Ok(next) => res is Ok && after == next,
        Err(e) => res == Err::<(), PoolError>(e) && after == before,
    }
}

impl ShareLedger {
    /// The balances add up to the total supply and no account occurs twice.
    pub open spec fn wf(&self) -> bool {
        self@.wf()
    }

    /// A ledger with no account and no share.
    pub fn new() -> (res: ShareLedger)
        ensures
            res.wf(),
            res@.accounts.len() == 0,
            res@.total == 0,
    {
        let res = ShareLedger { accounts: Vec::new(), balances: Vec::new(), total: 0 };
        proof {
            assert(res@.balances =~= Seq::<nat>::empty());
        }
        res
    }

    /// A ledger put together from stored parts. Refused with `InvalidState`
    /// unless there is one balance per account, no account occurs twice and
    /// the balances add up to `total`.
    pub fn restore(accounts: Vec<AccountId>, balances: Vec<Balance>, total: Balance) -> (res:
        Result<ShareLedger, PoolError>)
        ensures
            res is Ok <==> (LedgerView {
                accounts: ids(accounts@),
                balances: to_nats(balances@),
                total: total as nat,
            }).wf(),
            res matches Ok(ledger) ==> ledger.wf() && ledger@ == (LedgerView {
                accounts: ids(accounts@),
                balances: to_nats(balances@),
                total: total as nat,
            }),
            res matches Err(e) ==> e == PoolError::InvalidState,
    {
        if accounts.len() != balances.len() || !all_distinct(&accounts) {
            return Err(PoolError::InvalidState);
        }
        match total_of(&balances) {
            Some(found) => {
                if found != total {
                    return Err(PoolError::InvalidState);
                }
            },
            None => {
                return Err(PoolError::InvalidState);
            },
        }
        Ok(ShareLedger { accounts, balances, total })
    }

    /// The registered accounts, in registration order.
    pub fn accounts(&self) -> (res: &Vec<AccountId>)
        ensures
            ids(res@) == self@.accounts,
    {
        &self.accounts
    }

    /// The balance of each registered account, in registration order.
    pub fn balances(&self) -> (res: &Vec<Balance>)
        ensures
            to_nats(res@) == self@.balances,
    {
        &self.balances
    }

    fn position(&self, account: &AccountId) -> (res: Option<usize>)
        requires
            self.wf(),
        ensures
            res is Some <==> self@.registered(account@),
            res matches Some(i) ==> i < self@.accounts.len() && i == self@.accounts.index_of(
                account@,
            ) && self@.accounts[i as int] == account@ && self.balances@.len()
                == self@.accounts.len() && self.accounts@.len() == self@.accounts.len(),
    {
        let mut i: usize = 0;
        while i < self.accounts.len()
            invariant
                i <= self.accounts@.len(),
                self.wf(),
                forall|j: int| 0 <= j < i ==> self@.accounts[j] != account@,
            decreases self.accounts@.len() - i,
        {
            if self.accounts[i] == *account {
                proof {
                    assert(self@.accounts[i as int] == account@);
                    lemma_index_of_unique(self@.accounts, i as int);
                }
                return Some(i);
            }
            i = i + 1;
        }
        proof {
            if self@.accounts.contains(account@) {
                let j = self@.accounts.index_of(account@);
                assert(self@.accounts[j] == account@);
            }
        }
        None
    }

    /// Total number of shares in existence.
    pub fn total_supply(&self) -> (res: Balance)
        ensures
            res == self@.total,
    {
        self.total
    }

    /// Whether the account is registered.
    pub fn is_registered(&self, account: &AccountId) -> (res: bool)
        requires
            self.wf(),
        ensures
            res == self@.registered(account@),
    {
        self.position(account).is_some()
    }

    /// Shares held by the account; zero for one that is not registered.
    pub fn balance_of(&self, account: &AccountId) -> (res: Balance)
        requires
            self.wf(),
        ensures
            res == self@.balance_of(account@),
    {
        match self.position(account) {
            Some(i) => self.balances[i],
            None => 0,
        }
    }

    /// Registers an account with a balance of zero.
    pub fn register(&mut self, account: &AccountId) -> (res: Result<(), PoolError>)
        requires
            old(self).wf(),
        ensures
            final(self).wf(),
            ledger_outcome(old(self)@.register(account@), old(self)@, final(self)@, res),
    {
        if self.position(account).is_some() {
            return Err(PoolError::AlreadyRegistered);
        }
        self.accounts.push(account.clone());
        self.balances.push(0);
        proof {
            let next = old(self)@.register(account@)->Ok_0;
            assert(self@.accounts =~= next.accounts);
            assert(self@.balances =~= next.balances);
            lemma_apply_preserves_wf(old(self)@, LedgerOp::Register(account@));
        }
        Ok(())
    }

    /// Removes an account whose balance is zero.
    pub fn unregister(&mut self, account: &AccountId) -> (res: Result<(), PoolError>)
        requires
            old(self).wf(),
        ensures
            final(self).wf(),
            ledger_outcome(old(self)@.unregister(account@), old(self)@, final(self)@, res),
    {
        match self.position(account) {
            None => Err(PoolError::NotRegistered),
            Some(i) => {
                if self.balances[i] != 0 {
                    return Err(PoolError::NonZeroBalance);
                }
                self.accounts.remove(i);
                self.balances.remove(i);
                proof {
                    let next = old(self)@.unregister(account@)->Ok_0;
                    assert(self@.accounts =~= next.accounts);
                    assert(self@.balances =~= next.balances);
                    lemma_apply_preserves_wf(old(self)@, LedgerOp::Unregister(account@));
                }
                Ok(())
            },
        }
    }

    /// Creates shares in a registered account.
    pub fn mint(&mut self, account: &AccountId, amount: Balance) -> (res: Result<(), PoolError>)
        requires
            old(self).wf(),
        ensures
            final(self).wf(),
            ledger_outcome(old(self)@.mint(account@, amount as nat), old(self)@, final(self)@, res),
    {
        match self.position(account) {
            None => Err(PoolError::NotRegistered),
            Some(i) => {
                match self.total.checked_add(amount) {
                    None => Err(PoolError::ArithmeticOverflow),
                    Some(total) => {
                        proof {
                            lemma_balance_within_total(self@, account@);
                        }
                        let balance: Balance = self.balances[i] + amount;
                        self.balances.set(i, balance);
                        self.total = total;
                        proof {
                            let next = old(self)@.mint(account@, amount as nat)->Ok_0;
                            assert(self@.accounts =~= next.accounts);
                            assert(self@.balances =~= next.balances);
                            lemma_apply_preserves_wf(
                                old(self)@,
                                LedgerOp::Mint(account@, amount as nat),
                            );
                        }
                        Ok(())
                    },
                }
            },
        }
    }

    /// Destroys shares held by a registered account.
    pub fn burn(&mut self, account: &AccountId, amount: Balance) -> (res: Result<(), PoolError>)
        requires
            old(self).wf(),
        ensures
            final(self).wf(),
            ledger_outcome(old(self)@.burn(account@, amount as nat), old(self)@, final(self)@, res),
    {
        match self.position(account) {
            None => Err(PoolError::NotRegistered),
            Some(i) => {
                if self.balances[i] < amount {
                    return Err(PoolError::InsufficientShares);
                }
                proof {
                    lemma_balance_within_total(self@, account@);
                }
                let balance: Balance = self.balances[i] - amount;
                self.balances.set(i, balance);
                self.total = self.total - amount;
                proof {
                    let next = old(self)@.burn(account@, amount as nat)->Ok_0;
                    assert(self@.accounts =~= next.accounts);
                    assert(self@.balances =~= next.balances);
                    lemma_apply_preserves_wf(old(self)@, LedgerOp::Burn(account@, amount as nat));
                }
                Ok(())
            },
        }
    }

    /// Moves shares from one registered account to another. Refused with
    /// `InsufficientShares` where the sender holds less than `amount`, as
    /// one that is not registered does of any positive amount, and with
    /// `NotRegistered` where either account is not registered.
    pub fn transfer(&mut self, sender: &AccountId, receiver: &AccountId, amount: Balance) -> (res:
        Result<(), PoolError>)
        requires
            old(self).wf(),
        ensures
            final(self).wf(),
            ledger_outcome(
                old(self)@.transfer(sender@, receiver@, amount as nat),
                old(self)@,
                final(self)@,
                res,
            ),
    {
        if self.balance_of(sender) < amount {
            return Err(PoolError::InsufficientShares);
        }
        let to: usize = match self.position(receiver) {
            None => {
                return Err(PoolError::NotRegistered);
            },
            Some(i) => i,
        };
        let from: usize = match self.position(sender) {
            None => {
                return Err(PoolError::NotRegistered);
            },
            Some(i) => i,
        };
        let debited: Balance = self.balances[from] - amount;
        self.balances.set(from, debited);
        proof {
            lemma_apply_preserves_wf(
                old(self)@,
                LedgerOp::Transfer(sender@, receiver@, amount as nat),
            );
            let mid = old(self)@.with_balance(
                sender@,
                (old(self)@.balance_of(sender@) - amount) as nat,
                old(self)@.total,
            );
            assert(self@.balances =~= mid.balances);
            assert(self@.accounts =~= mid.accounts);
            assert(self@ == mid);
            let next = old(self)@.transfer(sender@, receiver@, amount as nat)->Ok_0;
            assert(next.wf());
            lemma_sum_update(next.balances, to as int, 0);
        }
        let credited: Balance = self.balances[to] + amount;
        self.balances.set(to, credited);
        proof {
            let next = old(self)@.transfer(sender@, receiver@, amount as nat)->Ok_0;
            assert(self@.accounts =~= next.accounts);
            assert(self@.balances =~= next.balances);
        }
        Ok(())
    }

    /// Creates shares in a registered account; an amount of zero asks
    /// nothing of the account.
    pub fn grant(&mut self, account: &AccountId, amount: Balance) -> (res: Result<(), PoolError>)
        requires
            old(self).wf(),
        ensures
            final(self).wf(),
            ledger_outcome(old(self)@.grant(account@, amount as nat), old(self)@, final(self)@, res),
    {
        if amount == 0 {
            Ok(())
        } else {
            self.mint(account, amount)
        }
    }

    /// Destroys shares held by a registered account; an amount of zero asks
    /// nothing of the account.
    pub fn release(&mut self, account: &AccountId, amount: Balance) -> (res: Result<(), PoolError>)
        requires
            old(self).wf(),
        ensures
            final(self).wf(),
            ledger_outcome(
                old(self)@.release(account@, amount as nat),
                old(self)@,
                final(self)@,
                res,
            ),
    {
        if amount == 0 {
            Ok(())
        } else {
            self.burn(account, amount)
        }
    }

    /// Whether [`LedgerView::settle`] accepts these changes, and the error
    /// if it does not. Changes nothing.
    pub fn check_settle(
        &self,
        sender: &AccountId,
        burned: Balance,
        minted: Balance,
        exchange: &AccountId,
        exchange_shares: Balance,
        referral: &AccountId,
        referral_shares: Balance,
    ) -> (res: Result<(), PoolError>)
        requires
            self.wf(),
        ensures
            match self@.settle(
                sender@,
                burned as nat,
                minted as nat,
                exchange@,
                exchange_shares as nat,
                referral@,
                referral_shares as nat,
            ) {
                Ok(_) => res is Ok,
                Err(e) => res == Err::<(), PoolError>(e),
            },
    {
        let ghost v = self@;
        if burned > 0 {
            if !self.is_registered(sender) {
                return Err(PoolError::NotRegistered);
            }
            if self.balance_of(sender) < burned {
                return Err(PoolError::InsufficientShares);
            }
            proof {
                lemma_balance_within_total(v, sender@);
                lemma_apply_preserves_wf(v, LedgerOp::Burn(sender@, burned as nat));
                lemma_with_balance(
                    v,
                    sender@,
                    (v.balance_of(sender@) - burned) as nat,
                    (v.total - burned) as nat,
                );
            }
        }
        let ghost a = v.release(sender@, burned as nat)->Ok_0;
        let mut total: Balance = self.total - burned;
        if minted > 0 {
            if !self.is_registered(sender) {
                return Err(PoolError::NotRegistered);
            }
            total = match total.checked_add(minted) {
                Some(t) => t,
                None => {
                    return Err(PoolError::ArithmeticOverflow);
                },
            };
            proof {
                lemma_apply_preserves_wf(a, LedgerOp::Mint(sender@, minted as nat));
                lemma_with_balance(
                    a,
                    sender@,
                    a.balance_of(sender@) + minted as nat,
                    a.total + minted as nat,
                );
            }
        }
        let ghost b = a.grant(sender@, minted as nat)->Ok_0;
        if exchange_shares > 0 {
            if !self.is_registered(exchange) {
                return Err(PoolError::NotRegistered);
            }
            total = match total.checked_add(exchange_shares) {
                Some(t) => t,
                None => {
                    return Err(PoolError::ArithmeticOverflow);
                },
            };
            proof {
                lemma_apply_preserves_wf(b, LedgerOp::Mint(exchange@, exchange_shares as nat));
                lemma_with_balance(
                    b,
                    exchange@,
                    b.balance_of(exchange@) + exchange_shares as nat,
                    b.total + exchange_shares as nat,
                );
            }
        }
        let ghost c = b.grant(exchange@, exchange_shares as nat)->Ok_0;
        if referral_shares > 0 {
            if !self.is_registered(referral) {
                return Err(PoolError::NotRegistered);
            }
            if total.checked_add(referral_shares).is_none() {
                return Err(PoolError::ArithmeticOverflow);
            }
        }
        Ok(())
    }

    /// Applies the ledger changes of one pool operation, all of them or
    /// none: see [`LedgerView::settle`].
    pub fn settle(
        &mut self,
        sender: &AccountId,
        burned: Balance,
        minted: Balance,
        exchange: &AccountId,
        exchange_shares: Balance,
        referral: &AccountId,
        referral_shares: Balance,
    ) -> (res: Result<(), PoolError>)
        requires
            old(self).wf(),
        ensures
            final(self).wf(),
            ledger_outcome(
                old(self)@.settle(
                    sender@,
                    burned as nat,
                    minted as nat,
                    exchange@,
                    exchange_shares as nat,
                    referral@,
                    referral_shares as nat,
                ),
                old(self)@,
                final(self)@,
                res,
            ),
    {
        match self.check_settle(
            sender,
            burned,
            minted,
            exchange,
            exchange_shares,
            referral,
            referral_shares,
        ) {
            Err(e) => {
                return Err(e);
            },
            Ok(()) => {},
        }
        let burnt = self.release(sender, burned);
        assert(burnt is Ok);
        let made = self.grant(sender, minted);
        assert(made is Ok);
        let first = self.grant(exchange, exchange_shares);
        assert(first is Ok);
        let second = self.grant(referral, referral_shares);
        assert(second is Ok);
        Ok(())
    }
}

} // verus!
