//! The stable curve's invariant: `D`, the value at which a pool with
//! balances `x_1 .. x_n` and amplification `A` sits on the curve
//!
//! `A n^n sum(x) + D = A n^n D + D^(n+1) / (n^n prod(x))`,
//!
//! and the balance that one token must have for given balances of the
//! others at a given `D`. Both are found by Newton's iteration on integers,
//! for at most [`MAX_ROUNDS`] rounds and until two successive values differ
//! by at most one. Every quotient is rounded down.

use crate::ledger::{sum, total_of};
use crate::math::{lemma_div_monotone, lemma_div_rem_unique, mul_div, mul_div_floor, mul_div_rem};
use crate::state::to_nats;
use vstd::prelude::*;

verus! {

/// Rounds after which an iteration stops whether or not it has settled.
pub const MAX_ROUNDS: u32 = 256;

/// `floor(a * b / c)` where it is defined and fits in 128 bits.
pub open spec fn checked_mul_div(a: nat, b: nat, c: nat) -> Option<nat> {
    if c == 0 || mul_div_floor(a, b, c) > u128::MAX {
        None
    } else {
        Some(mul_div_floor(a, b, c))
    }
}

pub open spec fn power(base: nat, exponent: nat) -> nat
    decreases exponent,
{
    if exponent == 0 {
        1
    } else {
        base * power(base, (exponent - 1) as nat)
    }
}

/// Two values no more than one apart.
pub open spec fn settled(a: nat, b: nat) -> bool {
    a <= b + 1 && b <= a + 1
}

/// `A n^n`, where it is positive and fits in 128 bits.
pub open spec fn leverage(amp: nat, count: nat) -> Option<nat> {
    if power(count, count) > u128::MAX || amp * power(count, count) > u128::MAX || amp * power(
        count,
        count,
    ) == 0 {
        None
    } else {
        Some(amp * power(count, count))
    }
}

/// `D^(k+1) / (n^k x_1 .. x_k)`, one division at a time.
pub open spec fn d_product(d: nat, xs: Seq<nat>, k: nat) -> Option<nat>
    decreases k,
{
    if k == 0 {
        Some(d)
    } else {
        match d_product(d, xs, (k - 1) as nat) {
            None => None,
            Some(p) => if xs[k - 1] * xs.len() > u128::MAX {
                None
            } else {
                checked_mul_div(p, d, xs[k - 1] * xs.len())
            },
        }
    }
}

/// One round of the iteration for `D`.
pub open spec fn d_next(d: nat, xs: Seq<nat>, ann: nat, total: nat) -> Option<nat> {
    match d_product(d, xs, xs.len()) {
        None => None,
        Some(p) => {
            let inner = p * xs.len() + total * ann;
            let divisor = d * (ann - 1) + p * (xs.len() + 1);
            if ann == 0 || inner > u128::MAX || divisor > u128::MAX {
                None
            } else {
                checked_mul_div(d, inner, divisor as nat)
            }
        },
    }
}

/// The iteration for `D` from `d`, for at most `rounds` rounds.
pub open spec fn d_iterate(d: nat, xs: Seq<nat>, ann: nat, total: nat, rounds: nat) -> Option<nat>
    decreases rounds,
{
    if rounds == 0 {
        Some(d)
    } else {
        match d_next(d, xs, ann, total) {
            None => None,
            Some(e) => if settled(e, d) {
                Some(e)
            } else {
                d_iterate(e, xs, ann, total, (rounds - 1) as nat)
            },
        }
    }
}

/// The invariant `D` of balances `xs` at amplification `amp`: zero for a
/// pool that holds nothing, else the iteration started at the sum of the
/// balances. `None` where a quantity on the way does not fit in 128 bits or
/// a divisor is zero.
pub open spec fn invariant_d(xs: Seq<nat>, amp: nat) -> Option<nat> {
    if sum(xs) > u128::MAX {
        None
    } else if sum(xs) == 0 {
        Some(0)
    } else {
        match leverage(amp, xs.len()) {
            None => None,
            Some(ann) => d_iterate(sum(xs), xs, ann, sum(xs), MAX_ROUNDS as nat),
        }
    }
}

/// Sum of the balances that stay as they are in a swap, over the first `k`
/// tokens.
pub open spec fn others_sum(xs: Seq<nat>, index_in: int, index_out: int, k: nat) -> nat
    decreases k,
{
    if k == 0 {
        0
    } else if k - 1 == index_in || k - 1 == index_out {
        others_sum(xs, index_in, index_out, (k - 1) as nat)
    } else {
        others_sum(xs, index_in, index_out, (k - 1) as nat) + xs[k - 1]
    }
}

/// `D^(m+1) / (n^m x_in x_j ..)` over the new balance of the token paid in
/// and the balances that stay as they are among the first `k` tokens.
pub open spec fn y_product(
    d: nat,
    xs: Seq<nat>,
    index_in: int,
    index_out: int,
    x_in: nat,
    k: nat,
) -> Option<nat>
    decreases k,
{
    if k == 0 {
        if x_in * xs.len() > u128::MAX {
            None
        } else {
            checked_mul_div(d, d, x_in * xs.len())
        }
    } else {
        match y_product(d, xs, index_in, index_out, x_in, (k - 1) as nat) {
            None => None,
            Some(c) => if k - 1 == index_in || k - 1 == index_out {
                Some(c)
            } else if xs[k - 1] * xs.len() > u128::MAX {
                None
            } else {
                checked_mul_div(c, d, xs[k - 1] * xs.len())
            },
        }
    }
}

/// One round of the iteration for the balance of the token paid out:
/// `(y^2 + c) / (2 y + b - d)`, where `c` is `c0 * d / k`. The constant `c`
/// is about the square of a balance and is never formed: the round is
/// defined where `k` times the divisor fits in 128 bits.
pub open spec fn y_next(y: nat, b: nat, c0: nat, d: nat, k: nat) -> Option<nat> {
    if 2 * y + b > u128::MAX || 2 * y + b <= d || k == 0 || k * (2 * y + b - d) > u128::MAX || (y
        * y + (c0 * d) / k) / ((2 * y + b - d) as nat) > u128::MAX {
        None
    } else {
        Some((y * y + (c0 * d) / k) / ((2 * y + b - d) as nat))
    }
}

/// The iteration for the balance from `y`, for at most `rounds` rounds.
pub open spec fn y_iterate(y: nat, b: nat, c0: nat, d: nat, k: nat, rounds: nat) -> Option<nat>
    decreases rounds,
{
    if rounds == 0 {
        Some(y)
    } else {
        match y_next(y, b, c0, d, k) {
            None => None,
            Some(z) => if settled(z, y) {
                Some(z)
            } else {
                y_iterate(z, b, c0, d, k, (rounds - 1) as nat)
            },
        }
    }
}

/// The balance that the token paid out must have, at invariant `d`, once
/// the token paid in has balance `x_in` and the others are as in `xs`.
pub open spec fn balance_y(
    xs: Seq<nat>,
    amp: nat,
    index_in: int,
    index_out: int,
    x_in: nat,
    d: nat,
) -> Option<nat> {
    match leverage(amp, xs.len()) {
        None => None,
        Some(ann) => match y_product(d, xs, index_in, index_out, x_in, xs.len()) {
            None => None,
            Some(c0) => {
                let b = x_in + others_sum(xs, index_in, index_out, xs.len()) + d / ann;
                if ann * xs.len() > u128::MAX || b > u128::MAX {
                    None
                } else {
                    y_iterate(d, b, c0, d, ann * xs.len(), MAX_ROUNDS as nat)
                }
            },
        },
    }
}

/// What an executable value owes to a specified one.
pub open spec fn agrees(res: Option<u128>, expected: Option<nat>) -> bool {
    match expected {
        Some(v) => res == Some(v as u128) && v <= u128::MAX,
        None => res is None,
    }
}

proof fn lemma_power_positive(base: nat, exponent: nat)
    requires
        base >= 1,
    ensures
        power(base, exponent) >= 1,
    decreases exponent,
{
    if exponent > 0 {
        lemma_power_positive(base, (exponent - 1) as nat);
        assert(base * power(base, (exponent - 1) as nat) >= 1) by (nonlinear_arith)
            requires
                base >= 1,
                power(base, (exponent - 1) as nat) >= 1,
        ;
    }
}

proof fn lemma_power_grows(base: nat, low: nat, high: nat)
    requires
        base >= 1,
        low <= high,
    ensures
        1 <= power(base, low) <= power(base, high),
    decreases high,
{
    lemma_power_positive(base, low);
    if low < high {
        lemma_power_grows(base, low, (high - 1) as nat);
        assert(base * power(base, (high - 1) as nat) >= power(base, (high - 1) as nat))
            by (nonlinear_arith)
            requires
                base >= 1,
                power(base, (high - 1) as nat) >= 1,
        ;
    }
}

/// `A n^n`: see [`leverage`].
pub fn leverage_of(amp: u128, count: usize) -> (res: Option<u128>)
    ensures
        agrees(res, leverage(amp as nat, count as nat)),
{
    let base: u128 = count as u128;
    let mut raised: u128 = 1;
    let mut k: usize = 0;
    while k < count
        invariant
            k <= count,
            base == count,
            raised == power(base as nat, k as nat),
        decreases count - k,
    {
        raised = match raised.checked_mul(base) {
            Some(v) => v,
            None => {
                proof {
                    lemma_power_grows(base as nat, (k + 1) as nat, count as nat);
                    assert(power(base as nat, (k + 1) as nat) == base * raised) by (nonlinear_arith)
                        requires
                            power(base as nat, (k + 1) as nat) == base as nat * power(
                                base as nat,
                                k as nat,
                            ),
                            raised == power(base as nat, k as nat),
                    ;
                    assert(base * raised == raised * base) by (nonlinear_arith);
                }
                return None;
            },
        };
        proof {
            assert(raised == power(base as nat, (k + 1) as nat)) by (nonlinear_arith)
                requires
                    power(base as nat, (k + 1) as nat) == base as nat * power(
                        base as nat,
                        k as nat,
                    ),
                    raised == power(base as nat, k as nat) * base,
            ;
        }
        k = k + 1;
    }
    match amp.checked_mul(raised) {
        Some(ann) => {
            if ann == 0 {
                None
            } else {
                Some(ann)
            }
        },
        None => None,
    }
}

/// Splitting a dividend by a product of two divisors: with
/// `x = q * (k * m) + r` and `r < k * m`, dividing `x` by `k` gives
/// `q * m + r / k`, and `r / k` is below `m`.
pub proof fn lemma_div_by_factor(x: int, k: int, m: int, q: int, r: int)
    requires
        0 < k,
        0 < m,
        0 <= r < k * m,
        x == q * (k * m) + r,
    ensures
        x / k == q * m + r / k,
        0 <= r / k < m,
{
    let a = r / k;
    let rest = r % k;
    assert(r == a * k + rest && 0 <= rest < k) by (nonlinear_arith)
        requires
            0 < k,
            a == r / k,
            rest == r % k,
    ;
    assert(x == (q * m + a) * k + rest) by (nonlinear_arith)
        requires
            x == q * (k * m) + r,
            r == a * k + rest,
    ;
    lemma_div_rem_unique(x, k, q * m + a, rest);
    assert(0 <= a < m) by (nonlinear_arith)
        requires
            0 < k,
            0 <= r < k * m,
            r == a * k + rest,
            0 <= rest < k,
    ;
}

/// One round of the iteration for a balance: see [`y_next`]. `divisor` is
/// `2 y + b - d`.
pub fn curve_step(y: u128, c0: u128, d: u128, k: u128, divisor: u128) -> (res: Option<u128>)
    ensures
        agrees(
            res,
            if divisor == 0 || k == 0 || k * divisor > u128::MAX || (y as nat * y as nat + (c0 as nat
                * d as nat) / (k as nat)) / (divisor as nat) > u128::MAX {
                None
            } else {
                Some(
                    (y as nat * y as nat + (c0 as nat * d as nat) / (k as nat)) / (divisor as nat),
                )
            },
        ),
{
    if divisor == 0 || k == 0 {
        return None;
    }
    let wide: u128 = match k.checked_mul(divisor) {
        Some(v) => v,
        None => {
            return None;
        },
    };
    let ghost square: int = y as int * y as int;
    let ghost product: int = c0 as int * d as int;
    let ghost c: int = product / (k as int);
    let ghost whole: int = square + c;
    proof {
        assert(square >= 0) by (nonlinear_arith)
            requires
                square == y as int * y as int,
        ;
        assert(product >= 0) by (nonlinear_arith)
            requires
                product == c0 as int * d as int,
                c0 >= 0,
                d >= 0,
        ;
        assert(c >= 0) by (nonlinear_arith)
            requires
                c == product / (k as int),
                product >= 0,
                k > 0,
        ;
        assert(wide > 0) by (nonlinear_arith)
            requires
                wide == k * divisor,
                k > 0,
                divisor > 0,
        ;
        assert(y as nat * y as nat == square);
        assert((c0 as nat * d as nat) / (k as nat) == c);
    }
    let (q2, r2): (u128, u128) = match mul_div_rem(c0, d, wide) {
        Some((q, r)) => {
            proof {
                assert(product == q as int * wide as int + r as int) by (nonlinear_arith)
                    requires
                        wide > 0,
                        q as int == product / (wide as int),
                        r as int == product % (wide as int),
                ;
                lemma_div_by_factor(product, k as int, divisor as int, q as int, r as int);
            }
            (q, r / k)
        },
        None => {
            proof {
                let top = product / (wide as int);
                assert(top * wide as int <= product) by (nonlinear_arith)
                    requires
                        wide > 0,
                        top == product / (wide as int),
                ;
                assert((top * divisor as int) * k as int == top * wide as int)
                    by (nonlinear_arith)
                    requires
                        wide == k * divisor,
                ;
                crate::math::lemma_quotient_lower_bound(product, k as int, top * divisor as int);
                assert(top * divisor as int <= whole);
                crate::math::lemma_quotient_lower_bound(whole, divisor as int, top);
            }
            return None;
        },
    };
    match mul_div_rem(y, y, divisor) {
        None => {
            proof {
                lemma_div_monotone(square, whole, divisor as int);
            }
            None
        },
        Some((q1, r1)) => {
            let carry: u128 = if r1 >= divisor - r2 {
                1
            } else {
                0
            };
            proof {
                let rest: int = r1 as int + r2 as int - carry as int * divisor as int;
                assert(square == q1 as int * divisor as int + r1 as int) by (nonlinear_arith)
                    requires
                        divisor > 0,
                        q1 as int == square / (divisor as int),
                        r1 as int == square % (divisor as int),
                ;
                assert(whole == (q1 as int + q2 as int + carry as int) * divisor as int + rest)
                    by (nonlinear_arith)
                    requires
                        whole == square + c,
                        square == q1 as int * divisor as int + r1 as int,
                        c == q2 as int * divisor as int + r2 as int,
                        rest == r1 as int + r2 as int - carry as int * divisor as int,
                ;
                lemma_div_rem_unique(
                    whole,
                    divisor as int,
                    q1 as int + q2 as int + carry as int,
                    rest,
                );
            }
            match q1.checked_add(q2) {
                Some(q) => q.checked_add(carry),
                None => None,
            }
        },
    }
}

proof fn lemma_d_product_fails(d: nat, xs: Seq<nat>, k: nat, m: nat)
    requires
        k <= m,
        d_product(d, xs, k) is None,
    ensures
        d_product(d, xs, m) is None,
    decreases m,
{
    if k < m {
        lemma_d_product_fails(d, xs, k, (m - 1) as nat);
    }
}

proof fn lemma_y_product_fails(
    d: nat,
    xs: Seq<nat>,
    index_in: int,
    index_out: int,
    x_in: nat,
    k: nat,
    m: nat,
)
    requires
        k <= m,
        y_product(d, xs, index_in, index_out, x_in, k) is None,
    ensures
        y_product(d, xs, index_in, index_out, x_in, m) is None,
    decreases m,
{
    if k < m {
        lemma_y_product_fails(d, xs, index_in, index_out, x_in, k, (m - 1) as nat);
    }
}

proof fn lemma_others_sum_grows(xs: Seq<nat>, index_in: int, index_out: int, k: nat, m: nat)
    requires
        k <= m,
    ensures
        others_sum(xs, index_in, index_out, k) <= others_sum(xs, index_in, index_out, m),
    decreases m,
{
    if k < m {
        lemma_others_sum_grows(xs, index_in, index_out, k, (m - 1) as nat);
    }
}

/// One round of the iteration for `D`: see [`d_next`].
pub fn d_round(xs: &Vec<u128>, d: u128, ann: u128, total: u128) -> (res: Option<u128>)
    ensures
        agrees(res, d_next(d as nat, to_nats(xs@), ann as nat, total as nat)),
{
    let ghost s = to_nats(xs@);
    let count: u128 = xs.len() as u128;
    let mut p: u128 = d;
    let mut k: usize = 0;
    while k < xs.len()
        invariant
            k <= xs@.len(),
            s == to_nats(xs@),
            count == xs@.len(),
            d_product(d as nat, s, k as nat) == Some(p as nat),
        decreases xs@.len() - k,
    {
        assert(s[k as int] == xs@[k as int]);
        let scaled: Option<u128> = xs[k].checked_mul(count);
        let folded: Option<u128> = match scaled {
            Some(divisor) => mul_div(p, d, divisor),
            None => None,
        };
        match folded {
            Some(v) => {
                p = v;
            },
            None => {
                proof {
                    assert(d_product(d as nat, s, (k + 1) as nat) is None);
                    lemma_d_product_fails(d as nat, s, (k + 1) as nat, s.len());
                }
                return None;
            },
        }
        k = k + 1;
    }
    if ann == 0 {
        return None;
    }
    let ghost inner: int = p as int * count as int + total as int * ann as int;
    let ghost divisor: int = d as int * (ann as int - 1) + p as int * (count as int + 1);
    proof {
        assert(p as int * count as int >= 0) by (nonlinear_arith);
        assert(total as int * ann as int >= 0) by (nonlinear_arith);
        assert(d as int * (ann as int - 1) >= 0) by (nonlinear_arith)
            requires
                ann >= 1,
        ;
        assert(p as int * (count as int + 1) >= 0) by (nonlinear_arith);
        assert(p as nat * s.len() == p as int * count as int);
        assert(total as nat * ann as nat == total as int * ann as int);
        assert(p as nat * (s.len() + 1) == p as int * (count as int + 1));
        assert(d as nat * (ann as nat - 1) == d as int * (ann as int - 1));
    }
    let left: u128 = match p.checked_mul(count) {
        Some(v) => v,
        None => {
            return None;
        },
    };
    let right: u128 = match total.checked_mul(ann) {
        Some(v) => v,
        None => {
            return None;
        },
    };
    let numerator: u128 = match left.checked_add(right) {
        Some(v) => v,
        None => {
            return None;
        },
    };
    let low: u128 = match d.checked_mul(ann - 1) {
        Some(v) => v,
        None => {
            return None;
        },
    };
    let high: u128 = match p.checked_mul(count + 1) {
        Some(v) => v,
        None => {
            return None;
        },
    };
    let denominator: u128 = match low.checked_add(high) {
        Some(v) => v,
        None => {
            return None;
        },
    };
    mul_div(d, numerator, denominator)
}

/// The invariant `D` of the balances: see [`invariant_d`].
pub fn compute_d(xs: &Vec<u128>, amp: u128) -> (res: Option<u128>)
    ensures
        agrees(res, invariant_d(to_nats(xs@), amp as nat)),
{
    let ghost s = to_nats(xs@);
    let total: u128 = match total_of(xs) {
        Some(t) => t,
        None => {
            return None;
        },
    };
    if total == 0 {
        return Some(0);
    }
    let ann: u128 = match leverage_of(amp, xs.len()) {
        Some(a) => a,
        None => {
            return None;
        },
    };
    let mut d: u128 = total;
    let mut round: u32 = 0;
    while round < MAX_ROUNDS
        invariant
            round <= MAX_ROUNDS,
            s == to_nats(xs@),
            d_iterate(d as nat, s, ann as nat, total as nat, (MAX_ROUNDS - round) as nat)
                == invariant_d(s, amp as nat),
        decreases MAX_ROUNDS - round,
    {
        let next: u128 = match d_round(xs, d, ann, total) {
            Some(e) => e,
            None => {
                return None;
            },
        };
        let close: bool = if next >= d {
            next - d <= 1
        } else {
            d - next <= 1
        };
        if close {
            return Some(next);
        }
        d = next;
        round = round + 1;
    }
    Some(d)
}

/// The balance of the token paid out after a swap: see [`balance_y`].
pub fn compute_y(
    xs: &Vec<u128>,
    amp: u128,
    index_in: usize,
    index_out: usize,
    x_in: u128,
    d: u128,
) -> (res: Option<u128>)
    ensures
        agrees(
            res,
            balance_y(to_nats(xs@), amp as nat, index_in as int, index_out as int, x_in as nat, d as nat),
        ),
{
    let ghost s = to_nats(xs@);
    let ghost i_in = index_in as int;
    let ghost i_out = index_out as int;
    let count: u128 = xs.len() as u128;
    let ann: u128 = match leverage_of(amp, xs.len()) {
        Some(a) => a,
        None => {
            return None;
        },
    };
    let first: Option<u128> = match x_in.checked_mul(count) {
        Some(divisor) => mul_div(d, d, divisor),
        None => None,
    };
    let mut c: u128 = match first {
        Some(v) => v,
        None => {
            proof {
                assert(y_product(d as nat, s, i_in, i_out, x_in as nat, 0) is None);
                lemma_y_product_fails(d as nat, s, i_in, i_out, x_in as nat, 0, s.len());
            }
            return None;
        },
    };
    let mut k: usize = 0;
    while k < xs.len()
        invariant
            k <= xs@.len(),
            s == to_nats(xs@),
            count == xs@.len(),
            i_in == index_in as int,
            i_out == index_out as int,
            y_product(d as nat, s, i_in, i_out, x_in as nat, k as nat) == Some(c as nat),
        decreases xs@.len() - k,
    {
        if k != index_in && k != index_out {
            assert(s[k as int] == xs@[k as int]);
            let folded: Option<u128> = match xs[k].checked_mul(count) {
                Some(divisor) => mul_div(c, d, divisor),
                None => None,
            };
            match folded {
                Some(v) => {
                    c = v;
                },
                None => {
                    proof {
                        assert(y_product(d as nat, s, i_in, i_out, x_in as nat, (k + 1) as nat)
                            is None);
                        lemma_y_product_fails(
                            d as nat,
                            s,
                            i_in,
                            i_out,
                            x_in as nat,
                            (k + 1) as nat,
                            s.len(),
                        );
                    }
                    return None;
                },
            }
        }
        k = k + 1;
    }
    assert(ann as nat * s.len() == ann as int * count as int);
    let weight: u128 = match ann.checked_mul(count) {
        Some(v) => v,
        None => {
            return None;
        },
    };
    let mut others: u128 = 0;
    k = 0;
    while k < xs.len()
        invariant
            k <= xs@.len(),
            s == to_nats(xs@),
            i_in == index_in as int,
            i_out == index_out as int,
            others == others_sum(s, i_in, i_out, k as nat),
        decreases xs@.len() - k,
    {
        if k != index_in && k != index_out {
            assert(s[k as int] == xs@[k as int]);
            others = match others.checked_add(xs[k]) {
                Some(v) => v,
                None => {
                    proof {
                        lemma_others_sum_grows(s, i_in, i_out, (k + 1) as nat, s.len());
                    }
                    return None;
                },
            };
        }
        k = k + 1;
    }
    let b: u128 = match x_in.checked_add(others) {
        Some(v) => match v.checked_add(d / ann) {
            Some(w) => w,
            None => {
                return None;
            },
        },
        None => {
            return None;
        },
    };
    let mut y: u128 = d;
    let mut round: u32 = 0;
    while round < MAX_ROUNDS
        invariant
            round <= MAX_ROUNDS,
            s == to_nats(xs@),
            i_in == index_in as int,
            i_out == index_out as int,
            y_iterate(
                y as nat,
                b as nat,
                c as nat,
                d as nat,
                weight as nat,
                (MAX_ROUNDS - round) as nat,
            ) == balance_y(s, amp as nat, i_in, i_out, x_in as nat, d as nat),
        decreases MAX_ROUNDS - round,
    {
        let upper: Option<u128> = match y.checked_mul(2) {
            Some(twice) => twice.checked_add(b),
            None => None,
        };
        let divisor: u128 = match upper {
            Some(u) => {
                if u <= d {
                    return None;
                }
                u - d
            },
            None => {
                return None;
            },
        };
        let next: u128 = match curve_step(y, c, d, weight, divisor) {
            Some(z) => z,
            None => {
                return None;
            },
        };
        let close: bool = if next >= y {
            next - y <= 1
        } else {
            y - next <= 1
        };
        if close {
            return Some(next);
        }
        y = next;
        round = round + 1;
    }
    Some(y)
}

} // verus!
