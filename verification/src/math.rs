//! Exact integer arithmetic on 128-bit amounts.
//!
//! Products of two amounts do not fit in 128 bits, so quotients of the form
//! `a * b / c` are computed without ever forming the product.

use vstd::prelude::*;

verus! {

/// `floor(a * b / c)` over the mathematical integers.
pub open spec fn mul_div_floor(a: nat, b: nat, c: nat) -> nat
    recommends
        c > 0,
{
    ((a * b) / c) as nat
}

/// `ceil(a * b / c)` over the mathematical integers.
pub open spec fn mul_div_ceil(a: nat, b: nat, c: nat) -> nat
    recommends
        c > 0,
{
    if (a * b) % c == 0 {
        ((a * b) / c) as nat
    } else {
        ((a * b) / c + 1) as nat
    }
}

/// A quotient and remainder determine the dividend's floor division.
pub proof fn lemma_div_rem_unique(x: int, c: int, q: int, r: int)
    by (nonlinear_arith)
    requires
        c > 0,
        0 <= r < c,
        x == q * c + r,
    ensures
        x / c == q,
        x % c == r,
{
}

/// Floor division by a positive divisor is monotone in the dividend.
pub proof fn lemma_div_monotone(x: int, y: int, c: int)
    by (nonlinear_arith)
    requires
        c > 0,
        x <= y,
    ensures
        x / c <= y / c,
{
}

/// A multiple of the divisor below the dividend bounds the quotient from
/// below.
pub proof fn lemma_quotient_lower_bound(x: int, c: int, q: int)
    by (nonlinear_arith)
    requires
        c > 0,
        q * c <= x,
    ensures
        q <= x / c,
{
}

/// Quotient and remainder of `a * b` by `c`, or `None` when `c` is zero or
/// the quotient does not fit in 128 bits.
pub fn mul_div_rem(a: u128, b: u128, c: u128) -> (res: Option<(u128, u128)>)
    ensures
        res is None <==> (c == 0 || (a as int * b as int) / (c as int) > u128::MAX),
        res matches Some((q, r)) ==> q == (a as int * b as int) / (c as int) && r == (a as int
            * b as int) % (c as int),
{
    if c == 0 {
        return None;
    }
    let mut q: u128 = 0;
    let mut r: u128 = 0;
    let mut qa: u128 = a / c;
    let mut ra: u128 = a % c;
    let mut rest: u128 = b;
    proof {
        assert(a as int == qa as int * c as int + ra as int) by (nonlinear_arith)
            requires
                c > 0,
                qa == a / c,
                ra == a % c,
        ;
        assert((qa as int * c as int + ra as int) * rest as int == a as int * b as int);
    }
    while rest > 0
        invariant
            c > 0,
            r < c,
            ra < c,
            q as int * c as int + r as int + (qa as int * c as int + ra as int) * rest as int
                == a as int * b as int,
        decreases rest,
    {
        let ghost total: int = a as int * b as int;
        let ghost unit: int = qa as int * c as int + ra as int;
        if rest % 2 == 1 {
            let carry: u128 = if r >= c - ra { 1 } else { 0 };
            let r_next: u128 = if r >= c - ra { r - (c - ra) } else { r + ra };
            proof {
                assert(unit * rest as int == unit + unit * (rest as int - 1)) by (nonlinear_arith);
                assert(unit * (rest as int - 1) >= 0) by (nonlinear_arith)
                    requires
                        unit >= 0,
                        rest >= 1,
                ;
                assert((q as int + qa as int + carry as int) * c as int + r_next as int
                    == q as int * c as int + r as int + unit) by (nonlinear_arith)
                    requires
                        unit == qa as int * c as int + ra as int,
                        r_next as int == r as int + ra as int - carry as int * c as int,
                ;
            }
            let sum: Option<u128> = match q.checked_add(qa) {
                Some(s) => s.checked_add(carry),
                None => None,
            };
            match sum {
                Some(s) => {
                    q = s;
                    r = r_next;
                },
                None => {
                    proof {
                        lemma_quotient_lower_bound(
                            total,
                            c as int,
                            q as int + qa as int + carry as int,
                        );
                    }
                    return None;
                },
            }
            rest = rest - 1;
        }
        rest = rest / 2;
        if rest > 0 {
            let carry: u128 = if ra >= c - ra { 1 } else { 0 };
            let ra_next: u128 = if ra >= c - ra { ra - (c - ra) } else { ra + ra };
            proof {
                assert((2 * qa as int + carry as int) * c as int + ra_next as int == 2 * unit)
                    by (nonlinear_arith)
                    requires
                        unit == qa as int * c as int + ra as int,
                        ra_next as int == 2 * ra as int - carry as int * c as int,
                ;
                assert(unit * (2 * rest as int) == (2 * unit) * rest as int) by (nonlinear_arith);
            }
            let doubled: Option<u128> = match qa.checked_add(qa) {
                Some(s) => s.checked_add(carry),
                None => None,
            };
            match doubled {
                Some(s) => {
                    qa = s;
                    ra = ra_next;
                },
                None => {
                    proof {
                        assert((2 * unit) * rest as int >= (2 * qa as int + carry as int)
                            * c as int) by (nonlinear_arith)
                            requires
                                (2 * qa as int + carry as int) * c as int + ra_next as int == 2
                                    * unit,
                                ra_next >= 0,
                                rest >= 1,
                                c > 0,
                                qa >= 0,
                                carry >= 0,
                        ;
                        assert(q as int * c as int >= 0) by (nonlinear_arith)
                            requires
                                q >= 0,
                                c > 0,
                        ;
                        lemma_quotient_lower_bound(
                            total,
                            c as int,
                            2 * qa as int + carry as int,
                        );
                    }
                    return None;
                },
            }
        } else {
            proof {
                assert(unit * (2 * rest as int) == 0) by (nonlinear_arith)
                    requires
                        rest == 0,
                ;
            }
        }
    }
    proof {
        assert((qa as int * c as int + ra as int) * rest as int == 0) by (nonlinear_arith)
            requires
                rest == 0,
        ;
        lemma_div_rem_unique(a as int * b as int, c as int, q as int, r as int);
    }
    Some((q, r))
}

/// A fraction of an amount does not exceed the amount.
pub proof fn lemma_mul_div_bounded(a: int, b: int, c: int)
    by (nonlinear_arith)
    requires
        0 <= a,
        0 <= b <= c,
        0 < c,
    ensures
        0 <= (a * b) / c <= a,
{
}

/// `floor(a * b / c)`, or `None` when `c` is zero or the result does not fit
/// in 128 bits.
pub fn mul_div(a: u128, b: u128, c: u128) -> (res: Option<u128>)
    ensures
        res is None <==> (c == 0 || mul_div_floor(a as nat, b as nat, c as nat) > u128::MAX),
        res matches Some(q) ==> q == mul_div_floor(a as nat, b as nat, c as nat),
{
    proof {
        if c > 0 {
            assert(0 <= (a as int * b as int) / (c as int)) by (nonlinear_arith)
                requires
                    a >= 0,
                    b >= 0,
                    c > 0,
            ;
        }
    }
    match mul_div_rem(a, b, c) {
        Some((q, _)) => Some(q),
        None => None,
    }
}

/// `ceil(a * b / c)`, or `None` when `c` is zero or the result does not fit
/// in 128 bits.
pub fn mul_div_up(a: u128, b: u128, c: u128) -> (res: Option<u128>)
    ensures
        res is None <==> (c == 0 || mul_div_ceil(a as nat, b as nat, c as nat) > u128::MAX),
        res matches Some(q) ==> q == mul_div_ceil(a as nat, b as nat, c as nat),
{
    proof {
        if c > 0 {
            assert(0 <= (a as int * b as int) / (c as int)) by (nonlinear_arith)
                requires
                    a >= 0,
                    b >= 0,
                    c > 0,
            ;
        }
    }
    match mul_div_rem(a, b, c) {
        Some((q, r)) => {
            if r == 0 {
                Some(q)
            } else {
                q.checked_add(1)
            }
        },
        None => None,
    }
}

} // verus!
