//! Division that rounds up, the lesser and the greater of two numbers.

use vstd::prelude::*;

verus! {

/// The least number of parts of size `b` that hold `a`.
pub open spec fn ceil_div(a: int, b: int) -> int {
    (a + b - 1) / b
}

/// Rounding up leaves room for everything, with less than one part to spare.
pub proof fn lemma_ceil_div(a: int, b: int)
    requires
        0 <= a,
        1 <= b,
    ensures
        a <= ceil_div(a, b) * b < a + b,
        0 <= ceil_div(a, b) <= a,
        a > 0 ==> ceil_div(a, b) > 0,
{
    let x = a + b - 1;
    let q = x / b;
    vstd::arithmetic::div_mod::lemma_fundamental_div_mod(x, b);
    vstd::arithmetic::div_mod::lemma_mod_bound(x, b);
    assert(b * q == q * b) by (nonlinear_arith);
    assert(0 <= q) by (nonlinear_arith)
        requires
            q * b + b > x,
            x >= 0,
            b >= 1,
            x == a + b - 1,
            a >= 0,
    ;
    assert(q <= a) by (nonlinear_arith)
        requires
            q * b < a + b,
            b >= 1,
            a >= 0,
            0 <= q,
    ;
    if a > 0 {
        assert(q > 0) by (nonlinear_arith)
            requires
                a <= q * b,
                a > 0,
                b >= 1,
        ;
    }
}

/// [`ceil_div`] of machine words.
pub fn div_ceil(a: u32, b: u32) -> (r: u32)
    requires
        b >= 1,
    ensures
        r == ceil_div(a as int, b as int),
{
    proof {
        lemma_ceil_div(a as int, b as int);
        let q = a as int / b as int;
        let m = a as int % b as int;
        vstd::arithmetic::div_mod::lemma_fundamental_div_mod(a as int, b as int);
        vstd::arithmetic::div_mod::lemma_mod_bound(a as int, b as int);
        let c = ceil_div(a as int, b as int);
        assert(b * q == q * b) by (nonlinear_arith);
        if m == 0 {
            assert(c == q) by (nonlinear_arith)
                requires
                    q * b <= c * b < q * b + b,
                    b >= 1,
            ;
        } else {
            assert(c == q + 1) by (nonlinear_arith)
                requires
                    q * b + m <= c * b < q * b + m + b,
                    0 < m < b,
            ;
        }
    }
    if a % b == 0 {
        a / b
    } else {
        a / b + 1
    }
}

/// The lesser of two numbers.
pub open spec fn least(a: int, b: int) -> int {
    if a <= b {
        a
    } else {
        b
    }
}

/// The greater of two numbers.
pub open spec fn greatest(a: int, b: int) -> int {
    if a >= b {
        a
    } else {
        b
    }
}

/// [`least`] of machine words.
pub fn min_u32(a: u32, b: u32) -> (r: u32)
    ensures
        r == least(a as int, b as int),
{
    if a <= b {
        a
    } else {
        b
    }
}

/// [`greatest`] of machine words.
pub fn max_u32(a: u32, b: u32) -> (r: u32)
    ensures
        r == greatest(a as int, b as int),
{
    if a >= b {
        a
    } else {
        b
    }
}

} // verus!
