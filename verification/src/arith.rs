//! Integer arithmetic shared by the layout code.

use vstd::prelude::*;

verus! {

/// `a / b`, rounded up.
pub open spec fn ceil_div(a: int, b: int) -> int {
    (a + b - 1) / b
}

/// The smaller of `a` and `b`.
pub open spec fn least(a: int, b: int) -> int {
    if a <= b {
        a
    } else {
        b
    }
}

/// The larger of `a` and `b`.
pub open spec fn most(a: int, b: int) -> int {
    if a >= b {
        a
    } else {
        b
    }
}

/// `ceil_div(a, b)` is the least number of blocks of `b` that hold `a`.
pub proof fn lemma_ceil_div(a: int, b: int)
    requires
        a >= 0,
        b > 0,
    ensures
        0 <= ceil_div(a, b) <= a,
        ceil_div(a, b) * b >= a,
        ceil_div(a, b) * b < a + b,
        a > 0 ==> (ceil_div(a, b) - 1) * b < a,
        a > 0 ==> ceil_div(a, b) >= 1,
{
    let q = ceil_div(a, b);
    vstd::arithmetic::div_mod::lemma_fundamental_div_mod(a + b - 1, b);
    vstd::arithmetic::div_mod::lemma_mod_bound(a + b - 1, b);
    assert(b * q == q * b) by (nonlinear_arith);
    assert((q - 1) * b == q * b - b) by (nonlinear_arith);
    assert(q >= 0) by (nonlinear_arith)
        requires
            b > 0,
            b * q > -b,
    ;
    if a > 0 {
        assert(q >= 1) by (nonlinear_arith)
            requires
                b > 0,
                q * b >= a,
                a > 0,
        ;
    }
    if q > a {
        assert((q - 1) * b >= a) by (nonlinear_arith)
            requires
                q - 1 >= a,
                b >= 1,
                a >= 0,
        ;
    }
}

/// Rounding up keeps the order.
pub proof fn lemma_ceil_div_monotonic(a: int, c: int, b: int)
    requires
        0 <= a <= c,
        b > 0,
    ensures
        ceil_div(a, b) <= ceil_div(c, b),
{
    vstd::arithmetic::div_mod::lemma_div_is_ordered(a + b - 1, c + b - 1, b);
}

/// The block that holds index `i` comes before `ceil_div(a, b)` exactly when
/// `i` comes before the end of that many blocks.
pub proof fn lemma_block_of(i: int, a: int, b: int)
    requires
        0 <= i < a,
        b > 0,
    ensures
        0 <= i / b < ceil_div(a, b),
        0 <= i % b < b,
        i == (i / b) * b + i % b,
{
    lemma_ceil_div(a, b);
    vstd::arithmetic::div_mod::lemma_fundamental_div_mod(i, b);
    vstd::arithmetic::div_mod::lemma_mod_bound(i, b);
    let q = i / b;
    let c = ceil_div(a, b);
    assert(b * q == q * b) by (nonlinear_arith);
    assert(q >= 0) by (nonlinear_arith)
        requires
            b > 0,
            i >= 0,
            q == i / b,
    ;
    assert(q < c) by (nonlinear_arith)
        requires
            b > 0,
            q * b <= i,
            i < a,
            a <= c * b,
    ;
}

/// Integer division, rounded up.
pub fn div_ceil(a: usize, b: usize) -> (q: usize)
    requires
        b > 0,
    ensures
        q == ceil_div(a as int, b as int),
        q * b >= a,
        q * b < a + b,
{
    proof {
        lemma_ceil_div(a as int, b as int);
        vstd::arithmetic::div_mod::lemma_fundamental_div_mod(a as int, b as int);
        vstd::arithmetic::div_mod::lemma_mod_bound(a as int, b as int);
    }
    let whole: usize = a / b;
    let rest: usize = a % b;
    proof {
        let c = ceil_div(a as int, b as int);
        assert(b * whole == whole * b) by (nonlinear_arith);
        if rest > 0 {
            assert((whole + 1) * b == whole * b + b) by (nonlinear_arith);
            assert(c == whole + 1) by (nonlinear_arith)
                requires
                    c * b >= a,
                    c * b < a + b,
                    a == whole * b + rest,
                    0 < rest < b,
            ;
        } else {
            assert(c == whole) by (nonlinear_arith)
                requires
                    c * b >= a,
                    c * b < a + b,
                    a == whole * b,
                    b > 0,
            ;
        }
    }
    if rest > 0 {
        whole + 1
    } else {
        whole
    }
}

/// The smaller of two lengths.
pub fn min_usize(a: usize, b: usize) -> (m: usize)
    ensures
        m == least(a as int, b as int),
        m <= a,
        m <= b,
        m == a || m == b,
{
    if a <= b {
        a
    } else {
        b
    }
}

} // verus!
