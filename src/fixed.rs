use vstd::prelude::*;
use vstd::arithmetic::div_mod::lemma_fundamental_div_mod;
use vstd::arithmetic::div_mod::lemma_fundamental_div_mod_converse;

verus! {

/// Quotient and remainder of a division by a positive number bracket the dividend.
pub proof fn lemma_div_bounds(x: int, d: int)
    requires
        d > 0,
    ensures
        d * (x / d) <= x < d * (x / d) + d,
{
    lemma_fundamental_div_mod(x, d);
}

/// Division rounding toward negative infinity, for a positive divisor.
pub fn floor_div(num: i128, den: i128) -> (r: i128)
    requires
        den > 0,
        -0x1_0000_0000_0000_0000_0000_0000 <= num <= 0x1_0000_0000_0000_0000_0000_0000,
    ensures
        r == num / den,
{
    if num >= 0 {
        let q = (num as u128) / (den as u128);
        proof {
            lemma_div_bounds(num as int, den as int);
        }
        q as i128
    } else {
        let m = (-num) as u128;
        let d = den as u128;
        let q = (m + d - 1) / d;
        proof {
            lemma_div_bounds((m + d - 1) as int, d as int);
            let qi = q as int;
            assert(qi <= m) by (nonlinear_arith)
                requires
                    d as int * qi <= m + d - 1,
                    m >= 1,
                    d >= 1,
            ;
            let rem = num as int + qi * den as int;
            assert(0 <= rem < den) by (nonlinear_arith)
                requires
                    d as int * qi <= m + d - 1 < d as int * qi + d as int,
                    m == -num as int,
                    d == den,
                    rem == num as int + qi * den as int,
            ;
            assert(num as int == (-qi) * den as int + rem) by (nonlinear_arith)
                requires
                    rem == num as int + qi * den as int,
            ;
            lemma_fundamental_div_mod_converse(num as int, den as int, -qi, rem);
        }
        -(q as i128)
    }
}

/// `a + (b - a) * n / d`, rounded down.
pub open spec fn lerp_floor(a: int, b: int, n: int, d: int) -> int {
    a + ((b - a) * n) / d
}

/// `a + (b - a) * n / d`, rounded up.
pub open spec fn lerp_ceil(a: int, b: int, n: int, d: int) -> int {
    a - ((a - b) * n) / d
}

pub open spec fn min_int(a: int, b: int) -> int {
    if a <= b { a } else { b }
}

pub open spec fn max_int(a: int, b: int) -> int {
    if a >= b { a } else { b }
}

/// A point strictly between two values, whichever way it is rounded, stays
/// between them.
pub proof fn lemma_lerp_between(a: int, b: int, n: int, d: int)
    requires
        0 < n < d,
    ensures
        min_int(a, b) <= lerp_floor(a, b, n, d) <= max_int(a, b),
        min_int(a, b) <= lerp_ceil(a, b, n, d) <= max_int(a, b),
{
    let x = (b - a) * n;
    let y = (a - b) * n;
    lemma_div_bounds(x, d);
    lemma_div_bounds(y, d);
    let qx = x / d;
    let qy = y / d;
    if b >= a {
        assert(0 <= qx <= b - a) by (nonlinear_arith)
            requires
                d * qx <= x < d * qx + d,
                x == (b - a) * n,
                b - a >= 0,
                0 < n < d,
        ;
        assert(a - b <= qy <= 0) by (nonlinear_arith)
            requires
                d * qy <= y < d * qy + d,
                y == (a - b) * n,
                a - b <= 0,
                0 < n < d,
        ;
    } else {
        assert(b - a <= qx <= 0) by (nonlinear_arith)
            requires
                d * qx <= x < d * qx + d,
                x == (b - a) * n,
                b - a < 0,
                0 < n < d,
        ;
        assert(0 <= qy <= a - b) by (nonlinear_arith)
            requires
                d * qy <= y < d * qy + d,
                y == (a - b) * n,
                a - b > 0,
                0 < n < d,
        ;
    }
}

/// `lerp_floor` on machine integers whose differences fit comfortably in `i128`.
pub fn lerp_floor_exec(a: i64, b: i64, n: u64, d: u64) -> (r: i64)
    requires
        0 < n < d <= 0x1_0000_0000_0000,
        -0x100_0000_0000 <= a <= 0x100_0000_0000,
        -0x100_0000_0000 <= b <= 0x100_0000_0000,
    ensures
        r == lerp_floor(a as int, b as int, n as int, d as int),
{
    let diff = b as i128 - a as i128;
    assert(-0x1_0000_0000_0000_0000_0000_0000 <= diff * n <= 0x1_0000_0000_0000_0000_0000_0000)
        by (nonlinear_arith)
        requires
            -0x200_0000_0000 <= diff <= 0x200_0000_0000,
            0 < n < 0x1_0000_0000_0000,
    ;
    let prod = diff * (n as i128);
    let q = floor_div(prod, d as i128);
    proof {
        lemma_lerp_between(a as int, b as int, n as int, d as int);
    }
    (a as i128 + q) as i64
}

/// `lerp_ceil` on machine integers.
pub fn lerp_ceil_exec(a: i64, b: i64, n: u64, d: u64) -> (r: i64)
    requires
        0 < n < d <= 0x1_0000_0000_0000,
        -0x100_0000_0000 <= a <= 0x100_0000_0000,
        -0x100_0000_0000 <= b <= 0x100_0000_0000,
    ensures
        r == lerp_ceil(a as int, b as int, n as int, d as int),
{
    let diff = a as i128 - b as i128;
    assert(-0x1_0000_0000_0000_0000_0000_0000 <= diff * n <= 0x1_0000_0000_0000_0000_0000_0000)
        by (nonlinear_arith)
        requires
            -0x200_0000_0000 <= diff <= 0x200_0000_0000,
            0 < n < 0x1_0000_0000_0000,
    ;
    let prod = diff * (n as i128);
    let q = floor_div(prod, d as i128);
    proof {
        lemma_lerp_between(a as int, b as int, n as int, d as int);
    }
    (a as i128 - q) as i64
}

} // verus!
