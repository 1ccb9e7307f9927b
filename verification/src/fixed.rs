//! Fixed-point scalar arithmetic.
//!
//! Real quantities are represented as `i128` values scaled by [`SCALE`]:
//! a stored value `v` stands for the real number `v / SCALE`. Products and
//! quotients truncate toward zero, mirroring hardware division.

use vstd::prelude::*;
use vstd::arithmetic::div_mod::lemma_div_is_ordered;
use vstd::arithmetic::div_mod::lemma_div_multiples_vanish;
use vstd::arithmetic::div_mod::lemma_div_nonincreasing;
use vstd::arithmetic::div_mod::lemma_div_pos_is_pos;

verus! {

/// Number of fixed-point units per real unit.
pub const SCALE: i128 = 1_000_000;

/// Half of one real unit, in fixed-point units.
pub const HALF_SCALE: i128 = 500_000;

/// Largest magnitude allowed for an intermediate product.
pub const PROD_CAP: i128 = 1_000_000_000_000_000_000_000_000_000_000_000_000;

/// Largest input accepted by the integer square root.
pub const SQRT_IN_CAP: u128 = 1_000_000_000_000_000_000_000_000_000_000_000_000;

/// Upper bound on every integer square root result.
pub const SQRT_OUT_CAP: u128 = 1_000_000_000_000_000_000;

/// Division truncating toward zero, as machine division does.
/// Intended for positive divisors.
pub open spec fn tdiv(a: int, b: int) -> int {
    if a >= 0 {
        a / b
    } else {
        -((-a) / b)
    }
}

/// Fixed-point product: the scaled representation of the real product.
pub open spec fn mul_s(a: int, b: int) -> int {
    tdiv(a * b, SCALE as int)
}

/// Fixed-point quotient: the scaled representation of the real quotient.
pub open spec fn div_s(a: int, b: int) -> int {
    tdiv(a * (SCALE as int), b)
}

/// Floor of the square root, defined by counting up.
pub open spec fn sqrt_floor(n: nat) -> nat
    decreases n,
{
    if n == 0 {
        0
    } else {
        let r = sqrt_floor((n - 1) as nat);
        if (r + 1) * (r + 1) <= n {
            r + 1
        } else {
            r
        }
    }
}

/// Fixed-point square root of a nonnegative scaled value.
pub open spec fn sqrt_s(x: int) -> int {
    sqrt_floor((x * (SCALE as int)) as nat) as int
}

/// A quotient with a positive divisor is bounded by the quotient of a bound
/// on the dividend.
pub proof fn lemma_tdiv_bounds(a: int, b: int, m: int)
    requires
        b >= 1,
        0 <= m,
        -m <= a <= m,
    ensures
        -(m / b) <= tdiv(a, b) <= m / b,
{
    lemma_div_pos_is_pos(m, b);
    if a >= 0 {
        lemma_div_pos_is_pos(a, b);
        lemma_div_is_ordered(a, m, b);
    } else {
        lemma_div_pos_is_pos(-a, b);
        lemma_div_is_ordered(-a, m, b);
    }
}

/// Truncating division is monotone in the dividend.
pub proof fn lemma_tdiv_mono(a1: int, a2: int, b: int)
    requires
        b >= 1,
        a1 <= a2,
    ensures
        tdiv(a1, b) <= tdiv(a2, b),
{
    if a1 >= 0 {
        lemma_div_is_ordered(a1, a2, b);
    } else if a2 >= 0 {
        lemma_div_pos_is_pos(-a1, b);
        lemma_div_pos_is_pos(a2, b);
    } else {
        lemma_div_is_ordered(-a2, -a1, b);
    }
}

/// Dividing an exact multiple recovers the factor.
pub proof fn lemma_tdiv_exact(x: int, b: int)
    requires
        b >= 1,
    ensures
        tdiv(x * b, b) == x,
{
    if x >= 0 {
        lemma_div_multiples_vanish(x, b);
        assert(x * b == b * x) by (nonlinear_arith);
        if x > 0 {
            assert(x * b >= 0) by (nonlinear_arith)
                requires x > 0 && b >= 1;
        }
    } else {
        lemma_div_multiples_vanish(-x, b);
        assert(-(x * b) == b * (-x)) by (nonlinear_arith);
        assert(x * b <= 0) by (nonlinear_arith)
            requires x < 0 && b >= 1;
    }
}

/// A nonnegative dividend gives a nonnegative quotient no larger than itself.
pub proof fn lemma_tdiv_nonneg(a: int, b: int)
    requires
        0 <= a,
        b >= 1,
    ensures
        0 <= tdiv(a, b) <= a,
{
    lemma_div_pos_is_pos(a, b);
    lemma_div_nonincreasing(a, b);
}

/// The dividend bounds the magnitude of a truncating quotient.
pub proof fn lemma_tdiv_weak(a: int, b: int)
    requires
        b >= 1,
    ensures
        -(if a >= 0 { a } else { -a }) <= tdiv(a, b) <= (if a >= 0 { a } else { -a }),
{
    if a >= 0 {
        lemma_tdiv_nonneg(a, b);
    } else {
        lemma_tdiv_nonneg(-a, b);
    }
}

/// Bounds on two factors bound their product.
pub proof fn lemma_mul_bound(a: int, b: int, ca: int, cb: int)
    requires
        -ca <= a <= ca,
        -cb <= b <= cb,
        0 <= ca,
        0 <= cb,
    ensures
        -(ca * cb) <= a * b <= ca * cb,
{
    assert(-(ca * cb) <= a * b <= ca * cb) by (nonlinear_arith)
        requires -ca <= a <= ca && -cb <= b <= cb && 0 <= ca && 0 <= cb;
}

/// Bounds on two factors bound their fixed-point product.
pub proof fn lemma_mul_s_bound(a: int, b: int, ca: int, cb: int)
    requires
        -ca <= a <= ca,
        -cb <= b <= cb,
        0 <= ca,
        0 <= cb,
    ensures
        -((ca * cb) / (SCALE as int)) <= mul_s(a, b) <= (ca * cb) / (SCALE as int),
        -(ca * cb) <= a * b <= ca * cb,
{
    lemma_mul_bound(a, b, ca, cb);
    lemma_tdiv_bounds(a * b, SCALE as int, ca * cb);
}

/// Truncating division of machine integers by a positive divisor.
pub fn tdiv_exec(a: i128, b: i128) -> (r: i128)
    requires
        b >= 1,
    ensures
        r == tdiv(a as int, b as int),
{
    a / b
}

/// Fixed-point multiplication.
pub fn mul_scaled(a: i128, b: i128) -> (r: i128)
    requires
        -PROD_CAP <= a * b <= PROD_CAP,
    ensures
        r == mul_s(a as int, b as int),
{
    let p: i128 = a * b;
    p / SCALE
}

/// Fixed-point division by a positive scalar.
pub fn div_scaled(a: i128, b: i128) -> (r: i128)
    requires
        b >= 1,
        -PROD_CAP <= a * (SCALE as int) <= PROD_CAP,
    ensures
        r == div_s(a as int, b as int),
{
    let p: i128 = a * SCALE;
    p / b
}

/// The floor square root sits between the two enclosing perfect squares.
pub proof fn lemma_sqrt_floor_char(n: nat)
    ensures
        sqrt_floor(n) * sqrt_floor(n) <= n,
        n < (sqrt_floor(n) + 1) * (sqrt_floor(n) + 1),
    decreases n,
{
    if n == 0 {
        assert(sqrt_floor(n) == 0);
        assert(n < (sqrt_floor(n) + 1) * (sqrt_floor(n) + 1)) by (nonlinear_arith)
            requires n == 0 && sqrt_floor(n) == 0;
    } else {
        lemma_sqrt_floor_char((n - 1) as nat);
        let r = sqrt_floor((n - 1) as nat);
        assert(r * r <= (n - 1) as nat);
        assert(((n - 1) as nat) < (r + 1) * (r + 1));
        if (r + 1) * (r + 1) <= n {
            assert(sqrt_floor(n) == r + 1);
            assert(n <= (r + 1) * (r + 1));
            assert((r + 1) * (r + 1) < (r + 1 + 1) * (r + 1 + 1)) by (nonlinear_arith)
                requires r >= 0;
        } else {
            assert(sqrt_floor(n) == r);
            assert(r * r <= n);
            assert(n < (r + 1) * (r + 1));
        }
    }
}

/// Any value between the enclosing squares of `r` has floor square root `r`.
pub proof fn lemma_sqrt_floor_unique(n: nat, r: nat)
    requires
        r * r <= n,
        n < (r + 1) * (r + 1),
    ensures
        r == sqrt_floor(n),
{
    lemma_sqrt_floor_char(n);
    let s = sqrt_floor(n);
    if r < s {
        assert((r + 1) * (r + 1) <= s * s) by (nonlinear_arith)
            requires r + 1 <= s;
    } else if s < r {
        assert((s + 1) * (s + 1) <= r * r) by (nonlinear_arith)
            requires s + 1 <= r;
    }
}

/// Integer square root by binary search.
pub fn isqrt(n: u128) -> (r: u128)
    requires
        n <= SQRT_IN_CAP,
    ensures
        r as nat == sqrt_floor(n as nat),
        r <= SQRT_OUT_CAP,
{
    let mut lo: u128 = 0;
    let mut hi: u128 = 1_000_000_000_000_000_001;
    proof {
        assert((hi * hi) as int > SQRT_IN_CAP as int) by (nonlinear_arith)
            requires hi == 1_000_000_000_000_000_001u128;
    }
    while hi - lo > 1
        invariant
            lo < hi,
            hi <= 1_000_000_000_000_000_001,
            (lo * lo) as nat <= n as nat,
            (n as nat) < (hi * hi) as nat,
        decreases hi - lo,
    {
        let mid: u128 = lo + (hi - lo) / 2;
        proof {
            assert(mid * mid <= 1_000_000_000_000_000_000_000_000_000_000_000_000u128)
                by (nonlinear_arith)
                requires mid <= 1_000_000_000_000_000_000u128;
        }
        if mid * mid <= n {
            lo = mid;
        } else {
            hi = mid;
        }
    }
    proof {
        lemma_sqrt_floor_unique(n as nat, lo as nat);
    }
    lo
}

/// Fixed-point square root of a nonnegative scaled value.
pub fn sqrt_scaled(x: i128) -> (r: i128)
    requires
        0 <= x,
        x * (SCALE as int) <= SQRT_IN_CAP as int,
    ensures
        r == sqrt_s(x as int),
        0 <= r <= SQRT_OUT_CAP as int,
{
    let n: u128 = (x as u128) * (SCALE as u128);
    let r = isqrt(n);
    r as i128
}

/// The fixed-point square root of a scaled value in `[0, 1]` stays in `[0, 1]`.
pub proof fn lemma_sqrt_s_unit_range(x: int)
    requires
        0 <= x <= SCALE as int,
    ensures
        0 <= sqrt_s(x) <= SCALE as int,
{
    let n = (x * (SCALE as int)) as nat;
    assert(x * (SCALE as int) <= (SCALE as int) * (SCALE as int)) by (nonlinear_arith)
        requires 0 <= x <= SCALE as int;
    lemma_sqrt_floor_char(n);
    let s = sqrt_floor(n);
    if s > SCALE as int {
        assert((SCALE as int + 1) * (SCALE as int + 1) <= s * s) by (nonlinear_arith)
            requires SCALE as int + 1 <= s;
    }
}

} // verus!
