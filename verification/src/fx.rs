//! Saturating fixed-point scalar arithmetic.
//!
//! A scalar is an `i64` holding a real number scaled by `SC` = 2^16.
//! Every operation truncates toward zero and saturates into the
//! symmetric range `[-FMAX, FMAX]`, so the algebra is total: no
//! operation overflows and no value ever leaves the range.

use vstd::prelude::*;
use vstd::arithmetic::div_mod::{
    lemma_div_multiples_vanish, lemma_div_is_ordered, lemma_basic_div, lemma_fundamental_div_mod,
    lemma_mod_bound,
};
use vstd::arithmetic::mul::lemma_mul_inequality;

verus! {

/// The fixed-point representation of 1.
pub const SC: i64 = 65536;

/// The saturation bound: 2^62 - 1.
pub const FMAX: i64 = 0x3fff_ffff_ffff_ffff;

pub open spec fn in_range(n: int) -> bool {
    -FMAX <= n <= FMAX
}

/// Saturate a mathematical integer into `[-FMAX, FMAX]`.
pub open spec fn clip_s(n: int) -> int {
    if n > FMAX {
        FMAX as int
    } else if n < -FMAX {
        -(FMAX as int)
    } else {
        n
    }
}

pub open spec fn abs_s(n: int) -> int {
    if n >= 0 {
        n
    } else {
        -n
    }
}

/// The sign of a product or quotient: -1 when exactly one operand is
/// negative, else 1.
pub open spec fn sgn2_s(a: int, b: int) -> int {
    if (a < 0) == (b < 0) {
        1
    } else {
        -1
    }
}

pub open spec fn fadd_s(a: int, b: int) -> int {
    clip_s(a + b)
}

pub open spec fn fsub_s(a: int, b: int) -> int {
    clip_s(a - b)
}

/// Fixed-point product: `a*b / SC`, truncated toward zero, saturated.
pub open spec fn fmul_s(a: int, b: int) -> int {
    clip_s(sgn2_s(a, b) * (abs_s(a) * abs_s(b) / (SC as int)))
}

/// Fixed-point quotient: `a*SC / b`, truncated toward zero, saturated.
pub open spec fn fdiv_s(a: int, b: int) -> int
    recommends
        b != 0,
{
    clip_s(sgn2_s(a, b) * (abs_s(a) * (SC as int) / abs_s(b)))
}

/// The integer square root, defined by counting up.
pub open spec fn isqrt_s(n: nat) -> nat
    decreases n,
{
    if n == 0 {
        0
    } else {
        let r = isqrt_s((n - 1) as nat);
        if (r + 1) * (r + 1) <= n {
            r + 1
        } else {
            r
        }
    }
}

/// Fixed-point square root of a nonnegative scalar: `isqrt(a * SC)`,
/// so that the result is again scaled by `SC`.
pub open spec fn fsqrt_s(a: int) -> int
    recommends
        a >= 0,
{
    if a >= 0 {
        isqrt_s((a * SC) as nat) as int
    } else {
        0
    }
}

pub proof fn lemma_isqrt_bounds(n: nat)
    ensures
        isqrt_s(n) * isqrt_s(n) <= n,
        n < (isqrt_s(n) + 1) * (isqrt_s(n) + 1),
    decreases n,
{
    if n == 0 {
        assert(isqrt_s(0) == 0);
        assert(isqrt_s(n) * isqrt_s(n) <= n);
        assert(n < (isqrt_s(n) + 1) * (isqrt_s(n) + 1)) by (nonlinear_arith)
            requires
                n == 0,
                isqrt_s(n) == 0,
        ;
    } else {
        lemma_isqrt_bounds((n - 1) as nat);
        let r = isqrt_s((n - 1) as nat);
        assert(r * r <= (n - 1) as nat);
        assert(((n - 1) as nat) < (r + 1) * (r + 1));
        if (r + 1) * (r + 1) <= n {
            assert(isqrt_s(n) == r + 1);
            assert(isqrt_s(n) * isqrt_s(n) <= n);
            assert(n <= (r + 1) * (r + 1));
            assert((r + 1) * (r + 1) < (r + 2) * (r + 2)) by (nonlinear_arith);
            assert(n < (isqrt_s(n) + 1) * (isqrt_s(n) + 1));
        } else {
            assert(isqrt_s(n) == r);
            assert(isqrt_s(n) * isqrt_s(n) <= n);
            assert(n < (isqrt_s(n) + 1) * (isqrt_s(n) + 1));
        }
    }
}

pub proof fn lemma_isqrt_unique(n: nat, r: nat)
    requires
        r * r <= n,
        n < (r + 1) * (r + 1),
    ensures
        r == isqrt_s(n),
{
    lemma_isqrt_bounds(n);
    let s = isqrt_s(n);
    if r < s {
        assert((r + 1) * (r + 1) <= s * s) by (nonlinear_arith)
            requires
                r + 1 <= s,
        ;
    } else if s < r {
        assert((s + 1) * (s + 1) <= r * r) by (nonlinear_arith)
            requires
                s + 1 <= r,
        ;
    }
}

/// Exact integer square root of a `u128` below 2^80.
pub fn isqrt_u128(n: u128) -> (r: u64)
    requires
        n < 0x1_0000_0000_0000_0000_0000u128,
    ensures
        r as nat == isqrt_s(n as nat),
        r < 0x1_0000_0000_0000u64,
{
    let mut lo: u64 = 0;
    let mut hi: u64 = 0x1_0000_0000_0000;
    proof {
        assert((hi as nat) * (hi as nat) > n as nat) by (nonlinear_arith)
            requires
                hi as nat == 0x1_0000_0000_0000nat,
                (n as nat) < 0x1_0000_0000_0000_0000_0000nat,
        ;
    }
    while hi - lo > 1
        invariant
            (lo as nat) * (lo as nat) <= n as nat,
            (n as nat) < (hi as nat) * (hi as nat),
            lo < hi,
            hi <= 0x1_0000_0000_0000u64,
        decreases hi - lo,
    {
        let mid: u64 = lo + (hi - lo) / 2;
        proof {
            assert((mid as int) * (mid as int) <= 0x1_0000_0000_0000int * 0x1_0000_0000_0000int)
                by (nonlinear_arith)
                requires
                    0 <= mid as int <= 0x1_0000_0000_0000int,
            ;
        }
        let sq: u128 = (mid as u128) * (mid as u128);
        if sq <= n {
            lo = mid;
        } else {
            hi = mid;
        }
    }
    proof {
        lemma_isqrt_unique(n as nat, lo as nat);
    }
    lo
}

fn abs_u128(a: i64) -> (r: u128)
    ensures
        r as int == abs_s(a as int),
{
    if a >= 0 {
        a as u128
    } else {
        (-(a as i128)) as u128
    }
}

fn clip_signed(q: u128, neg: bool) -> (r: i64)
    ensures
        r as int == clip_s(if neg { -(q as int) } else { q as int }),
        in_range(r as int),
{
    if q > 0x3fff_ffff_ffff_ffffu128 {
        if neg {
            -FMAX
        } else {
            FMAX
        }
    } else {
        if neg {
            -(q as i64)
        } else {
            q as i64
        }
    }
}

/// Saturating fixed-point addition.
pub fn fadd(a: i64, b: i64) -> (r: i64)
    requires
        in_range(a as int),
        in_range(b as int),
    ensures
        r as int == fadd_s(a as int, b as int),
        in_range(r as int),
{
    let s: i64 = a + b;
    if s > FMAX {
        FMAX
    } else if s < -FMAX {
        -FMAX
    } else {
        s
    }
}

/// Saturating fixed-point subtraction.
pub fn fsub(a: i64, b: i64) -> (r: i64)
    requires
        in_range(a as int),
        in_range(b as int),
    ensures
        r as int == fsub_s(a as int, b as int),
        in_range(r as int),
{
    let s: i64 = a - b;
    if s > FMAX {
        FMAX
    } else if s < -FMAX {
        -FMAX
    } else {
        s
    }
}

/// Exact negation (the range is symmetric).
pub fn fneg(a: i64) -> (r: i64)
    requires
        in_range(a as int),
    ensures
        r as int == -(a as int),
        in_range(r as int),
{
    -a
}

/// Saturating, truncating fixed-point multiplication.
pub fn fmul(a: i64, b: i64) -> (r: i64)
    requires
        in_range(a as int),
        in_range(b as int),
    ensures
        r as int == fmul_s(a as int, b as int),
        in_range(r as int),
{
    let neg: bool = (a < 0) != (b < 0);
    let aa: u128 = abs_u128(a);
    let ab: u128 = abs_u128(b);
    proof {
        assert((aa as int) * (ab as int) <= 0x4000_0000_0000_0000int * 0x4000_0000_0000_0000int)
            by (nonlinear_arith)
            requires
                0 <= aa as int <= 0x4000_0000_0000_0000int,
                0 <= ab as int <= 0x4000_0000_0000_0000int,
        ;
    }
    let p: u128 = aa * ab;
    let q: u128 = p / 65536;
    clip_signed(q, neg)
}

/// Saturating, truncating fixed-point division.
pub fn fdiv(a: i64, b: i64) -> (r: i64)
    requires
        in_range(a as int),
        in_range(b as int),
        b != 0,
    ensures
        r as int == fdiv_s(a as int, b as int),
        in_range(r as int),
{
    let neg: bool = (a < 0) != (b < 0);
    let aa: u128 = abs_u128(a);
    let ab: u128 = abs_u128(b);
    let p: u128 = aa * 65536;
    let q: u128 = p / ab;
    clip_signed(q, neg)
}

/// Exact fixed-point square root of a nonnegative scalar.
pub fn fsqrt(a: i64) -> (r: i64)
    requires
        0 <= a,
        in_range(a as int),
    ensures
        r as int == fsqrt_s(a as int),
        0 <= r,
        in_range(r as int),
{
    let n: u128 = (a as u128) * 65536;
    let r: u64 = isqrt_u128(n);
    r as i64
}

pub fn fmin(a: i64, b: i64) -> (r: i64)
    ensures
        r as int == if a as int <= b as int { a as int } else { b as int },
{
    if a <= b {
        a
    } else {
        b
    }
}

/// Multiplying by zero gives zero.
pub proof fn lemma_fmul_zero(a: int)
    ensures
        fmul_s(0, a) == 0,
        fmul_s(a, 0) == 0,
{
    lemma_basic_div(0, SC as int);
    assert(abs_s(0) * abs_s(a) == 0) by (nonlinear_arith);
    assert(abs_s(a) * abs_s(0) == 0) by (nonlinear_arith);
}

/// `SC` (the representation of 1) is a multiplicative identity on the range.
pub proof fn lemma_fmul_one(a: int)
    requires
        in_range(a),
    ensures
        fmul_s(SC as int, a) == a,
        fmul_s(a, SC as int) == a,
{
    lemma_div_multiples_vanish(abs_s(a), SC as int);
    assert(abs_s(SC as int) * abs_s(a) == (SC as int) * abs_s(a));
    assert(abs_s(a) * abs_s(SC as int) == (SC as int) * abs_s(a))
        by (nonlinear_arith);
}

/// Dividing by `SC` (the representation of 1) changes nothing.
pub proof fn lemma_fdiv_one(a: int)
    requires
        in_range(a),
    ensures
        fdiv_s(a, SC as int) == a,
{
    lemma_div_multiples_vanish(abs_s(a), SC as int);
    assert(abs_s(a) * (SC as int) == (SC as int) * abs_s(a))
        by (nonlinear_arith);
}

/// A square is nonnegative.
pub proof fn lemma_fmul_square_nonneg(a: int)
    ensures
        fmul_s(a, a) >= 0,
{
    assert(abs_s(a) * abs_s(a) >= 0) by (nonlinear_arith);
    assert(abs_s(a) * abs_s(a) / (SC as int) >= 0) by {
        lemma_div_is_ordered(0, abs_s(a) * abs_s(a), SC as int);
    }
}

/// On `[0, SC]` the product stays within `[0, min(a, b)]`.
pub proof fn lemma_fmul_unit_bound(a: int, b: int)
    requires
        0 <= a <= SC,
        0 <= b <= SC,
    ensures
        0 <= fmul_s(a, b) <= b,
        fmul_s(a, b) <= a,
{
    lemma_mul_inequality(a, SC as int, b);
    lemma_div_is_ordered(a * b, (SC as int) * b, SC as int);
    lemma_div_multiples_vanish(b, SC as int);
    lemma_div_is_ordered(0, a * b, SC as int);
    assert(a * b >= 0) by (nonlinear_arith)
        requires
            a >= 0,
            b >= 0,
    ;
    assert(b * a == a * b) by (nonlinear_arith);
    lemma_mul_inequality(b, SC as int, a);
    lemma_div_is_ordered(b * a, (SC as int) * a, SC as int);
    lemma_div_multiples_vanish(a, SC as int);
}

/// Multiplying by a factor of magnitude at most 1 cannot grow the
/// magnitude.
pub proof fn lemma_fmul_abs_bound(a: int, b: int)
    requires
        in_range(a),
        abs_s(b) <= SC,
    ensures
        abs_s(fmul_s(a, b)) <= abs_s(a),
{
    let p = abs_s(a) * abs_s(b);
    lemma_mul_inequality(abs_s(b), SC as int, abs_s(a));
    assert(abs_s(b) * abs_s(a) == abs_s(a) * abs_s(b)) by (nonlinear_arith);
    lemma_div_is_ordered(p, (SC as int) * abs_s(a), SC as int);
    lemma_div_multiples_vanish(abs_s(a), SC as int);
    assert(abs_s(a) * abs_s(b) >= 0) by (nonlinear_arith)
        requires
            abs_s(a) >= 0,
            abs_s(b) >= 0,
    ;
    lemma_div_is_ordered(0, p, SC as int);
}

/// A scalar whose square (as the algebra computes it) is at most 1
/// has magnitude at most 1.
pub proof fn lemma_square_le_one(c: int)
    requires
        in_range(c),
        fmul_s(c, c) <= SC,
    ensures
        abs_s(c) <= SC,
{
    let m = abs_s(c);
    assert(m * m >= 0) by (nonlinear_arith)
        requires
            m >= 0,
    ;
    lemma_div_is_ordered(0, m * m, SC as int);
    assert(m * m / (SC as int) <= SC);
    lemma_fundamental_div_mod(m * m, SC as int);
    lemma_mod_bound(m * m, SC as int);
    assert(m * m <= (SC as int) * (SC as int) + SC - 1) by (nonlinear_arith)
        requires
            m * m == (SC as int) * (m * m / (SC as int)) + (m * m) % (SC as int),
            m * m / (SC as int) <= SC as int,
            (m * m) % (SC as int) < SC as int,
            SC as int == 65536,
    ;
    assert(m <= SC) by (nonlinear_arith)
        requires
            m >= 0,
            m * m <= 4295032831int,
    ;
}

/// `-SC` (the representation of -1) negates.
pub proof fn lemma_fmul_neg_one(a: int)
    requires
        in_range(a),
    ensures
        fmul_s(-(SC as int), a) == -a,
        fmul_s(a, -(SC as int)) == -a,
{
    lemma_div_multiples_vanish(abs_s(a), SC as int);
    assert(abs_s(-(SC as int)) * abs_s(a) == (SC as int) * abs_s(a));
    assert(abs_s(a) * abs_s(-(SC as int)) == (SC as int) * abs_s(a))
        by (nonlinear_arith);
}

/// Zero divided by anything nonzero is zero.
pub proof fn lemma_fdiv_zero(b: int)
    requires
        b != 0,
    ensures
        fdiv_s(0, b) == 0,
{
    assert(abs_s(0) * (SC as int) == 0);
    lemma_basic_div(0, abs_s(b));
}

/// The fixed-point square root of 1 is 1.
pub proof fn lemma_fsqrt_one()
    ensures
        fsqrt_s(SC as int) == SC,
{
    assert(65536int * 65536int == 4294967296int) by (nonlinear_arith);
    assert(65537int * 65537int == 4295098369int) by (nonlinear_arith);
    lemma_isqrt_unique(4294967296nat, 65536nat);
}

/// Division by a positive scalar is monotone in the numerator.
pub proof fn lemma_fdiv_mono(a1: int, a2: int, b: int)
    requires
        a1 <= a2,
        b > 0,
    ensures
        fdiv_s(a1, b) <= fdiv_s(a2, b),
{
    if a1 >= 0 {
        lemma_mul_inequality(a1, a2, SC as int);
        lemma_div_is_ordered(a1 * (SC as int), a2 * (SC as int), abs_s(b));
    } else if a2 < 0 {
        lemma_mul_inequality(-a2, -a1, SC as int);
        lemma_div_is_ordered((-a2) * (SC as int), (-a1) * (SC as int), abs_s(b));
    } else {
        assert((-a1) * (SC as int) >= 0) by (nonlinear_arith)
            requires
                a1 < 0,
        ;
        assert(a2 * (SC as int) >= 0) by (nonlinear_arith)
            requires
                a2 >= 0,
        ;
        lemma_div_is_ordered(0, (-a1) * (SC as int), abs_s(b));
        lemma_div_is_ordered(0, a2 * (SC as int), abs_s(b));
    }
}

} // verus!
