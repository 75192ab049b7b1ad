//! Fixed-point scalars.
//!
//! A scalar is an `i64` that counts units of 2<sup>-16</sup>: the scalar `s`
//! stands for the real number `s / 65536`. Every operation below is total,
//! and saturates at the ends of the `i64` range where the exact result
//! cannot be represented. Where a sum or a difference is known to stay in
//! range, the integer operation does as well as [`addf`] or [`subf`].
use vstd::arithmetic::div_mod::{lemma_div_nonincreasing, lemma_div_pos_is_pos};
use vstd::prelude::*;

verus! {

/// Number of fractional bits in a scalar.
pub const FRAC_BITS: u32 = 16;

/// The scalar 1.
pub const ONE: i64 = 65536;

/// The scalar nearest to π for which a quarter turn is a whole number of units.
pub const PI: i64 = 205888;

/// A full turn, exactly twice [`PI`].
pub const TAU: i64 = 411776;

/// A quarter turn, exactly half of [`PI`].
pub const FRAC_PI_2: i64 = 102944;

/// `v` clamped into the range of `i64`.
pub open spec fn spec_sat(v: int) -> int {
    if v < i64::MIN {
        i64::MIN as int
    } else if v > i64::MAX {
        i64::MAX as int
    } else {
        v
    }
}

/// The magnitude of `v`.
pub open spec fn spec_magnitude(v: int) -> int {
    if v < 0 {
        -v
    } else {
        v
    }
}

/// The greatest whole scalar that is not above `x`.
pub open spec fn spec_floor(x: int) -> int {
    (x / (ONE as int)) * ONE
}

/// The least whole scalar that is not below `x`, saturated.
pub open spec fn spec_ceil(x: int) -> int {
    spec_sat(-spec_floor(-x))
}

/// The magnitude of `x`, saturated.
pub open spec fn spec_abs(x: int) -> int {
    spec_sat(spec_magnitude(x))
}

/// The quotient of `n` by `d`, rounded toward zero.
pub open spec fn spec_trunc_div(n: int, d: int) -> int
    recommends
        d != 0,
{
    if (n >= 0) == (d > 0) {
        spec_magnitude(n) / spec_magnitude(d)
    } else {
        -(spec_magnitude(n) / spec_magnitude(d))
    }
}

/// The product of two scalars, rounded toward zero and saturated.
pub open spec fn spec_mul(a: int, b: int) -> int {
    spec_sat(spec_trunc_div(a * b, ONE as int))
}

/// The divisor that [`spec_div`] uses for `d`: zero is replaced by the least
/// positive scalar.
pub open spec fn spec_divisor(d: int) -> int {
    if d == 0 {
        1
    } else {
        d
    }
}

/// The quotient of two scalars, rounded toward zero and saturated. A zero
/// divisor counts as the least positive scalar.
pub open spec fn spec_div(n: int, d: int) -> int {
    spec_sat(spec_trunc_div(n * ONE, spec_divisor(d)))
}

/// `r` is the integer square root of `n`, rounded down.
pub open spec fn is_floor_sqrt(n: int, r: int) -> bool {
    0 <= r && r * r <= n && n < (r + 1) * (r + 1)
}

/// The integer square root of `n`, rounded down; zero for negative `n`.
pub open spec fn spec_isqrt(n: int) -> int {
    if n < 0 {
        0
    } else {
        choose|r: int| is_floor_sqrt(n, r)
    }
}

/// The square root of a scalar, rounded down; zero for a negative scalar.
pub open spec fn spec_sqrt(x: int) -> int {
    spec_isqrt(x * ONE)
}

/// The Euclidean length of the offset `(a, b)`, rounded down and saturated.
pub open spec fn spec_distance(a: int, b: int) -> int {
    spec_sat(spec_isqrt(a * a + b * b))
}

/// Squares are monotone on the non-negative integers.
pub proof fn lemma_square_monotone(a: int, b: int)
    requires
        0 <= a <= b,
    ensures
        a * a <= b * b,
{
    assert(a * a <= b * b) by (nonlinear_arith)
        requires
            0 <= a <= b,
    ;
}

/// A number has at most one rounded-down square root.
pub proof fn lemma_floor_sqrt_unique(n: int, r1: int, r2: int)
    requires
        is_floor_sqrt(n, r1),
        is_floor_sqrt(n, r2),
    ensures
        r1 == r2,
{
    if r1 < r2 {
        lemma_square_monotone(r1 + 1, r2);
    } else if r2 < r1 {
        lemma_square_monotone(r2 + 1, r1);
    }
}

/// Every non-negative number has a rounded-down square root, and
/// [`spec_isqrt`] is that root.
pub proof fn lemma_isqrt_is_floor_sqrt(n: int)
    requires
        0 <= n,
    ensures
        is_floor_sqrt(n, spec_isqrt(n)),
    decreases n,
{
    if n == 0 {
        assert(is_floor_sqrt(0, 0));
    } else {
        lemma_isqrt_is_floor_sqrt(n - 1);
        let r: int = spec_isqrt(n - 1);
        if (r + 1) * (r + 1) <= n {
            assert((r + 2) * (r + 2) > (r + 1) * (r + 1)) by (nonlinear_arith)
                requires
                    0 <= r,
            ;
            assert(is_floor_sqrt(n, r + 1));
        } else {
            assert(is_floor_sqrt(n, r));
        }
    }
}

/// [`spec_isqrt`] of `n` is `r` as soon as `r` is a rounded-down square root of `n`.
pub proof fn lemma_isqrt_from_witness(n: int, r: int)
    requires
        is_floor_sqrt(n, r),
    ensures
        spec_isqrt(n) == r,
{
    assert(0 <= n) by (nonlinear_arith)
        requires
            0 <= r,
            r * r <= n,
    ;
    lemma_isqrt_is_floor_sqrt(n);
    lemma_floor_sqrt_unique(n, r, spec_isqrt(n));
}

/// Rounding a quotient toward zero never gives more than the dividend, and
/// keeps the quotient on the side of zero that the signs call for.
pub proof fn lemma_trunc_div_bound(n: int, d: int)
    requires
        d != 0,
    ensures
        spec_magnitude(spec_trunc_div(n, d)) <= spec_magnitude(n),
        (n >= 0) == (d > 0) ==> spec_trunc_div(n, d) >= 0,
        (n >= 0) != (d > 0) ==> spec_trunc_div(n, d) <= 0,
{
    lemma_div_pos_is_pos(spec_magnitude(n), spec_magnitude(d));
    lemma_div_nonincreasing(spec_magnitude(n), spec_magnitude(d));
}

/// The quotient of a scalar of magnitude at most one by any scalar has
/// magnitude at most `ONE * ONE`, and is not saturated.
pub proof fn lemma_div_unit_bound(n: int, d: int)
    requires
        -ONE <= n <= ONE,
    ensures
        -(ONE * ONE) <= spec_div(n, d) <= ONE * ONE,
        spec_div(n, d) == spec_trunc_div(n * ONE, spec_divisor(d)),
{
    lemma_trunc_div_bound(n * ONE, spec_divisor(d));
}

/// The product of a scalar of magnitude at most one with a scalar `b` has
/// magnitude at most that of `b`.
pub proof fn lemma_mul_unit_bound(a: int, b: int)
    requires
        -ONE <= a <= ONE,
    ensures
        spec_magnitude(spec_mul(a, b)) <= spec_magnitude(b),
{
    let p: int = spec_magnitude(a * b);
    assert(p <= ONE * spec_magnitude(b)) by (nonlinear_arith)
        requires
            p == spec_magnitude(a * b),
            -65536 <= a <= 65536,
            ONE == 65536,
    ;
    assert(p / (ONE as int) <= spec_magnitude(b));
}

/// The length of an offset is not negative, and not above the sum of the
/// magnitudes of its two parts.
pub proof fn lemma_distance_bounds(a: int, b: int)
    ensures
        0 <= spec_distance(a, b) <= spec_magnitude(a) + spec_magnitude(b),
{
    let n: int = a * a + b * b;
    let s: int = spec_magnitude(a) + spec_magnitude(b);
    assert(0 <= n <= s * s && s * s < (s + 1) * (s + 1)) by (nonlinear_arith)
        requires
            n == a * a + b * b,
            s == spec_magnitude(a) + spec_magnitude(b),
    ;
    lemma_isqrt_is_floor_sqrt(n);
    let r: int = spec_isqrt(n);
    if r > s {
        lemma_square_monotone(s + 1, r);
    }
}

/// Rounds a scalar down to a whole number.
pub fn floorf(x: i64) -> (r: i64)
    ensures
        r == spec_floor(x as int),
        r <= x < r + ONE,
{
    let m: i64 = x % ONE;
    if m < 0 {
        x - (m + ONE)
    } else {
        x - m
    }
}

/// Rounds a scalar up to a whole number; the greatest scalar where that
/// number is out of range.
pub fn ceilf(x: i64) -> (r: i64)
    ensures
        r == spec_ceil(x as int),
        x <= i64::MAX - ONE ==> x <= r < x + ONE,
{
    let f: i64 = floorf(x);
    if f == x {
        x
    } else if f > i64::MAX - ONE {
        i64::MAX
    } else {
        f + ONE
    }
}

/// The magnitude of a scalar; the greatest scalar for the least one.
pub fn fabsf(x: i64) -> (r: i64)
    ensures
        r == spec_abs(x as int),
        r >= 0,
{
    if x == i64::MIN {
        i64::MAX
    } else if x < 0 {
        -x
    } else {
        x
    }
}

/// Clamps a wide integer into the scalar range.
fn saturate(v: i128) -> (r: i64)
    ensures
        r == spec_sat(v as int),
{
    if v < i64::MIN as i128 {
        i64::MIN
    } else if v > i64::MAX as i128 {
        i64::MAX
    } else {
        v as i64
    }
}

/// Adds two scalars, saturating.
pub fn addf(a: i64, b: i64) -> (r: i64)
    ensures
        r == spec_sat(a + b),
{
    saturate(a as i128 + b as i128)
}

/// Subtracts a scalar from another, saturating.
pub fn subf(a: i64, b: i64) -> (r: i64)
    ensures
        r == spec_sat(a - b),
{
    saturate(a as i128 - b as i128)
}

/// Multiplies two scalars, rounding toward zero and saturating.
pub fn mulf(a: i64, b: i64) -> (r: i64)
    ensures
        r == spec_mul(a as int, b as int),
{
    assert(-0x4000_0000_0000_0000_0000_0000_0000_0000 <= a * b
        <= 0x4000_0000_0000_0000_0000_0000_0000_0000) by (nonlinear_arith)
        requires
            -0x8000_0000_0000_0000 <= a <= 0x7fff_ffff_ffff_ffff,
            -0x8000_0000_0000_0000 <= b <= 0x7fff_ffff_ffff_ffff,
    ;
    let p: i128 = (a as i128) * (b as i128);
    let q: i128 = p / (ONE as i128);
    saturate(q)
}

/// The magnitude of a scalar as an unsigned wide integer.
fn magnitude(a: i64) -> (r: u128)
    ensures
        r == spec_magnitude(a as int),
        r <= 0x8000_0000_0000_0000,
{
    if a < 0 {
        (-(a as i128)) as u128
    } else {
        a as u128
    }
}

/// Divides two scalars, rounding toward zero and saturating. A zero divisor
/// counts as the least positive scalar, so that the quotient keeps the sign
/// of the dividend and is as large as the dividend allows.
pub fn divf(n: i64, d: i64) -> (r: i64)
    ensures
        r == spec_div(n as int, d as int),
{
    let divisor: i64 = if d == 0 {
        1
    } else {
        d
    };
    let q: u128 = (magnitude(n) * 65536) / magnitude(divisor);
    if (n >= 0) == (divisor > 0) {
        saturate(q as i128)
    } else {
        saturate(-(q as i128))
    }
}

/// The integer square root of `n`, rounded down.
pub fn isqrt(n: u128) -> (r: u64)
    ensures
        is_floor_sqrt(n as int, r as int),
        r == spec_isqrt(n as int),
{
    let mut lo: u128 = 0;
    let mut hi: u128 = 0x1_0000_0000_0000_0000;
    assert(0x1_0000_0000_0000_0000int * 0x1_0000_0000_0000_0000int
        == 0x1_0000_0000_0000_0000_0000_0000_0000_0000int) by (nonlinear_arith);
    while hi - lo > 1
        invariant
            lo < hi <= 0x1_0000_0000_0000_0000,
            lo * lo <= n,
            n < hi * hi,
        decreases hi - lo,
    {
        let mid: u128 = lo + (hi - lo) / 2;
        assert(mid * mid <= 0xffff_ffff_ffff_ffff_ffff_ffff_ffff_ffff) by (nonlinear_arith)
            requires
                0 <= mid <= 0xffff_ffff_ffff_ffff,
        ;
        if mid * mid <= n {
            lo = mid;
        } else {
            hi = mid;
        }
    }
    proof {
        lemma_isqrt_from_witness(n as int, lo as int);
    }
    lo as u64
}

/// The square root of a scalar, rounded down; zero for a negative scalar.
pub fn sqrtf(x: i64) -> (r: i64)
    ensures
        r == spec_sqrt(x as int),
        r >= 0,
        x >= 0 ==> is_floor_sqrt(x * ONE, r as int),
{
    if x < 0 {
        0
    } else {
        let n: u128 = (x as u128) * 65536;
        let root: u64 = isqrt(n);
        assert(root < 0x8000_0000_0000_0000) by (nonlinear_arith)
            requires
                root * root <= n,
                n <= 0x7fff_ffff_ffff_ffff * 65536,
                0 <= root,
        ;
        root as i64
    }
}

/// The Euclidean length of the offset `(a, b)`, rounded down to a scalar;
/// the greatest scalar where the length is out of range.
pub fn distance(a: i64, b: i64) -> (r: i64)
    ensures
        r == spec_distance(a as int, b as int),
        r >= 0,
{
    let ma: u128 = magnitude(a);
    let mb: u128 = magnitude(b);
    assert(ma * ma == a * a && ma * ma <= 0x4000_0000_0000_0000_0000_0000_0000_0000)
        by (nonlinear_arith)
        requires
            ma == spec_magnitude(a as int),
            ma <= 0x8000_0000_0000_0000,
    ;
    assert(mb * mb == b * b && mb * mb <= 0x4000_0000_0000_0000_0000_0000_0000_0000)
        by (nonlinear_arith)
        requires
            mb == spec_magnitude(b as int),
            mb <= 0x8000_0000_0000_0000,
    ;
    let root: u64 = isqrt(ma * ma + mb * mb);
    if root > i64::MAX as u64 {
        i64::MAX
    } else {
        root as i64
    }
}

} // verus!
