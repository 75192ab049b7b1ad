//! Sine, cosine and tangent of a fixed-point angle.
//!
//! An angle is a scalar in radians. It need not lie within one turn: every
//! function here first reduces its argument into `[0, TAU)`. The sine is
//! Bhaskara's rational approximation, mirrored for the second half of the
//! turn, so its values are a few percent off the true sine, by design.
use crate::fixed::{
    divf, lemma_div_unit_bound, spec_div, FRAC_PI_2, ONE, PI, TAU,
};
use vstd::arithmetic::div_mod::{
    lemma_div_is_ordered, lemma_div_is_ordered_by_denominator, lemma_mod_multiples_vanish,
};
use vstd::prelude::*;

verus! {

/// Bhaskara's approximation of the sine on the half turn `0 <= t <= PI`:
/// `16 t (π - t) / (5 π² - 4 t (π - t))`, rounded down to a scalar.
pub open spec fn spec_half_wave(t: int) -> int {
    (16 * (t * (PI - t)) * ONE) / (5 * (PI * PI) - 4 * (t * (PI - t)))
}

/// The angle `x` reduced into `[0, TAU)`.
pub open spec fn spec_reduce(x: int) -> int {
    x % (TAU as int)
}

/// The approximate sine of `x`.
pub open spec fn spec_sin(x: int) -> int {
    let r = spec_reduce(x);
    if r > PI {
        -spec_half_wave(r - PI)
    } else {
        spec_half_wave(r)
    }
}

/// The approximate cosine of `x`: the sine a quarter turn later.
pub open spec fn spec_cos(x: int) -> int {
    spec_sin(x + FRAC_PI_2)
}

/// The approximate tangent of `x`: sine over cosine, where a zero cosine
/// counts as the least positive scalar.
pub open spec fn spec_tan(x: int) -> int {
    spec_div(spec_sin(x), spec_cos(x))
}

/// On a half turn the product `t (π - t)` lies between zero and `π² / 4`.
pub proof fn lemma_arch_bounds(t: int)
    requires
        0 <= t <= PI,
    ensures
        0 <= t * (PI - t),
        4 * (t * (PI - t)) <= PI * PI,
{
    assert(0 <= t * (205888 - t) && 4 * (t * (205888 - t)) <= 205888 * 205888)
        by (nonlinear_arith)
        requires
            0 <= t <= 205888,
    ;
}

/// Bhaskara's approximation stays within `[0, ONE]` on a half turn.
pub proof fn lemma_half_wave_bounds(t: int)
    requires
        0 <= t <= PI,
    ensures
        0 <= spec_half_wave(t) <= ONE,
{
    lemma_arch_bounds(t);
    let p: int = t * (PI - t);
    let num: int = 16 * p * ONE;
    let den: int = 5 * (PI * PI) - 4 * p;
    assert(0 <= num / den <= ONE) by (nonlinear_arith)
        requires
            0 <= num <= 65536 * den,
            den > 0,
            ONE == 65536,
    ;
}

/// The sine never leaves `[-ONE, ONE]`.
pub proof fn lemma_sin_bounds(x: int)
    ensures
        -ONE <= spec_sin(x) <= ONE,
{
    let r: int = spec_reduce(x);
    if r > PI {
        lemma_half_wave_bounds(r - PI);
    } else {
        lemma_half_wave_bounds(r);
    }
}

/// The cosine never leaves `[-ONE, ONE]`.
pub proof fn lemma_cos_bounds(x: int)
    ensures
        -ONE <= spec_cos(x) <= ONE,
{
    lemma_sin_bounds(x + FRAC_PI_2);
}

/// The tangent never leaves `[-ONE * ONE, ONE * ONE]`.
pub proof fn lemma_tan_bounds(x: int)
    ensures
        -(ONE * ONE) <= spec_tan(x) <= ONE * ONE,
{
    lemma_sin_bounds(x);
    lemma_div_unit_bound(spec_sin(x), spec_cos(x));
}

/// Sine, cosine and tangent repeat after every whole number of turns.
pub proof fn lemma_trig_periodic(x: int, turns: int)
    ensures
        spec_reduce(x + turns * TAU) == spec_reduce(x),
        spec_sin(x + turns * TAU) == spec_sin(x),
        spec_cos(x + turns * TAU) == spec_cos(x),
        spec_tan(x + turns * TAU) == spec_tan(x),
{
    lemma_mod_multiples_vanish(turns, x, TAU as int);
    lemma_mod_multiples_vanish(turns, x + FRAC_PI_2, TAU as int);
    assert(TAU * turns == turns * TAU) by (nonlinear_arith);
    assert(x + turns * TAU + FRAC_PI_2 == TAU * turns + (x + FRAC_PI_2));
}

/// Bhaskara's approximation is symmetric about the quarter turn.
pub proof fn lemma_half_wave_symmetric(t: int)
    ensures
        spec_half_wave(PI - t) == spec_half_wave(t),
{
    assert((PI - t) * (PI - (PI - t)) == t * (PI - t)) by (nonlinear_arith);
}

/// The sine is odd: turning the other way flips its sign.
pub proof fn lemma_sin_odd(x: int)
    ensures
        spec_sin(-x) == -spec_sin(x),
{
    let r: int = spec_reduce(x);
    assert(spec_reduce(-x) == if r == 0 {
        0
    } else {
        TAU - r
    });
    if r == 0 {
        lemma_trig_on_axes();
    } else if r <= PI {
        lemma_half_wave_symmetric(r);
        if r == PI {
            lemma_trig_on_axes();
        }
    } else {
        lemma_half_wave_symmetric(r - PI);
    }
}

/// Bhaskara's approximation rises over the first quarter turn.
pub proof fn lemma_half_wave_rises(s: int, t: int)
    requires
        0 <= s <= t <= FRAC_PI_2,
    ensures
        spec_half_wave(s) <= spec_half_wave(t),
{
    lemma_arch_bounds(s);
    lemma_arch_bounds(t);
    let low: int = s * (PI - s);
    let high: int = t * (PI - t);
    assert(low <= high) by (nonlinear_arith)
        requires
            low == s * (205888 - s),
            high == t * (205888 - t),
            0 <= s <= t <= 102944,
    ;
    let low_den: int = 5 * (PI * PI) - 4 * low;
    let high_den: int = 5 * (PI * PI) - 4 * high;
    lemma_div_is_ordered(16 * low * ONE, 16 * high * ONE, low_den);
    lemma_div_is_ordered_by_denominator(16 * high * ONE, high_den, low_den);
}

/// The sine rises from zero to one over the first quarter turn.
pub proof fn lemma_sin_rises(s: int, t: int)
    requires
        0 <= s <= t <= FRAC_PI_2,
    ensures
        0 <= spec_sin(s) <= spec_sin(t) <= ONE,
{
    assert(spec_reduce(s) == s && spec_reduce(t) == t);
    lemma_half_wave_rises(s, t);
    lemma_half_wave_bounds(s);
    lemma_half_wave_bounds(t);
}

/// At the four axis directions the sine and cosine are exact.
pub proof fn lemma_trig_on_axes()
    ensures
        spec_sin(0) == 0,
        spec_cos(0) == ONE,
        spec_sin(FRAC_PI_2 as int) == ONE,
        spec_cos(FRAC_PI_2 as int) == 0,
        spec_sin(PI as int) == 0,
        spec_cos(PI as int) == -ONE,
        spec_sin(PI + FRAC_PI_2) == -ONE,
        spec_cos(PI + FRAC_PI_2) == 0,
{
    assert(spec_half_wave(0) == 0 && spec_half_wave(PI as int) == 0) by {
        assert(205888int * 205888 == 42389868544) by (nonlinear_arith);
        assert(0int * (205888 - 0) == 0 && 205888int * (205888 - 205888) == 0)
            by (nonlinear_arith);
    }
    assert(spec_half_wave(FRAC_PI_2 as int) == ONE) by {
        assert(205888int * 205888 == 42389868544) by (nonlinear_arith);
        assert(102944int * (205888 - 102944) == 10597467136) by (nonlinear_arith);
        assert((16 * 10597467136int * 65536) / 169559474176int == 65536) by (nonlinear_arith);
    }
    assert(spec_reduce(0) == 0);
    assert(spec_reduce(FRAC_PI_2 as int) == FRAC_PI_2);
    assert(spec_reduce(PI as int) == PI);
    assert(spec_reduce(PI + FRAC_PI_2) == PI + FRAC_PI_2);
    assert(spec_reduce(PI + FRAC_PI_2 + FRAC_PI_2) == 0);
}

/// Reduces an angle into `[0, TAU)`.
pub fn reduce(x: i64) -> (r: i64)
    ensures
        r == spec_reduce(x as int),
        0 <= r < TAU,
{
    let m: i64 = x % TAU;
    if m < 0 {
        m + TAU
    } else {
        m
    }
}

/// Bhaskara's approximation of the sine of `t`, for `t` within a half turn.
fn half_wave(t: i64) -> (r: i64)
    requires
        0 <= t <= PI,
    ensures
        r == spec_half_wave(t as int),
        0 <= r <= ONE,
{
    proof {
        lemma_arch_bounds(t as int);
        lemma_half_wave_bounds(t as int);
    }
    let arch: i64 = t * (PI - t);
    let num: i64 = 16 * arch * ONE;
    let den: i64 = 5 * (PI * PI) - 4 * arch;
    num / den
}

/// The approximate sine of an angle.
pub fn sinf(x: i64) -> (r: i64)
    ensures
        r == spec_sin(x as int),
        -ONE <= r <= ONE,
{
    let turn: i64 = reduce(x);
    if turn > PI {
        -half_wave(turn - PI)
    } else {
        half_wave(turn)
    }
}

/// The approximate cosine of an angle.
pub fn cosf(x: i64) -> (r: i64)
    ensures
        r == spec_cos(x as int),
        -ONE <= r <= ONE,
{
    let turn: i64 = reduce(x);
    proof {
        let turns: int = (x as int) / (TAU as int);
        assert(x == turn + turns * TAU);
        lemma_trig_periodic(turn as int, turns);
    }
    sinf(turn + FRAC_PI_2)
}

/// The approximate tangent of an angle. Where the cosine is zero the result
/// is `ONE * ONE` with the sign of the sine: the tangent is never undefined.
pub fn tanf(x: i64) -> (r: i64)
    ensures
        r == spec_tan(x as int),
        -(ONE * ONE) <= r <= ONE * ONE,
{
    proof {
        lemma_tan_bounds(x as int);
    }
    divf(sinf(x), cosf(x))
}

} // verus!
