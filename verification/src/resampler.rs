//! The sample arithmetic of the jitter buffer: fades, interpolation, and the
//! playback rate that chases clock drift.
//!
//! Gains, positions and rates are in ticks (see [`crate::rounding`]).

use crate::rounding;
use crate::rounding::{HALF, ONE};
use vstd::arithmetic::power2::*;
use vstd::prelude::*;

verus! {

/// Frames over which a concealed or underrun region fades to silence.
pub const FADE_FRAMES: u64 = 240;

/// Slowest playback rate: 1 - 0.004.
///
/// The largest correction applied to chase clock drift is 0.4 %. That is ~7 cents
/// of pitch — inaudible — and roughly 20x the worst-case error between two
/// consumer crystals.
pub const MIN_RATE: u64 = 0x1f_df3b_645a_1cac;

/// Fastest playback rate: 1 + 0.004.
pub const MAX_RATE: u64 = 0x20_20c4_9ba5_e354;

/// Proportional gain from normalised fill error to rate correction: 0.01, in
/// units of 2^-59.
pub const DRIFT_GAIN: u64 = 0x14_7ae1_47ae_147b;

/// Per-pull smoothing of the rate: 0.02, in units of 2^-58. At 100 pulls/s this
/// is a ~0.5 s time constant, so the rate never steps abruptly.
pub const RATE_SMOOTHING: u64 = 0x14_7ae1_47ae_147b;

/// The distance of `x` from 0.
pub open spec fn magnitude(x: int) -> nat {
    if x < 0 {
        (-x) as nat
    } else {
        x as nat
    }
}

/// `size` with the sign of `x`.
pub open spec fn with_sign(x: int, size: nat) -> int {
    if x < 0 {
        -size
    } else {
        size as int
    }
}

/// Gain of the `i`th frame of a fade.
pub open spec fn gain(i: nat) -> nat {
    if i >= FADE_FRAMES {
        0
    } else {
        rounding::one_minus(i, FADE_FRAMES as nat)
    }
}

/// A sample times a gain, rounded to a whole number, ties away from zero.
pub open spec fn scaled(sample: int, gain: nat) -> int {
    with_sign(sample, rounding::whole(rounding::nearest(magnitude(sample) * gain)))
}

/// The `i`th frame of a fade that starts from `sample`.
pub open spec fn faded(sample: i16, i: nat) -> i16 {
    scaled(sample as int, gain(i)) as i16
}

/// The point `t` ticks of the way from `a` to `b`, rounded to a whole number.
pub open spec fn mixed(a: int, b: int, t: nat) -> int {
    let step = with_sign(b - a, rounding::nearest(magnitude(b - a) * t));
    let point = a * ONE + step;
    with_sign(point, rounding::whole(rounding::nearest(magnitude(point))))
}

/// Number `x` kept within `lo` and `hi`.
pub open spec fn clamped(x: nat, lo: nat, hi: nat) -> nat {
    if x < lo {
        lo
    } else if x > hi {
        hi
    } else {
        x
    }
}

/// The correction that a fill level `gap` frames off a target of `target` frames
/// calls for, in units of 2^-187.
pub open spec fn correction(gap: nat, target: nat) -> nat {
    rounding::nearest(rounding::quotient(gap * pow2(128), target) * DRIFT_GAIN as nat)
}

/// The rate that brings a fill level of `fill` frames back to `target`: above 1
/// when there is too much, below 1 when there is too little.
pub open spec fn desired_rate(fill: nat, target: nat) -> nat {
    let f = rounding::nearest(fill);
    let t = rounding::nearest(target);
    let raw = if f >= t {
        rounding::nearest(pow2(187) + correction(rounding::nearest((f - t) as nat), t))
    } else {
        rounding::nearest((pow2(187) - correction(rounding::nearest((t - f) as nat), t)) as nat)
    };
    clamped(raw / pow2(134), MIN_RATE as nat, MAX_RATE as nat)
}

/// One smoothing step of the rate towards `desired`.
pub open spec fn smoothed_rate(rate: nat, desired: nat) -> nat {
    let step = rounding::nearest(magnitude(desired - rate) * RATE_SMOOTHING as nat);
    let sum = if desired >= rate {
        (rate * pow2(58) + step) as nat
    } else {
        (rate * pow2(58) - step) as nat
    };
    rounding::nearest(sum) / pow2(58)
}

/// The rate stays within its limits.
pub open spec fn rate_in_limits(rate: nat) -> bool {
    MIN_RATE <= rate <= MAX_RATE
}

proof fn lemma_whole_of_multiple(k: nat)
    ensures
        rounding::whole(k * ONE as nat) == k,
{
}

proof fn lemma_whole_monotone(a: nat, b: nat)
    requires
        a <= b,
    ensures
        rounding::whole(a) <= rounding::whole(b),
{
}

proof fn lemma_nearest_of_whole(k: nat)
    requires
        k <= ONE,
    ensures
        rounding::nearest(k * ONE as nat) == k * ONE,
{
    lemma2_to64_rest();
    rounding::lemma_nearest_small(k);
    rounding::lemma_nearest_scales(k, 53);
}

/// A gain of at most 1 never makes a sample louder, and keeps its sign.
pub proof fn lemma_scaled_is_no_louder(sample: i16, gain: nat)
    requires
        gain <= ONE,
    ensures
        magnitude(scaled(sample as int, gain)) <= magnitude(sample as int),
        sample >= 0 ==> scaled(sample as int, gain) >= 0,
        sample <= 0 ==> scaled(sample as int, gain) <= 0,
        i16::MIN <= scaled(sample as int, gain) <= i16::MAX,
{
    let m = magnitude(sample as int);
    let one: nat = ONE as nat;
    assert(m * gain <= m * one) by (nonlinear_arith)
        requires
            gain <= one,
    ;
    rounding::lemma_nearest_monotone(m * gain, m * one);
    lemma_nearest_of_whole(m);
    lemma_whole_monotone(rounding::nearest(m * gain), m * one);
    lemma_whole_of_multiple(m);
}

/// Every gain of a fade is at most 1.
pub proof fn lemma_gain_at_most_one(i: nat)
    ensures
        gain(i) <= ONE,
{
    if i < FADE_FRAMES {
        lemma_pow2_pos(75);
        let e = rounding::quotient(i * pow2(128), FADE_FRAMES as nat);
        lemma2_to64_rest();
        lemma_pow2_adds(53, 75);
        rounding::lemma_nearest_small(1);
        rounding::lemma_nearest_scales(1, 128);
        lemma_pow2_pos(128);
        assert(i * pow2(128) <= FADE_FRAMES as nat * pow2(128)) by (nonlinear_arith)
            requires
                i <= FADE_FRAMES,
        ;
        rounding::lemma_quotient_at_most(i * pow2(128), FADE_FRAMES as nat, 128);
        rounding::lemma_nearest_monotone((pow2(128) - e) as nat, pow2(128));
        let top = rounding::nearest((pow2(128) - e) as nat);
        vstd::arithmetic::div_mod::lemma_div_is_ordered(
            top as int,
            pow2(128) as int,
            pow2(75) as int,
        );
        rounding::lemma_exact_division(ONE as nat, 75);
    }
}

/// A gain of at most 1 turns a fade's sample into one that is no louder.
pub proof fn lemma_faded(sample: i16, i: nat)
    ensures
        faded(sample, i) as int == scaled(sample as int, gain(i)),
        magnitude(faded(sample, i) as int) <= magnitude(sample as int),
        i >= FADE_FRAMES ==> faded(sample, i) == 0,
{
    lemma_gain_at_most_one(i);
    lemma_scaled_is_no_louder(sample, gain(i));
    if i >= FADE_FRAMES {
        assert(magnitude(sample as int) * 0 == 0);
        rounding::lemma_nearest_small(0);
    }
}

/// A point between two samples rounds to a value between them.
pub proof fn lemma_mixed_lies_between(a: i16, b: i16, t: nat)
    requires
        t <= ONE,
    ensures
        a <= b ==> a <= mixed(a as int, b as int, t) <= b,
        b <= a ==> b <= mixed(a as int, b as int, t) <= a,
{
    let d = magnitude(b - a);
    let one: nat = ONE as nat;
    assert(d * t <= d * one) by (nonlinear_arith)
        requires
            t <= one,
    ;
    rounding::lemma_nearest_monotone(d * t, d * one);
    lemma_nearest_of_whole(d);
    let step = with_sign(b - a, rounding::nearest(d * t));
    let point = a * ONE + step;
    let lo: int = if a <= b {
        a as int
    } else {
        b as int
    };
    let hi: int = if a <= b {
        b as int
    } else {
        a as int
    };
    assert(lo * ONE <= point <= hi * ONE);
    let m = magnitude(point);
    if point >= 0 {
        rounding::lemma_nearest_monotone(m, hi as nat * one);
        lemma_nearest_of_whole(hi as nat);
        lemma_whole_monotone(rounding::nearest(m), hi as nat * one);
        lemma_whole_of_multiple(hi as nat);
        if lo >= 0 {
            rounding::lemma_nearest_monotone(lo as nat * one, m);
            lemma_nearest_of_whole(lo as nat);
            lemma_whole_monotone(lo as nat * one, rounding::nearest(m));
            lemma_whole_of_multiple(lo as nat);
        }
    } else {
        rounding::lemma_nearest_monotone(m, (-lo) as nat * one);
        lemma_nearest_of_whole((-lo) as nat);
        lemma_whole_monotone(rounding::nearest(m), (-lo) as nat * one);
        lemma_whole_of_multiple((-lo) as nat);
        if hi < 0 {
            rounding::lemma_nearest_monotone((-hi) as nat * one, m);
            lemma_nearest_of_whole((-hi) as nat);
            lemma_whole_monotone((-hi) as nat * one, rounding::nearest(m));
            lemma_whole_of_multiple((-hi) as nat);
        }
    }
}

/// Gain of the `i`th frame of a fade: from 1 down to 0 over [`FADE_FRAMES`].
pub fn fade_out(i: u64) -> (g: u64)
    ensures
        g as nat == gain(i as nat),
        g <= ONE,
{
    if i >= FADE_FRAMES {
        0
    } else {
        rounding::one_minus_ratio(i, FADE_FRAMES)
    }
}

/// `sample` times `gain`.
pub fn scale(sample: i16, gain: u64) -> (s: i16)
    requires
        gain <= ONE,
    ensures
        s as int == scaled(sample as int, gain as nat),
{
    let size: u128 = if sample < 0 {
        (-(sample as i32)) as u128
    } else {
        sample as u128
    };
    assert(size * gain <= 0x8000 * ONE) by (nonlinear_arith)
        requires
            size <= 0x8000,
            gain <= ONE,
    ;
    proof {
        lemma_scaled_is_no_louder(sample, gain as nat);
        rounding::lemma_nearest_monotone((size * gain) as nat, 0x8000 * ONE as nat);
        lemma_nearest_of_whole(0x8000);
    }
    let rounded: u128 = rounding::round_nearest(size * gain as u128);
    let result: u128 = (rounded + HALF as u128) / ONE as u128;
    if sample < 0 {
        (-(result as i32)) as i16
    } else {
        result as i16
    }
}

/// The value `t` ticks of the way from `a` to `b`.
pub fn mix(a: i16, b: i16, t: u64) -> (s: i16)
    requires
        t <= ONE,
    ensures
        s as int == mixed(a as int, b as int, t as nat),
{
    let gap: i32 = b as i32 - a as i32;
    let size: u128 = if gap < 0 {
        (-gap) as u128
    } else {
        gap as u128
    };
    proof {
        lemma_mixed_lies_between(a, b, t as nat);
        assert(size * t <= 0xffff * ONE) by (nonlinear_arith)
            requires
                size <= 0xffff,
                t <= ONE,
        ;
        rounding::lemma_nearest_monotone((size * t) as nat, 0xffff * ONE as nat);
        lemma_nearest_of_whole(0xffff);
    }
    let step: u128 = rounding::round_nearest(size * t as u128);
    let start: i128 = a as i128 * ONE as i128;
    let point: i128 = if gap < 0 {
        start - step as i128
    } else {
        start + step as i128
    };
    let distance: u128 = if point < 0 {
        (-point) as u128
    } else {
        point as u128
    };
    proof {
        rounding::lemma_nearest_monotone(distance as nat, 0x2_0000 * ONE as nat);
        lemma_nearest_of_whole(0x2_0000);
    }
    let rounded: u128 = rounding::round_nearest(distance);
    let result: u128 = (rounded + HALF as u128) / ONE as u128;
    if point < 0 {
        (-(result as i32)) as i16
    } else {
        result as i16
    }
}

/// The smoothed rate lies between the old rate and the desired one, so it never
/// leaves the limits that both keep.
pub proof fn lemma_smoothed_rate_in_limits(rate: nat, desired: nat)
    requires
        rate_in_limits(rate),
        rate_in_limits(desired),
    ensures
        rate_in_limits(smoothed_rate(rate, desired)),
{
    let gap = magnitude(desired - rate);
    let c: nat = RATE_SMOOTHING as nat;
    let one: nat = ONE as nat;
    let p = pow2(58);
    lemma2_to64_rest();
    assert(p == 0x400_0000_0000_0000);
    assert(gap * c <= gap * one) by (nonlinear_arith)
        requires
            c <= one,
    ;
    rounding::lemma_nearest_monotone(gap * c, gap * one);
    rounding::lemma_nearest_small(gap);
    rounding::lemma_nearest_scales(gap, 53);
    let step = rounding::nearest(gap * c);
    assert(step <= gap * p) by (nonlinear_arith)
        requires
            step <= gap * one,
            one <= p,
    ;
    let lo: nat = MIN_RATE as nat;
    let hi: nat = MAX_RATE as nat;
    let sum: nat = if desired >= rate {
        (rate * p + step) as nat
    } else {
        (rate * p - step) as nat
    };
    assert(lo * p <= sum <= hi * p);
    rounding::lemma_nearest_monotone(lo * p, sum);
    rounding::lemma_nearest_monotone(sum, hi * p);
    rounding::lemma_nearest_small(lo);
    rounding::lemma_nearest_scales(lo, 58);
    lemma_max_rate_is_rounded();
    rounding::lemma_nearest_scales(hi, 58);
    assert(lo * p <= rounding::nearest(sum) <= hi * p);
}

/// The fastest rate has 53 significant bits.
pub proof fn lemma_max_rate_is_rounded()
    ensures
        rounding::nearest(MAX_RATE as nat) == MAX_RATE,
{
    lemma2_to64();
    rounding::lemma_nearest_small((MAX_RATE / 4) as nat);
    rounding::lemma_nearest_scales((MAX_RATE / 4) as nat, 2);
}

/// The desired rate is within the limits, 1 when the fill level is on target.
pub proof fn lemma_desired_rate(fill: nat, target: nat)
    requires
        target > 0,
    ensures
        rate_in_limits(desired_rate(fill, target)),
        fill == target ==> desired_rate(fill, target) == ONE,
{
    if fill == target {
        rounding::lemma_nearest_small(0);
        rounding::lemma_nearest_small(1);
        rounding::lemma_nearest_monotone(1, target);
        lemma_no_gap(rounding::nearest(target));
    }
}

/// On target, no correction is called for.
pub proof fn lemma_no_gap(target: nat)
    ensures
        target > 0 ==> correction(0, target) == 0,
        rounding::nearest(pow2(187)) / pow2(134) == ONE,
{
    if target > 0 {
        assert(0 * pow2(128) == 0);
        assert(0nat / target == 0);
        assert(target * 1 == target);
        rounding::lemma_half_even_exact(0, target);
        assert(0 * target == 0);
        assert(rounding::ulp(0) == 1);
        assert(rounding::quotient(0, target) == 0);
        assert(0 * DRIFT_GAIN == 0);
        rounding::lemma_nearest_small(0);
    }
    rounding::lemma_nearest_small(1);
    rounding::lemma_nearest_scales(1, 187);
    lemma2_to64_rest();
    lemma_pow2_adds(53, 134);
    rounding::lemma_exact_division(ONE as nat, 134);
}

/// What the rounded quotient of gap and target becomes when it is multiplied by
/// the gain and laid next to 1.
proof fn lemma_correction(gap: nat, target: nat, m: nat, s: nat)
    requires
        target > 0,
        s <= 112,
        m <= ONE,
        m <= 8 * pow2(s),
        rounding::quotient(gap * pow2(128), target) == m * pow2((128 - s) as nat),
    ensures
        correction(gap, target) == rounding::nearest(m * DRIFT_GAIN as nat) * pow2(
            (128 - s) as nat,
        ),
        correction(gap, target) < pow2(186),
        rounding::half_even(correction(gap, target), pow2(135)) == rounding::half_even(
            rounding::nearest(m * DRIFT_GAIN as nat),
            pow2(s + 7),
        ),
        rounding::half_even(correction(gap, target), pow2(135)) < HALF,
        rounding::half_even(correction(gap, target), pow2(134)) == rounding::half_even(
            rounding::nearest(m * DRIFT_GAIN as nat),
            pow2(s + 6),
        ),
        rounding::half_even(correction(gap, target), pow2(134)) < HALF,
{
    let g: nat = DRIFT_GAIN as nat;
    let k = pow2((128 - s) as nat);
    let p = rounding::nearest(m * g);
    lemma_pow2_pos((128 - s) as nat);
    lemma_pow2_pos(s + 6);
    lemma_pow2_pos(s + 7);
    assert((m * k) * g == (m * g) * k) by (nonlinear_arith);
    rounding::lemma_nearest_scales(m * g, (128 - s) as nat);
    lemma_pow2_adds(s + 7, (128 - s) as nat);
    lemma_pow2_adds(s + 6, (128 - s) as nat);
    rounding::lemma_half_even_scales(p, pow2(s + 7), k);
    rounding::lemma_half_even_scales(p, pow2(s + 6), k);
    // The product is at most eight times the gain.
    lemma2_to64();
    lemma2_to64_rest();
    lemma_pow2_adds(3, s);
    let top = pow2(s + 3);
    assert(m * g <= g * top) by (nonlinear_arith)
        requires
            m <= top,
    ;
    rounding::lemma_nearest_monotone(m * g, g * top);
    rounding::lemma_nearest_small(g);
    rounding::lemma_nearest_scales(g, s + 3);
    lemma_pow2_adds(s + 3, (128 - s) as nat);
    assert(p * k <= g * pow2(131)) by (nonlinear_arith)
        requires
            p <= g * top,
            top * k == pow2(131),
    ;
    lemma_pow2_adds(53, 131);
    rounding::lemma_pow2_at_least(184, 186);
    lemma_pow2_pos(131);
    assert(g * pow2(131) < pow2(53) * pow2(131)) by (nonlinear_arith)
        requires
            g < pow2(53),
            pow2(131) > 0,
    ;
    lemma_pow2_adds(4, 131);
    lemma_pow2_adds(3, 131);
    lemma_pow2_pos(134);
    lemma_pow2_pos(135);
    rounding::lemma_half_even_monotone(p * k, g * pow2(131), pow2(135));
    rounding::lemma_half_even_monotone(p * k, g * pow2(131), pow2(134));
    rounding::lemma_half_even_scales(g, 16, pow2(131));
    rounding::lemma_half_even_scales(g, 8, pow2(131));
}

/// The rate that brings the fill level back to target.
pub fn wanted_rate(fill: u64, target: u64) -> (rate: u64)
    requires
        0 < target < 0x800_0000_0000_0000,
        fill <= 4 * target,
    ensures
        rate as nat == desired_rate(fill as nat, target as nat),
        rate_in_limits(rate as nat),
{
    let f: u64 = rounded_count(fill);
    let t: u64 = rounded_count(target);
    proof {
        lemma2_to64();
        lemma2_to64_rest();
        rounding::lemma_nearest_small(1);
        rounding::lemma_nearest_monotone(1, target as nat);
        rounding::lemma_nearest_monotone(target as nat, 0x800_0000_0000_0000);
        rounding::lemma_nearest_scales(1, 59);
        rounding::lemma_nearest_monotone(fill as nat, 4 * target as nat);
        rounding::lemma_nearest_scales(target as nat, 2);
        rounding::lemma_nearest_idempotent(target as nat);
        rounding::lemma_nearest_scales(t as nat, 2);
        lemma_no_gap(t as nat);
    }
    let above: bool = f >= t;
    let distance: u64 = if above {
        f - t
    } else {
        t - f
    };
    proof {
        rounding::lemma_nearest_monotone(distance as nat, 4 * t as nat);
    }
    let gap: u64 = rounded_count(distance);
    if gap == 0 {
        return ONE;
    }
    let ratio: rounding::Ratio = rounding::divide(gap, t);
    let m: u128 = ratio.mantissa as u128;
    assert(m * DRIFT_GAIN < 0x400_0000_0000_0000_0000_0000_0000) by (nonlinear_arith)
        requires
            m <= 0x20_0000_0000_0000,
            DRIFT_GAIN == 0x14_7ae1_47ae_147b,
    ;
    proof {
        lemma_correction(gap as nat, t as nat, m as nat, ratio.shift as nat);
        lemma_pow2_pos((ratio.shift + 7) as nat);
        lemma_pow2_pos((ratio.shift + 6) as nat);
    }
    let product: u128 = rounding::round_nearest(m * DRIFT_GAIN as u128);
    assert(product < u128::MAX) by {
        rounding::lemma_nearest_monotone((m * DRIFT_GAIN) as nat, 0x400_0000_0000_0000_0000_0000_0000);
        lemma_pow2_adds(53, 53);
        rounding::lemma_nearest_small(1);
        rounding::lemma_nearest_scales(1, 106);
    }
    if above {
        let step: u128 = rounding::round_half_even(
            product,
            rounding::power_of_two(ratio.shift + 7),
        );
        proof {
            lemma_pow2_unfold(187);
            rounding::lemma_nearest_above_one(187, correction(gap as nat, t as nat));
            rounding::lemma_exact_division((ONE + 2 * step) as nat, 134);
        }
        let rate: u64 = ONE + 2 * step as u64;
        if rate > MAX_RATE {
            MAX_RATE
        } else {
            rate
        }
    } else {
        let step: u128 = rounding::round_half_even(
            product,
            rounding::power_of_two(ratio.shift + 6),
        );
        proof {
            rounding::lemma_nearest_below_one(187, correction(gap as nat, t as nat));
            rounding::lemma_exact_division((ONE - step) as nat, 134);
        }
        let rate: u64 = ONE - step as u64;
        if rate < MIN_RATE {
            MIN_RATE
        } else {
            rate
        }
    }
}

/// A count rounded to 53 significant bits.
fn rounded_count(x: u64) -> (r: u64)
    requires
        x < 0x4000_0000_0000_0000,
    ensures
        r as nat == rounding::nearest(x as nat),
{
    proof {
        lemma2_to64_rest();
        rounding::lemma_nearest_monotone(x as nat, 0x4000_0000_0000_0000);
        rounding::lemma_nearest_small(1);
        rounding::lemma_nearest_scales(1, 62);
    }
    rounding::round_nearest(x as u128) as u64
}

/// One smoothing step of `rate` towards `desired`.
pub fn smooth_rate(rate: u64, desired: u64) -> (next: u64)
    requires
        rate_in_limits(rate as nat),
        rate_in_limits(desired as nat),
    ensures
        next as nat == smoothed_rate(rate as nat, desired as nat),
        rate_in_limits(next as nat),
{
    let gap: u64 = if desired >= rate {
        desired - rate
    } else {
        rate - desired
    };
    let ghost one: nat = ONE as nat;
    proof {
        lemma2_to64_rest();
        lemma_smoothed_rate_in_limits(rate as nat, desired as nat);
        let c: nat = RATE_SMOOTHING as nat;
        assert(gap * c <= gap * one) by (nonlinear_arith)
            requires
                c <= one,
                gap >= 0,
        ;
        rounding::lemma_nearest_monotone(gap as nat * c, gap as nat * one);
        rounding::lemma_nearest_small(gap as nat);
        rounding::lemma_nearest_scales(gap as nat, 53);
    }
    let step: u128 = rounding::round_nearest(gap as u128 * RATE_SMOOTHING as u128);
    let start: u128 = rate as u128 * 0x400_0000_0000_0000;
    let sum: u128 = if desired >= rate {
        start + step
    } else {
        start - step
    };
    let rounded: u128 = rounding::round_nearest(sum);
    (rounded / 0x400_0000_0000_0000) as u64
}

} // verus!
