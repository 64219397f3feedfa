//! What the sample arithmetic of the jitter buffer comes to in plain fractions.

use crate::resampler;
use crate::rounding;
use crate::rounding::{HALF, ONE};
use vstd::arithmetic::div_mod::*;
use vstd::arithmetic::power2::*;
use vstd::prelude::*;

verus! {

/// `x` is what the `i`th frame of a fade makes of `sample`: `sample * (1 - i / 240)`,
/// rounded to a whole number, and nothing from frame 240 on.
pub open spec fn is_faded(x: i16, sample: i16, i: nat) -> bool {
    if i >= 240 {
        x == 0
    } else {
        -120 <= 240 * x - sample * (240 - i) <= 120
    }
}

/// `x` is the point `t` of 2^53 parts of the way from `a` to `b`, rounded to a whole
/// number: off by no more than a half and the last digits of the calculation.
pub open spec fn is_between(x: int, a: i16, b: i16, t: nat) -> bool {
    let off = 2 * (x * 0x20_0000_0000_0000 - (a * 0x20_0000_0000_0000 + (b - a) * t));
    -0x20_0000_0004_0000 <= off <= 0x20_0000_0004_0000
}

/// The gain of a fade's `i`th frame is `1 - i / 240`, within three ticks.
proof fn lemma_gain_is_linear(i: nat)
    requires
        i < 240,
    ensures
        -720 <= 240 * resampler::gain(i) - (240 - i) * ONE <= 720,
{
    let p = pow2(128);
    let t = pow2(75);
    let one: nat = ONE as nat;
    lemma2_to64_rest();
    lemma_pow2_pos(75);
    lemma_pow2_adds(53, 75);
    rounding::lemma_pow2_at_least(53, 75);
    assert(p == one * t);
    let n = i * p;
    let q = rounding::quotient(n, 240);
    assert(i * p <= 240 * p) by (nonlinear_arith)
        requires
            i <= 240,
            p >= 0,
    ;
    rounding::lemma_quotient_at_most(n, 240, 128);
    if i == 0 {
        assert(n == 0) by (nonlinear_arith)
            requires
                n == i * p,
                i == 0,
        ;
        assert(n / 240 == 0);
        assert(rounding::ulp(0) == 1);
        rounding::lemma_half_even_exact(0, 240);
        assert(q == 0);
    } else {
        assert(n >= one * 240) by (nonlinear_arith)
            requires
                n == i * p,
                i >= 1,
                p == one * t,
                t >= 240,
        {
            assert(p >= one * 240);
            assert(i * p >= p);
        }
        rounding::lemma_quotient_relative(n, 240);
    }
    assert(-(240 * t) <= q * 240 - n <= 240 * t) by (nonlinear_arith)
        requires
            i == 0 ==> q == 0 && n == 0,
            i > 0 ==> -(n as int) <= one * (q * 240 - n) <= n,
            n <= 240 * p,
            p == one * t,
            one > 0,
            t >= 0,
    ;
    let x: nat = (p - q) as nat;
    let y = rounding::nearest(x);
    rounding::lemma_nearest_relative(x);
    assert(-(t as int) <= y - x <= t) by (nonlinear_arith)
        requires
            -(x as int) <= one * (y - x) <= x,
            x <= one * t,
            one > 0,
    ;
    let g = y / t;
    lemma_fundamental_div_mod(y as int, t as int);
    lemma_mod_bound(y as int, t as int);
    assert(g == resampler::gain(i));
    let d = 240 * g - (240 - i) * one;
    assert(-(720 * t) <= d * t <= 720 * t) by (nonlinear_arith)
        requires
            d == 240 * g - (240 - i) * one,
            y == t * g + y % t,
            0 <= y % t < t,
            -(t as int) <= y - x <= t,
            x == p - q,
            p == one * t,
            n == i * p,
            -(240 * t) <= q * 240 - n <= 240 * t,
    {
        assert(240 * (t * g) == 240 * y - 240 * (y % t));
        assert(d * t == 240 * (t * g) - (240 - i) * (one * t));
        assert((240 - i) * p == 240 * p - n);
    }
    assert(-720 <= d <= 720) by (nonlinear_arith)
        requires
            -(720 * t) <= d * t <= 720 * t,
            t > 0,
    ;
}

/// A fade is linear: its `i`th frame is `sample * (1 - i / 240)`, rounded to a whole
/// number, and nothing from frame 240 on.
pub proof fn a_fade_is_linear(sample: i16, i: nat)
    ensures
        is_faded(resampler::faded(sample, i), sample, i),
{
    resampler::lemma_faded(sample, i);
    if i < 240 {
        resampler::lemma_gain_at_most_one(i);
        lemma_gain_is_linear(i);
        let one: nat = ONE as nat;
        let g = resampler::gain(i);
        let m = resampler::magnitude(sample as int);
        let r = rounding::nearest(m * g);
        rounding::lemma_nearest_relative(m * g);
        assert(-(m as int) <= r - m * g <= m) by (nonlinear_arith)
            requires
                -((m * g) as int) <= one * (r - m * g) <= m * g,
                g <= one,
                one > 0,
        {
            assert(m * g <= m * one);
        }
        let w = rounding::whole(r);
        assert(w == (r + HALF) / one as int);
        lemma_fundamental_div_mod((r + HALF) as int, one as int);
        lemma_mod_bound((r + HALF) as int, one as int);
        assert(-(HALF as int) <= w * one - r <= HALF);
        let d = 240 * w - m * (240 - i);
        assert(-(121 * one) < d * one < 121 * one) by (nonlinear_arith)
            requires
                d == 240 * w - m * (240 - i),
                -(HALF as int) <= w * one - r <= HALF,
                -(m as int) <= r - m * g <= m,
                -720 <= 240 * g - (240 - i) * one <= 720,
                m <= 32768,
                one == 2 * HALF,
                HALF == 0x10_0000_0000_0000,
        {
            let e = 240 * g - (240 - i) * one;
            assert(-720 * m <= m * e <= 720 * m);
            assert(m * e == 240 * (m * g) - m * (240 - i) * one);
            assert(d * one == 240 * (w * one) - m * (240 - i) * one);
        }
        assert(-120 <= d <= 120) by (nonlinear_arith)
            requires
                -(121 * one) < d * one < 121 * one,
                one > 0,
        ;
        if sample < 0 {
            assert(sample * (240 - i) == -(m * (240 - i))) by (nonlinear_arith)
                requires
                    sample == -m,
            ;
        }
    }
}

/// Interpolation is linear: the result is the point `t` ticks of the way from `a` to `b`,
/// rounded to a whole number.
pub proof fn a_mix_is_linear(a: i16, b: i16, t: nat)
    requires
        t <= ONE,
    ensures
        is_between(resampler::mixed(a as int, b as int, t), a, b, t),
{
    let one: nat = ONE as nat;
    let d = resampler::magnitude(b - a);
    let s = rounding::nearest(d * t);
    rounding::lemma_nearest_relative(d * t);
    assert(-(d as int) <= s - d * t <= d) by (nonlinear_arith)
        requires
            -((d * t) as int) <= one * (s - d * t) <= d * t,
            t <= one,
            one > 0,
    {
        assert(d * t <= d * one);
    }
    let step = resampler::with_sign(b - a, s);
    assert(-(d as int) <= step - (b - a) * t <= d) by {
        if b < a {
            assert((b - a) * t == -(d * t)) by (nonlinear_arith)
                requires
                    b - a == -(d as int),
            ;
        } else {
            assert((b - a) * t == d * t);
        }
    }
    let point = a * ONE + step;
    let m = resampler::magnitude(point);
    assert(d * t <= d * one) by (nonlinear_arith)
        requires
            t <= one,
    ;
    assert(m <= 0x2_0000 * one);
    let r = rounding::nearest(m);
    rounding::lemma_nearest_relative(m);
    assert(-0x2_0000 <= r - m <= 0x2_0000) by (nonlinear_arith)
        requires
            -(m as int) <= one * (r - m) <= m,
            m <= 0x2_0000 * one,
            one > 0,
    ;
    let w = rounding::whole(r);
    lemma_fundamental_div_mod((r + HALF) as int, one as int);
    lemma_mod_bound((r + HALF) as int, one as int);
    assert(-(HALF as int) <= w * one - r <= HALF);
}

} // verus!
