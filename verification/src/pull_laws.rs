//! What a pull hands out, sample by sample, and what it leaves behind.

use crate::jitter;
use crate::resampler;
use crate::rounding;
use crate::rounding::ONE;
use crate::sample_laws;
use vstd::arithmetic::div_mod::*;
use vstd::arithmetic::mul::*;
use vstd::arithmetic::power2::*;
use vstd::prelude::*;

verus! {

/// Sample `c` of input frame `j`: what was played last, then what waits.
pub open spec fn input(m: jitter::JitterModel, j: int, c: int) -> i16 {
    if j == 0 {
        m.prev[c]
    } else {
        m.queue[(j - 1) * m.channels + c]
    }
}

/// Where playback stands before output frame `f` of the next pull, in 2^-53 of an input
/// frame.
pub open spec fn position(m: jitter::JitterModel, f: nat) -> nat {
    let at = m.started().cursor(f);
    at.consumed * 0x20_0000_0000_0000 + at.frac
}

/// Less than the target waits in a buffer that has yet to fill up.
pub open spec fn too_early(m: jitter::JitterModel) -> bool {
    m.warming && m.queue.len() < m.target_frames * m.channels
}

/// The end of what waits.
pub open spec fn end(m: jitter::JitterModel) -> nat {
    m.fill() * 0x20_0000_0000_0000
}

proof fn lemma_too_early(m: jitter::JitterModel)
    requires
        m.wf(),
    ensures
        too_early(m) <==> m.waits(),
{
    let ch = m.channels as int;
    jitter::lemma_whole_queue(m);
    let fill = m.fill() as int;
    let target = m.target_frames as int;
    assert(fill < target <==> fill * ch < target * ch) by (nonlinear_arith)
        requires
            ch >= 1,
    ;
}

proof fn lemma_started(m: jitter::JitterModel)
    requires
        m.wf(),
    ensures
        m.started().wf(),
        m.started().queue == m.queue,
        m.started().prev == m.prev,
        m.started().fill() == m.fill(),
        m.started().channels == m.channels,
{
    resampler::lemma_desired_rate(m.fill(), m.target_frames);
    resampler::lemma_smoothed_rate_in_limits(
        if m.warming {
            ONE as nat
        } else {
            m.rate
        },
        resampler::desired_rate(m.fill(), m.target_frames),
    );
}

/// A buffer that has yet to fill up hands out silence and is left alone.
pub proof fn too_early_is_silent(m: jitter::JitterModel, before: Seq<i16>)
    requires
        m.wf(),
        too_early(m),
    ensures
        m.pulled(before.len()) == m,
        m.output(before) == Seq::new(before.len(), |j: int| 0i16),
{
    lemma_too_early(m);
    assert(m.output(before) =~= Seq::new(before.len(), |j: int| 0i16));
}

/// One output frame moves playback on by the rate, within two ticks.
proof fn lemma_step(m: jitter::JitterModel, f: nat)
    requires
        m.wf(),
    ensures
        -2 <= position(m, f + 1) - position(m, f) - m.started().rate <= 2,
        m.started().rate >= 0x1f_0000_0000_0000,
{
    lemma_started(m);
    let run = m.started();
    let at = run.cursor(f);
    let here = at.carried();
    lemma_fundamental_div_mod(at.frac as int, ONE as int);
    lemma_mod_bound(at.frac as int, ONE as int);
    assert(run.cursor(f + 1) == at.stepped(run.rate));
    let x = here.frac + run.rate;
    rounding::lemma_nearest_error(x);
    rounding::lemma_ulp_bounds(x);
    assert(x < 3 * ONE);
    assert(rounding::ulp(x) <= 4) by {
        if rounding::ulp(x) > 4 {
            assert(x >= 5 * 0x10_0000_0000_0000);
            lemma_ulp_steps(x);
        }
    }
    assert(here.consumed == at.consumed + at.frac / ONE as nat);
    assert(here.consumed * 0x20_0000_0000_0000 + here.frac == at.consumed * 0x20_0000_0000_0000
        + at.frac);
}

/// Below three, the last digit is worth at most four ticks.
proof fn lemma_ulp_steps(x: nat)
    requires
        x < 3 * ONE,
    ensures
        rounding::ulp(x) <= 4,
{
    if x >= ONE {
        if x / 2 >= ONE {
            assert((x / 2) / 2 < ONE);
            assert(rounding::ulp((x / 2) / 2) == 1);
            assert(rounding::ulp(x / 2) == 2 * rounding::ulp((x / 2) / 2));
        } else {
            assert(rounding::ulp(x / 2) == 1);
        }
        assert(rounding::ulp(x) == 2 * rounding::ulp(x / 2));
    }
}

/// Playback starts where the last pull left off, at the beginning when the buffer has
/// just filled up, and moves on by the rate with each output frame, give or take two
/// ticks. The rate is the one that the buffer then says it plays at.
pub proof fn playback_moves_at_the_rate(m: jitter::JitterModel, f: nat, n: nat)
    requires
        m.wf(),
        !too_early(m),
    ensures
        position(m, 0) == if m.warming {
            0
        } else {
            m.frac
        },
        -2 <= position(m, f + 1) - position(m, f) - m.pulled(n).rate <= 2,
        m.pulled(n).rate >= 0x1f_0000_0000_0000,
{
    lemma_too_early(m);
    lemma_step(m, f);
    assert(m.started().cursor(0) == (jitter::Cursor { consumed: 0, frac: m.started().frac }));
}

proof fn lemma_forward(m: jitter::JitterModel, f: nat, g: nat)
    requires
        m.wf(),
        f <= g,
    ensures
        position(m, f) <= position(m, g),
    decreases g - f,
{
    if f < g {
        lemma_forward(m, f, (g - 1) as nat);
        lemma_step(m, (g - 1) as nat);
    }
}

/// The queue is dry where playback has reached its end.
proof fn lemma_dry(m: jitter::JitterModel, f: nat)
    requires
        m.wf(),
    ensures
        m.started().dry_at(f) <==> position(m, f) >= end(m),
{
    lemma_started(m);
    let at = m.started().cursor(f);
    let here = at.carried();
    lemma_fundamental_div_mod(at.frac as int, ONE as int);
    lemma_mod_bound(at.frac as int, ONE as int);
    assert(position(m, f) == here.consumed * 0x20_0000_0000_0000 + here.frac);
}

/// How far the queue lasts.
proof fn lemma_produced(m: jitter::JitterModel, n: nat)
    requires
        m.wf(),
    ensures
        ({
            let good = m.started().produced(n);
            &&& good <= n
            &&& good < n ==> position(m, good) >= end(m)
            &&& good > 0 ==> position(m, (good - 1) as nat) < end(m)
        }),
    decreases n,
{
    if n > 0 {
        lemma_produced(m, (n - 1) as nat);
        let before = m.started().produced((n - 1) as nat);
        lemma_dry(m, before);
    }
}

/// `good` is where playback runs dry.
proof fn lemma_runs_dry(m: jitter::JitterModel, n: nat, good: nat)
    requires
        m.wf(),
        good < n,
        position(m, good) >= end(m),
        good > 0 ==> position(m, (good - 1) as nat) < end(m),
    ensures
        m.started().produced(n) == good,
{
    lemma_produced(m, n);
    let p = m.started().produced(n);
    if p < good {
        lemma_forward(m, p, (good - 1) as nat);
    } else if p > good {
        lemma_forward(m, good, (p - 1) as nat);
    }
}

proof fn lemma_lasts(m: jitter::JitterModel, n: nat)
    requires
        m.wf(),
        n > 0 ==> position(m, (n - 1) as nat) < end(m),
    ensures
        m.started().produced(n) == n,
{
    lemma_produced(m, n);
    let p = m.started().produced(n);
    if p < n {
        lemma_forward(m, p, (n - 1) as nat);
    }
}

proof fn lemma_input(m: jitter::JitterModel, j: nat, c: int)
    requires
        m.wf(),
        j <= m.fill(),
        0 <= c < m.channels,
    ensures
        m.started().input_frame(j)[c] == input(m, j as int, c),
{
    lemma_started(m);
    let ch = m.channels as int;
    jitter::lemma_whole_queue(m);
    if j > 0 {
        jitter::lemma_frame_fits(j - 1, m.fill() as int, ch);
    }
}

/// As long as the queue lasts, each output frame is the point between two neighbouring
/// input frames at which playback stands, channel by channel.
pub proof fn playback_interpolates(m: jitter::JitterModel, before: Seq<i16>, f: nat, c: int)
    requires
        m.wf(),
        !too_early(m),
        f < before.len() / m.channels,
        0 <= c < m.channels,
        position(m, f) < end(m),
    ensures
        ({
            let p = position(m, f) as int;
            let j = p / 0x20_0000_0000_0000;
            sample_laws::is_between(
                m.output(before)[f * m.channels + c] as int,
                input(m, j, c),
                input(m, j + 1, c),
                (p % 0x20_0000_0000_0000) as nat,
            )
        }),
{
    lemma_too_early(m);
    lemma_started(m);
    let ch = m.channels as int;
    let frames = before.len() / m.channels;
    let run = m.started();
    let good = run.produced(frames);
    lemma_produced(m, frames);
    if good <= f {
        lemma_forward(m, good, f);
    }
    let at = run.cursor(f);
    let here = at.carried();
    lemma_fundamental_div_mod(at.frac as int, ONE as int);
    lemma_mod_bound(at.frac as int, ONE as int);
    let p = position(m, f) as int;
    assert(p == here.consumed * 0x20_0000_0000_0000 + here.frac);
    lemma_fundamental_div_mod_converse(
        p,
        0x20_0000_0000_0000,
        here.consumed as int,
        here.frac as int,
    );
    lemma_dry(m, f);
    lemma_input(m, here.consumed, c);
    lemma_input(m, here.consumed + 1, c);
    let j = f * ch + c;
    jitter::lemma_frame_index(f as int, c, ch);
    lemma_fundamental_div_mod_converse(j, ch, f as int, c);
    assert(j < good * ch) by (nonlinear_arith)
        requires
            j == f * ch + c,
            0 <= c < ch,
            f + 1 <= good,
    ;
    lemma_fundamental_div_mod(before.len() as int, ch);
    lemma_mod_bound(before.len() as int, ch);
    assert(good * ch <= before.len()) by (nonlinear_arith)
        requires
            good <= frames,
            before.len() == ch * frames + before.len() % m.channels,
            before.len() % m.channels >= 0,
            ch >= 1,
    ;
    assert(0 <= j) by (nonlinear_arith)
        requires
            j == f * ch + c,
            c >= 0,
            ch >= 1,
    ;
    assert(m.output(before)[j] == run.played(f, c));
    let a = run.input_frame(here.consumed)[c];
    let b = run.input_frame(here.consumed + 1)[c];
    sample_laws::a_mix_is_linear(a, b, here.frac);
    resampler::lemma_mixed_lies_between(a, b, here.frac);
}

/// From where the queue runs dry, the last input frame is faded out, to silence 240 frames
/// later. The buffer is then empty, has counted the underrun, and has to fill up again;
/// it keeps its rate and knows which packet it expects.
pub proof fn an_underrun_fades_out(m: jitter::JitterModel, before: Seq<i16>, good: nat)
    requires
        m.wf(),
        !too_early(m),
        good < before.len() / m.channels,
        position(m, good) >= end(m),
        good > 0 ==> position(m, (good - 1) as nat) < end(m),
    ensures
        forall|j: int|
            good * m.channels <= j < before.len() ==> sample_laws::is_faded(
                #[trigger] m.output(before)[j],
                input(m, m.fill() as int, j % m.channels as int),
                (j / m.channels as int - good) as nat,
            ),
        ({
            let after = m.pulled(before.len());
            after == (jitter::JitterModel {
                queue: Seq::empty(),
                prev: Seq::new(m.channels, |c: int| 0i16),
                frac: 0,
                rate: after.rate,
                warming: true,
                stats: jitter::JitterStats {
                    underruns: ((m.stats.underruns + 1) % 0x1_0000_0000_0000_0000) as u64,
                    ..m.stats
                },
                ..m
            })
        }),
{
    lemma_too_early(m);
    lemma_started(m);
    let ch = m.channels as int;
    let frames = before.len() / m.channels;
    lemma_runs_dry(m, frames, good);
    assert(jitter::silence(m.channels) =~= Seq::new(m.channels, |c: int| 0i16));
    let run = m.started();
    assert forall|j: int| good * m.channels <= j < before.len() implies sample_laws::is_faded(
        #[trigger] m.output(before)[j],
        input(m, m.fill() as int, j % m.channels as int),
        (j / m.channels as int - good) as nat,
    ) by {
        lemma_mod_bound(j, ch);
        lemma_fundamental_div_mod(j, ch);
        assert(good * ch >= 0) by (nonlinear_arith)
            requires
                ch >= 1,
        ;
        lemma_div_is_ordered(good * ch, j, ch);
        lemma_div_multiples_vanish(good as int, ch);
        lemma_mul_is_commutative(ch, good as int);
        lemma_input(m, m.fill(), j % ch);
        sample_laws::a_fade_is_linear(
            input(m, m.fill() as int, j % ch),
            (j / ch - good) as nat,
        );
        assert(m.output(before)[j] == resampler::faded(
            run.input_frame(run.fill())[j % ch],
            (j / ch - good) as nat,
        ));
    }
}

/// A pull that the queue lasts for takes away what was played and nothing more: the next
/// one goes on where it stopped. Samples after the last whole frame of `before` are left
/// as they were.
pub proof fn playback_goes_on_where_it_stopped(m: jitter::JitterModel, before: Seq<i16>)
    requires
        m.wf(),
        !too_early(m),
        ({
            let frames = before.len() / m.channels;
            frames > 0 ==> position(m, (frames - 1) as nat) < end(m)
        }),
    ensures
        ({
            let frames = before.len() / m.channels;
            let after = m.pulled(before.len());
            let gone = m.fill() - after.fill();
            &&& 0 <= gone
            &&& gone * 0x20_0000_0000_0000 + after.frac == position(m, frames)
            &&& after.queue == m.queue.skip(gone * m.channels)
            &&& after.prev.len() == m.channels
            &&& forall|c: int|
                0 <= c < m.channels ==> #[trigger] after.prev[c] == input(m, gone, c)
            &&& after == (jitter::JitterModel {
                queue: after.queue,
                prev: after.prev,
                frac: after.frac,
                rate: after.rate,
                warming: false,
                ..m
            })
            &&& forall|j: int|
                frames * m.channels <= j < before.len() ==> #[trigger] m.output(before)[j]
                    == before[j]
        }),
{
    lemma_too_early(m);
    lemma_started(m);
    let ch = m.channels as int;
    let frames = before.len() / m.channels;
    let run = m.started();
    lemma_lasts(m, frames);
    let done = run.cursor(frames).consumed;
    if frames > 0 {
        let last: nat = (frames - 1) as nat;
        lemma_dry(m, last);
        assert(run.cursor(frames) == run.cursor(last).stepped(run.rate));
    } else {
        assert(run.cursor(0).consumed == 0);
    }
    assert(done <= m.fill());
    jitter::lemma_skipped_len(run, done);
    let after = m.pulled(before.len());
    assert(after.fill() == m.fill() - done);
    assert forall|c: int| 0 <= c < m.channels implies #[trigger] after.prev[c] == input(
        m,
        done as int,
        c,
    ) by {
        lemma_input(m, done, c);
    }
}

/// With each pull the rate goes a fiftieth of the way to the rate that the fill level
/// calls for, give or take a few ticks; a buffer that has just filled up starts from
/// rate 1. While it waits to fill up, the rate stays.
pub proof fn the_rate_follows_the_fill(m: jitter::JitterModel, n: nat)
    requires
        m.wf(),
    ensures
        too_early(m) ==> m.pulled(n).rate == m.rate,
        !too_early(m) ==> {
            let from: int = if m.warming {
                0x20_0000_0000_0000
            } else {
                m.rate as int
            };
            let wanted = resampler::desired_rate(m.fill(), m.target_frames);
            -176 <= 50 * (m.pulled(n).rate - from) - (wanted - from) <= 176
        },
{
    lemma_too_early(m);
    lemma_started(m);
    resampler::lemma_desired_rate(m.fill(), m.target_frames);
    let from: nat = if m.warming {
        ONE as nat
    } else {
        m.rate
    };
    a_step_is_a_fiftieth(from, resampler::desired_rate(m.fill(), m.target_frames));
}

/// One smoothing step goes a fiftieth of the way, give or take a few ticks.
pub proof fn a_step_is_a_fiftieth(rate: nat, desired: nat)
    requires
        resampler::rate_in_limits(rate),
        resampler::rate_in_limits(desired),
    ensures
        -176 <= 50 * (resampler::smoothed_rate(rate, desired) - rate) - (desired - rate) <= 176,
{
    let gap = resampler::magnitude(desired - rate);
    let c: nat = resampler::RATE_SMOOTHING as nat;
    let p = gap * c;
    let step = rounding::nearest(p);
    let unit: nat = 0x400_0000_0000_0000;
    lemma2_to64_rest();
    assert(pow2(58) == unit);
    assert(gap < 0x8000_0000_0000);
    assert(p < 0x8000_0000_0000 * ONE) by (nonlinear_arith)
        requires
            p == gap * c,
            gap < 0x8000_0000_0000,
            c == 0x14_7ae1_47ae_147b,
            ONE == 0x20_0000_0000_0000,
    ;
    assert(50 * p == gap * unit + 6 * gap) by (nonlinear_arith)
        requires
            p == gap * c,
            50 * c == unit + 6,
    ;
    rounding::lemma_nearest_error(p);
    rounding::lemma_ulp_bounds(p);
    assert(rounding::ulp(p) <= 0x1_0000_0000_0000);
    let start = rate * unit;
    assert(start >= 0x1f_0000_0000_0000 * unit) by (nonlinear_arith)
        requires
            start == rate * unit,
            rate >= 0x1f_0000_0000_0000,
    ;
    assert(gap * unit <= 0x8000_0000_0000 * unit) by (nonlinear_arith)
        requires
            gap < 0x8000_0000_0000,
    ;
    assert(step <= start);
    let sum: nat = if desired >= rate {
        (start + step) as nat
    } else {
        (start - step) as nat
    };
    assert(start <= 0x20_20c4_9ba5_e354 * unit) by (nonlinear_arith)
        requires
            start == rate * unit,
            rate <= 0x20_20c4_9ba5_e354,
    ;
    rounding::lemma_nearest_error(sum);
    rounding::lemma_ulp_bounds(sum);
    assert(rounding::ulp(sum) <= 5 * unit);
    let next = rounding::nearest(sum);
    let out = next / unit;
    lemma_fundamental_div_mod(next as int, unit as int);
    lemma_mod_bound(next as int, unit as int);
    assert(out == resampler::smoothed_rate(rate, desired));
    let d = 50 * (out - rate) - (desired - rate);
    assert(out * unit == unit * out) by (nonlinear_arith);
    assert((out - rate) * unit == out * unit - start) by (nonlinear_arith)
        requires
            start == rate * unit,
    ;
    assert((desired - rate) * unit == if desired >= rate {
        (gap * unit) as int
    } else {
        -(gap * unit)
    }) by (nonlinear_arith)
        requires
            gap == if desired >= rate {
                desired - rate
            } else {
                rate - desired
            },
    ;
    assert(d * unit == 50 * ((out - rate) * unit) - (desired - rate) * unit) by (nonlinear_arith)
        requires
            d == 50 * (out - rate) - (desired - rate),
    ;
    assert(-(177 * unit) < d * unit < 177 * unit);
    assert(-176 <= d <= 176) by (nonlinear_arith)
        requires
            -(177 * unit) < d * unit < 177 * unit,
            unit > 0,
    ;
}

/// The correction is a hundredth of the gap in proportion to the target, within a few
/// parts in 2^53.
proof fn lemma_correction_is_linear(gap: nat, target: nat)
    requires
        0 < target < 0x2_0000_0000_0000_0000,
    ensures
        ({
            let unit = pow2(134);
            let c = resampler::correction(gap, target);
            -(5 * (gap * unit)) <= 100 * (target * c) - ONE * (gap * unit) <= 5 * (gap * unit)
        }),
{
    let p = pow2(128);
    let unit = pow2(134);
    let one: nat = ONE as nat;
    let g: nat = resampler::DRIFT_GAIN as nat;
    let n = gap * p;
    let q = rounding::quotient(n, target);
    let c = rounding::nearest(q * g);
    assert(c == resampler::correction(gap, target));
    lemma2_to64();
    lemma2_to64_rest();
    lemma_pow2_adds(64, 64);
    lemma_pow2_adds(128, 6);
    assert(p == 0x1_0000_0000_0000_0000_0000_0000_0000_0000);
    assert(unit == 64 * p);
    let a = gap * unit;
    assert(a == 64 * n) by (nonlinear_arith)
        requires
            a == gap * unit,
            unit == 64 * p,
            n == gap * p,
    ;
    let w = q * target;
    if gap == 0 {
        assert(n == 0) by (nonlinear_arith)
            requires
                n == gap * p,
                gap == 0,
        ;
        resampler::lemma_no_gap(target);
        lemma_basic_div(0, target as int);
        assert(rounding::ulp(0) == 1);
        rounding::lemma_half_even_exact(0, target);
        assert(target * rounding::ulp(0) == target) by (nonlinear_arith)
            requires
                rounding::ulp(0) == 1,
        ;
        assert(q == 0);
    } else {
        assert(n >= one * target) by (nonlinear_arith)
            requires
                n == gap * p,
                gap >= 1,
                p >= one * 0x2_0000_0000_0000_0000,
                target < 0x2_0000_0000_0000_0000,
                one >= 0,
        {
            assert(n >= p);
            assert(one * target <= one * 0x2_0000_0000_0000_0000);
        }
        rounding::lemma_quotient_relative(n, target);
    }
    assert(w == 0 && n == 0 || -(n as int) <= one * (w - n) <= n) by {
        if gap == 0 {
            assert(w == 0) by (nonlinear_arith)
                requires
                    w == q * target,
                    q == 0,
            ;
        }
    }
    assert(w <= 2 * n);
    rounding::lemma_nearest_relative(q * g);
    let s = target * c;
    let wg = w * g;
    assert(-(wg as int) <= one * (s - wg) <= wg) by (nonlinear_arith)
        requires
            s == target * c,
            wg == w * g,
            w == q * target,
            -((q * g) as int) <= one * (c - q * g) <= q * g,
            target >= 0,
    {
        assert(target * (q * g) == (q * target) * g);
        let x = q * g;
        let e = one * (c - x);
        lemma_mul_is_distributive_sub(target as int, c as int, x as int);
        lemma_mul_is_associative(target as int, one as int, c - x);
        lemma_mul_is_associative(one as int, target as int, c - x);
        lemma_mul_is_commutative(target as int, one as int);
        assert(target * e == one * (target * c - target * x));
        assert(-(target * (q * g)) <= target * e <= target * (q * g)) by (nonlinear_arith)
            requires
                -((q * g) as int) <= e <= q * g,
                target >= 0,
        ;
    }
    // In hundredths: 100 * g is 2^59 + 12.
    assert(100 * wg == 0x800_0000_0000_0000 * w + 12 * w) by (nonlinear_arith)
        requires
            wg == w * g,
            100 * g == 0x800_0000_0000_0000 + 12,
    ;
}

/// The rate that a fill level calls for is 1 plus a hundredth of how far it is off its
/// target, in proportion to the target, kept within 0.4 % of 1; give or take ten ticks.
pub proof fn the_wanted_rate_is_proportional(fill: nat, target: nat)
    requires
        0 < target < 0x1_0000_0000_0000_0000,
    ensures
        ({
            let d = resampler::desired_rate(fill, target);
            let least: int = 0x1f_df3b_645a_1cac;
            let most: int = 0x20_20c4_9ba5_e354;
            let off = (fill - target) * 0x20_0000_0000_0000;
            let asked = 100 * (target * (d - 0x20_0000_0000_0000));
            &&& least <= d <= most
            &&& d < most ==> asked >= off - 1000 * target
            &&& d > least ==> asked <= off + 1000 * target
        }),
{
    let one: nat = ONE as nat;
    let d = resampler::desired_rate(fill, target);
    resampler::lemma_desired_rate(fill, target);
    crate::jitter_laws::a_large_error_is_met_with_all_there_is(fill, target);
    if 100 * fill >= 141 * target {
        assert(target * (d - one) == target * (resampler::MAX_RATE - one));
        assert(100 * (target * (resampler::MAX_RATE - one)) <= 100 * (0x20c4_9ba5_e354 * target))
            by (nonlinear_arith)
            requires
                resampler::MAX_RATE - one == 0x20c4_9ba5_e354,
        ;
    } else if 100 * fill <= 59 * target {
        assert(target * (d - one) == -(target * 0x20c4_9ba5_e354)) by (nonlinear_arith)
            requires
                d - one == -0x20c4_9ba5_e354,
        ;
    } else {
        let f = rounding::nearest(fill);
        let t = rounding::nearest(target);
        rounding::lemma_nearest_relative(fill);
        rounding::lemma_nearest_relative(target);
        rounding::lemma_nearest_small(1);
        rounding::lemma_nearest_monotone(1, target);
        let unit = pow2(134);
        lemma2_to64_rest();
        lemma_pow2_adds(53, 134);
        lemma_pow2_pos(134);
        let up = f >= t;
        let diff: nat = if up {
            (f - t) as nat
        } else {
            (t - f) as nat
        };
        let gap = rounding::nearest(diff);
        rounding::lemma_nearest_relative(diff);
        assert(t < 0x2_0000_0000_0000_0000);
        lemma_correction_is_linear(gap, t);
        let c = resampler::correction(gap, t);
        assert(diff <= t / 2 + 2);
        assert(gap <= t);
        assert(gap * unit <= t * unit) by (nonlinear_arith)
            requires
                gap <= t,
        ;
        // The correction is about a hundredth at most.
        assert(100 * c <= (one + 5) * unit) by (nonlinear_arith)
            requires
                100 * (t * c) - one * (gap * unit) <= 5 * (gap * unit),
                gap * unit <= t * unit,
                t > 0,
        {
            assert(100 * (t * c) <= (one + 5) * (t * unit));
            assert(t * (100 * c) <= t * ((one + 5) * unit));
        }
        let whole = one * unit;
        assert(whole == pow2(187));
        assert(c <= whole) by (nonlinear_arith)
            requires
                100 * c <= (one + 5) * unit,
                whole == one * unit,
                one >= 5,
        ;
        let sum: nat = if up {
            whole + c
        } else {
            (whole - c) as nat
        };
        let raw = rounding::nearest(sum);
        rounding::lemma_nearest_relative(sum);
        assert(-(2 * unit) <= raw - sum <= 2 * unit) by (nonlinear_arith)
            requires
                -(sum as int) <= one * (raw - sum) <= sum,
                sum <= 2 * (one * unit),
                one > 0,
        ;
        let r = raw / unit;
        lemma_fundamental_div_mod(raw as int, unit as int);
        lemma_mod_bound(raw as int, unit as int);
        let y = r - one;
        let signed: int = if up {
            c as int
        } else {
            -(c as int)
        };
        assert(y * unit == r * unit - whole) by (nonlinear_arith)
            requires
                y == r - one,
                whole == one * unit,
        ;
        assert(unit * r == r * unit) by (nonlinear_arith);
        assert(-(3 * unit) <= y * unit - signed <= 3 * unit);
        let gone: int = if up {
            gap as int
        } else {
            -(gap as int)
        };
        assert(-(5 * gap + 300 * t) <= 100 * (t * y) - one * gone <= 5 * gap + 300 * t) by {
            let z = 100 * (t * y) - one * gone;
            assert(z * unit == 100 * (t * (y * unit)) - one * (gone * unit)) by (nonlinear_arith)
                requires
                    z == 100 * (t * y) - one * gone,
            ;
            assert(-(3 * (t * unit)) <= t * (y * unit) - t * signed <= 3 * (t * unit))
                by (nonlinear_arith)
                requires
                    -(3 * unit) <= y * unit - signed <= 3 * unit,
                    t > 0,
            ;
            assert(t * signed == if up {
                (t * c) as int
            } else {
                -(t * c)
            }) by (nonlinear_arith)
                requires
                    signed == if up {
                        c as int
                    } else {
                        -(c as int)
                    },
            ;
            assert(gone * unit == if up {
                (gap * unit) as int
            } else {
                -(gap * unit)
            }) by (nonlinear_arith)
                requires
                    gone == if up {
                        gap as int
                    } else {
                        -(gap as int)
                    },
            ;
            assert(-(5 * (gap * unit) + 300 * (t * unit)) <= z * unit <= 5 * (gap * unit) + 300 * (t
                * unit));
            assert(-(5 * gap + 300 * t) <= z <= 5 * gap + 300 * t) by (nonlinear_arith)
                requires
                    -(5 * (gap * unit) + 300 * (t * unit)) <= z * unit <= 5 * (gap * unit) + 300 * (t
                        * unit),
                    unit > 0,
            ;
        }
        // From the rounded target to the target itself.
        assert(-(one as int) <= y <= one) by (nonlinear_arith)
            requires
                -(3 * unit) <= y * unit - signed <= 3 * unit,
                -(c as int) <= signed <= c,
                100 * c <= (one + 5) * unit,
                unit > 0,
                one >= 100,
        {
            assert(100 * (y * unit) <= 100 * (one * unit));
            assert(-(100 * (one * unit)) <= 100 * (y * unit));
            assert((one - y) * unit >= 0);
            assert((one + y) * unit >= 0);
        }
        assert(-(target as int) <= t * y - target * y <= target) by (nonlinear_arith)
            requires
                -(target as int) <= one * (t - target) <= target,
                -(one as int) <= y <= one,
                one > 0,
        {
            let e = t - target;
            assert(-(target as int) <= one * e <= target);
            assert(-(one * one * target) <= one * (e * y) * one) by (nonlinear_arith)
                requires
                    -(target as int) <= one * e <= target,
                    -(one as int) <= y <= one,
                    one > 0,
                    target >= 0,
            {
                let b = one * e;
                assert(-(one * target) <= b * y <= one * target);
            }
            let b = one * e;
            assert(-(one * target) <= b * y <= one * target);
            assert(b * y == one * (e * y));
            assert(t * y - target * y == e * y);
        }
        assert(-1000 * target <= 100 * (target * y) - one * (fill - target) <= 1000 * target);
        assert(one * (fill - target) == (fill - target) * one) by (nonlinear_arith);
        // Keeping it within the limits only brings it nearer to 1.
        if d < resampler::MAX_RATE {
            assert(d >= r);
            assert(target * (d - one) >= target * y) by (nonlinear_arith)
                requires
                    d - one >= y,
                    target > 0,
            ;
        }
        if d > resampler::MIN_RATE {
            assert(d <= r);
            assert(target * (d - one) <= target * y) by (nonlinear_arith)
                requires
                    d - one <= y,
                    target > 0,
            ;
        }
    }
}

} // verus!
