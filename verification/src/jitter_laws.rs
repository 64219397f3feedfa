//! What holds of a jitter buffer across calls, whatever the network does.

use crate::jitter;
use crate::resampler;
use crate::rounding;
use crate::rounding::ONE;
use vstd::arithmetic::div_mod::*;
use vstd::arithmetic::mul::*;
use vstd::arithmetic::power2::*;
use vstd::prelude::*;

verus! {

/// A packet behind the expected one is dropped: nothing changes but the count of
/// late packets.
pub proof fn late_packets_are_dropped(m: jitter::JitterModel, seq: u32, samples: Seq<i16>)
    requires
        m.expected_seq matches Some(expected) && jitter::seq_ahead(seq, expected) >= 0x8000_0000,
    ensures
        m.pushed(seq, samples) == m.refused(),
        m.pushed(seq, samples).queue == m.queue,
        m.pushed(seq, samples).expected_seq == m.expected_seq,
        m.pushed(seq, samples).stats.accepted == m.stats.accepted,
        m.pushed(seq, samples).stats.late == jitter::counted(m.stats.late, 1),
{
}

/// A packet that was let in is expected no more: a duplicate of it is late.
pub proof fn duplicates_are_late(
    m: jitter::JitterModel,
    seq: u32,
    samples: Seq<i16>,
    again: Seq<i16>,
)
    requires
        m.expected_seq matches Some(expected) ==> jitter::seq_ahead(seq, expected) < 0x8000_0000,
    ensures
        m.pushed(seq, samples).expected_seq == Some(jitter::later_seq(seq, 1)),
        m.pushed(seq, samples).pushed(seq, again) == m.pushed(seq, samples).refused(),
{
}

/// The packet after the last one let in is never late, lost or a jump, also where
/// the sequence numbers wrap around.
pub proof fn the_next_packet_is_in_order(
    m: jitter::JitterModel,
    seq: u32,
    samples: Seq<i16>,
)
    requires
        m.expected_seq == Some(jitter::later_seq(seq, 1)),
    ensures
        m.pushed(jitter::later_seq(seq, 1), samples) == m.received(
            jitter::later_seq(seq, 1),
            samples,
        ),
        m.pushed(jitter::later_seq(seq, 1), samples).stats.late == m.stats.late,
        m.pushed(jitter::later_seq(seq, 1), samples).stats.lost == m.stats.lost,
        m.pushed(jitter::later_seq(seq, 1), samples).stats.resyncs == m.stats.resyncs,
        m.pushed(jitter::later_seq(seq, 1), samples).stats.accepted == jitter::counted(
            m.stats.accepted,
            1,
        ),
        jitter::later_seq(u32::MAX, 1) == 0,
{
}

/// A gap of up to [`jitter::RESYNC_GAP_PACKETS`] packets is filled with exactly as
/// many packets of concealment, so that what comes after it lands in its own slot.
pub proof fn a_gap_keeps_its_slots(
    m: jitter::JitterModel,
    seq: u32,
    expected: u32,
    samples: Seq<i16>,
)
    requires
        m.wf(),
        m.expected_seq == Some(expected),
        0 < jitter::seq_ahead(seq, expected) <= jitter::RESYNC_GAP_PACKETS,
        samples.len() % m.channels == 0,
        m.fill() + jitter::seq_ahead(seq, expected) * m.frames_per_packet + samples.len()
            / m.channels <= m.max_frames,
    ensures
        ({
            let missing = jitter::seq_ahead(seq, expected);
            let after = m.pushed(seq, samples);
            let slot = (m.fill() + missing * m.frames_per_packet) * m.channels;
            &&& after.queue == m.queue + m.concealment(missing) + samples
            &&& after.queue.skip(slot as int) == samples
            &&& after.fill() == m.fill() + missing * m.frames_per_packet + samples.len()
                / m.channels
            &&& after.stats.lost == jitter::counted(m.stats.lost, missing)
            &&& after.stats.overruns == m.stats.overruns
        }),
{
    let ch = m.channels as int;
    let missing = jitter::seq_ahead(seq, expected);
    let filler = missing * m.frames_per_packet;
    let tail = samples.len() as int / ch;
    jitter::lemma_whole_queue(m);
    lemma_fundamental_div_mod(samples.len() as int, ch);
    lemma_mul_is_commutative(ch, tail);
    let frames = m.fill() + filler + tail;
    assert(m.fill() * ch + filler * ch + tail * ch == frames * ch) by (nonlinear_arith)
        requires
            frames == m.fill() + filler + tail,
    ;
    assert(m.fill() * ch + filler * ch == (m.fill() + filler) * ch) by (nonlinear_arith);
    lemma_div_multiples_vanish(frames as int, ch);
    lemma_mul_is_commutative(ch, frames as int);
    let whole = m.queue + m.concealment(missing) + samples;
    assert(samples.take(samples.len() as int) =~= samples);
    assert(m.concealed(missing).queue + samples =~= whole);
    assert(m.concealment(missing).len() == filler * m.channels);
    assert(whole.len() == frames * ch);
    assert(whole.skip((m.queue + m.concealment(missing)).len() as int) =~= samples);
}

/// A jump past the largest gap restarts the stream with the new packet alone.
pub proof fn a_jump_restarts_the_stream(
    m: jitter::JitterModel,
    seq: u32,
    expected: u32,
    samples: Seq<i16>,
)
    requires
        m.wf(),
        m.expected_seq == Some(expected),
        jitter::RESYNC_GAP_PACKETS < jitter::seq_ahead(seq, expected) < 0x8000_0000,
        samples.len() / m.channels <= m.max_frames,
    ensures
        m.pushed(seq, samples).queue == samples.take(samples.len() - samples.len() % m.channels),
        m.pushed(seq, samples).warming,
        m.pushed(seq, samples).stats.resyncs == jitter::counted(m.stats.resyncs, 1),
        m.pushed(seq, samples).stats.lost == m.stats.lost,
{
    let ch = m.channels as int;
    let usable = samples.len() - samples.len() % m.channels;
    jitter::lemma_whole_frames(samples.len() as int, ch);
    lemma_fundamental_div_mod(samples.len() as int, ch);
    lemma_div_multiples_vanish(samples.len() as int / ch, ch);
    assert(usable == ch * (samples.len() as int / ch));
    let next = m.resynced();
    assert(next.queue + samples.take(usable as int) =~= samples.take(usable as int));
}

/// While a buffer warms up, every sample handed out is silence and nothing is
/// consumed.
pub proof fn warming_up_is_silent(m: jitter::JitterModel, before: Seq<i16>)
    requires
        m.warming,
        m.fill() < m.target_frames,
    ensures
        m.pulled(before.len()) == m,
        m.output(before) == jitter::silence(before.len()),
{
}

/// A pull that runs dry is counted, leaves the buffer empty, and sends it back to
/// warming up: the next pull is silent.
pub proof fn an_underrun_warms_up_again(m: jitter::JitterModel, n: nat, next: Seq<i16>)
    requires
        m.wf(),
        !m.waits(),
        m.started().produced(n / m.channels) < n / m.channels,
    ensures
        m.pulled(n).stats.underruns == jitter::counted(m.stats.underruns, 1),
        m.pulled(n).queue.len() == 0,
        m.pulled(n).waits(),
        m.pulled(n).output(next) == jitter::silence(next.len()),
{
    lemma_small_div(0, m.channels as int);
}

proof fn lemma_small_div(a: int, ch: int)
    requires
        0 <= a < ch,
    ensures
        a / ch == 0,
{
    lemma_basic_div(a, ch);
}

/// A pull that runs dry has faded to silence [`resampler::FADE_FRAMES`] frames
/// after the point where it ran dry.
pub proof fn an_underrun_fades_to_silence(m: jitter::JitterModel, before: Seq<i16>, j: int)
    requires
        m.wf(),
        !m.waits(),
        m.started().produced(before.len() / m.channels) < before.len() / m.channels,
        0 <= j < before.len(),
        j / m.channels as int >= m.started().produced(before.len() / m.channels)
            + resampler::FADE_FRAMES,
    ensures
        m.output(before)[j] == 0,
{
    let ch = m.channels as int;
    let run = m.started();
    let good = run.produced(before.len() / m.channels);
    lemma_fundamental_div_mod(j, ch);
    lemma_mod_bound(j, ch);
    assert(good * ch <= (j / ch) * ch) by (nonlinear_arith)
        requires
            good <= j / ch,
            ch >= 1,
    ;
    lemma_mul_is_commutative(ch, j / ch);
    resampler::lemma_faded(run.input_frame(run.fill())[j % ch], (j / ch - good) as nat);
}

/// No sample in the buffer is louder than `limit`.
pub open spec fn no_louder_than(samples: Seq<i16>, limit: nat) -> bool {
    forall|k: int| 0 <= k < samples.len() ==> resampler::magnitude(#[trigger] samples[k] as int)
        <= limit
}

/// No sample that waits, or that the interpolator holds, is louder than `limit`.
pub open spec fn holds_no_louder(m: jitter::JitterModel, limit: nat) -> bool {
    no_louder_than(m.queue, limit) && no_louder_than(m.prev, limit)
}

proof fn lemma_silence_is_quiet(n: nat, limit: nat)
    ensures
        no_louder_than(jitter::silence(n), limit),
{
}

/// Loss, reordering and concealment never make a stream louder than what was sent.
pub proof fn pushing_is_no_louder(
    m: jitter::JitterModel,
    seq: u32,
    samples: Seq<i16>,
    limit: nat,
)
    requires
        m.wf(),
        holds_no_louder(m, limit),
        no_louder_than(samples, limit),
    ensures
        holds_no_louder(m.pushed(seq, samples), limit),
{
    let ch = m.channels as int;
    jitter::lemma_whole_frames(samples.len() as int, ch);
    assert forall|packets: nat|
        holds_no_louder(m, limit) implies #[trigger] no_louder_than(m.concealment(packets), limit) by {
        lemma_concealment_is_no_louder(m, packets, limit);
    }
    match m.expected_seq {
        None => {
            lemma_received_is_no_louder(m, seq, samples, limit);
        },
        Some(expected) => {
            let ahead = jitter::seq_ahead(seq, expected);
            if ahead >= 0x8000_0000 {
            } else if ahead > jitter::RESYNC_GAP_PACKETS {
                lemma_silence_is_quiet(m.channels, limit);
                lemma_received_is_no_louder(m.resynced(), seq, samples, limit);
            } else if ahead > 0 {
                assert(no_louder_than(m.concealment(ahead), limit));
                lemma_received_is_no_louder(m.concealed(ahead), seq, samples, limit);
            } else {
                lemma_received_is_no_louder(m, seq, samples, limit);
            }
        },
    }
}

proof fn lemma_concealment_is_no_louder(m: jitter::JitterModel, packets: nat, limit: nat)
    requires
        m.wf(),
        holds_no_louder(m, limit),
    ensures
        no_louder_than(m.concealment(packets), limit),
{
    let ch = m.channels as int;
    let filler = m.concealment(packets);
    assert forall|k: int| 0 <= k < filler.len() implies resampler::magnitude(
        #[trigger] filler[k] as int,
    ) <= limit by {
        let c = k % ch;
        lemma_mod_bound(k, ch);
        let sample = m.last_frame()[c];
        resampler::lemma_faded(sample, (k / ch) as nat);
        if m.queue.len() >= m.channels {
            assert(sample == m.queue[m.queue.len() - ch + c]);
        } else {
            assert(sample == m.prev[c]);
        }
    }
}

proof fn lemma_received_is_no_louder(
    m: jitter::JitterModel,
    seq: u32,
    samples: Seq<i16>,
    limit: nat,
)
    requires
        m.channels >= 1,
        m.target_frames <= m.max_frames,
        holds_no_louder(m, limit),
        no_louder_than(samples, limit),
    ensures
        holds_no_louder(m.received(seq, samples), limit),
{
    let ch = m.channels as int;
    let usable = samples.len() - samples.len() % m.channels;
    jitter::lemma_whole_frames(samples.len() as int, ch);
    let all = m.queue + samples.take(usable as int);
    assert(no_louder_than(all, limit));
    let fill = all.len() / m.channels;
    if fill > m.max_frames {
        let drop = (fill - m.target_frames) * m.channels;
        lemma_fundamental_div_mod(all.len() as int, ch);
        lemma_mul_is_commutative(ch, fill as int);
        assert(0 <= drop <= fill * ch) by (nonlinear_arith)
            requires
                drop == (fill - m.target_frames) * ch,
                0 <= fill - m.target_frames <= fill,
                ch >= 1,
        ;
        lemma_mod_bound(all.len() as int, ch);
        assert(no_louder_than(all.skip(drop), limit));
    }
}

/// Before the queue runs dry, a frame to interpolate towards is there.
proof fn lemma_produced(m: jitter::JitterModel, f: nat, n: nat)
    requires
        f < m.produced(n),
    ensures
        !m.dry_at(f),
        m.produced(n) <= n,
    decreases n,
{
    let before = m.produced((n - 1) as nat);
    if f < before {
        lemma_produced(m, f, (n - 1) as nat);
    } else {
        lemma_produced_at_most(m, (n - 1) as nat);
    }
    lemma_produced_at_most(m, n);
}

proof fn lemma_produced_at_most(m: jitter::JitterModel, n: nat)
    ensures
        m.produced(n) <= n,
    decreases n,
{
    if n > 0 {
        lemma_produced_at_most(m, (n - 1) as nat);
    }
}

/// Where playback stands after frames that the queue had enough for.
proof fn lemma_cursor_in_queue(m: jitter::JitterModel, n: nat)
    requires
        m.produced(n) == n,
    ensures
        m.cursor(n).consumed <= m.fill(),
{
    if n > 0 {
        lemma_produced(m, (n - 1) as nat, n);
    }
}

proof fn lemma_input_is_no_louder(m: jitter::JitterModel, n: nat, c: int, limit: nat)
    requires
        m.sized(),
        holds_no_louder(m, limit),
        n <= m.fill(),
        0 <= c < m.channels,
    ensures
        m.input_frame(n).len() == m.channels,
        resampler::magnitude(m.input_frame(n)[c] as int) <= limit,
{
    let ch = m.channels as int;
    jitter::lemma_whole_queue(m);
    if n > 0 {
        jitter::lemma_frame_fits(n - 1, m.fill() as int, ch);
        assert(m.input_frame(n)[c] == m.queue[(n - 1) * ch + c]);
    } else {
        assert(m.input_frame(n)[c] == m.prev[c]);
    }
}

proof fn lemma_started_is_sound(m: jitter::JitterModel)
    requires
        m.wf(),
    ensures
        m.started().wf(),
        m.started().queue == m.queue,
        m.started().prev == m.prev,
{
    resampler::lemma_desired_rate(m.fill(), m.target_frames);
    resampler::lemma_smoothed_rate_in_limits(
        if m.warming {
            ONE as nat
        } else {
            m.rate
        },
        resampler::desired_rate(m.fill(), m.target_frames),
    );
}

/// Interpolation, warm-up and underruns never make a stream louder than what the
/// buffer held: neither in what is handed out nor in what is kept.
pub proof fn pulling_is_no_louder(m: jitter::JitterModel, before: Seq<i16>, limit: nat)
    requires
        m.wf(),
        holds_no_louder(m, limit),
        before.len() % m.channels == 0,
    ensures
        no_louder_than(m.output(before), limit),
        holds_no_louder(m.pulled(before.len()), limit),
{
    let ch = m.channels as int;
    let frames = before.len() / m.channels;
    let run = m.started();
    let good = run.produced(frames);
    if m.waits() {
        lemma_silence_is_quiet(before.len(), limit);
        return;
    }
    lemma_started_is_sound(m);
    lemma_fundamental_div_mod(before.len() as int, ch);
    lemma_mul_is_commutative(ch, frames as int);
    lemma_produced_at_most(run, frames);
    let out = m.output(before);
    assert forall|j: int| 0 <= j < out.len() implies resampler::magnitude(
        #[trigger] out[j] as int,
    ) <= limit by {
        let c = j % ch;
        let f = j / ch;
        lemma_fundamental_div_mod(j, ch);
        lemma_mod_bound(j, ch);
        lemma_div_pos_is_pos(j, ch);
        lemma_mul_is_commutative(ch, f);
        if j < good * ch {
            assert(f < good) by (nonlinear_arith)
                requires
                    f * ch <= j,
                    j < good * ch,
                    ch >= 1,
            ;
            lemma_produced(run, f as nat, frames);
            let at = run.cursor(f as nat).carried();
            lemma_input_is_no_louder(run, at.consumed, c, limit);
            lemma_input_is_no_louder(run, at.consumed + 1, c, limit);
            resampler::lemma_mixed_lies_between(
                run.input_frame(at.consumed)[c],
                run.input_frame(at.consumed + 1)[c],
                at.frac,
            );
        } else {
            assert(good < frames) by (nonlinear_arith)
                requires
                    good * ch <= j,
                    j < frames * ch,
                    ch >= 1,
            ;
            lemma_input_is_no_louder(run, run.fill(), c, limit);
            resampler::lemma_faded(run.input_frame(run.fill())[c], (f - good) as nat);
        }
    }
    if good < frames {
        lemma_silence_is_quiet(m.channels, limit);
    } else {
        lemma_cursor_in_queue(run, frames);
        let done = run.cursor(frames).consumed;
        jitter::lemma_skipped_len(run, done);
        let kept = m.pulled(before.len());
        assert forall|c: int| 0 <= c < kept.prev.len() implies resampler::magnitude(
            #[trigger] kept.prev[c] as int,
        ) <= limit by {
            lemma_input_is_no_louder(run, done, c, limit);
        }
        assert(no_louder_than(kept.queue, limit));
    }
}

/// Without a distance to go, interpolation hands out the sample itself.
proof fn lemma_mixed_at_zero(a: i16, b: i16)
    ensures
        resampler::mixed(a as int, b as int, 0) == a,
{
    let one: nat = ONE as nat;
    assert(resampler::magnitude(b - a) * 0 == 0);
    rounding::lemma_nearest_small(0);
    let m = resampler::magnitude(a as int);
    lemma2_to64_rest();
    rounding::lemma_nearest_small(m);
    rounding::lemma_nearest_scales(m, 53);
    assert(a * ONE == resampler::with_sign(a as int, m * one));
}

/// At rate 1 the interpolator moves one input frame per output frame.
proof fn lemma_cursor_at_rate_one(m: jitter::JitterModel, f: nat)
    requires
        m.rate == ONE,
        m.frac == 0,
    ensures
        m.cursor(f).carried() == (jitter::Cursor { consumed: f, frac: 0 }),
    decreases f,
{
    if f > 0 {
        lemma_cursor_at_rate_one(m, (f - 1) as nat);
        lemma2_to64_rest();
        rounding::lemma_nearest_small(1);
        rounding::lemma_nearest_scales(1, 53);
    }
}

proof fn lemma_produces_all(m: jitter::JitterModel, n: nat)
    requires
        m.rate == ONE,
        m.frac == 0,
        n <= m.fill(),
    ensures
        m.produced(n) == n,
    decreases n,
{
    if n > 0 {
        lemma_produces_all(m, (n - 1) as nat);
        lemma_cursor_at_rate_one(m, (n - 1) as nat);
    }
}

/// A buffer that has just filled to its target plays what it holds unchanged, at
/// rate 1, one frame behind: the interpolator's silent history comes first.
pub proof fn a_warm_buffer_plays_what_it_holds(m: jitter::JitterModel, before: Seq<i16>)
    requires
        m.wf(),
        m.warming,
        m.fill() == m.target_frames,
        before.len() % m.channels == 0,
        before.len() / m.channels <= m.fill(),
        before.len() >= m.channels,
    ensures
        m.output(before) == m.prev + m.queue.take(before.len() - m.channels),
        m.pulled(before.len()).rate == ONE,
        m.pulled(before.len()).stats == m.stats,
{
    let ch = m.channels as int;
    let frames = before.len() / m.channels;
    let run = m.started();
    lemma_started_is_sound(m);
    resampler::lemma_desired_rate(m.fill(), m.target_frames);
    assert(resampler::magnitude(ONE - ONE) * resampler::RATE_SMOOTHING == 0);
    rounding::lemma_nearest_small(0);
    lemma2_to64_rest();
    rounding::lemma_nearest_small(1);
    rounding::lemma_nearest_scales(1, 53);
    rounding::lemma_nearest_scales(ONE as nat, 58);
    rounding::lemma_exact_division(ONE as nat, 58);
    assert(run.rate == ONE);
    lemma_produces_all(run, frames);
    lemma_fundamental_div_mod(before.len() as int, ch);
    lemma_mul_is_commutative(ch, frames as int);
    jitter::lemma_whole_queue(m);
    assert(frames * ch <= m.fill() * ch) by (nonlinear_arith)
        requires
            frames <= m.fill(),
            ch >= 1,
    ;
    let whole = m.prev + m.queue.take(before.len() - m.channels);
    let out = m.output(before);
    assert forall|j: int| 0 <= j < out.len() implies out[j] == whole[j] by {
        let c = j % ch;
        let f = j / ch;
        lemma_fundamental_div_mod(j, ch);
        lemma_mod_bound(j, ch);
        lemma_div_pos_is_pos(j, ch);
        lemma_mul_is_commutative(ch, f);
        lemma_cursor_at_rate_one(run, f as nat);
        lemma_mixed_at_zero(run.input_frame(f as nat)[c], run.input_frame((f + 1) as nat)[c]);
        assert(out[j] == run.input_frame(f as nat)[c]);
        if f > 0 {
            assert(f < frames) by (nonlinear_arith)
                requires
                    f * ch <= j,
                    j < frames * ch,
                    ch >= 1,
            ;
            jitter::lemma_frame_fits(f - 1, frames as int, ch);
            assert(run.input_frame(f as nat)[c] == m.queue[(f - 1) * ch + c]);
        } else {
            assert(f * ch == 0) by (nonlinear_arith)
                requires
                    f == 0,
            ;
        }
    }
    assert(out =~= whole);
}

/// A gap of at most the target itself calls for a correction below 1.
proof fn lemma_correction_below_one(gap: nat, target: nat)
    requires
        target > 0,
    ensures
        gap <= target ==> resampler::correction(gap, target) <= pow2(187),
{
    if gap <= target {
        lemma_pow2_pos(128);
        assert(gap * pow2(128) <= target * pow2(128)) by (nonlinear_arith)
            requires
                gap <= target,
        ;
        rounding::lemma_quotient_at_most(gap * pow2(128), target, 128);
        let q = rounding::quotient(gap * pow2(128), target);
        let g: nat = resampler::DRIFT_GAIN as nat;
        lemma2_to64_rest();
        lemma_pow2_adds(128, 53);
        rounding::lemma_pow2_at_least(181, 187);
        assert(q * g <= pow2(128) * pow2(53)) by (nonlinear_arith)
            requires
                q <= pow2(128),
                g <= pow2(53),
        ;
        rounding::lemma_nearest_monotone(q * g, pow2(181));
        rounding::lemma_nearest_small(1);
        rounding::lemma_nearest_scales(1, 181);
    }
}

/// A buffer that holds more than its target asks for a rate of at least 1, one
/// that holds less for a rate of at most 1.
pub proof fn the_rate_chases_the_target(fill: nat, target: nat)
    requires
        0 < target,
    ensures
        fill >= target ==> resampler::desired_rate(fill, target) >= ONE,
        fill <= target ==> resampler::desired_rate(fill, target) <= ONE,
        resampler::rate_in_limits(resampler::desired_rate(fill, target)),
{
    let one = pow2(187);
    let f = rounding::nearest(fill);
    let t = rounding::nearest(target);
    resampler::lemma_desired_rate(fill, target);
    if fill >= target {
        rounding::lemma_nearest_monotone(target, fill);
    } else {
        rounding::lemma_nearest_monotone(fill, target);
    }
    rounding::lemma_nearest_small(1);
    rounding::lemma_nearest_scales(1, 187);
    lemma2_to64_rest();
    lemma_pow2_adds(53, 134);
    lemma_pow2_pos(134);
    rounding::lemma_exact_division(ONE as nat, 134);
    let up = resampler::correction(rounding::nearest((f - t) as nat), t);
    let down = resampler::correction(rounding::nearest((t - f) as nat), t);
    if fill >= target {
        rounding::lemma_nearest_monotone(one, one + up);
        lemma_div_is_ordered(one as int, rounding::nearest(one + up) as int, pow2(134) as int);
    } else if f == t {
        rounding::lemma_nearest_small(0);
        rounding::lemma_nearest_monotone(1, target);
        resampler::lemma_no_gap(t);
    } else {
        rounding::lemma_nearest_monotone(1, target);
        lemma_correction_below_one(rounding::nearest((t - f) as nat), t);
        rounding::lemma_nearest_monotone((t - f) as nat, t);
        rounding::lemma_nearest_idempotent(target);
        rounding::lemma_nearest_monotone((one - down) as nat, one);
        lemma_div_is_ordered(
            rounding::nearest((one - down) as nat) as int,
            one as int,
            pow2(134) as int,
        );
    }
}

/// A pull writes every sample of `out` as long as that is a whole number of frames:
/// nothing of what was there before is left.
pub proof fn every_sample_is_written(m: jitter::JitterModel, a: Seq<i16>, b: Seq<i16>)
    requires
        m.wf(),
        a.len() == b.len(),
        a.len() % m.channels == 0,
    ensures
        m.output(a) == m.output(b),
{
    let ch = m.channels as int;
    let frames = a.len() / m.channels;
    let good = m.started().produced(frames);
    lemma_fundamental_div_mod(a.len() as int, ch);
    lemma_mul_is_commutative(ch, frames as int);
    lemma_produced_at_most(m.started(), frames);
    assert(m.output(a) =~= m.output(b));
}

/// The samples of channel `c` are the same in both.
pub open spec fn same_channel(a: Seq<i16>, b: Seq<i16>, channels: nat, c: int) -> bool {
    &&& a.len() == b.len()
    &&& forall|k: int|
        0 <= k < a.len() && k % channels as int == c ==> #[trigger] a[k] == b[k]
}

proof fn lemma_same_cursor(a: jitter::JitterModel, b: jitter::JitterModel, f: nat)
    requires
        a.rate == b.rate,
        a.frac == b.frac,
        a.fill() == b.fill(),
    ensures
        a.cursor(f) == b.cursor(f),
        a.produced(f) == b.produced(f),
    decreases f,
{
    if f > 0 {
        lemma_same_cursor(a, b, (f - 1) as nat);
        let before = a.produced((f - 1) as nat);
        lemma_produced_at_most(a, (f - 1) as nat);
        if before == f - 1 {
            assert(a.dry_at(before) == b.dry_at(before));
        }
    }
}

proof fn lemma_same_input(
    a: jitter::JitterModel,
    b: jitter::JitterModel,
    n: nat,
    c: int,
)
    requires
        a.sized(),
        b.sized(),
        a.channels == b.channels,
        same_channel(a.queue, b.queue, a.channels, c),
        0 <= c < a.channels,
        a.prev[c] == b.prev[c],
        n <= a.fill(),
    ensures
        a.input_frame(n)[c] == b.input_frame(n)[c],
{
    let ch = a.channels as int;
    jitter::lemma_whole_queue(a);
    if n > 0 {
        jitter::lemma_frame_fits(n - 1, a.fill() as int, ch);
        jitter::lemma_frame_index(n - 1, c, ch);
        assert(a.input_frame(n)[c] == a.queue[(n - 1) * ch + c]);
        assert(b.input_frame(n)[c] == b.queue[(n - 1) * ch + c]);
    }
}

/// Channels stay apart: what is handed out on one depends on what the buffer holds
/// for that one alone.
pub proof fn channels_do_not_mix(
    a: jitter::JitterModel,
    b: jitter::JitterModel,
    before: Seq<i16>,
    c: int,
)
    requires
        a.wf(),
        b.wf(),
        0 <= c < a.channels,
        same_channel(a.queue, b.queue, a.channels, c),
        a.prev[c] == b.prev[c],
        b == (jitter::JitterModel { queue: b.queue, prev: b.prev, ..a }),
        before.len() % a.channels == 0,
    ensures
        same_channel(a.output(before), b.output(before), a.channels, c),
{
    let ch = a.channels as int;
    let frames = before.len() / a.channels;
    let x = a.started();
    let y = b.started();
    lemma_started_is_sound(a);
    lemma_started_is_sound(b);
    lemma_same_cursor(x, y, frames);
    lemma_produced_at_most(x, frames);
    let good = x.produced(frames);
    lemma_fundamental_div_mod(before.len() as int, ch);
    lemma_mul_is_commutative(ch, frames as int);
    if a.waits() {
        return;
    }
    let p = a.output(before);
    let q = b.output(before);
    assert forall|j: int| 0 <= j < p.len() && j % ch == c implies #[trigger] p[j] == q[j] by {
        let f = j / ch;
        lemma_fundamental_div_mod(j, ch);
        lemma_div_pos_is_pos(j, ch);
        lemma_mul_is_commutative(ch, f);
        if j < good * ch {
            assert(f < good) by (nonlinear_arith)
                requires
                    f * ch <= j,
                    j < good * ch,
                    ch >= 1,
            ;
            lemma_produced(x, f as nat, frames);
            lemma_same_cursor(x, y, f as nat);
            let at = x.cursor(f as nat).carried();
            lemma_same_input(x, y, at.consumed, c);
            lemma_same_input(x, y, at.consumed + 1, c);
        } else {
            lemma_same_input(x, y, x.fill(), c);
        }
    }
}

/// A buffer that grows past its cap drops back to its target, and keeps the newest
/// audio.
pub proof fn an_overflow_drops_back_to_target(m: jitter::JitterModel)
    requires
        m.sized(),
        m.fill() > m.max_frames,
    ensures
        m.trimmed().fill() == m.target_frames,
        m.trimmed().queue == m.queue.skip(m.queue.len() - m.target_frames * m.channels),
        m.trimmed().stats.overruns == jitter::counted(
            m.stats.overruns,
            (m.queue.len() - m.target_frames * m.channels) as nat,
        ),
{
    let ch = m.channels as int;
    let kept = m.target_frames * ch;
    jitter::lemma_whole_queue(m);
    assert((m.fill() - m.target_frames) * ch == m.queue.len() - kept) by (nonlinear_arith)
        requires
            m.queue.len() == m.fill() * ch,
            kept == m.target_frames * ch,
    ;
    assert(0 <= kept <= m.queue.len()) by (nonlinear_arith)
        requires
            m.queue.len() == m.fill() * ch,
            kept == m.target_frames * ch,
            0 <= m.target_frames <= m.fill(),
            ch >= 1,
    ;
    lemma_div_multiples_vanish(m.target_frames as int, ch);
    lemma_mul_is_commutative(ch, m.target_frames as int);
}

/// The playback rate never steps abruptly: one pull moves it by at most a fiftieth of
/// the way to the desired rate, give or take the last digits.
pub proof fn the_rate_never_steps_abruptly(rate: nat, desired: nat)
    requires
        resampler::rate_in_limits(rate),
        resampler::rate_in_limits(desired),
    ensures
        50 * resampler::magnitude(resampler::smoothed_rate(rate, desired) - rate)
            <= resampler::magnitude(desired - rate) + 100,
{
    let gap = resampler::magnitude(desired - rate);
    let c: nat = resampler::RATE_SMOOTHING as nat;
    let p = gap * c;
    let step = rounding::nearest(p);
    let unit: nat = 0x400_0000_0000_0000;
    lemma2_to64_rest();
    assert(pow2(58) == unit);
    assert(gap < 0x8000_0000_0000);
    assert(p < 0x8000_0000_0000 * ONE) by (nonlinear_arith)
        requires
            p == gap * c,
            gap < 0x8000_0000_0000,
            c == 0x14_7ae1_47ae_147b,
            ONE == 0x20_0000_0000_0000,
    ;
    assert(50 * p == gap * (unit + 6)) by (nonlinear_arith)
        requires
            p == gap * c,
            50 * c == unit + 6,
    ;
    assert(gap * (unit + 6) == gap * unit + 6 * gap) by (nonlinear_arith);
    // The step in units of 2^-58 tick, within 2^47 of them.
    rounding::lemma_nearest_error(p);
    rounding::lemma_ulp_bounds(p);
    assert(rounding::ulp(p) <= 0x1_0000_0000_0000);
    let start = rate * unit;
    let sum: nat = if desired >= rate {
        (start + step) as nat
    } else {
        (start - step) as nat
    };
    assert(step <= p + 0x8000_0000_0000);
    assert(step <= gap * unit + 1) by {
        assert(50 * step <= gap * unit + 6 * gap + 50 * 0x8000_0000_0000);
        if gap == 0 {
            rounding::lemma_nearest_small(0);
            assert(p == 0) by (nonlinear_arith)
                requires
                    p == gap * c,
                    gap == 0,
            ;
        } else {
            assert(gap * unit >= unit) by (nonlinear_arith)
                requires
                    gap >= 1,
            ;
        }
    }
    assert(start == rate * unit);
    if desired < rate {
        assert(gap * unit <= start - unit) by (nonlinear_arith)
            requires
                start == rate * unit,
                gap + 1 <= rate,
        ;
    }
    assert(sum < 2 * (0x21_0000_0000_0000 * unit)) by (nonlinear_arith)
        requires
            start == rate * unit,
            rate <= 0x20_20c4_9ba5_e354,
            sum <= start + step,
            step <= gap * unit + 1,
            gap < 0x8000_0000_0000,
            unit == 0x400_0000_0000_0000,
    ;
    // The sum is rounded by less than two ticks.
    rounding::lemma_nearest_error(sum);
    rounding::lemma_ulp_bounds(sum);
    let next = rounding::nearest(sum);
    assert(rounding::ulp(sum) <= 5 * unit);
    let out = next / unit;
    lemma_fundamental_div_mod(next as int, unit as int);
    lemma_mod_bound(next as int, unit as int);
    assert(out == resampler::smoothed_rate(rate, desired));
}

/// The correction grows with the gap.
proof fn lemma_correction_monotone(a: nat, b: nat, target: nat)
    requires
        a <= b,
        target > 0,
    ensures
        resampler::correction(a, target) <= resampler::correction(b, target),
{
    let p = pow2(128);
    let g: nat = resampler::DRIFT_GAIN as nat;
    assert(a * p <= b * p) by (nonlinear_arith)
        requires
            a <= b,
    ;
    rounding::lemma_quotient_monotone(a * p, b * p, target);
    let x = rounding::quotient(a * p, target);
    let y = rounding::quotient(b * p, target);
    assert(x * g <= y * g) by (nonlinear_arith)
        requires
            x <= y,
    ;
    rounding::lemma_nearest_monotone(x * g, y * g);
}

/// What is asked of a rate before it is kept within its limits, in units of 2^-187.
spec fn unlimited(f: nat, t: nat) -> nat {
    if f >= t {
        rounding::nearest(
            pow2(187) + resampler::correction(rounding::nearest((f - t) as nat), t),
        )
    } else {
        rounding::nearest(
            (pow2(187) - resampler::correction(rounding::nearest((t - f) as nat), t)) as nat,
        )
    }
}

proof fn lemma_unlimited_monotone(a: nat, b: nat, t: nat)
    requires
        a <= b,
        t > 0,
        rounding::nearest(t) == t,
    ensures
        unlimited(a, t) <= unlimited(b, t),
{
    let one = pow2(187);
    let up_a = resampler::correction(rounding::nearest((a - t) as nat), t);
    let up_b = resampler::correction(rounding::nearest((b - t) as nat), t);
    let down_a = resampler::correction(rounding::nearest((t - a) as nat), t);
    let down_b = resampler::correction(rounding::nearest((t - b) as nat), t);
    if a < t {
        rounding::lemma_nearest_monotone((t - a) as nat, t);
        lemma_correction_below_one(rounding::nearest((t - a) as nat), t);
    }
    if a >= t {
        rounding::lemma_nearest_monotone((a - t) as nat, (b - t) as nat);
        lemma_correction_monotone(
            rounding::nearest((a - t) as nat),
            rounding::nearest((b - t) as nat),
            t,
        );
        rounding::lemma_nearest_monotone(one + up_a, one + up_b);
    } else if b >= t {
        rounding::lemma_nearest_monotone((one - down_a) as nat, one + up_b);
    } else {
        rounding::lemma_nearest_monotone((t - b) as nat, (t - a) as nat);
        lemma_correction_monotone(
            rounding::nearest((t - b) as nat),
            rounding::nearest((t - a) as nat),
            t,
        );
        rounding::lemma_nearest_monotone((one - down_a) as nat, (one - down_b) as nat);
    }
}

/// The more a buffer holds, the faster it asks to be read.
pub proof fn more_audio_is_read_faster(less: nat, more: nat, target: nat)
    requires
        less <= more,
        0 < target,
    ensures
        resampler::desired_rate(less, target) <= resampler::desired_rate(more, target),
{
    let a = rounding::nearest(less);
    let b = rounding::nearest(more);
    let t = rounding::nearest(target);
    rounding::lemma_nearest_monotone(less, more);
    rounding::lemma_nearest_small(1);
    rounding::lemma_nearest_monotone(1, target);
    rounding::lemma_nearest_idempotent(target);
    lemma_unlimited_monotone(a, b, t);
    lemma_pow2_pos(134);
    lemma_div_is_ordered(
        unlimited(a, t) as int,
        unlimited(b, t) as int,
        pow2(134) as int,
    );
}

/// A gap of 406 parts in 1000 of the target calls for the largest correction.
proof fn lemma_large_gap(gap: nat, target: nat)
    requires
        target > 0,
        1000 * gap >= 406 * target,
    ensures
        resampler::correction(gap, target) >= (resampler::MAX_RATE - ONE) * pow2(134),
        resampler::correction(gap, target) >= (ONE - resampler::MIN_RATE) * pow2(134),
{
    let p = pow2(128);
    let g: nat = resampler::DRIFT_GAIN as nat;
    let n = gap * p;
    let q = rounding::quotient(n, target);
    lemma2_to64();
    lemma2_to64_rest();
    lemma_pow2_adds(64, 64);
    lemma_pow2_adds(128, 6);
    assert(p == 0x1_0000_0000_0000_0000_0000_0000_0000_0000);
    assert(1000 * n >= 406 * (target * p)) by (nonlinear_arith)
        requires
            n == gap * p,
            1000 * gap >= 406 * target,
            p >= 0,
    ;
    assert(target * p >= 3 * (ONE * target)) by (nonlinear_arith)
        requires
            p >= 3 * ONE,
            target > 0,
    ;
    rounding::lemma_quotient_relative(n, target);
    let m = q * target;
    assert(1000 * m >= 999 * n);
    assert(1_000_000 * q >= 405_594 * p) by (nonlinear_arith)
        requires
            1000 * m >= 999 * n,
            1000 * n >= 406 * (target * p),
            m == q * target,
            target > 0,
    ;
    rounding::lemma_nearest_relative(q * g);
    let c = rounding::nearest(q * g);
    assert(1000 * c >= 999 * (q * g));
    assert(1_000_000 * (q * g) >= 405_594 * (p * g)) by (nonlinear_arith)
        requires
            1_000_000 * q >= 405_594 * p,
            g >= 0,
    ;
    assert(p * g == 0x14_7ae1_47ae_147b * p) by (nonlinear_arith)
        requires
            g == 0x14_7ae1_47ae_147b,
    ;
    let most: nat = (resampler::MAX_RATE - ONE) as nat;
    assert(most * pow2(134) == 64 * most * p) by (nonlinear_arith)
        requires
            pow2(134) == p * 64,
    ;
    let least: nat = (ONE - resampler::MIN_RATE) as nat;
    assert(least * pow2(134) == 64 * least * p) by (nonlinear_arith)
        requires
            pow2(134) == p * 64,
    ;
}

/// A buffer that is 41 % off its target asks for the fastest or the slowest rate there
/// is.
pub proof fn a_large_error_is_met_with_all_there_is(fill: nat, target: nat)
    requires
        0 < target,
    ensures
        100 * fill >= 141 * target ==> resampler::desired_rate(fill, target)
            == resampler::MAX_RATE,
        100 * fill <= 59 * target ==> resampler::desired_rate(fill, target)
            == resampler::MIN_RATE,
{
    let one = pow2(187);
    let unit = pow2(134);
    let f = rounding::nearest(fill);
    let t = rounding::nearest(target);
    rounding::lemma_nearest_relative(fill);
    rounding::lemma_nearest_relative(target);
    rounding::lemma_nearest_small(1);
    rounding::lemma_nearest_monotone(1, target);
    rounding::lemma_nearest_idempotent(target);
    lemma2_to64_rest();
    lemma_pow2_adds(53, 134);
    lemma_pow2_pos(134);
    assert(1000 * f >= 999 * fill && 1000 * f <= 1001 * fill);
    assert(1000 * t >= 999 * target && 1000 * t <= 1001 * target);
    if 100 * fill >= 141 * target {
        let d = (f - t) as nat;
        let gap = rounding::nearest(d);
        assert(f >= t);
        rounding::lemma_nearest_relative(d);
        assert(1000 * gap >= 999 * d);
        lemma_large_gap(gap, t);
        let top: nat = resampler::MAX_RATE as nat;
        let raw = one + resampler::correction(gap, t);
        assert(top * unit <= raw) by (nonlinear_arith)
            requires
                raw >= ONE * unit + (top - ONE) * unit,
        ;
        resampler::lemma_max_rate_is_rounded();
        rounding::lemma_nearest_scales(top, 134);
        rounding::lemma_nearest_monotone(top * unit, raw);
        rounding::lemma_exact_division(top, 134);
        lemma_div_is_ordered(
            (top * unit) as int,
            rounding::nearest(raw) as int,
            unit as int,
        );
    }
    if 100 * fill <= 59 * target {
        let d = (t - f) as nat;
        let gap = rounding::nearest(d);
        assert(f < t);
        rounding::lemma_nearest_relative(d);
        assert(1000 * gap >= 999 * d);
        lemma_large_gap(gap, t);
        rounding::lemma_nearest_monotone(d, t);
        lemma_correction_below_one(gap, t);
        let bottom: nat = resampler::MIN_RATE as nat;
        let raw: nat = (one - resampler::correction(gap, t)) as nat;
        assert(raw <= bottom * unit) by (nonlinear_arith)
            requires
                raw <= ONE * unit - (ONE - bottom) * unit,
        ;
        rounding::lemma_nearest_small(bottom);
        rounding::lemma_nearest_scales(bottom, 134);
        rounding::lemma_nearest_monotone(raw, bottom * unit);
        rounding::lemma_exact_division(bottom, 134);
        lemma_div_is_ordered(
            rounding::nearest(raw) as int,
            (bottom * unit) as int,
            unit as int,
        );
    }
}

} // verus!
