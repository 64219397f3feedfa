//! What a push does to a jitter buffer, sample by sample.

use crate::jitter;
use crate::sample_laws;
use vstd::arithmetic::div_mod::*;
use vstd::prelude::*;

verus! {

/// How many packets `seq` is ahead of `expected`, going round the 2^32 numbers once.
pub open spec fn packets_ahead(seq: u32, expected: u32) -> int {
    (seq - expected) % 0x1_0000_0000
}

/// Packet `seq` comes too late: it is in the half of the numbers behind the expected one.
pub open spec fn is_late(m: jitter::JitterModel, seq: u32) -> bool {
    m.expected_seq matches Some(expected) && packets_ahead(seq, expected) >= 0x8000_0000
}

/// Packet `seq` is more than 50 packets ahead of the expected one.
pub open spec fn is_jump(m: jitter::JitterModel, seq: u32) -> bool {
    m.expected_seq matches Some(expected) && 50 < packets_ahead(seq, expected) < 0x8000_0000
}

/// How many packets before `seq` are missing and worth concealing.
pub open spec fn missing(m: jitter::JitterModel, seq: u32) -> nat {
    match m.expected_seq {
        Some(expected) => if packets_ahead(seq, expected) <= 50 {
            packets_ahead(seq, expected) as nat
        } else {
            0
        },
        None => 0,
    }
}

/// The most recent sample of channel `c`: the last one that waits, or what was played
/// last.
pub open spec fn last_sample(m: jitter::JitterModel, c: int) -> i16 {
    if m.queue.len() >= m.channels {
        m.queue[m.queue.len() - m.channels + c]
    } else {
        m.prev[c]
    }
}

/// One more in a counter that wraps around.
pub open spec fn more(n: u64, by: int) -> int {
    (n + by) % 0x1_0000_0000_0000_0000
}

/// A new buffer is empty, warms up, and plays at rate 1. It aims for the latency that was
/// asked for, two packets at least, and holds four times that at most.
pub proof fn a_buffer_starts_empty(
    channels: nat,
    rate_hz: u32,
    frame_ms: u8,
    target_ms: u32,
)
    ensures
        ({
            let m = jitter::JitterModel::fresh(channels, rate_hz, frame_ms, target_ms);
            let packet = (rate_hz * frame_ms) / 1000;
            let latency = (rate_hz * target_ms) / 1000;
            &&& m.channels == channels
            &&& m.frames_per_packet == if packet >= 1 {
                packet
            } else {
                1
            }
            &&& m.target_frames == if latency >= 2 * m.frames_per_packet {
                latency
            } else {
                2 * m.frames_per_packet as int
            }
            &&& m.max_frames == 4 * m.target_frames
            &&& m.queue.len() == 0
            &&& m.prev == Seq::new(channels, |c: int| 0i16)
            &&& m.frac == 0
            &&& m.rate == 0x20_0000_0000_0000
            &&& m.warming
            &&& m.expected_seq is None
            &&& m.stats.accepted == 0 && m.stats.late == 0 && m.stats.lost == 0
            &&& m.stats.underruns == 0 && m.stats.overruns == 0 && m.stats.resyncs == 0
        }),
{
    assert(0 <= rate_hz * frame_ms) by (nonlinear_arith);
    assert(0 <= rate_hz * target_ms) by (nonlinear_arith);
    assert(jitter::silence(channels) =~= Seq::new(channels, |c: int| 0i16));
}

/// A reset drops what waits and starts over; the counters and the dimensions stay.
pub proof fn a_reset_starts_over(m: jitter::JitterModel)
    ensures
        m.cleared() == (jitter::JitterModel {
            queue: Seq::empty(),
            prev: Seq::new(m.channels, |c: int| 0i16),
            frac: 0,
            rate: 0x20_0000_0000_0000,
            warming: true,
            expected_seq: None,
            ..m
        }),
{
    assert(jitter::silence(m.channels) =~= Seq::new(m.channels, |c: int| 0i16));
}

/// What a push does besides taking in samples. A late packet is counted and that is all.
/// Any other is counted as accepted, and the one after it is expected next; what is
/// missing before it is counted as lost. A jump is counted too, and starts playback over:
/// silent history, rate 1, warming up. Nothing else changes.
pub proof fn what_a_push_changes(m: jitter::JitterModel, seq: u32, samples: Seq<i16>)
    ensures
        ({
            let after = m.pushed(seq, samples);
            let jump = is_jump(m, seq);
            if is_late(m, seq) {
                after == (jitter::JitterModel {
                    stats: jitter::JitterStats { late: more(m.stats.late, 1) as u64, ..m.stats },
                    ..m
                })
            } else {
                &&& after.channels == m.channels
                &&& after.frames_per_packet == m.frames_per_packet
                &&& after.target_frames == m.target_frames
                &&& after.max_frames == m.max_frames
                &&& after.expected_seq == Some(((seq + 1) % 0x1_0000_0000) as u32)
                &&& after.stats.accepted == more(m.stats.accepted, 1)
                &&& after.stats.late == m.stats.late
                &&& after.stats.lost == more(m.stats.lost, missing(m, seq) as int)
                &&& after.stats.resyncs == more(
                    m.stats.resyncs,
                    if jump {
                        1
                    } else {
                        0
                    },
                )
                &&& after.stats.underruns == m.stats.underruns
                &&& jump ==> {
                    &&& after.prev == Seq::new(m.channels, |c: int| 0i16)
                    &&& after.frac == 0
                    &&& after.rate == 0x20_0000_0000_0000
                    &&& after.warming
                }
                &&& !jump ==> {
                    &&& after.prev == m.prev
                    &&& after.frac == m.frac
                    &&& after.rate == m.rate
                    &&& after.warming == m.warming
                }
            }
        }),
{
    assert(jitter::silence(m.channels) =~= Seq::new(m.channels, |c: int| 0i16));
}

/// Sample `p` of what a buffer would hold after a push if it had no cap: what waited
/// before, unless the stream jumps; then filler for the missing packets, which is the
/// last frame faded out; then the packet.
pub open spec fn belongs_at(
    x: i16,
    m: jitter::JitterModel,
    seq: u32,
    samples: Seq<i16>,
    p: int,
) -> bool {
    let ch = m.channels as int;
    let old = if is_jump(m, seq) {
        0
    } else {
        m.queue.len() as int
    };
    let filler = missing(m, seq) * m.frames_per_packet * ch;
    if p < old {
        x == m.queue[p]
    } else if p < old + filler {
        sample_laws::is_faded(x, last_sample(m, (p - old) % ch), ((p - old) / ch) as nat)
    } else {
        x == samples[p - old - filler]
    }
}

/// How many samples a buffer would hold after a push if it had no cap: what waited
/// before, unless the stream jumps, a packet of filler for each that is missing, and the
/// whole frames of the packet.
pub open spec fn arrived(m: jitter::JitterModel, seq: u32, samples: nat) -> int {
    (if is_jump(m, seq) {
        0
    } else {
        m.queue.len() as int
    }) + missing(m, seq) * m.frames_per_packet * m.channels + (samples - samples % m.channels)
}

/// The cut back to the target.
proof fn lemma_trimmed(m: jitter::JitterModel)
    requires
        m.channels >= 1,
        m.max_frames == 4 * m.target_frames,
        m.queue.len() % m.channels == 0,
    ensures
        m.queue.len() <= 4 * m.target_frames * m.channels ==> m.trimmed() == m,
        m.queue.len() > 4 * m.target_frames * m.channels ==> {
            let drop = m.queue.len() - m.target_frames * m.channels;
            &&& 0 <= drop <= m.queue.len()
            &&& m.trimmed().queue == m.queue.skip(drop)
            &&& m.trimmed().stats.overruns == more(m.stats.overruns, drop)
        },
{
    let ch = m.channels as int;
    let fill = m.fill() as int;
    lemma_fundamental_div_mod(m.queue.len() as int, ch);
    let target = m.target_frames as int;
    let len = m.queue.len() as int;
    assert(len == ch * fill);
    assert(fill > 4 * target <==> len > 4 * target * ch) by (nonlinear_arith)
        requires
            len == ch * fill,
            ch >= 1,
    ;
    if fill > 4 * target {
        assert((fill - target) * ch == len - target * ch) by (nonlinear_arith)
            requires
                len == ch * fill,
        ;
        assert(0 <= target * ch <= len) by (nonlinear_arith)
            requires
                len == ch * fill,
                0 <= target <= fill,
                ch >= 1,
        ;
    }
}

/// What waits after a push is what waited before, filler for what is missing and the
/// packet, in order, sample by sample. Past the cap of four times the target only the
/// newest stays, as much as the target, and what is dropped is counted.
#[verifier::spinoff_prover]
pub proof fn what_is_pushed_waits_in_order(m: jitter::JitterModel, seq: u32, samples: Seq<i16>)
    requires
        m.wf(),
        !is_late(m, seq),
    ensures
        ({
            let after = m.pushed(seq, samples);
            let total = arrived(m, seq, samples.len());
            let drop = total - after.queue.len();
            &&& total <= 4 * m.target_frames * m.channels ==> drop == 0
            &&& total > 4 * m.target_frames * m.channels ==> after.queue.len() == m.target_frames
                * m.channels
            &&& after.stats.overruns == more(m.stats.overruns, drop)
            &&& forall|k: int|
                0 <= k < after.queue.len() ==> belongs_at(
                    #[trigger] after.queue[k],
                    m,
                    seq,
                    samples,
                    k + drop,
                )
        }),
{
    let ch = m.channels as int;
    let n = missing(m, seq);
    let base = if is_jump(m, seq) {
        m.resynced()
    } else if n > 0 {
        m.concealed(n)
    } else {
        m
    };
    assert(m.pushed(seq, samples) == base.received(seq, samples));
    let usable = samples.len() - samples.len() % m.channels;
    jitter::lemma_whole_frames(samples.len() as int, ch);
    let all = base.queue + samples.take(usable as int);
    let filler = n * m.frames_per_packet * ch;
    assert(filler >= 0) by (nonlinear_arith)
        requires
            filler == n * m.frames_per_packet * ch,
            ch >= 1,
    ;
    if n == 0 {
        assert(filler == 0) by (nonlinear_arith)
            requires
                filler == n * m.frames_per_packet * ch,
                n == 0,
        ;
    }
    let grown = jitter::JitterModel {
        queue: all,
        expected_seq: Some(jitter::later_seq(seq, 1)),
        stats: jitter::JitterStats {
            accepted: jitter::counted(base.stats.accepted, 1),
            ..base.stats
        },
        ..base
    };
    assert(all.len() == arrived(m, seq, samples.len()));
    lemma_fundamental_div_mod(samples.len() as int, ch);
    lemma_whole(m, n, samples.len());
    lemma_trimmed(grown);
    assert(base.received(seq, samples) == grown.trimmed());
    assert forall|p: int| 0 <= p < all.len() implies belongs_at(
        #[trigger] all[p],
        m,
        seq,
        samples,
        p,
    ) by {
        lemma_belongs(m, seq, samples, p);
    }
    let after = m.pushed(seq, samples);
    let drop = all.len() - after.queue.len();
    assert forall|k: int| 0 <= k < after.queue.len() implies belongs_at(
        #[trigger] after.queue[k],
        m,
        seq,
        samples,
        k + drop,
    ) by {
        assert(after.queue[k] == all[k + drop]);
    }
}

/// What arrives is whole frames.
proof fn lemma_whole(m: jitter::JitterModel, n: nat, samples: nat)
    requires
        m.wf(),
    ensures
        (m.queue.len() + n * m.frames_per_packet * m.channels + (samples - samples % m.channels))
            % m.channels as int == 0,
        (samples - samples % m.channels) % m.channels as int == 0,
        (n * m.frames_per_packet * m.channels) % m.channels == 0,
{
    let ch = m.channels as int;
    let a = m.queue.len() as int / ch;
    let b = (n * m.frames_per_packet) as int;
    let c = samples as int / ch;
    lemma_fundamental_div_mod(m.queue.len() as int, ch);
    lemma_fundamental_div_mod(samples as int, ch);
    assert(ch * a + b * ch + ch * c == (a + b + c) * ch) by (nonlinear_arith);
    assert(ch * c == c * ch) by (nonlinear_arith);
    lemma_mod_multiples_basic(a + b + c, ch);
    lemma_mod_multiples_basic(b, ch);
    lemma_mod_multiples_basic(c, ch);
}

/// Where each sample comes from.
proof fn lemma_belongs(m: jitter::JitterModel, seq: u32, samples: Seq<i16>, p: int)
    requires
        m.wf(),
        !is_late(m, seq),
        0 <= p < arrived(m, seq, samples.len()),
    ensures
        ({
            let n = missing(m, seq);
            let base = if is_jump(m, seq) {
                m.resynced()
            } else if n > 0 {
                m.concealed(n)
            } else {
                m
            };
            let all = base.queue + samples.take(samples.len() - samples.len() % m.channels);
            belongs_at(all[p], m, seq, samples, p)
        }),
{
    let ch = m.channels as int;
    let n = missing(m, seq);
    let filler = n * m.frames_per_packet * ch;
    jitter::lemma_whole_frames(samples.len() as int, ch);
    if is_jump(m, seq) || n == 0 {
        assert(filler == 0) by (nonlinear_arith)
            requires
                filler == n * m.frames_per_packet * ch,
                n == 0,
        ;
    } else {
        assert(m.concealment(n).len() == filler);
        let k = p - m.queue.len();
        if 0 <= k < filler {
            lemma_mod_bound(k, ch);
            lemma_div_pos_is_pos(k, ch);
            sample_laws::a_fade_is_linear(last_sample(m, k % ch), (k / ch) as nat);
            assert(m.concealment(n)[k] == crate::resampler::faded(
                m.last_frame()[k % ch],
                (k / ch) as nat,
            ));
        }
    }
}

/// A gap of 1 to 50 packets fades out and stays silent. The filler starts where what
/// waited ends; its sample `k` is the last frame's sample of channel `k % channels` times
/// `1 - i / 240` in frame `i = k / channels`, and from frame 240 to the end of the gap it
/// is 0, however long the gap.
pub proof fn a_gap_fades_out_for_good(
    m: jitter::JitterModel,
    seq: u32,
    expected: u32,
    samples: Seq<i16>,
    k: int,
)
    requires
        m.wf(),
        m.expected_seq == Some(expected),
        1 <= packets_ahead(seq, expected) <= 50,
        arrived(m, seq, samples.len()) <= 4 * m.target_frames * m.channels,
        0 <= k < packets_ahead(seq, expected) * m.frames_per_packet * m.channels,
    ensures
        ({
            let i = k / m.channels as int;
            let x = m.pushed(seq, samples).queue[m.queue.len() + k];
            let s = last_sample(m, k % m.channels as int);
            &&& i >= 240 ==> x == 0
            &&& i < 240 ==> -120 <= 240 * x - s * (240 - i) <= 120
        }),
{
    what_is_pushed_waits_in_order(m, seq, samples);
    lemma_div_pos_is_pos(k, m.channels as int);
    jitter::lemma_whole_frames(samples.len() as int, m.channels as int);
    let after = m.pushed(seq, samples);
    let p = m.queue.len() + k;
    assert(0 <= p < after.queue.len());
    assert(belongs_at(after.queue[p], m, seq, samples, p));
}

} // verus!
