//! Receive-side buffering for a one-way PCM stream.
//!
//! Two problems have to be solved at once, and they pull in opposite
//! directions:
//!
//! * **Jitter.** Packets leave the sender every `frame_ms` but arrive in
//!   clumps. A buffer absorbs that, at the cost of latency.
//! * **Clock drift.** The capturing and the playing sound card each have their
//!   own crystal. Even at a matched nominal 48 kHz they differ by tens of parts
//!   per million, so one side produces slightly more samples per second than
//!   the other consumes. Left alone the buffer creeps towards empty or towards
//!   full and eventually clicks — once every few minutes, forever.
//!
//! The fix for drift is to consume samples at a rate that tracks the buffer
//! level instead of at exactly 1. [`JitterBuffer::pull`] reads through a linear
//! interpolator whose step size is nudged by how far the fill level sits from
//! its target.

use crate::resampler;
use crate::rounding;
use crate::rounding::ONE;
use std::collections::VecDeque;
use vstd::arithmetic::div_mod::*;
use vstd::arithmetic::mul::*;
use vstd::arithmetic::power2::*;
use vstd::prelude::*;

verus! {

/// A gap larger than this many packets is treated as a stream restart rather
/// than as loss worth concealing.
pub const RESYNC_GAP_PACKETS: u32 = 50;

/// What happened to a stream so far. The counters wrap around.
#[derive(Clone, Copy, Debug, Default, PartialEq, Eq, Structural)]
pub struct JitterStats {
    /// Audio packets accepted into the buffer.
    pub accepted: u64,
    /// Packets that arrived after their slot had already been played.
    pub late: u64,
    /// Packets the sequence numbers say never showed up.
    pub lost: u64,
    /// `pull` calls that ran out of samples.
    pub underruns: u64,
    /// Samples discarded because the buffer grew past its hard cap.
    pub overruns: u64,
    /// Times the stream jumped far enough to force a cold restart.
    pub resyncs: u64,
}

/// A counter after `by` more events.
pub open spec fn counted(n: u64, by: nat) -> u64 {
    ((n + by) % 0x1_0000_0000_0000_0000) as u64
}

/// The sequence number `by` packets after `seq`.
pub open spec fn later_seq(seq: u32, by: nat) -> u32 {
    ((seq + by) % 0x1_0000_0000) as u32
}

/// How many packets `seq` is ahead of `expected`, going round the sequence space
/// once. The upper half of that space counts as behind.
pub open spec fn seq_ahead(seq: u32, expected: u32) -> nat {
    ((seq - expected) % 0x1_0000_0000) as nat
}

/// Frames carried by one packet, at least one.
pub open spec fn packet_frames(rate_hz: u32, frame_ms: u8) -> nat {
    let frames = (rate_hz * frame_ms) as nat / 1000;
    if frames == 0 {
        1
    } else {
        frames
    }
}

/// Frames of a latency of `target_ms`, rounded up to two packets.
pub open spec fn latency_frames(rate_hz: u32, frame_ms: u8, target_ms: u32) -> nat {
    let frames = (rate_hz * target_ms) as nat / 1000;
    let two_packets = 2 * packet_frames(rate_hz, frame_ms);
    if frames < two_packets {
        two_packets
    } else {
        frames
    }
}

/// `n` samples of silence.
pub open spec fn silence(n: nat) -> Seq<i16> {
    Seq::new(n, |j: int| 0i16)
}

/// Where the interpolator stands: whole input frames consumed, and ticks past the
/// last of them.
pub struct Cursor {
    pub consumed: nat,
    pub frac: nat,
}

impl Cursor {
    /// Whole frames moved out of the fraction.
    pub open spec fn carried(self) -> Cursor {
        Cursor { consumed: self.consumed + self.frac / ONE as nat, frac: self.frac % ONE as nat }
    }

    /// One output frame further at `rate`.
    pub open spec fn stepped(self, rate: nat) -> Cursor {
        let here = self.carried();
        Cursor { consumed: here.consumed, frac: rounding::nearest(here.frac + rate) }
    }

    /// `n` output frames further at `rate`.
    pub open spec fn after(self, rate: nat, n: nat) -> Cursor
        decreases n,
    {
        if n == 0 {
            self
        } else {
            self.after(rate, (n - 1) as nat).stepped(rate)
        }
    }
}

/// What a [`JitterBuffer`] stands for.
#[verifier::ext_equal]
pub struct JitterModel {
    pub channels: nat,
    pub frames_per_packet: nat,
    /// Fill level the rate controller aims for, in frames.
    pub target_frames: nat,
    /// Hard cap; past this the oldest audio is dropped.
    pub max_frames: nat,
    /// Interleaved samples that wait to be played.
    pub queue: Seq<i16>,
    /// Last input frame consumed by the interpolator.
    pub prev: Seq<i16>,
    /// Interpolator position between `prev` and the head of `queue`, in ticks.
    pub frac: nat,
    /// Playback rate, in ticks.
    pub rate: nat,
    /// True until the buffer has filled to target.
    pub warming: bool,
    pub expected_seq: Option<u32>,
    pub stats: JitterStats,
}

impl JitterModel {
    /// A buffer that has seen no packet.
    pub open spec fn fresh(
        channels: nat,
        rate_hz: u32,
        frame_ms: u8,
        target_ms: u32,
    ) -> JitterModel {
        let target_frames = latency_frames(rate_hz, frame_ms, target_ms);
        JitterModel {
            channels,
            frames_per_packet: packet_frames(rate_hz, frame_ms),
            target_frames,
            max_frames: 4 * target_frames,
            queue: Seq::empty(),
            prev: silence(channels),
            frac: 0,
            rate: ONE as nat,
            warming: true,
            expected_seq: None,
            stats: JitterStats {
                accepted: 0,
                late: 0,
                lost: 0,
                underruns: 0,
                overruns: 0,
                resyncs: 0,
            },
        }
    }

    /// What holds of every buffer between two calls.
    pub open spec fn wf(self) -> bool {
        &&& self.sized()
        &&& self.fill() <= self.max_frames
    }

    /// What holds of every buffer, but for its cap.
    pub open spec fn sized(self) -> bool {
        &&& self.channels >= 1
        &&& self.frames_per_packet >= 1
        &&& self.target_frames >= 2 * self.frames_per_packet
        &&& self.target_frames < 0x800_0000_0000_0000
        &&& self.max_frames == 4 * self.target_frames
        &&& self.max_frames * self.channels * 2 <= isize::MAX
        &&& self.queue.len() % self.channels == 0
        &&& self.prev.len() == self.channels
        &&& self.frac <= 3 * ONE
        &&& resampler::rate_in_limits(self.rate)
    }

    /// Whole frames in the queue.
    pub open spec fn fill(self) -> nat {
        self.queue.len() / self.channels
    }

    /// Everything dropped, waiting to refill. Counters stay.
    pub open spec fn cleared(self) -> JitterModel {
        JitterModel {
            queue: Seq::empty(),
            prev: silence(self.channels),
            frac: 0,
            rate: ONE as nat,
            warming: true,
            expected_seq: None,
            ..self
        }
    }

    /// The most recent frame available as concealment material: the tail of the
    /// queue if there is one, otherwise the interpolator's last input.
    pub open spec fn last_frame(self) -> Seq<i16> {
        if self.queue.len() >= self.channels {
            self.queue.subrange(self.queue.len() - self.channels, self.queue.len() as int)
        } else {
            self.prev
        }
    }

    /// Filler for `packets` missing packets: the last frame, faded out.
    pub open spec fn concealment(self, packets: nat) -> Seq<i16> {
        Seq::new(
            packets * self.frames_per_packet * self.channels,
            |k: int|
                resampler::faded(
                    self.last_frame()[k % self.channels as int],
                    (k / self.channels as int) as nat,
                ),
        )
    }

    /// Cut back to the target if the cap is exceeded, oldest audio first.
    pub open spec fn trimmed(self) -> JitterModel {
        if self.fill() > self.max_frames {
            let drop = ((self.fill() - self.target_frames) * self.channels) as nat;
            JitterModel {
                queue: self.queue.skip(drop as int),
                stats: JitterStats { overruns: counted(self.stats.overruns, drop), ..self.stats },
                ..self
            }
        } else {
            self
        }
    }

    /// The packet `seq` taken in behind what is there.
    pub open spec fn received(self, seq: u32, samples: Seq<i16>) -> JitterModel {
        let usable = samples.len() - samples.len() % self.channels;
        JitterModel {
            queue: self.queue + samples.take(usable as int),
            expected_seq: Some(later_seq(seq, 1)),
            stats: JitterStats { accepted: counted(self.stats.accepted, 1), ..self.stats },
            ..self
        }.trimmed()
    }

    /// A packet that came too late: nothing but a counter changes.
    pub open spec fn refused(self) -> JitterModel {
        JitterModel {
            stats: JitterStats { late: counted(self.stats.late, 1), ..self.stats },
            ..self
        }
    }

    /// A cold restart of the stream.
    pub open spec fn resynced(self) -> JitterModel {
        JitterModel {
            stats: JitterStats { resyncs: counted(self.stats.resyncs, 1), ..self.stats },
            ..self.cleared()
        }
    }

    /// A gap of `packets` filled.
    pub open spec fn concealed(self, packets: nat) -> JitterModel {
        JitterModel {
            queue: self.queue + self.concealment(packets),
            stats: JitterStats { lost: counted(self.stats.lost, packets), ..self.stats },
            ..self
        }
    }

    /// One packet pushed.
    pub open spec fn pushed(self, seq: u32, samples: Seq<i16>) -> JitterModel {
        match self.expected_seq {
            None => self.received(seq, samples),
            Some(expected) => {
                let ahead = seq_ahead(seq, expected);
                if ahead >= 0x8000_0000 {
                    self.refused()
                } else if ahead > RESYNC_GAP_PACKETS {
                    self.resynced().received(seq, samples)
                } else if ahead > 0 {
                    self.concealed(ahead).received(seq, samples)
                } else {
                    self.received(seq, samples)
                }
            },
        }
    }

    /// The `j`th frame that the interpolator sees: its last input, then the queue.
    pub open spec fn input_frame(self, j: nat) -> Seq<i16> {
        if j == 0 {
            self.prev
        } else {
            self.queue.subrange((j - 1) * self.channels, (j * self.channels) as int)
        }
    }

    /// The first `n` frames of the queue consumed.
    pub open spec fn skipped(self, n: nat) -> JitterModel {
        JitterModel {
            queue: self.queue.skip((n * self.channels) as int),
            prev: self.input_frame(n),
            ..self
        }
    }

    /// Where the interpolator stands before output frame `f`.
    pub open spec fn cursor(self, f: nat) -> Cursor {
        Cursor { consumed: 0, frac: self.frac }.after(self.rate, f)
    }

    /// The queue has no frame left to interpolate towards at output frame `f`.
    pub open spec fn dry_at(self, f: nat) -> bool {
        self.cursor(f).carried().consumed >= self.fill()
    }

    /// How many of `frames` output frames come before the queue runs dry.
    pub open spec fn produced(self, frames: nat) -> nat
        decreases frames,
    {
        if frames == 0 {
            0
        } else {
            let before = self.produced((frames - 1) as nat);
            if before < frames - 1 || self.dry_at(before) {
                before
            } else {
                frames
            }
        }
    }

    /// Sample `c` of output frame `f`, as long as the queue lasts.
    pub open spec fn played(self, f: nat, c: int) -> i16 {
        let at = self.cursor(f).carried();
        resampler::mixed(
            self.input_frame(at.consumed)[c] as int,
            self.input_frame(at.consumed + 1)[c] as int,
            at.frac,
        ) as i16
    }

    /// Playback about to run: out of warm-up, with the rate nudged.
    pub open spec fn started(self) -> JitterModel {
        let rate = if self.warming {
            ONE as nat
        } else {
            self.rate
        };
        JitterModel {
            warming: false,
            frac: if self.warming {
                0
            } else {
                self.frac
            },
            rate: resampler::smoothed_rate(
                rate,
                resampler::desired_rate(self.fill(), self.target_frames),
            ),
            ..self
        }
    }

    /// The buffer is still filling up, so that playback must wait.
    pub open spec fn waits(self) -> bool {
        self.warming && self.fill() < self.target_frames
    }

    /// Playback of `frames` frames, of which the queue had enough.
    pub open spec fn advanced(self, frames: nat) -> JitterModel {
        let end = self.cursor(frames);
        JitterModel { frac: end.frac, ..self.skipped(end.consumed) }
    }

    /// Playback that ran dry: empty and warming up again.
    pub open spec fn drained(self) -> JitterModel {
        JitterModel {
            queue: Seq::empty(),
            prev: silence(self.channels),
            frac: 0,
            warming: true,
            stats: JitterStats { underruns: counted(self.stats.underruns, 1), ..self.stats },
            ..self
        }
    }

    /// The buffer after a pull into `n` samples.
    pub open spec fn pulled(self, n: nat) -> JitterModel {
        let frames = n / self.channels;
        if self.waits() {
            self
        } else if self.started().produced(frames) < frames {
            self.started().drained()
        } else {
            self.started().advanced(frames)
        }
    }

    /// What a pull writes over `before`: silence while warming up; else the
    /// interpolated input and, from where the queue runs dry, its last frame
    /// faded out. Samples after the last whole frame are written only by the fade.
    pub open spec fn output(self, before: Seq<i16>) -> Seq<i16> {
        let ch = self.channels as int;
        let frames = before.len() / self.channels;
        let run = self.started();
        let good = run.produced(frames);
        if self.waits() {
            silence(before.len())
        } else {
            Seq::new(
                before.len(),
                |j: int|
                    if j < good * ch {
                        run.played((j / ch) as nat, j % ch)
                    } else if good < frames {
                        resampler::faded(
                            run.input_frame(run.fill())[j % ch],
                            (j / ch - good) as nat,
                        )
                    } else {
                        before[j]
                    },
            )
        }
    }
}

/// Receive-side buffer of one stream.
pub struct JitterBuffer {
    channels: usize,
    frames_per_packet: usize,
    target_frames: usize,
    max_frames: usize,
    queue: VecDeque<i16>,
    prev: Vec<i16>,
    frac: u64,
    rate: u64,
    warming: bool,
    expected_seq: Option<u32>,
    stats: JitterStats,
}

impl View for JitterBuffer {
    type V = JitterModel;

    closed spec fn view(&self) -> JitterModel {
        JitterModel {
            channels: self.channels as nat,
            frames_per_packet: self.frames_per_packet as nat,
            target_frames: self.target_frames as nat,
            max_frames: self.max_frames as nat,
            queue: self.queue@,
            prev: self.prev@,
            frac: self.frac as nat,
            rate: self.rate as nat,
            warming: self.warming,
            expected_seq: self.expected_seq,
            stats: self.stats,
        }
    }
}

/// This machine can address a buffer of these dimensions at its cap.
pub open spec fn addressable(channels: nat, rate_hz: u32, frame_ms: u8, target_ms: u32) -> bool {
    channels >= 1 && 4 * latency_frames(rate_hz, frame_ms, target_ms) * channels * 2 <= isize::MAX
}

/// Frames carried by one packet, at least one.
fn frames_in_packet(rate_hz: u32, frame_ms: u8) -> (n: u64)
    ensures
        n as nat == packet_frames(rate_hz, frame_ms),
        n <= 0xffff_ffff,
{
    assert(rate_hz * frame_ms <= 0xffff_ffff * 0xff) by (nonlinear_arith)
        requires
            rate_hz <= 0xffff_ffff,
            frame_ms <= 0xff,
    ;
    let frames: u64 = rate_hz as u64 * frame_ms as u64 / 1000;
    if frames == 0 {
        1
    } else {
        frames
    }
}

/// Frames of a latency of `target_ms`, rounded up to two packets.
fn frames_of_latency(rate_hz: u32, frame_ms: u8, target_ms: u32) -> (n: u64)
    ensures
        n as nat == latency_frames(rate_hz, frame_ms, target_ms),
        2 * packet_frames(rate_hz, frame_ms) <= n < 0x80_0000_0000_0000,
{
    assert(rate_hz * target_ms <= 0xffff_ffff * 0xffff_ffff) by (nonlinear_arith)
        requires
            rate_hz <= 0xffff_ffff,
            target_ms <= 0xffff_ffff,
    ;
    let two_packets: u64 = 2 * frames_in_packet(rate_hz, frame_ms);
    let latency: u64 = rate_hz as u64 * target_ms as u64 / 1000;
    if latency < two_packets {
        two_packets
    } else {
        latency
    }
}

impl JitterBuffer {
    /// True when this machine can address a buffer of these dimensions.
    pub fn fits(channels: usize, rate_hz: u32, frame_ms: u8, target_ms: u32) -> (ok: bool)
        ensures
            ok == addressable(channels as nat, rate_hz, frame_ms, target_ms),
    {
        let target: u64 = frames_of_latency(rate_hz, frame_ms, target_ms);
        let frames: u128 = 4 * target as u128;
        assert(frames * channels * 2 <= 0x200_0000_0000_0000 * 0xffff_ffff_ffff_ffff * 2)
            by (nonlinear_arith)
            requires
                frames <= 0x200_0000_0000_0000,
                channels <= 0xffff_ffff_ffff_ffff,
        ;
        assert(0 <= frames * channels) by (nonlinear_arith);
        channels >= 1 && frames * channels as u128 * 2 <= isize::MAX as u128
    }

    /// `target_ms` is the steady-state latency contributed by this buffer.
    /// It is rounded up to at least two packets, since one packet is always
    /// held back as interpolator lookahead.
    pub fn new(channels: usize, rate_hz: u32, frame_ms: u8, target_ms: u32) -> (jb: Self)
        requires
            addressable(channels as nat, rate_hz, frame_ms, target_ms),
        ensures
            jb@ == JitterModel::fresh(channels as nat, rate_hz, frame_ms, target_ms),
            jb@.wf(),
    {
        let frames_per_packet: u64 = frames_in_packet(rate_hz, frame_ms);
        let target_frames: u64 = frames_of_latency(rate_hz, frame_ms, target_ms);
        let ghost t: nat = latency_frames(rate_hz, frame_ms, target_ms);
        proof {
            assert(target_frames as nat == t);
            assert(8 * t <= 4 * t * channels * 2) by (nonlinear_arith)
                requires
                    channels >= 1,
            ;
            assert(4 * t * channels <= 4 * t * channels * 2) by (nonlinear_arith);
        }
        let target_frames: usize = target_frames as usize;
        let max_frames: usize = 4 * target_frames;
        proof {
            assert(0nat % (channels as nat) == 0);
            assert(0nat / (channels as nat) == 0);
        }
        let prev: Vec<i16> = vec![0i16;channels];
        let jb = JitterBuffer {
            channels,
            frames_per_packet: frames_per_packet as usize,
            target_frames,
            max_frames,
            queue: VecDeque::with_capacity(max_frames * channels),
            prev,
            frac: 0,
            rate: ONE,
            warming: true,
            expected_seq: None,
            stats: JitterStats {
                accepted: 0,
                late: 0,
                lost: 0,
                underruns: 0,
                overruns: 0,
                resyncs: 0,
            },
        };
        assert(jb@ =~= JitterModel::fresh(channels as nat, rate_hz, frame_ms, target_ms));
        jb
    }

    /// What happened to the stream so far.
    pub fn stats(&self) -> (s: JitterStats)
        ensures
            s == self@.stats,
    {
        self.stats
    }

    /// Frames that wait to be played.
    pub fn fill_frames(&self) -> (n: usize)
        requires
            self@.wf(),
        ensures
            n as nat == self@.fill(),
    {
        self.queue.len() / self.channels
    }

    /// Fill level that the rate controller aims for.
    pub fn target_frames(&self) -> (n: usize)
        ensures
            n as nat == self@.target_frames,
    {
        self.target_frames
    }

    /// Current playback rate, in ticks, for logging. [`ONE`] means "no drift".
    pub fn rate(&self) -> (r: u64)
        ensures
            r as nat == self@.rate,
    {
        self.rate
    }

    /// Drop everything and wait for the buffer to refill before playing again.
    pub fn reset(&mut self)
        requires
            old(self)@.wf(),
        ensures
            final(self)@ == old(self)@.cleared(),
            final(self)@.wf(),
    {
        self.queue.clear();
        self.silence_prev();
        self.frac = 0;
        self.rate = ONE;
        self.warming = true;
        self.expected_seq = None;
        proof {
            assert(0nat % self@.channels == 0);
            assert(0nat / self@.channels == 0);
            assert(self@ =~= old(self)@.cleared());
        }
    }

    /// Forgets the interpolator's last input.
    fn silence_prev(&mut self)
        requires
            old(self)@.prev.len() == old(self)@.channels,
        ensures
            final(self)@ == (JitterModel {
                prev: silence(old(self)@.channels),
                ..old(self)@
            }),
    {
        let mut c: usize = 0;
        while c < self.channels
            invariant
                c <= self.channels,
                self.prev@.len() == self.channels,
                self@ == (JitterModel { prev: self.prev@, ..old(self)@ }),
                forall|j: int| 0 <= j < c ==> self.prev@[j] == 0,
            decreases self.channels - c,
        {
            self.prev[c] = 0;
            c = c + 1;
        }
        assert(self.prev@ =~= silence(self.channels as nat));
    }

    /// Accept one audio packet. `samples` is interleaved and should be a whole
    /// number of frames; a partial trailing frame is ignored.
    pub fn push(&mut self, seq: u32, samples: &[i16])
        requires
            old(self)@.wf(),
        ensures
            final(self)@ == old(self)@.pushed(seq, samples@),
            final(self)@.wf(),
    {
        match self.expected_seq {
            None => {},
            Some(expected) => {
                // Wrapping difference: correct for any real gap, and treats a
                // sequence-space wrap as the small forward step it is.
                let ahead: u32 = seq.wrapping_sub(expected);
                assert(ahead as nat == seq_ahead(seq, expected));
                if ahead >= 0x8000_0000 {
                    // Already played through this slot, or a duplicate.
                    self.stats.late = self.stats.late.wrapping_add(1);
                    return;
                }
                if ahead > RESYNC_GAP_PACKETS {
                    self.stats.resyncs = self.stats.resyncs.wrapping_add(1);
                    self.reset();
                    assert(self@ =~= old(self)@.resynced());
                } else if ahead > 0 {
                    self.stats.lost = self.stats.lost.wrapping_add(ahead as u64);
                    self.conceal(ahead);
                    assert(self@ =~= old(self)@.concealed(ahead as nat));
                }
            },
        }
        self.receive(seq, samples);
    }

    /// Takes a packet in behind what is there.
    fn receive(&mut self, seq: u32, samples: &[i16])
        requires
            old(self)@.sized(),
        ensures
            final(self)@ == old(self)@.received(seq, samples@),
            final(self)@.wf(),
    {
        self.expected_seq = Some(seq.wrapping_add(1));
        proof {
            lemma_whole_frames(samples@.len() as int, self@.channels as int);
        }
        let usable: usize = samples.len() - samples.len() % self.channels;
        let mut i: usize = 0;
        while i < usable
            invariant
                i <= usable <= samples@.len(),
                self@ == (JitterModel {
                    queue: old(self)@.queue + samples@.take(i as int),
                    expected_seq: Some(later_seq(seq, 1)),
                    ..old(self)@
                }),
            decreases usable - i,
        {
            self.queue.push_back(samples[i]);
            i = i + 1;
            assert(self.queue@ =~= old(self)@.queue + samples@.take(i as int));
        }
        self.stats.accepted = self.stats.accepted.wrapping_add(1);
        proof {
            lemma_frames_sum(
                old(self)@.queue.len() as int,
                usable as int,
                self@.channels as int,
            );
        }
        self.trim();
    }

    /// Synthesise `packets` worth of filler for a detected gap: the last good
    /// frame, faded out. Short gaps stay inaudible; long ones go quiet instead
    /// of buzzing.
    fn conceal(&mut self, packets: u32)
        requires
            old(self)@.wf(),
            packets <= RESYNC_GAP_PACKETS,
        ensures
            final(self)@ == (JitterModel {
                queue: old(self)@.queue + old(self)@.concealment(packets as nat),
                ..old(self)@
            }),
            final(self)@.sized(),
    {
        assert(packets * self.frames_per_packet <= 50 * self.frames_per_packet) by (nonlinear_arith)
            requires
                packets <= 50,
        ;
        let frames: u64 = packets as u64 * self.frames_per_packet as u64;
        let base: Vec<i16> = self.last_frame();
        let ghost ch = self@.channels as int;
        let ghost filler = old(self)@.concealment(packets as nat);
        let ghost start = self.queue@;
        let mut i: u64 = 0;
        while i < frames
            invariant
                i <= frames,
                frames as int == packets * old(self)@.frames_per_packet,
                ch == old(self)@.channels,
                ch >= 1,
                base@ == old(self)@.last_frame(),
                base@.len() == ch,
                start == old(self)@.queue,
                filler == old(self)@.concealment(packets as nat),
                self@ == (JitterModel { queue: start + filler.take(i * ch), ..old(self)@ }),
            decreases frames - i,
        {
            let gain: u64 = resampler::fade_out(i);
            let mut c: usize = 0;
            proof {
                lemma_frame_fits(i as int, frames as int, ch);
                assert(filler.len() == frames * ch);
            }
            while c < base.len()
                invariant
                    c <= base.len(),
                    i < frames,
                    gain as nat == resampler::gain(i as nat),
                    gain <= ONE,
                    ch == old(self)@.channels,
                    ch >= 1,
                    base@ == old(self)@.last_frame(),
                    base@.len() == ch,
                    filler == old(self)@.concealment(packets as nat),
                    filler.len() == frames * ch,
                    0 <= i * ch,
                    i * ch + ch <= frames * ch,
                    self@ == (JitterModel {
                        queue: start + filler.take(i * ch + c),
                        ..old(self)@
                    }),
                decreases base.len() - c,
            {
                self.queue.push_back(resampler::scale(base[c], gain));
                proof {
                    let k: int = i * ch + c;
                    lemma_frame_index(i as int, c as int, ch);
                    resampler::lemma_faded(base@[c as int], i as nat);
                    assert(filler[k] == resampler::faded(base@[c as int], i as nat));
                    assert(filler.take(k).push(filler[k]) =~= filler.take(k + 1));
                }
                c = c + 1;
                assert(self.queue@ =~= start + filler.take(i * ch + c));
            }
            i = i + 1;
            proof {
                assert((i - 1) * ch + ch == i * ch) by (nonlinear_arith);
            }
        }
        proof {
            assert(filler.len() == frames * ch);
            assert(filler.take(frames * ch) =~= filler);
            lemma_mod_multiples_basic(frames as int, ch);
            lemma_frames_sum(start.len() as int, filler.len() as int, ch);
        }
    }

    /// The most recent frame available as concealment material.
    fn last_frame(&self) -> (frame: Vec<i16>)
        requires
            self@.wf(),
        ensures
            frame@ == self@.last_frame(),
            frame@.len() == self@.channels,
    {
        let len: usize = self.queue.len();
        let mut frame: Vec<i16> = Vec::new();
        let mut c: usize = 0;
        while c < self.channels
            invariant
                c <= self.channels,
                len == self@.queue.len(),
                self@.prev.len() == self.channels,
                self@.channels == self.channels,
                frame@ == self@.last_frame().take(c as int),
            decreases self.channels - c,
        {
            if len >= self.channels {
                frame.push(self.queue[len - self.channels + c]);
            } else {
                frame.push(self.prev[c]);
            }
            c = c + 1;
            assert(frame@ =~= self@.last_frame().take(c as int));
        }
        assert(frame@ =~= self@.last_frame());
        frame
    }

    /// Cuts a buffer past its cap back to its target, so that this does not happen
    /// again on the very next packet.
    fn trim(&mut self)
        requires
            old(self)@.sized(),
        ensures
            final(self)@ == old(self)@.trimmed(),
            final(self)@.wf(),
    {
        let fill: usize = self.queue.len() / self.channels;
        if fill <= self.max_frames {
            return;
        }
        let frames: usize = fill - self.target_frames;
        let ghost ch = self@.channels as int;
        let ghost queue = self.queue@;
        proof {
            lemma_fundamental_div_mod(queue.len() as int, ch);
            lemma_mul_is_commutative(ch, fill as int);
            lemma_frame_fits(frames as int, fill + 1, ch);
            assert(frames * ch <= fill * ch) by (nonlinear_arith)
                requires
                    frames <= fill,
                    ch >= 1,
            ;
        }
        let drop: usize = frames * self.channels;
        let mut i: usize = 0;
        while i < drop
            invariant
                i <= drop <= queue.len(),
                queue == old(self)@.queue,
                self@ == (JitterModel { queue: queue.skip(i as int), ..old(self)@ }),
            decreases drop - i,
        {
            let _ = self.queue.pop_front();
            i = i + 1;
            assert(self.queue@ =~= queue.skip(i as int));
        }
        self.stats.overruns = self.stats.overruns.wrapping_add(drop as u64);
        proof {
            assert(queue.len() - drop == self.target_frames * ch) by (nonlinear_arith)
                requires
                    queue.len() == fill * ch,
                    drop == frames * ch,
                    frames == fill - self.target_frames,
            ;
            lemma_mod_multiples_basic(self.target_frames as int, ch);
            lemma_div_multiples_vanish(self.target_frames as int, ch);
            lemma_mul_is_commutative(ch, self.target_frames as int);
        }
    }

    /// Fill `out` (interleaved, a whole number of frames) with the next slice
    /// of audio: silence while warming up, faded concealment on underrun.
    pub fn pull(&mut self, out: &mut [i16])
        requires
            old(self)@.wf(),
        ensures
            final(self)@ == old(self)@.pulled(old(out)@.len()),
            final(self)@.wf(),
            final(out)@ == old(self)@.output(old(out)@),
    {
        let frames: usize = out.len() / self.channels;
        if self.warming {
            if self.fill_frames() < self.target_frames {
                silence_all(out);
                return;
            }
            self.warming = false;
            self.frac = 0;
            self.rate = ONE;
        }
        self.update_rate();
        let ghost run = self@;
        let ghost before = out@;
        let ghost ch = run.channels as int;
        proof {
            assert(run == old(self)@.started());
            lemma_at_start(run);
            lemma_fundamental_div_mod(before.len() as int, ch);
            lemma_mul_is_commutative(ch, frames as int);
            lemma_mod_bound(before.len() as int, ch);
        }
        let mut f: usize = 0;
        while f < frames
            invariant
                f <= frames,
                before == old(out)@,
                out@.len() == before.len(),
                ch == run.channels,
                ch >= 1,
                frames as int == before.len() as int / ch,
                frames * ch <= before.len() < frames * ch + ch,
                old(self)@.wf(),
                !old(self)@.waits(),
                run == old(self)@.started(),
                run.wf(),
                self@ == run.advanced(f as nat),
                run.produced(f as nat) == f,
                run.cursor(f as nat).consumed <= run.fill(),
                run.cursor(f as nat).frac <= 3 * ONE,
                forall|j: int|
                    0 <= j < f * ch ==> out@[j] == run.played((j / ch) as nat, j % ch),
                forall|j: int| f * ch <= j < out@.len() ==> out@[j] == before[j],
            decreases frames - f,
        {
            proof {
                lemma_advanced(run, f as nat);
                lemma_frame_fits(f as int, frames as int, ch);
            }
            if !self.advance() {
                proof {
                    lemma_produced_stays(run, f as nat, frames as nat);
                    let done = run.cursor(f as nat).consumed;
                    lemma_skipped_twice(run, done, (run.fill() - done) as nat);
                    assert(self@.prev == run.input_frame(run.fill()));
                }
                self.underrun(out, f);
                proof {
                    assert(self@ =~= run.drained());
                    assert(out@ =~= old(self)@.output(before));
                }
                return;
            }
            proof {
                lemma_carried(run, f as nat);
            }
            self.interpolate(out, f);
            proof {
                rounding::lemma_nearest_monotone((self.frac + self.rate) as nat, 3 * ONE as nat);
                lemma2_to64_rest();
                rounding::lemma_nearest_small(3);
                rounding::lemma_nearest_scales(3, 53);
            }
            self.frac = rounding::round_nearest(self.frac as u128 + self.rate as u128) as u64;
            proof {
                let next = (f + 1) as nat;
                assert(run.cursor(next) == run.cursor(f as nat).stepped(run.rate));
                assert(self@ =~= run.advanced(next));
                assert forall|j: int| 0 <= j < (f + 1) * ch implies out@[j] == run.played(
                    (j / ch) as nat,
                    j % ch,
                ) by {
                    if j >= f * ch {
                        lemma_frame_index(f as int, j - f * ch, ch);
                    }
                }
            }
            f = f + 1;
        }
        proof {
            lemma_advanced(run, frames as nat);
            assert(out@ =~= old(self)@.output(before));
        }
    }

    /// Writes output frame `f`, between the last input and the head of the queue.
    fn interpolate(&self, out: &mut [i16], f: usize)
        requires
            self@.prev.len() == self@.channels,
            self@.queue.len() >= self@.channels,
            self@.frac < ONE,
            f * self@.channels + self@.channels <= old(out)@.len(),
        ensures
            final(out)@.len() == old(out)@.len(),
            forall|c: int|
                0 <= c < self@.channels ==> #[trigger] final(out)@[f * self@.channels as int + c]
                    == resampler::mixed(
                    self@.prev[c] as int,
                    self@.queue[c] as int,
                    self@.frac,
                ) as i16,
            forall|j: int|
                0 <= j < old(out)@.len() && !(f * self@.channels <= j < f * self@.channels
                    + self@.channels) ==> final(out)@[j] == old(out)@[j],
    {
        let len: usize = out.len();
        assert(out@.len() == len);
        proof {
            lemma_mul_nonnegative(f as int, self@.channels as int);
        }
        let start: usize = f * self.channels;
        let mut c: usize = 0;
        while c < self.channels
            invariant
                c <= self.channels,
                start == f * self@.channels,
                self@.channels == self.channels,
                self@.prev.len() == self.channels,
                self@.queue.len() >= self.channels,
                self.frac < ONE,
                start + self.channels <= len,
                out@.len() == len,
                out@.len() == old(out)@.len(),
                forall|k: int|
                    0 <= k < c ==> #[trigger] out@[start + k] == resampler::mixed(
                        self@.prev[k] as int,
                        self@.queue[k] as int,
                        self@.frac,
                    ) as i16,
                forall|j: int|
                    0 <= j < out@.len() && !(start <= j < start + c) ==> out@[j] == old(out)@[j],
            decreases self.channels - c,
        {
            out[start + c] = resampler::mix(self.prev[c], self.queue[c], self.frac);
            c = c + 1;
        }
        proof {
            assert forall|k: int| 0 <= k < self@.channels implies #[trigger] out@[f
                * self@.channels as int + k] == resampler::mixed(
                self@.prev[k] as int,
                self@.queue[k] as int,
                self@.frac,
            ) as i16 by {
                assert(out@[start + k] == resampler::mixed(
                    self@.prev[k] as int,
                    self@.queue[k] as int,
                    self@.frac,
                ) as i16);
            }
        }
    }

    /// Nudge the read rate towards whatever keeps the fill level at target.
    /// Reading faster than 1 drains a buffer that drift is filling up.
    fn update_rate(&mut self)
        requires
            old(self)@.wf(),
        ensures
            final(self)@ == (JitterModel {
                rate: resampler::smoothed_rate(
                    old(self)@.rate,
                    resampler::desired_rate(old(self)@.fill(), old(self)@.target_frames),
                ),
                ..old(self)@
            }),
            final(self)@.wf(),
    {
        let desired: u64 = resampler::wanted_rate(
            self.fill_frames() as u64,
            self.target_frames as u64,
        );
        self.rate = resampler::smooth_rate(self.rate, desired);
    }

    /// Advances past the whole input frames that the interpolator has left behind.
    /// True if a frame of lookahead, to interpolate towards, is there.
    fn advance(&mut self) -> (more: bool)
        requires
            old(self)@.wf(),
        ensures
            more == !old(self)@.dry_at(0),
            final(self)@.sized(),
            more ==> final(self)@ == (JitterModel {
                frac: old(self)@.cursor(0).carried().frac,
                ..old(self)@.skipped(old(self)@.cursor(0).carried().consumed)
            }),
            !more ==> final(self)@ == (JitterModel {
                frac: final(self)@.frac,
                ..old(self)@.skipped(old(self)@.fill())
            }),
    {
        let ghost start = self@;
        let ghost ch = self@.channels as int;
        let ghost mut n: int = 0;
        proof {
            lemma_whole_queue(start);
            assert(start.queue.skip(0) =~= start.queue);
            assert(start.skipped(0) =~= start);
        }
        while self.frac >= ONE
            invariant
                0 <= n <= start.fill(),
                ch == start.channels,
                ch >= 1,
                start.wf(),
                start == old(self)@,
                start.queue.len() == start.fill() * ch,
                self.frac + n * ONE == start.frac,
                self@ == (JitterModel { frac: self@.frac, ..start.skipped(n as nat) }),
            decreases self.frac,
        {
            proof {
                lemma_skipped_len(start, n as nat);
            }
            if self.queue.len() < self.channels {
                proof {
                    lemma_no_frame_left(start, n as nat);
                    lemma_fundamental_div_mod(start.frac as int, ONE as int);
                }
                return false;
            }
            proof {
                lemma_one_more(start, n as nat);
                lemma_frame_fits(n, start.fill() as int, ch);
            }
            self.shift();
            self.frac = self.frac - ONE;
            proof {
                n = n + 1;
            }
        }
        proof {
            lemma_fundamental_div_mod_converse(
                start.frac as int,
                ONE as int,
                n,
                self.frac as int,
            );
            lemma_skipped_len(start, n as nat);
        }
        if self.queue.len() < self.channels {
            proof {
                lemma_no_frame_left(start, n as nat);
            }
            return false;
        }
        proof {
            lemma_one_more(start, n as nat);
        }
        true
    }

    /// Takes one frame off the queue as the interpolator's last input.
    fn shift(&mut self)
        requires
            old(self)@.prev.len() == old(self)@.channels,
            old(self)@.queue.len() >= old(self)@.channels,
        ensures
            final(self)@ == (JitterModel {
                queue: old(self)@.queue.skip(old(self)@.channels as int),
                prev: old(self)@.queue.take(old(self)@.channels as int),
                ..old(self)@
            }),
    {
        let ghost queue = self.queue@;
        let mut c: usize = 0;
        while c < self.channels
            invariant
                c <= self.channels,
                queue == old(self)@.queue,
                self.channels <= queue.len(),
                self.prev@.len() == self.channels,
                self@ == (JitterModel {
                    queue: queue.skip(c as int),
                    prev: self.prev@,
                    ..old(self)@
                }),
                forall|j: int| 0 <= j < c ==> self.prev@[j] == queue[j],
            decreases self.channels - c,
        {
            match self.queue.pop_front() {
                Some(sample) => {
                    self.prev[c] = sample;
                },
                None => {},
            }
            c = c + 1;
            assert(self.queue@ =~= queue.skip(c as int));
        }
        assert(self.prev@ =~= queue.take(self.channels as int));
    }

    /// Ran dry mid-pull: fade the last frame out over the remainder and go back
    /// to warming up so the next pull does not stutter one frame at a time.
    fn underrun(&mut self, out: &mut [i16], from: usize)
        requires
            old(self)@.channels >= 1,
            old(self)@.prev.len() == old(self)@.channels,
            from * old(self)@.channels <= old(out)@.len(),
            old(self)@.sized(),
        ensures
            final(self)@ == old(self)@.drained(),
            final(self)@.wf(),
            final(out)@.len() == old(out)@.len(),
            forall|j: int|
                0 <= j < from * old(self)@.channels ==> final(out)@[j] == old(out)@[j],
            forall|j: int|
                from * old(self)@.channels <= j < old(out)@.len() ==> final(out)@[j]
                    == resampler::faded(
                    old(self)@.prev[j % old(self)@.channels as int],
                    (j / old(self)@.channels as int - from) as nat,
                ),
    {
        self.stats.underruns = self.stats.underruns.wrapping_add(1);
        let ghost ch = self@.channels as int;
        let len: usize = out.len();
        assert(out@.len() == len);
        proof {
            lemma_mul_nonnegative(from as int, ch);
        }
        let mut j: usize = from * self.channels;
        let mut i: usize = 0;
        let mut c: usize = 0;
        let mut gain: u64 = resampler::fade_out(0);
        while j < len
            invariant
                ch == self.channels,
                ch >= 1,
                c < ch,
                out@.len() == len,
                j as int == (from + i) * ch + c,
                i <= j,
                from * ch <= j <= out@.len(),
                out@.len() == old(out)@.len(),
                gain as nat == resampler::gain(i as nat),
                gain <= ONE,
                self.prev@.len() == ch,
                self.prev@ == old(self)@.prev,
                forall|k: int| 0 <= k < from * ch ==> out@[k] == old(out)@[k],
                forall|k: int|
                    from * ch <= k < j ==> out@[k] == resampler::faded(
                        self.prev@[k % ch],
                        (k / ch - from) as nat,
                    ),
            decreases out@.len() - j,
        {
            proof {
                lemma_frame_index(from + i, c as int, ch);
                resampler::lemma_faded(self.prev@[c as int], i as nat);
            }
            out[j] = resampler::scale(self.prev[c], gain);
            j = j + 1;
            c = c + 1;
            if c == self.channels {
                proof {
                    assert((from + i) * ch + ch == (from + i + 1) * ch) by (nonlinear_arith);
                    assert(i + 1 <= (from + i + 1) * ch) by (nonlinear_arith)
                        requires
                            ch >= 1,
                            from >= 0,
                            i >= 0,
                    ;
                }
                c = 0;
                i = i + 1;
                gain = resampler::fade_out(i as u64);
            }
        }
        self.queue.clear();
        self.silence_prev();
        self.frac = 0;
        self.warming = true;
        proof {
            assert(0nat % self@.channels == 0);
            assert(0nat / self@.channels == 0);
            assert(self@ =~= old(self)@.drained());
        }
    }
}

/// Writes silence.
fn silence_all(out: &mut [i16])
    ensures
        final(out)@ == silence(old(out)@.len()),
{
    let mut j: usize = 0;
    while j < out.len()
        invariant
            j <= out@.len(),
            out@.len() == old(out)@.len(),
            forall|k: int| 0 <= k < j ==> out@[k] == 0,
        decreases out@.len() - j,
    {
        out[j] = 0;
        j = j + 1;
    }
    assert(out@ =~= silence(old(out)@.len()));
}

/// A queue of whole frames has `fill` of them.
pub proof fn lemma_whole_queue(m: JitterModel)
    requires
        m.sized(),
    ensures
        m.queue.len() == m.fill() * m.channels,
{
    lemma_fundamental_div_mod(m.queue.len() as int, m.channels as int);
    lemma_mul_is_commutative(m.channels as int, m.fill() as int);
}

/// What is left of the queue, in samples and in frames.
pub proof fn lemma_skipped_len(m: JitterModel, n: nat)
    requires
        m.sized(),
        n <= m.fill(),
    ensures
        0 <= n * m.channels <= m.queue.len(),
        m.skipped(n).queue.len() == (m.fill() - n) * m.channels,
        m.skipped(n).prev.len() == m.channels,
        m.skipped(n).fill() == m.fill() - n,
        m.skipped(n).sized(),
{
    let ch = m.channels as int;
    let left = m.fill() - n;
    lemma_whole_queue(m);
    assert(0 <= n * ch && m.fill() * ch - n * ch == left * ch && left * ch >= 0)
        by (nonlinear_arith)
        requires
            n >= 0,
            ch >= 1,
            left == m.fill() - n,
            left >= 0,
    ;
    lemma_mod_multiples_basic(left, ch);
    lemma_div_multiples_vanish(left, ch);
    lemma_mul_is_commutative(ch, left);
    if n > 0 {
        lemma_frame_fits(n - 1, n as int, ch);
    }
}

/// Nothing shorter than a frame is left.
proof fn lemma_no_frame_left(m: JitterModel, n: nat)
    requires
        m.sized(),
        n <= m.fill(),
        m.skipped(n).queue.len() < m.channels,
    ensures
        n == m.fill(),
{
    lemma_skipped_len(m, n);
    let ch = m.channels as int;
    let left = m.fill() - n;
    assert(left == 0) by (nonlinear_arith)
        requires
            left >= 0,
            left * ch < ch,
            ch >= 1,
    ;
}

/// One frame off what is left.
proof fn lemma_one_more(m: JitterModel, n: nat)
    requires
        m.sized(),
        n <= m.fill(),
        m.skipped(n).queue.len() >= m.channels,
    ensures
        n < m.fill(),
        m.skipped(n).queue.skip(m.channels as int) == m.skipped(n + 1).queue,
        m.skipped(n).queue.take(m.channels as int) == m.skipped(n + 1).prev,
{
    let ch = m.channels as int;
    lemma_skipped_len(m, n);
    if n == m.fill() {
        assert(0 * ch == 0);
    }
    lemma_skipped_len(m, n + 1);
    lemma_frame_fits(n as int, (n + 1) as int, ch);
    assert(m.skipped(n).queue.skip(ch) =~= m.skipped(n + 1).queue);
    assert(m.skipped(n).queue.take(ch) =~= m.skipped(n + 1).prev);
}

/// Skipping frames in two steps.
proof fn lemma_skipped_twice(m: JitterModel, a: nat, b: nat)
    requires
        m.sized(),
        a + b <= m.fill(),
    ensures
        m.skipped(a).skipped(b) == m.skipped(a + b),
{
    let ch = m.channels as int;
    lemma_skipped_len(m, a);
    lemma_skipped_len(m.skipped(a), b);
    lemma_skipped_len(m, a + b);
    assert(a * ch + b * ch == (a + b) * ch) by (nonlinear_arith);
    assert(m.skipped(a).skipped(b).queue =~= m.skipped(a + b).queue);
    if b > 0 {
        assert(a * ch + (b - 1) * ch == (a + b - 1) * ch) by (nonlinear_arith);
        lemma_frame_fits(b - 1, b as int, ch);
        assert(m.skipped(a).input_frame(b) =~= m.input_frame(a + b));
    }
}

/// Playback starts at the head of the queue.
pub proof fn lemma_at_start(m: JitterModel)
    requires
        m.wf(),
    ensures
        m == m.advanced(0),
        m.produced(0) == 0,
        m.cursor(0).consumed <= m.fill(),
        m.cursor(0).frac <= 3 * ONE,
{
    assert(0 * m.channels == 0);
    assert(m.queue.skip(0) =~= m.queue);
    assert(m =~= m.advanced(0));
}

/// A buffer that has not run dry is sound after any number of frames.
proof fn lemma_advanced(m: JitterModel, f: nat)
    requires
        m.wf(),
        m.cursor(f).consumed <= m.fill(),
        m.cursor(f).frac <= 3 * ONE,
    ensures
        m.advanced(f).wf(),
        m.advanced(f).fill() == m.fill() - m.cursor(f).consumed,
        m.advanced(f).dry_at(0) == m.dry_at(f),
{
    lemma_skipped_len(m, m.cursor(f).consumed);
}

/// The state in which output frame `f` is interpolated.
proof fn lemma_carried(m: JitterModel, f: nat)
    requires
        m.wf(),
        m.cursor(f).consumed <= m.fill(),
        m.cursor(f).frac <= 3 * ONE,
        !m.dry_at(f),
    ensures
        m.advanced(f).skipped(m.advanced(f).cursor(0).carried().consumed) == (JitterModel {
            frac: m.cursor(f).frac,
            ..m.skipped(m.cursor(f).carried().consumed)
        }),
        m.skipped(m.cursor(f).carried().consumed).queue.len() >= m.channels,
        forall|c: int|
            0 <= c < m.channels ==> #[trigger] m.skipped(m.cursor(f).carried().consumed).queue[c]
                == m.input_frame(m.cursor(f).carried().consumed + 1)[c],
        m.skipped(m.cursor(f).carried().consumed).prev.len() == m.channels,
{
    let at = m.cursor(f);
    let more = at.frac / ONE as nat;
    lemma_skipped_twice(m, at.consumed, more);
    lemma_skipped_len(m, at.consumed + more);
    let n = at.consumed + more;
    let ch = m.channels as int;
    lemma_frame_fits(0, m.fill() - n, ch);
    lemma_frame_fits(n as int, m.fill() as int, ch);
    lemma_whole_queue(m);
}

/// Once dry, no more frames are produced.
proof fn lemma_produced_stays(m: JitterModel, f: nat, n: nat)
    requires
        m.produced(f) == f,
        m.dry_at(f),
        f < n,
    ensures
        m.produced(n) == f,
    decreases n,
{
    if f + 1 < n {
        lemma_produced_stays(m, f, (n - 1) as nat);
    }
}

/// The whole frames of `len` samples.
pub proof fn lemma_whole_frames(len: int, ch: int)
    requires
        len >= 0,
        ch >= 1,
    ensures
        (len - len % ch) % ch == 0,
        0 <= len - len % ch <= len,
{
    lemma_fundamental_div_mod(len, ch);
    lemma_mod_multiples_basic(len / ch, ch);
    lemma_mul_is_commutative(ch, len / ch);
    lemma_mod_bound(len, ch);
    lemma_mul_nonnegative(ch, len / ch);
}

/// Whole frames behind whole frames.
proof fn lemma_frames_sum(a: int, b: int, ch: int)
    requires
        ch >= 1,
        a % ch == 0,
        b % ch == 0,
    ensures
        (a + b) % ch == 0,
{
    lemma_add_mod_noop(a, b, ch);
    lemma_small_mod(0, ch as nat);
}

/// Frame `i` of `n` lies within the samples of `n` frames.
pub proof fn lemma_frame_fits(i: int, n: int, ch: int)
    requires
        0 <= i < n,
        ch >= 1,
    ensures
        0 <= i * ch,
        i * ch + ch == (i + 1) * ch,
        i * ch + ch <= n * ch,
{
    assert(0 <= i * ch && i * ch + ch == (i + 1) * ch && (i + 1) * ch <= n * ch)
        by (nonlinear_arith)
        requires
            0 <= i < n,
            ch >= 1,
    ;
}

/// Which frame and channel a sample belongs to.
pub proof fn lemma_frame_index(i: int, c: int, ch: int)
    requires
        0 <= c < ch,
    ensures
        (i * ch + c) / ch == i,
        (i * ch + c) % ch == c,
{
    lemma_fundamental_div_mod_converse(i * ch + c, ch, i, c);
}

} // verus!
