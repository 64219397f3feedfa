//! The integer arithmetic of the jitter buffer against the same steps in floating
//! point, bit for bit.

use audiobridge::resampler::{
    fade_out, mix, scale, smooth_rate, wanted_rate, FADE_FRAMES, MAX_RATE, MIN_RATE,
};
use audiobridge::rounding::ONE;
use audiobridge::JitterBuffer;
use std::collections::VecDeque;

fn ticks(x: f64) -> u64 {
    (x * ONE as f64) as u64
}

struct Noise(u64);

impl Noise {
    fn next(&mut self) -> u64 {
        self.0 ^= self.0 << 13;
        self.0 ^= self.0 >> 7;
        self.0 ^= self.0 << 17;
        self.0
    }

    fn below(&mut self, n: u64) -> u64 {
        self.next() % n
    }
}

struct Reference {
    channels: usize,
    frames_per_packet: usize,
    target: usize,
    max: usize,
    queue: VecDeque<i16>,
    prev: Vec<i16>,
    frac: f64,
    rate: f64,
    warming: bool,
    expected: Option<u32>,
}

fn gain_of(i: usize) -> f64 {
    if i >= 240 {
        0.0
    } else {
        1.0 - (i as f64 / 240.0)
    }
}

fn scaled_by(s: i16, gain: f64) -> i16 {
    (s as f64 * gain).round() as i16
}

impl Reference {
    fn new(channels: usize, rate_hz: usize, frame_ms: usize, target_ms: usize) -> Self {
        let frames_per_packet = (rate_hz * frame_ms / 1000).max(1);
        let target = (rate_hz * target_ms / 1000).max(2 * frames_per_packet);
        Reference {
            channels,
            frames_per_packet,
            target,
            max: 4 * target,
            queue: VecDeque::new(),
            prev: vec![0; channels],
            frac: 0.0,
            rate: 1.0,
            warming: true,
            expected: None,
        }
    }

    fn fill(&self) -> usize {
        self.queue.len() / self.channels
    }

    fn push(&mut self, seq: u32, samples: &[i16]) {
        if let Some(expected) = self.expected {
            let delta = seq.wrapping_sub(expected) as i32;
            if delta < 0 {
                return;
            }
            if delta > 50 {
                self.queue.clear();
                self.prev = vec![0; self.channels];
                self.frac = 0.0;
                self.rate = 1.0;
                self.warming = true;
            } else if delta > 0 {
                let base: Vec<i16> = if self.queue.len() >= self.channels {
                    let from = self.queue.len() - self.channels;
                    self.queue.iter().skip(from).copied().collect()
                } else {
                    self.prev.clone()
                };
                for i in 0..delta as usize * self.frames_per_packet {
                    for &s in &base {
                        self.queue.push_back(scaled_by(s, gain_of(i)));
                    }
                }
            }
        }
        self.expected = Some(seq.wrapping_add(1));
        let usable = samples.len() - samples.len() % self.channels;
        self.queue.extend(&samples[..usable]);
        if self.fill() > self.max {
            let drop = (self.fill() - self.target) * self.channels;
            self.queue.drain(..drop);
        }
    }

    fn pull(&mut self, out: &mut [i16]) {
        if self.warming {
            if self.fill() < self.target {
                out.iter_mut().for_each(|s| *s = 0);
                return;
            }
            self.warming = false;
            self.frac = 0.0;
            self.rate = 1.0;
        }
        let target = self.target as f64;
        let error = (self.fill() as f64 - target) / target;
        let desired = (1.0 + error * 0.01).clamp(1.0 - 0.004, 1.0 + 0.004);
        self.rate += (desired - self.rate) * 0.02;
        for f in 0..out.len() / self.channels {
            let mut dry = false;
            while self.frac >= 1.0 {
                if self.queue.len() < self.channels {
                    dry = true;
                    break;
                }
                for c in 0..self.channels {
                    self.prev[c] = self.queue.pop_front().unwrap();
                }
                self.frac -= 1.0;
            }
            if dry || self.queue.len() < self.channels {
                let base = self.prev.clone();
                let rest = &mut out[f * self.channels..];
                for (i, chunk) in rest.chunks_mut(self.channels).enumerate() {
                    for (c, slot) in chunk.iter_mut().enumerate() {
                        *slot = scaled_by(base[c], gain_of(i));
                    }
                }
                self.queue.clear();
                self.prev = vec![0; self.channels];
                self.frac = 0.0;
                self.warming = true;
                return;
            }
            let t = self.frac;
            for c in 0..self.channels {
                let a = self.prev[c] as f64;
                let b = self.queue[c] as f64;
                out[f * self.channels + c] = (a + (b - a) * t).round() as i16;
            }
            self.frac += self.rate;
        }
    }
}

#[test]
fn fades_agree_with_floating_point() {
    for i in 0..300u64 {
        assert_eq!(fade_out(i), ticks(gain_of(i as usize)));
    }
    assert_eq!(fade_out(0), ONE);
    assert_eq!(fade_out(FADE_FRAMES), 0);
    for i in 0..240u64 {
        for s in [i16::MIN, -32767, -12345, -1, 0, 1, 2, 999, 20001, i16::MAX] {
            assert_eq!(scale(s, fade_out(i)), scaled_by(s, gain_of(i as usize)));
        }
    }
    assert_eq!(scale(10_000, fade_out(120)), 5_000);
}

#[test]
fn interpolation_agrees_with_floating_point() {
    let mut noise = Noise(0x1234_5678_9abc_def1);
    for _ in 0..200_000 {
        let a = noise.next() as i16;
        let b = noise.next() as i16;
        let t = (noise.next() >> 11) as f64 / ONE as f64;
        let want = (a as f64 + (b as f64 - a as f64) * t).round() as i16;
        assert_eq!(mix(a, b, ticks(t)), want);
    }
    assert_eq!(mix(-100, 100, ONE / 2), 0);
    assert_eq!(mix(i16::MIN, i16::MAX, ONE), i16::MAX);
}

#[test]
fn rates_agree_with_floating_point() {
    let mut noise = Noise(77);
    assert_eq!(MIN_RATE, ticks(1.0 - 0.004));
    assert_eq!(MAX_RATE, ticks(1.0 + 0.004));
    let mut rate = 1.0f64;
    let mut exact = ONE;
    for _ in 0..100_000 {
        let target = 1 + noise.below(200_000);
        let fill = noise.below(4 * target + 1);
        let error = (fill as f64 - target as f64) / target as f64;
        let desired = (1.0 + error * 0.01).clamp(1.0 - 0.004, 1.0 + 0.004);
        assert_eq!(wanted_rate(fill, target), ticks(desired));
        rate += (desired - rate) * 0.02;
        exact = smooth_rate(exact, wanted_rate(fill, target));
        assert_eq!(exact, ticks(rate));
    }
    assert_eq!(wanted_rate(1440, 1440), ONE);
    assert!(wanted_rate(1441, 1440) > ONE);
    assert!(wanted_rate(1439, 1440) < ONE);
    assert_eq!(wanted_rate(4 * 1440, 1440), MAX_RATE);
    assert_eq!(wanted_rate(0, 1440), MIN_RATE);
}

#[test]
fn whole_streams_agree_with_floating_point() {
    let mut noise = Noise(0xfeed_beef);
    for (channels, rate_hz, frame_ms, target_ms) in [
        (1usize, 48_000u32, 10u8, 30u32),
        (2, 48_000, 10, 40),
        (2, 44_100, 5, 20),
        (1, 8_000, 20, 60),
    ] {
        let mut jb = JitterBuffer::new(channels, rate_hz, frame_ms, target_ms);
        let mut reference = Reference::new(
            channels,
            rate_hz as usize,
            frame_ms as usize,
            target_ms as usize,
        );
        let per_packet = reference.frames_per_packet * channels;
        let mut seq = u32::MAX - 20;
        for step in 0..600 {
            for _ in 0..noise.below(3) {
                let pcm: Vec<i16> = (0..per_packet).map(|_| noise.next() as i16).collect();
                let jump = match noise.below(40) {
                    0 => 2,
                    1 => 3,
                    2 => 60,
                    3 => 0,
                    _ => 1,
                };
                seq = seq.wrapping_add(jump);
                jb.push(seq, &pcm);
                reference.push(seq, &pcm);
            }
            let n = per_packet + (step % 7) * channels;
            let mut got = vec![3i16; n];
            let mut want = vec![3i16; n];
            jb.pull(&mut got);
            reference.pull(&mut want);
            assert_eq!(got, want);
            assert_eq!(jb.rate(), ticks(reference.rate));
            assert_eq!(jb.fill_frames(), reference.fill());
        }
        assert!(jb.stats().lost > 0 && jb.stats().late > 0 && jb.stats().resyncs > 0);
    }
}

#[test]
fn the_rate_moves_in_small_steps() {
    let mut rate = MIN_RATE;
    let mut pulls = 0;
    while rate < ONE {
        let next = smooth_rate(rate, MAX_RATE);
        assert!(next > rate);
        assert!(50 * (next - rate) <= MAX_RATE - rate + 100);
        rate = next;
        pulls += 1;
    }
    // Half of the way takes 35 pulls at a fiftieth each.
    assert_eq!(pulls, 35);
    assert_eq!(smooth_rate(ONE, ONE), ONE);
}

#[test]
fn the_rate_wanted_grows_with_the_fill() {
    for target in [3u64, 1440, 96_000] {
        let mut last = MIN_RATE;
        for step in 0..=400u64 {
            let rate = wanted_rate(target * step / 100, target);
            assert!(rate >= last);
            last = rate;
        }
        assert_eq!(last, MAX_RATE);
    }
    // 41 % off target calls for all there is; 39 % does not yet.
    assert_eq!(wanted_rate(141_000, 100_000), MAX_RATE);
    assert_eq!(wanted_rate(59_000, 100_000), MIN_RATE);
    assert!(wanted_rate(139_000, 100_000) < MAX_RATE);
    assert!(wanted_rate(61_000, 100_000) > MIN_RATE);
}
