use audiobridge::rounding::ONE;
use audiobridge::JitterBuffer;

const MAX_RATE_DEVIATION: f64 = 0.004;

fn ramp(start: i16, len: usize) -> Vec<i16> {
    (0..len).map(|i| start.wrapping_add(i as i16)).collect()
}

/// 48 kHz mono, 10 ms packets (480 frames), 30 ms target (1440 frames).
fn mono() -> JitterBuffer {
    JitterBuffer::new(1, 48_000, 10, 30)
}

/// The playback rate as a fraction.
fn rate_of(jb: &JitterBuffer) -> f64 {
    jb.rate() as f64 / ONE as f64
}

#[test]
fn silence_until_warmed_up() {
    let mut jb = mono();
    let mut out = vec![7i16; 480];
    jb.pull(&mut out);
    assert!(out.iter().all(|&s| s == 0), "must not play before prefill");

    for seq in 0..2 {
        jb.push(seq, &ramp(0, 480));
    }
    let mut out = vec![7i16; 480];
    jb.pull(&mut out);
    assert!(
        out.iter().all(|&s| s == 0),
        "960 frames is still below the 1440 target"
    );
}

#[test]
fn passes_audio_through_once_warm() {
    let mut jb = mono();
    let mut sent = Vec::new();
    for seq in 0..4 {
        let pkt = ramp((seq * 480) as i16, 480);
        sent.extend_from_slice(&pkt);
        jb.push(seq, &pkt);
    }

    let mut out = vec![0i16; 480];
    jb.pull(&mut out);
    // The interpolator holds one frame back, so output lags input by one
    // sample and starts from its zeroed history.
    assert_eq!(out[0], 0);
    assert_eq!(&out[1..], &sent[..479]);
    assert_eq!(jb.stats().underruns, 0);
}

#[test]
fn counts_loss_and_conceals_the_gap() {
    let mut jb = mono();
    jb.push(0, &ramp(0, 480));
    jb.push(1, &ramp(100, 480));
    jb.push(4, &ramp(200, 480)); // packets 2 and 3 never arrived

    let s = jb.stats();
    assert_eq!(s.lost, 2);
    assert_eq!(s.accepted, 3);
    // Three real packets plus two concealed ones.
    assert_eq!(jb.fill_frames(), 480 * 5);
}

#[test]
fn drops_late_and_duplicate_packets() {
    let mut jb = mono();
    jb.push(0, &ramp(0, 480));
    jb.push(1, &ramp(0, 480));
    jb.push(1, &ramp(0, 480)); // duplicate
    jb.push(0, &ramp(0, 480)); // reordered, already past

    assert_eq!(jb.stats().late, 2);
    assert_eq!(jb.stats().accepted, 2);
    assert_eq!(jb.fill_frames(), 960);
}

#[test]
fn sequence_wraparound_is_not_loss() {
    let mut jb = mono();
    jb.push(u32::MAX - 1, &ramp(0, 480));
    jb.push(u32::MAX, &ramp(0, 480));
    jb.push(0, &ramp(0, 480));
    jb.push(1, &ramp(0, 480));

    let s = jb.stats();
    assert_eq!(s.lost, 0, "wrapping past u32::MAX is a normal +1 step");
    assert_eq!(s.late, 0);
    assert_eq!(s.resyncs, 0);
    assert_eq!(s.accepted, 4);
}

#[test]
fn huge_jump_resyncs_instead_of_concealing() {
    let mut jb = mono();
    jb.push(0, &ramp(0, 480));
    jb.push(10_000, &ramp(0, 480));

    assert_eq!(jb.stats().resyncs, 1);
    assert_eq!(
        jb.fill_frames(),
        480,
        "buffer restarted from the new packet"
    );
}

#[test]
fn caps_the_buffer_when_the_sender_runs_ahead() {
    let mut jb = mono();
    for seq in 0..100 {
        jb.push(seq, &ramp(0, 480));
    }
    assert!(jb.stats().overruns > 0);
    assert!(
        jb.fill_frames() <= jb.target_frames() * 4,
        "fill {} exceeded the cap",
        jb.fill_frames()
    );
}

#[test]
fn underrun_fades_out_and_rewarms() {
    let mut jb = mono();
    for seq in 0..4 {
        jb.push(seq, &vec![10_000i16; 480]);
    }
    let mut out = vec![0i16; 480 * 5];
    jb.pull(&mut out); // asks for more than the 1920 buffered frames

    assert_eq!(jb.stats().underruns, 1);
    assert_eq!(
        *out.last().unwrap(),
        0,
        "tail must fade to silence, not click"
    );

    // Back to warming: the next pull is silent until the buffer refills.
    let mut out = vec![7i16; 480];
    jb.pull(&mut out);
    assert!(out.iter().all(|&s| s == 0));
}

/// A sender whose clock runs 0.2 % fast must not overflow the buffer: the
/// rate controller should speed the reader up to match.
#[test]
fn tracks_a_fast_sender_without_overrunning() {
    let mut jb = mono();
    let mut seq = 0u32;
    let mut out = vec![0i16; 480];
    let mut pending = 0.0f64;

    for _ in 0..3000 {
        // 480.96 frames produced per 480-frame pull.
        pending += 480.96;
        while pending >= 480.0 {
            jb.push(seq, &vec![0i16; 480]);
            seq = seq.wrapping_add(1);
            pending -= 480.0;
        }
        jb.pull(&mut out);
    }

    let s = jb.stats();
    assert_eq!(s.overruns, 0, "rate control should have absorbed the drift");
    assert_eq!(s.underruns, 0);
    assert!(
        rate_of(&jb) > 1.0,
        "reader must run fast to keep up, got {}",
        rate_of(&jb)
    );
    assert!(rate_of(&jb) <= 1.0 + MAX_RATE_DEVIATION + 1e-9);
}

/// The mirror image: a sender 0.2 % slow must not starve the reader.
#[test]
fn tracks_a_slow_sender_without_underrunning() {
    let mut jb = mono();
    let mut seq = 0u32;
    let mut out = vec![0i16; 480];
    let mut pending = 0.0f64;

    // Prefill so the first pulls are not warming-silence.
    for _ in 0..4 {
        jb.push(seq, &vec![0i16; 480]);
        seq = seq.wrapping_add(1);
    }

    for _ in 0..3000 {
        pending += 479.04;
        while pending >= 480.0 {
            jb.push(seq, &vec![0i16; 480]);
            seq = seq.wrapping_add(1);
            pending -= 480.0;
        }
        jb.pull(&mut out);
    }

    let s = jb.stats();
    assert_eq!(
        s.underruns, 0,
        "rate control should have absorbed the drift"
    );
    assert!(
        rate_of(&jb) < 1.0,
        "reader must run slow to keep up, got {}",
        rate_of(&jb)
    );
    assert!(rate_of(&jb) >= 1.0 - MAX_RATE_DEVIATION - 1e-9);
}

#[test]
fn stereo_frames_stay_aligned() {
    let mut jb = JitterBuffer::new(2, 48_000, 10, 30);
    // Left channel is +1000, right is -1000, forever.
    for seq in 0..8 {
        let pkt: Vec<i16> = (0..960)
            .map(|i| if i % 2 == 0 { 1000 } else { -1000 })
            .collect();
        jb.push(seq, &pkt);
    }
    let mut out = vec![0i16; 960];
    jb.pull(&mut out);
    // Skip the first frame, which interpolates out of zeroed history.
    for chunk in out[2..].chunks_exact(2) {
        assert_eq!(chunk[0], 1000);
        assert_eq!(chunk[1], -1000);
    }
}

#[test]
fn partial_trailing_frame_is_ignored() {
    let mut jb = JitterBuffer::new(2, 48_000, 10, 30);
    jb.push(0, &[1, 2, 3]); // one and a half stereo frames
    assert_eq!(jb.fill_frames(), 1);
}

#[test]
fn dimensions_follow_the_format() {
    let jb = mono();
    assert_eq!(jb.target_frames(), 1440);
    assert_eq!(jb.fill_frames(), 0);
    assert_eq!(jb.rate(), ONE);
    // Less than two packets of latency is rounded up to two.
    assert_eq!(JitterBuffer::new(1, 48_000, 20, 1).target_frames(), 1920);
    // A packet too short for a frame still counts as one.
    assert_eq!(JitterBuffer::new(1, 100, 1, 0).target_frames(), 2);
    assert!(JitterBuffer::fits(2, 96_000, 20, 1000));
    assert!(!JitterBuffer::fits(0, 48_000, 10, 40));
    assert!(!JitterBuffer::fits(usize::MAX, u32::MAX, 255, u32::MAX));
}

#[test]
fn concealment_fades_the_last_frame() {
    let mut jb = JitterBuffer::new(1, 48_000, 10, 40);
    jb.push(0, &vec![12_000i16; 960]);
    jb.push(2, &vec![1i16; 480]); // packet 1 is missing
    assert_eq!(jb.fill_frames(), 1920); // on target: plays at rate 1
    let mut out = vec![0i16; 1920];
    jb.pull(&mut out);
    assert!(out[1..961].iter().all(|&s| s == 12_000));
    let fade = &out[961..1441];
    assert_eq!(fade[0], 12_000);
    assert_eq!(fade[1], 11_950);
    assert_eq!(fade[120], 6_000);
    assert_eq!(fade[239], 50);
    assert!(fade[240..].iter().all(|&s| s == 0));
    assert!(out[1441..].iter().all(|&s| s == 1));
}

#[test]
fn trimming_keeps_the_newest_audio() {
    let mut jb = mono();
    let packets: Vec<i16> = ramp(0, 5761);
    jb.push(0, &packets); // one frame past the cap of 5760
    assert_eq!(jb.fill_frames(), 1440);
    assert_eq!(jb.stats().overruns, 4321);
    let mut out = vec![0i16; 1440];
    jb.pull(&mut out);
    assert_eq!(out[0], 0);
    assert_eq!(&out[1..], &packets[4321..5760]);
}

#[test]
fn a_full_buffer_on_target_plays_unchanged() {
    let mut jb = JitterBuffer::new(2, 48_000, 10, 20);
    let pcm: Vec<i16> = (0..1920).map(|i| (i * 17 - 9000) as i16).collect();
    jb.push(7, &pcm);
    let mut out = vec![5i16; 1920];
    jb.pull(&mut out);
    assert_eq!(&out[..2], &[0, 0]);
    assert_eq!(&out[2..], &pcm[..1918]);
    assert_eq!(jb.rate(), ONE);
    assert_eq!(jb.stats().underruns, 0);
}

#[test]
fn the_largest_gap_is_concealed_and_one_more_is_not() {
    let mut jb = JitterBuffer::new(1, 48_000, 5, 2000);
    jb.push(0, &vec![100i16; 240]);
    jb.push(51, &vec![100i16; 240]);
    assert_eq!(jb.stats().lost, 50);
    assert_eq!(jb.stats().resyncs, 0);
    assert_eq!(jb.fill_frames(), 240 * 52);
    jb.push(103, &vec![100i16; 240]);
    assert_eq!(jb.stats().lost, 50);
    assert_eq!(jb.stats().resyncs, 1);
    assert_eq!(jb.fill_frames(), 240);
}

#[test]
fn half_the_sequence_space_counts_as_behind() {
    let mut jb = mono();
    jb.push(9, &ramp(0, 480)); // expects 10
    jb.push(10u32.wrapping_add(0x8000_0000), &ramp(0, 480));
    assert_eq!(jb.stats().late, 1);
    jb.push(10u32.wrapping_add(0x7fff_ffff), &ramp(0, 480));
    assert_eq!(jb.stats().resyncs, 1);
}

#[test]
fn a_reset_forgets_everything_but_the_counters() {
    let mut jb = mono();
    for seq in 0..4 {
        jb.push(seq, &ramp(0, 480));
    }
    let stats = jb.stats();
    jb.reset();
    assert_eq!(jb.fill_frames(), 0);
    assert_eq!(jb.stats(), stats);
    assert_eq!(jb.rate(), ONE);
    // Any sequence number starts the stream anew.
    jb.push(1_000_000, &ramp(0, 480));
    assert_eq!(jb.stats().lost, 0);
    assert_eq!(jb.fill_frames(), 480);
}

#[test]
fn nothing_of_the_old_contents_is_left() {
    for packets in [0u32, 2, 3, 6] {
        let mut a = mono();
        let mut b = mono();
        for seq in 0..packets {
            a.push(seq, &ramp(500, 480));
            b.push(seq, &ramp(500, 480));
        }
        let mut x = vec![i16::MIN; 2000];
        let mut y = vec![i16::MAX; 2000];
        a.pull(&mut x);
        b.pull(&mut y);
        assert_eq!(x, y);
    }
}

#[test]
fn one_channel_does_not_hear_the_other() {
    let mut a = JitterBuffer::new(2, 48_000, 10, 20);
    let mut b = JitterBuffer::new(2, 48_000, 10, 20);
    for seq in [0u32, 1, 2, 4, 5] {
        let left = |i: usize| ((i * 13 + seq as usize * 101) % 4000) as i16;
        let p: Vec<i16> = (0..960).map(|i| if i % 2 == 0 { left(i) } else { 0 }).collect();
        let q: Vec<i16> = (0..960).map(|i| if i % 2 == 0 { left(i) } else { -7777 }).collect();
        a.push(seq, &p);
        b.push(seq, &q);
    }
    let mut x = vec![0i16; 2 * 4000];
    let mut y = vec![0i16; 2 * 4000];
    a.pull(&mut x);
    b.pull(&mut y);
    assert_eq!(a.stats().underruns, 1);
    for k in (0..x.len()).step_by(2) {
        assert_eq!(x[k], y[k]);
    }
    assert!(x != y);
}

#[test]
fn every_counter_counts() {
    let mut jb = mono();
    jb.push(5, &ramp(0, 480));
    jb.push(4, &ramp(0, 480)); // late
    jb.push(8, &ramp(0, 480)); // two lost
    jb.push(200, &ramp(0, 480)); // a jump
    jb.push(201, &vec![0; 480 * 12]); // past the cap
    let mut out = vec![0i16; 480 * 10];
    jb.pull(&mut out); // dry
    let s = jb.stats();
    assert_eq!(
        (s.accepted, s.late, s.lost, s.resyncs, s.overruns, s.underruns),
        (4, 1, 2, 1, 480 * 13 - 1440, 1)
    );
}
