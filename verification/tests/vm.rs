use audiobridge::clock::NANOS_PER_MS;
use audiobridge::endpoint::Endpoint;
use audiobridge::reopen::Outage;
use audiobridge::pcm::{capture_block, next_block};
use audiobridge::vm::audio::{
    buffer_duration, endpoint_direction, list_devices, list_entry, next_step, slack_frames,
    CapturePacer, DeviceSearch, EndpointEvent, EndpointKind, EndpointStep, RenderWatch,
    MAX_EVENT_TIMEOUTS,
};
use audiobridge::vm::config::{CaptureMode, MicConfig, SpeakerConfig, VmConfig};
use audiobridge::vm::session::{
    mic_buffer, start_failure, start_steps, PendingStart, StartStep, VmAction, VmSession,
};
use audiobridge::vm::startup::{device_list, summary};
use audiobridge::{
    decode, encode_audio, DecodeError, Direction, Format, Incoming, JitterBuffer, Packet, Status,
};

const SECOND: u64 = 1000 * NANOS_PER_MS;
const HOST: Endpoint = Endpoint::V4 {
    octets: 0x0a00_0001,
    port: 4000,
};
const OTHER: Endpoint = Endpoint::V4 {
    octets: 0x0a00_0001,
    port: 4001,
};

fn minimal() -> VmConfig {
    VmConfig {
        listen: Endpoint::V4 {
            octets: 0,
            port: 17322,
        },
        token: String::new(),
        idle_timeout_ms: audiobridge::vm::config::default_idle_timeout(),
        mic: MicConfig {
            device: "CABLE Input (VB-Audio Virtual Cable)".to_string(),
            ..MicConfig::default()
        },
        speaker: SpeakerConfig::default(),
    }
}

#[test]
fn config_minimal_config_gets_sane_defaults() {
    let cfg = minimal();
    cfg.validate().unwrap();

    assert!(cfg.mic.enabled && cfg.speaker.enabled);
    assert_eq!(cfg.mic.buffer_ms, 40);
    assert_eq!(cfg.speaker.mode, CaptureMode::Loopback);
    assert_eq!(cfg.speaker.device(), None);
    assert_eq!(cfg.idle_timeout_ms, 5_000);
}

#[test]
fn config_rejects_a_bridge_with_both_directions_off() {
    let mut cfg = minimal();
    cfg.mic.enabled = false;
    cfg.speaker.enabled = false;
    let err = cfg.validate().unwrap_err();
    assert!(err.to_string().contains("nothing to bridge"));
}

#[test]
fn a_tiny_microphone_buffer_is_refused() {
    let mut cfg = minimal();
    cfg.mic.buffer_ms = 9;
    assert_eq!(
        cfg.validate().unwrap_err(),
        "[mic] buffer_ms of 9 is too small to absorb any jitter"
    );
    cfg.mic.enabled = false;
    assert!(cfg.validate().is_ok());
    assert!(!cfg.feeds_default_device());
    let mut cfg = minimal();
    assert!(!cfg.feeds_default_device());
    cfg.mic.device = String::new();
    assert!(cfg.feeds_default_device());
    cfg.mic.buffer_ms = 0;
    assert!(!cfg.feeds_default_device());
    assert_eq!(CaptureMode::default(), CaptureMode::Loopback);
}

fn agent() -> VmSession {
    let mut cfg = minimal();
    cfg.token = "s3cret".to_string();
    VmSession::new(&cfg)
}

fn hello(token: &[u8], session: u32, mic: Format) -> Vec<u8> {
    Packet::Hello {
        token: token.to_vec(),
        session,
        mic,
        speaker: Format::new(48_000, 2, 10),
    }
    .encode()
}

fn mono() -> Format {
    Format::new(48_000, 1, 10)
}

fn ack_of(data: &[u8]) -> (Status, u32, String) {
    match decode(data).unwrap() {
        Incoming::Control(Packet::HelloAck {
            status,
            session,
            message,
            ..
        }) => (status, session, message),
        other => panic!("expected a HelloAck, got {other:?}"),
    }
}

fn start(agent: &mut VmSession, now: u64, from: Endpoint, label: &str, id: u32) -> PendingStart {
    match agent.on_packet(now, from, label, &hello(b"s3cret", id, mono())) {
        VmAction::Start { start, .. } => start,
        other => panic!("expected a start, got {other:?}"),
    }
}

fn running() -> VmSession {
    let mut a = agent();
    let s = start(&mut a, SECOND, HOST, "10.0.0.1:4000", 7);
    let reply = a.on_started(SECOND, s);
    assert_eq!(
        ack_of(&reply),
        (
            Status::Okay,
            7,
            "mic -> CABLE Input (VB-Audio Virtual Cable), speaker <- Loopback:(default)"
                .to_string()
        )
    );
    a
}

#[test]
fn a_bad_token_gets_a_bare_refusal() {
    let mut a = agent();
    match a.on_packet(0, HOST, "h", &hello(b"guess", 3, mono())) {
        VmAction::BadToken(data) => {
            assert_eq!(ack_of(&data), (Status::AuthFailed, 3, String::new()))
        }
        other => panic!("expected a refusal, got {other:?}"),
    }
    assert!(!a.connected());
    // An agent with another token answers the same.
    let mut cfg = minimal();
    cfg.token = "something else".to_string();
    let mut b = VmSession::new(&cfg);
    let VmAction::BadToken(x) = a.on_packet(0, HOST, "h", &hello(b"guess", 3, mono())) else {
        panic!("expected a refusal");
    };
    let VmAction::BadToken(y) = b.on_packet(0, HOST, "h", &hello(b"guess", 3, mono())) else {
        panic!("expected a refusal");
    };
    assert_eq!(x, y);
}

#[test]
fn a_bad_format_is_named() {
    let mut a = agent();
    let bad = Format::new(48_000, 6, 10);
    match a.on_packet(0, HOST, "h", &hello(b"s3cret", 3, bad)) {
        VmAction::BadFormat(data) => assert_eq!(
            ack_of(&data),
            (
                Status::UnsupportedFormat,
                3,
                "mic: channels must be 1 or 2, got 6".to_string()
            )
        ),
        other => panic!("expected a refusal, got {other:?}"),
    }
    let p = Packet::Hello {
        token: b"s3cret".to_vec(),
        session: 3,
        mic: mono(),
        speaker: Format::new(1, 1, 10),
    };
    match a.on_packet(0, HOST, "h", &p.encode()) {
        VmAction::BadFormat(data) => {
            assert_eq!(ack_of(&data).2, "speaker: unsupported sample rate 1")
        }
        other => panic!("expected a refusal, got {other:?}"),
    }
}

#[test]
fn a_second_host_is_refused_while_the_first_is_alive() {
    let mut a = running();
    let late = SECOND + 5 * SECOND;
    match a.on_packet(late - 1, OTHER, "o", &hello(b"s3cret", 8, mono())) {
        VmAction::Busy(data) => assert_eq!(
            ack_of(&data),
            (Status::Busy, 8, "10.0.0.1:4000".to_string())
        ),
        other => panic!("expected a refusal, got {other:?}"),
    }
    match a.on_packet(late, OTHER, "o", &hello(b"s3cret", 8, mono())) {
        VmAction::Start { start, replaced } => {
            assert_eq!(replaced, Some(7));
            assert_eq!(start.peer, OTHER);
            assert_eq!(start.label, "o");
        }
        other => panic!("expected a start, got {other:?}"),
    }
    assert!(!a.connected());
}

#[test]
fn a_repeated_hello_is_only_acknowledged() {
    let mut a = running();
    match a.on_packet(2 * SECOND, HOST, "h", &hello(b"s3cret", 7, mono())) {
        VmAction::Welcome(data) => assert_eq!(ack_of(&data).0, Status::Okay),
        other => panic!("expected a welcome, got {other:?}"),
    }
    // The same, asked of the handler itself: the playback stream keeps its numbering.
    a.on_capture(&[1, 2]).unwrap();
    let again = PendingStart {
        id: 7,
        peer: HOST,
        label: "h".to_string(),
        mic: mono(),
        speaker: Format::new(48_000, 2, 10),
    };
    match a.handle_hello(2 * SECOND, again, b"s3cret".to_vec()) {
        VmAction::Welcome(data) => assert_eq!(ack_of(&data).0, Status::Okay),
        other => panic!("expected a welcome, got {other:?}"),
    }
    let mut want = Vec::new();
    encode_audio(&mut want, 7, Direction::Speaker, 1, 2, &[1, 2]);
    assert_eq!(a.on_capture(&[1, 2]).unwrap().data, want);
    assert_eq!(a.owner(), Some("10.0.0.1:4000"));
    // Another format is another session.
    let stereo = Format::new(48_000, 2, 10);
    match a.on_packet(2 * SECOND, HOST, "h", &hello(b"s3cret", 7, stereo)) {
        VmAction::Start { start, replaced } => {
            assert_eq!(start.mic, stereo);
            assert_eq!(replaced, Some(7));
        }
        other => panic!("expected a start, got {other:?}"),
    }
}

#[test]
fn a_failed_start_is_reported_to_the_host() {
    let mut a = agent();
    let s = start(&mut a, SECOND, HOST, "h", 7);
    let cause = start_failure(StartStep::Render, "no Render device matches \"x\"");
    assert_eq!(
        cause,
        "opening the virtual microphone feed: no Render device matches \"x\""
    );
    let reply = a.on_start_failed(&s, &cause);
    assert_eq!(ack_of(&reply), (Status::ServerError, 7, cause));
    assert!(!a.connected());
    assert_eq!(
        start_failure(StartStep::Capture, "x"),
        "opening playback capture: x"
    );
    let mut cfg = minimal();
    assert_eq!(
        start_steps(&cfg),
        vec![StartStep::Render, StartStep::Capture]
    );
    cfg.mic.enabled = false;
    assert_eq!(start_steps(&cfg), vec![StartStep::Capture]);
    assert!(mic_buffer(&cfg, &mono()).is_none());
    cfg.mic.enabled = true;
    assert_eq!(
        mic_buffer(&cfg, &mono()).unwrap().target_frames(),
        1920
    );
}

#[test]
fn microphone_packets_of_the_host_are_played() {
    let mut a = running();
    let mut data = Vec::new();
    encode_audio(&mut data, 7, Direction::Mic, 11, 1, &[5, -6]);
    match a.on_packet(2 * SECOND, HOST, "h", &data) {
        VmAction::Play { seq, samples } => {
            assert_eq!(seq, 11);
            assert_eq!(samples, vec![5, -6]);
        }
        other => panic!("expected audio to play, got {other:?}"),
    }
    assert_eq!(a.counters().mic_packets, 1);
    // Not from a stranger, not of another session, not the other way.
    assert!(matches!(
        a.on_packet(2 * SECOND, OTHER, "o", &data),
        VmAction::Ignore
    ));
    encode_audio(&mut data, 8, Direction::Mic, 11, 1, &[5, -6]);
    assert!(matches!(
        a.on_packet(2 * SECOND, HOST, "h", &data),
        VmAction::Ignore
    ));
    encode_audio(&mut data, 7, Direction::Speaker, 11, 1, &[5, -6]);
    assert!(matches!(
        a.on_packet(2 * SECOND, HOST, "h", &data),
        VmAction::Ignore
    ));
    assert_eq!(a.counters().mic_packets, 1);
    // Counted, but not played, where the microphone is off.
    let mut cfg = minimal();
    cfg.mic.enabled = false;
    let mut b = VmSession::new(&cfg);
    let VmAction::Start { start, .. } = b.on_packet(0, HOST, "h", &hello(b"", 7, mono())) else {
        panic!("expected a start");
    };
    let reply = b.on_started(0, start);
    assert_eq!(
        ack_of(&reply).2,
        "mic disabled, speaker <- Loopback:(default)"
    );
    encode_audio(&mut data, 7, Direction::Mic, 11, 1, &[5, -6]);
    assert!(matches!(b.on_packet(0, HOST, "h", &data), VmAction::Heard));
    assert_eq!(b.counters().mic_packets, 1);
}

#[test]
fn captured_playback_goes_to_the_host() {
    let mut a = agent();
    assert!(a.on_capture(&[1, 2]).is_none());
    let mut a = running();
    for seq in 0..3 {
        let out = a.on_capture(&[1, 2, 3, 4]).unwrap();
        assert_eq!(out.to, HOST);
        let mut want = Vec::new();
        encode_audio(&mut want, 7, Direction::Speaker, seq, 2, &[1, 2, 3, 4]);
        assert_eq!(out.data, want);
        a.on_sent(seq == 0);
    }
    assert_eq!(a.counters().speaker_packets, 1);
    assert_eq!(a.counters().speaker_dropped, 2);
}

#[test]
fn only_the_owner_is_heard() {
    let mut a = running();
    let ping = Packet::Ping {
        session: 7,
        nonce: 5,
    }
    .encode();
    assert!(matches!(
        a.on_packet(2 * SECOND, OTHER, "o", &ping),
        VmAction::Ignore
    ));
    match a.on_packet(2 * SECOND, HOST, "h", &ping) {
        VmAction::Pong(data) => assert_eq!(
            data,
            Packet::Pong {
                session: 7,
                nonce: 5
            }
            .encode()
        ),
        other => panic!("expected a pong, got {other:?}"),
    }
    let bye = Packet::Bye { session: 7 }.encode();
    assert!(matches!(
        a.on_packet(2 * SECOND, OTHER, "o", &bye),
        VmAction::Ignore
    ));
    assert!(matches!(
        a.on_packet(2 * SECOND, OTHER, "o", b"ABRG\x01"),
        VmAction::Malformed(DecodeError::TooShort)
    ));
    assert!(a.connected());
    assert!(matches!(
        a.on_packet(2 * SECOND, HOST, "h", &bye),
        VmAction::Closed
    ));
    assert!(!a.connected());
}

#[test]
fn a_quiet_host_is_swept_out() {
    let mut a = running(); // last heard at one second
    assert_eq!(a.on_sweep(6 * SECOND), None);
    let pong = Packet::Pong {
        session: 7,
        nonce: 0,
    }
    .encode();
    a.on_packet(6 * SECOND, HOST, "h", &pong);
    assert_eq!(a.on_sweep(11 * SECOND), None);
    assert_eq!(a.on_sweep(11 * SECOND + 1), Some(5 * SECOND + 1));
    assert!(!a.connected());
    assert_eq!(a.on_sweep(99 * SECOND), None);
    assert!(a.on_shutdown().is_none());
    let mut a = running();
    let out = a.on_shutdown().unwrap();
    assert_eq!(out.to, HOST);
    assert_eq!(out.data, Packet::Bye { session: 7 }.encode());
}

#[test]
fn endpoints_follow_the_capture_mode() {
    assert_eq!(
        endpoint_direction(CaptureMode::Loopback),
        EndpointKind::Render
    );
    assert_eq!(
        endpoint_direction(CaptureMode::Capture),
        EndpointKind::Capture
    );
    assert_eq!(
        list_devices().unwrap_err(),
        "audiobridge-vm can only open audio devices on Windows"
    );
}

#[test]
fn endpoint_buffers_have_slack() {
    assert_eq!(slack_frames(&mono(), EndpointKind::Render), 1440);
    assert_eq!(slack_frames(&mono(), EndpointKind::Capture), 1920);
    assert_eq!(buffer_duration(300_000, 100_000), 300_000);
    assert_eq!(buffer_duration(300_000, 400_000), 400_000);
}

#[test]
fn devices_are_found_by_name_or_part_of_it() {
    let names = [
        "CABLE Input (VB-Audio Virtual Cable)",
        "Speakers (High Definition Audio Device)",
        "CABLE-A Input (VB-Audio Cable A)",
    ];
    let search = |wanted: &str| {
        let mut s = DeviceSearch::new(wanted);
        for (i, name) in names.iter().enumerate() {
            if s.offer(name) {
                return Ok(i as u32);
            }
        }
        s.finish(EndpointKind::Render)
    };
    assert_eq!(search(names[2]), Ok(2));
    assert_eq!(search("cable input"), Ok(0));
    assert_eq!(search("SPEAKERS"), Ok(1));
    assert_eq!(
        search("vb-audio").unwrap_err(),
        "\"vb-audio\" matches several Render devices (CABLE Input (VB-Audio Virtual Cable), CABLE-A Input (VB-Audio Cable A)); use the full name"
    );
    assert_eq!(
        search("headset").unwrap_err(),
        "no Render device matches \"headset\". Available: CABLE Input (VB-Audio Virtual Cable), Speakers (High Definition Audio Device), CABLE-A Input (VB-Audio Cable A)"
    );
    // An exact name wins although it is part of another.
    let mut s = DeviceSearch::new("ab");
    assert!(!s.offer("xaby"));
    assert!(s.offer("ab"));
    // Beyond ASCII.
    let mut s = DeviceSearch::new("kopfhörer");
    assert!(!s.offer("MEINE KOPFHÖRER"));
    assert_eq!(s.finish(EndpointKind::Capture), Ok(0));
    assert_eq!(s.name(0), "MEINE KOPFHÖRER");
    // The lower-case forms alone decide.
    let mut s = DeviceSearch::new("whatever");
    assert!(!s.offer_lowered("name", "abc", "bc"));
    assert!(!s.offer_lowered("other", "abc", "cb"));
    assert_eq!(s.finish(EndpointKind::Capture), Ok(0));
    assert_eq!(
        DeviceSearch::new("x").finish(EndpointKind::Capture).unwrap_err(),
        "no Capture device matches \"x\". Available: "
    );
}

#[test]
fn a_dead_endpoint_is_noticed() {
    let mut w = RenderWatch::new();
    for _ in 0..MAX_EVENT_TIMEOUTS - 1 {
        assert!(!w.timed_out());
    }
    w.signalled();
    for _ in 0..MAX_EVENT_TIMEOUTS - 1 {
        assert!(!w.timed_out());
    }
    assert!(w.timed_out());
    assert_eq!(
        RenderWatch::obituary("CABLE Input"),
        "\"CABLE Input\" stopped signalling; reopening"
    );
}

#[test]
fn endpoint_threads_know_what_to_do_next() {
    let mut o = Outage::new();
    let mut w = RenderWatch::new();
    let mut render = |event| next_step(&mut o, &mut w, StartStep::Render, event);
    assert_eq!(
        render(EndpointEvent::Failed),
        EndpointStep::Retry {
            warn: true,
            reset: true
        }
    );
    assert_eq!(
        render(EndpointEvent::Failed),
        EndpointStep::Retry {
            warn: false,
            reset: true
        }
    );
    for _ in 0..MAX_EVENT_TIMEOUTS - 1 {
        assert_eq!(render(EndpointEvent::TimedOut), EndpointStep::Run);
    }
    assert_eq!(render(EndpointEvent::Signalled), EndpointStep::Run);
    for _ in 0..MAX_EVENT_TIMEOUTS - 1 {
        assert_eq!(render(EndpointEvent::TimedOut), EndpointStep::Run);
    }
    assert_eq!(render(EndpointEvent::TimedOut), EndpointStep::GiveUp);
    assert_eq!(render(EndpointEvent::Finished), EndpointStep::Again);
    assert_eq!(render(EndpointEvent::BufferLost), EndpointStep::GiveUp);
    let mut o = Outage::new();
    let mut w = RenderWatch::new();
    let mut capture = |event| next_step(&mut o, &mut w, StartStep::Capture, event);
    assert_eq!(
        capture(EndpointEvent::Failed),
        EndpointStep::Retry {
            warn: true,
            reset: false
        }
    );
    assert_eq!(capture(EndpointEvent::Delivered), EndpointStep::Run);
    assert_eq!(capture(EndpointEvent::QueueFull), EndpointStep::DropPacket);
    assert_eq!(capture(EndpointEvent::QueueClosed), EndpointStep::Finish);
}

#[test]
fn capture_keeps_its_schedule() {
    let f = Format::new(8_000, 1, 5); // packets of 40 samples
    let frame = 5 * NANOS_PER_MS;
    assert!(CapturePacer::fits(&f));
    let mut p = CapturePacer::new(&f, SECOND);
    assert!(p.next_packet(SECOND + frame - 1).is_none());
    // Nothing captured: silence.
    assert_eq!(p.next_packet(SECOND + frame).unwrap(), vec![0; 40]);
    assert!(p.next_packet(SECOND + frame).is_none());
    let pcm: Vec<i16> = (1..=100).collect();
    p.absorb(&pcm, 60, false);
    p.absorb(&[], 30, true);
    let late = SECOND + 4 * frame;
    assert!(!p.resync(late));
    assert_eq!(p.next_packet(late).unwrap(), pcm[..40].to_vec());
    let mut rest = pcm[40..60].to_vec();
    rest.extend(vec![0; 20]);
    assert_eq!(p.next_packet(late).unwrap(), rest);
    // Ten silent samples wait, which is no packet.
    assert_eq!(p.next_packet(late).unwrap(), vec![0; 40]);
    assert!(p.next_packet(late).is_none());
}

#[test]
fn capture_does_not_burst_or_pile_up() {
    let f = Format::new(8_000, 2, 5); // packets of 80 samples
    let mut p = CapturePacer::new(&f, 0);
    let pcm: Vec<i16> = (0..400).collect();
    p.absorb(&pcm, 200, false);
    assert_eq!(p.trim(), 80);
    assert_eq!(p.trim(), 0);
    let now = 5 * NANOS_PER_MS + 500 * NANOS_PER_MS;
    assert!(!p.resync(now));
    assert!(p.resync(now + 1));
    assert_eq!(p.next_packet(now + 1).unwrap(), pcm[80..160].to_vec());
    assert!(p.next_packet(now + 1).is_none());
    // The most that can be due at once.
    let mut q = CapturePacer::new(&f, 0);
    assert!(!q.resync(now));
    let mut n = 0;
    while q.next_packet(now).is_some() {
        n += 1;
    }
    assert_eq!(n, 101);
}

#[test]
fn device_bytes_are_in_machine_order() {
    let mut jb = JitterBuffer::new(1, 8_000, 5, 10);
    let pcm: Vec<i16> = (0..80).map(|i| i * 257 - 9000).collect();
    jb.push(0, &pcm);
    let mut block = vec![0i16; 80];
    let bytes = next_block(&mut jb, &mut block).to_vec();
    assert_eq!(block[1..], pcm[..79]);
    let want: Vec<u8> = block.iter().flat_map(|s| s.to_ne_bytes()).collect();
    assert_eq!(bytes, want);

    let mut samples = vec![1i16, 2, 3];
    let view = capture_block(&mut samples);
    assert_eq!(view.len(), 6);
    view[2..4].copy_from_slice(&(-77i16).to_ne_bytes());
    assert_eq!(samples, vec![1, -77, 3]);
}

#[test]
fn listings_and_summaries_read_well() {
    let id = |s: &str| Some(s.to_string());
    let a = list_entry("A".to_string(), id("1"), &id("2"));
    let b = list_entry("B".to_string(), id("2"), &id("2"));
    let c = list_entry("C".to_string(), None, &None);
    assert!(!a.is_default && b.is_default && !c.is_default);
    assert_eq!(
        device_list(&vec![a, b], &vec![c]),
        vec![
            "render endpoints (playback) — [mic].device, and [speaker].device in loopback mode",
            "    A",
            "  * B",
            "",
            "capture endpoints (recording) — [speaker].device in capture mode",
            "    C",
            "",
            "* = current default.",
            "Feed the virtual cable's *render* endpoint (e.g. \"CABLE Input\"); applications",
            "then select its capture side (e.g. \"CABLE Output\") as their microphone.",
        ]
    );
    let mut cfg = minimal();
    cfg.token = "t".to_string();
    cfg.speaker.mode = CaptureMode::Capture;
    assert_eq!(
        summary(&cfg, "vm.toml", "0.0.0.0:17322"),
        vec![
            "configuration OK: vm.toml",
            "  listen  : 0.0.0.0:17322",
            "  auth    : token",
            "  mic     : Linux -> CABLE Input (VB-Audio Virtual Cable)  [40 ms jitter buffer]",
            "  speaker : Capture of (default endpoint) -> Linux",
            "",
            "Audio formats are chosen by the host and arrive in its Hello.",
        ]
    );
}
