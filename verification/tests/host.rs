use audiobridge::clock::NANOS_PER_MS;
use audiobridge::endpoint::Endpoint;
use audiobridge::host::config::{
    Fragmenting, HostConfig, MicConfig, ServerConfig, SpeakerConfig,
};
use audiobridge::host::pulse::{
    mark_default, next_step, open_failure, plan_stream, BufferPlan, DeviceInfo, Listed,
    StreamEvent, StreamKind, StreamStep,
};
use audiobridge::host::session::{
    new_session_id, speaker_buffer, HostAction, HostSession, PingAction,
};
use audiobridge::host::startup::{
    config_not_found, config_step, device_list, summary, ConfigStep,
};
use audiobridge::reopen::Outage;
use audiobridge::{
    decode, encode_audio, DecodeError, Direction, Format, Incoming, Packet, Status,
};

const SECOND: u64 = 1000 * NANOS_PER_MS;

/// What is left of a configuration file that names only the address.
fn minimal() -> HostConfig {
    HostConfig {
        server: ServerConfig {
            address: Endpoint::V4 {
                octets: 0xc0a8_7af0,
                port: 17420,
            },
            token: String::new(),
            handshake_timeout_ms: audiobridge::host::config::default_handshake_timeout(),
            idle_timeout_ms: audiobridge::host::config::default_idle_timeout(),
        },
        mic: MicConfig::default(),
        speaker: SpeakerConfig::default(),
    }
}

#[test]
fn minimal_config_gets_sane_defaults() {
    let cfg = minimal();
    cfg.validate().unwrap();

    assert!(cfg.mic.enabled && cfg.speaker.enabled);
    assert_eq!(cfg.mic.format(), Format::new(48_000, 1, 10));
    assert_eq!(cfg.speaker.format(), Format::new(48_000, 2, 10));
    assert_eq!(cfg.speaker.buffer_ms, 40);
    assert_eq!(cfg.mic.device(), None);
}

#[test]
fn rejects_a_bridge_with_both_directions_off() {
    let mut cfg = minimal();
    cfg.mic.enabled = false;
    cfg.speaker.enabled = false;
    let err = cfg.validate().unwrap_err();
    assert!(err.to_string().contains("nothing to bridge"));
}

#[test]
fn rejects_a_jitter_buffer_shorter_than_two_packets() {
    let mut cfg = minimal();
    cfg.speaker.frame_ms = 20;
    cfg.speaker.buffer_ms = 30;
    let err = cfg.validate().unwrap_err();
    assert!(err.to_string().contains("at least two packets"));
    assert_eq!(
        err,
        "[speaker] buffer_ms (30) must be at least two packets (40 ms)"
    );
}

#[test]
fn rejects_an_unsupported_format() {
    let mut cfg = minimal();
    cfg.mic.channels = 6;
    let err = cfg.validate().unwrap_err();
    assert!(err.to_string().contains("[mic]"));
    assert_eq!(err, "[mic] channels must be 1 or 2, got 6");
}

#[test]
fn other_settings_are_held_to_their_rules() {
    let mut cfg = minimal();
    cfg.speaker.rate = 11;
    assert_eq!(
        cfg.validate().unwrap_err(),
        "[speaker] unsupported sample rate 11"
    );
    // A disabled stream still needs a format that can be had.
    cfg.speaker.enabled = false;
    assert!(cfg.validate().is_err());
    let mut cfg = minimal();
    cfg.server.idle_timeout_ms = 999;
    assert_eq!(
        cfg.validate().unwrap_err(),
        "server.idle_timeout_ms must not be shorter than handshake_timeout_ms"
    );
    // A buffer that is never used may be short.
    let mut cfg = minimal();
    cfg.speaker.enabled = false;
    cfg.speaker.buffer_ms = 0;
    assert!(cfg.validate().is_ok());
    let mut cfg = minimal();
    cfg.mic.device = "alsa_input.usb".to_string();
    assert_eq!(cfg.mic.device(), Some("alsa_input.usb"));
}

#[test]
fn fragmenting_streams_are_warned_about() {
    let cfg = minimal();
    assert_eq!(
        cfg.warnings(),
        vec![Fragmenting {
            stream: Direction::Speaker,
            payload: 1920
        }]
    );
    let mut cfg = minimal();
    cfg.speaker.frame_ms = 5;
    assert!(cfg.warnings().is_empty());
    let mut cfg = minimal();
    cfg.mic.channels = 2;
    cfg.speaker.channels = 9;
    assert_eq!(
        cfg.warnings(),
        vec![Fragmenting {
            stream: Direction::Mic,
            payload: 1920
        }]
    );
    cfg.mic.rate = 1;
    assert!(cfg.warnings().is_empty());
}

fn session() -> HostSession {
    let mut cfg = minimal();
    cfg.server.token = "s3cret".to_string();
    HostSession::new(77, &cfg, SECOND)
}

fn welcome(id: u32) -> Vec<u8> {
    Packet::HelloAck {
        status: Status::Okay,
        session: id,
        mic: Format::new(48_000, 1, 10),
        speaker: Format::new(48_000, 2, 10),
        message: "mic -> CABLE Input".to_string(),
    }
    .encode()
}

fn up() -> HostSession {
    let mut s = session();
    assert!(matches!(
        s.on_packet(2 * SECOND, &welcome(77)),
        HostAction::BridgeUp { .. }
    ));
    s
}

#[test]
fn the_host_knocks_until_it_is_let_in() {
    let mut s = session();
    let hello = s.on_hello_timer().unwrap();
    match decode(&hello).unwrap() {
        Incoming::Control(Packet::Hello {
            token,
            session,
            mic,
            speaker,
        }) => {
            assert_eq!(token, b"s3cret");
            assert_eq!(session, 77);
            assert_eq!(mic, Format::new(48_000, 1, 10));
            assert_eq!(speaker, Format::new(48_000, 2, 10));
        }
        other => panic!("expected a Hello, got {other:?}"),
    }
    assert_eq!(s.on_hello_timer().unwrap(), hello);
    assert!(s.on_shutdown().is_none());
    // Someone else's welcome is not ours.
    assert!(matches!(
        s.on_packet(2 * SECOND, &welcome(78)),
        HostAction::Ignore
    ));
    assert!(!s.established());
    match s.on_packet(2 * SECOND, &welcome(77)) {
        HostAction::BridgeUp {
            mic,
            speaker,
            message,
        } => {
            assert_eq!(mic.channels, 1);
            assert_eq!(speaker.channels, 2);
            assert_eq!(message, "mic -> CABLE Input");
        }
        other => panic!("expected the bridge to come up, got {other:?}"),
    }
    assert!(s.established());
    assert!(s.on_hello_timer().is_none());
    assert!(matches!(
        s.on_packet(3 * SECOND, &welcome(77)),
        HostAction::Ignore
    ));
    match decode(&s.on_shutdown().unwrap()).unwrap() {
        Incoming::Control(p) => assert_eq!(p, Packet::Bye { session: 77 }),
        other => panic!("expected a Bye, got {other:?}"),
    }
}

#[test]
fn a_refusal_takes_the_session_down() {
    let mut s = up();
    let no = Packet::HelloAck {
        status: Status::Busy,
        session: 77,
        mic: Format::new(48_000, 1, 10),
        speaker: Format::new(48_000, 2, 10),
        message: "10.0.0.9:4000".to_string(),
    }
    .encode();
    match s.on_packet(3 * SECOND, &no) {
        HostAction::Rejected { status, message } => {
            assert_eq!(status, Status::Busy);
            assert_eq!(message, "10.0.0.9:4000");
        }
        other => panic!("expected a refusal, got {other:?}"),
    }
    assert!(!s.established());
    assert!(s.on_hello_timer().is_some());
}

#[test]
fn microphone_packets_are_numbered_once_the_bridge_is_up() {
    let mut s = session();
    assert!(s.on_microphone(&[1, 2]).is_none());
    assert_eq!(s.counters().mic_dropped, 1);
    let mut s = up();
    for seq in 0..3u32 {
        let data = s.on_microphone(&[7, -7, seq as i16]).unwrap();
        let mut want = Vec::new();
        encode_audio(&mut want, 77, Direction::Mic, seq, 1, &[7, -7, seq as i16]);
        assert_eq!(data, want);
        s.on_sent(seq != 1);
    }
    assert_eq!(s.counters().mic_packets, 2);
    assert_eq!(s.counters().mic_dropped, 1);
}

#[test]
fn speaker_packets_are_played() {
    let mut s = up();
    let mut data = Vec::new();
    encode_audio(&mut data, 77, Direction::Speaker, 5, 2, &[100, -100]);
    match s.on_packet(3 * SECOND, &data) {
        HostAction::Play { seq, samples } => {
            assert_eq!(seq, 5);
            assert_eq!(samples, vec![100, -100]);
        }
        other => panic!("expected audio to play, got {other:?}"),
    }
    assert_eq!(s.counters().speaker_packets, 1);
    encode_audio(&mut data, 76, Direction::Speaker, 5, 2, &[100, -100]);
    assert!(matches!(s.on_packet(3 * SECOND, &data), HostAction::Ignore));
    encode_audio(&mut data, 77, Direction::Mic, 5, 2, &[100, -100]);
    assert!(matches!(s.on_packet(3 * SECOND, &data), HostAction::Ignore));
    // A host that wants no speaker audio plays none.
    let mut cfg = minimal();
    cfg.speaker.enabled = false;
    let mut deaf = HostSession::new(77, &cfg, 0);
    encode_audio(&mut data, 77, Direction::Speaker, 5, 2, &[100, -100]);
    assert!(matches!(deaf.on_packet(0, &data), HostAction::Ignore));
    assert_eq!(deaf.counters().speaker_packets, 0);
}

#[test]
fn pings_are_answered_and_measured() {
    let mut s = up();
    let ping = Packet::Ping {
        session: 77,
        nonce: 9,
    }
    .encode();
    match s.on_packet(3 * SECOND, &ping) {
        HostAction::Reply(data) => assert_eq!(
            data,
            Packet::Pong {
                session: 77,
                nonce: 9
            }
            .encode()
        ),
        other => panic!("expected a reply, got {other:?}"),
    }
    match s.on_ping_timer(4 * SECOND, 1234) {
        PingAction::Send(data) => assert_eq!(
            data,
            Packet::Ping {
                session: 77,
                nonce: 1234
            }
            .encode()
        ),
        other => panic!("expected a ping, got {other:?}"),
    }
    let pong = |nonce| Packet::Pong { session: 77, nonce }.encode();
    s.on_packet(4 * SECOND + 10, &pong(1));
    assert_eq!(s.rtt(), None);
    s.on_packet(4 * SECOND + 250, &pong(1234));
    assert_eq!(s.rtt(), Some(250));
    s.on_packet(4 * SECOND + 900, &pong(1234));
    assert_eq!(s.rtt(), Some(250));
}

#[test]
fn a_silent_link_is_given_up_on() {
    let mut s = up(); // last heard at two seconds
    assert!(matches!(
        s.on_ping_timer(7 * SECOND, 1),
        PingAction::Send(_)
    ));
    match s.on_ping_timer(7 * SECOND + 1, 2) {
        PingAction::Lost { after } => assert_eq!(after, 5 * SECOND + 1),
        other => panic!("expected the link to be lost, got {other:?}"),
    }
    assert!(!s.established());
    assert_eq!(s.rtt(), None);
    assert!(matches!(
        s.on_ping_timer(8 * SECOND, 3),
        PingAction::Nothing
    ));
}

#[test]
fn goodbyes_and_noise_are_told_apart() {
    let mut s = up();
    let bye = |session| Packet::Bye { session }.encode();
    assert!(matches!(s.on_packet(3 * SECOND, &bye(1)), HostAction::Ignore));
    assert!(s.established());
    assert!(matches!(
        s.on_packet(3 * SECOND, b"noise"),
        HostAction::Malformed(DecodeError::BadMagic)
    ));
    assert!(matches!(s.on_packet(3 * SECOND, &bye(77)), HostAction::Closed));
    assert!(!s.established());
}

#[test]
fn session_ids_mix_time_and_process() {
    assert_eq!(new_session_id(None, 0x1234_5678), 0x5678_1234);
    assert_eq!(new_session_id(Some((0, 0)), 1), 0x1_0000);
    assert_eq!(
        new_session_id(Some((0x1_0000_00ff, 0xff00)), 0),
        0xffff
    );
}

#[test]
fn the_speaker_gets_a_buffer_if_it_is_on() {
    let cfg = minimal();
    let jb = speaker_buffer(&cfg).unwrap();
    assert_eq!(jb.target_frames(), 1920);
    let mut off = minimal();
    off.speaker.enabled = false;
    assert!(speaker_buffer(&off).is_none());
}

#[test]
fn streams_are_planned_packet_by_packet() {
    let f = Format::new(48_000, 2, 10);
    let max = u32::MAX;
    assert_eq!(
        plan_stream(&f, StreamKind::Playback, true).unwrap(),
        BufferPlan {
            maxlength: max,
            tlength: 5760,
            prebuf: 3840,
            minreq: 1920,
            fragsize: max
        }
    );
    assert_eq!(
        plan_stream(&f, StreamKind::Record, true).unwrap(),
        BufferPlan {
            maxlength: max,
            tlength: max,
            prebuf: max,
            minreq: max,
            fragsize: 1920
        }
    );
    assert_eq!(
        plan_stream(&f, StreamKind::Record, false).unwrap_err(),
        "PulseAudio rejects 48000 Hz stereo s16le 10 ms as a sample spec"
    );
    assert_eq!(
        open_failure(StreamKind::Record, "Connection refused"),
        "opening microphone to VM: Connection refused"
    );
    assert_eq!(StreamKind::Playback.stream_name(), "playback from VM");
}

fn listed(name: &str, description: &str) -> Listed {
    Listed {
        name: name.to_string(),
        description: description.to_string(),
    }
}

#[test]
fn the_default_device_is_marked() {
    let items = vec![listed("a", "First"), listed("b", "Second")];
    let out = mark_default(&items, &"b".to_string());
    assert_eq!(
        out,
        vec![
            DeviceInfo {
                name: "a".to_string(),
                description: "First".to_string(),
                is_default: false
            },
            DeviceInfo {
                name: "b".to_string(),
                description: "Second".to_string(),
                is_default: true
            },
        ]
    );
    assert_eq!(
        device_list(&out, &vec![]),
        vec![
            "sources (microphones) — put one in [mic].device",
            "    a",
            "      First",
            "  * b",
            "      Second",
            "",
            "sinks (speakers) — put one in [speaker].device",
            "",
            "* = current default; leave the config field empty to follow the default.",
        ]
    );
}

#[test]
fn settings_are_summarised() {
    let mut cfg = minimal();
    assert_eq!(
        summary(&cfg, "host.toml", "192.168.122.240:17420"),
        vec![
            "configuration OK: host.toml",
            "  server  : 192.168.122.240:17420",
            "  auth    : disabled",
            "  mic     : (default source) -> VM  [48000 Hz mono s16le 10 ms]",
            "  speaker : VM -> (default sink)  [48000 Hz stereo s16le 10 ms, 40 ms jitter buffer]",
        ]
    );
    cfg.server.token = "x".to_string();
    cfg.mic.enabled = false;
    cfg.speaker.device = "headphones".to_string();
    assert_eq!(
        summary(&cfg, "h", "a")[2..],
        [
            "  auth    : token",
            "  mic     : disabled",
            "  speaker : VM -> headphones  [48000 Hz stereo s16le 10 ms, 40 ms jitter buffer]",
        ]
    );
}

#[test]
fn settings_are_looked_for_in_order() {
    assert_eq!(config_step(true, None, None), ConfigStep::UseExplicit);
    assert_eq!(config_step(false, None, None), ConfigStep::LookInWorkingDir);
    assert_eq!(
        config_step(false, Some(true), None),
        ConfigStep::UseWorkingDir
    );
    assert_eq!(
        config_step(false, Some(false), None),
        ConfigStep::LookBesideExecutable
    );
    assert_eq!(
        config_step(false, Some(false), Some(true)),
        ConfigStep::UseBesideExecutable
    );
    assert_eq!(
        config_step(false, Some(false), Some(false)),
        ConfigStep::GiveUp
    );
    assert_eq!(
        config_not_found("/tmp", "/usr/bin"),
        "host.toml was not found in the current working directory (/tmp) or beside the executable (/usr/bin); use --config <path>"
    );
}

#[test]
fn an_outage_is_announced_once() {
    let mut outage = Outage::new();
    assert!(outage.failed());
    assert!(!outage.failed());
    assert!(!outage.failed());
    outage.worked();
    assert!(outage.failed());
}

#[test]
fn audio_threads_know_what_to_do_next() {
    let mut o = Outage::new();
    let mut record = |event| next_step(&mut o, StreamKind::Record, event);
    assert_eq!(
        record(StreamEvent::OpenFailed),
        StreamStep::Retry { warn: true }
    );
    assert_eq!(
        record(StreamEvent::OpenFailed),
        StreamStep::Retry { warn: false }
    );
    assert_eq!(record(StreamEvent::Opened), StreamStep::Run);
    assert_eq!(record(StreamEvent::Delivered), StreamStep::Run);
    assert_eq!(record(StreamEvent::QueueFull), StreamStep::DropPacket);
    assert_eq!(
        record(StreamEvent::DeviceFailed),
        StreamStep::Reopen { reset: false }
    );
    // A new outage, a new warning.
    assert_eq!(
        record(StreamEvent::OpenFailed),
        StreamStep::Retry { warn: true }
    );
    assert_eq!(record(StreamEvent::QueueClosed), StreamStep::Stop);
    let mut o = Outage::new();
    let mut play = |event| next_step(&mut o, StreamKind::Playback, event);
    assert_eq!(
        play(StreamEvent::DeviceFailed),
        StreamStep::Reopen { reset: true }
    );
    assert_eq!(play(StreamEvent::BufferLost), StreamStep::Stop);
}

#[test]
fn a_packet_whose_count_is_wrong_is_not_played() {
    let mut s = up();
    let mut data = Vec::new();
    encode_audio(&mut data, 77, Direction::Speaker, 5, 2, &[100, -100, 7, 8]);
    data.truncate(data.len() - 2);
    assert!(matches!(
        s.on_packet(3 * SECOND, &data),
        HostAction::Malformed(DecodeError::PayloadMismatch)
    ));
    assert_eq!(s.counters().speaker_packets, 0);
}
