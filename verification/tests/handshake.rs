//! The two agents against each other.

use audiobridge::endpoint::Endpoint;
use audiobridge::host::config::{HostConfig, MicConfig, ServerConfig, SpeakerConfig};
use audiobridge::host::session::{HostAction, HostSession, PingAction};
use audiobridge::vm::config as vm_config;
use audiobridge::vm::config::VmConfig;
use audiobridge::vm::session::{VmAction, VmSession};
use audiobridge::Status;

const HOST: Endpoint = Endpoint::V6 {
    segments: 1,
    port: 5000,
    flowinfo: 0,
    scope_id: 2,
};

fn host(token: &str) -> HostSession {
    let cfg = HostConfig {
        server: ServerConfig {
            address: Endpoint::V4 {
                octets: 0x7f00_0001,
                port: 17420,
            },
            token: token.to_string(),
            handshake_timeout_ms: 1_000,
            idle_timeout_ms: 5_000,
        },
        mic: MicConfig::default(),
        speaker: SpeakerConfig::default(),
    };
    HostSession::new(0xabcd, &cfg, 0)
}

fn vm(token: &str) -> VmSession {
    VmSession::new(&VmConfig {
        listen: Endpoint::V4 {
            octets: 0,
            port: 17420,
        },
        token: token.to_string(),
        idle_timeout_ms: 5_000,
        mic: vm_config::MicConfig::default(),
        speaker: vm_config::SpeakerConfig::default(),
    })
}

#[test]
fn the_bridge_comes_up_and_carries_both_ways() {
    let mut h = host("shared");
    let mut v = vm("shared");
    let hello = h.on_hello_timer().unwrap();
    let VmAction::Start { start, replaced } = v.on_packet(1, HOST, "[::1%2]:5000", &hello) else {
        panic!("expected a start");
    };
    assert_eq!(replaced, None);
    assert_eq!(start.mic.channels, 1);
    assert_eq!(start.speaker.channels, 2);
    let reply = v.on_started(2, start);
    match h.on_packet(3, &reply) {
        HostAction::BridgeUp { message, .. } => assert_eq!(
            message,
            "mic -> (default render), speaker <- Loopback:(default)"
        ),
        other => panic!("expected the bridge to come up, got {other:?}"),
    }
    // Microphone, one way.
    let voice = h.on_microphone(&[1, -1, 2, -2]).unwrap();
    match v.on_packet(4, HOST, "h", &voice) {
        VmAction::Play { seq, samples } => assert_eq!((seq, samples), (0, vec![1, -1, 2, -2])),
        other => panic!("expected audio to play, got {other:?}"),
    }
    // Playback, the other.
    let music = v.on_capture(&[30, -30]).unwrap();
    assert_eq!(music.to, HOST);
    match h.on_packet(5, &music.data) {
        HostAction::Play { seq, samples } => assert_eq!((seq, samples), (0, vec![30, -30])),
        other => panic!("expected audio to play, got {other:?}"),
    }
    // A round trip.
    let PingAction::Send(ping) = h.on_ping_timer(100, 42) else {
        panic!("expected a ping");
    };
    let VmAction::Pong(pong) = v.on_packet(150, HOST, "h", &ping) else {
        panic!("expected a pong");
    };
    h.on_packet(190, &pong);
    assert_eq!(h.rtt(), Some(90));
    // And goodbye.
    let bye = h.on_shutdown().unwrap();
    assert!(matches!(v.on_packet(200, HOST, "h", &bye), VmAction::Closed));
}

#[test]
fn a_wrong_token_is_turned_away_at_the_door() {
    let mut h = host("guess");
    let mut v = vm("secret");
    let hello = h.on_hello_timer().unwrap();
    let VmAction::BadToken(reply) = v.on_packet(1, HOST, "h", &hello) else {
        panic!("expected a refusal");
    };
    match h.on_packet(2, &reply) {
        HostAction::Rejected { status, message } => {
            assert_eq!(status, Status::AuthFailed);
            assert_eq!(message, "");
        }
        other => panic!("expected a refusal, got {other:?}"),
    }
    assert!(!v.connected());
    assert!(h.on_hello_timer().is_some());
}

#[test]
fn a_device_that_does_not_open_is_the_hosts_to_read() {
    let mut h = host("");
    let mut v = vm("");
    let hello = h.on_hello_timer().unwrap();
    let VmAction::Start { start, .. } = v.on_packet(1, HOST, "h", &hello) else {
        panic!("expected a start");
    };
    let reply = v.on_start_failed(&start, "opening playback capture: gone");
    match h.on_packet(2, &reply) {
        HostAction::Rejected { status, message } => {
            assert_eq!(status, Status::ServerError);
            assert_eq!(message, "opening playback capture: gone");
        }
        other => panic!("expected a refusal, got {other:?}"),
    }
}
