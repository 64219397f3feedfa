//! What holds of a host session, whatever arrives.

use crate::bytes;
use crate::clock;
use crate::host::config::HostConfig;
use crate::host::session;
use crate::jitter;
use crate::packet;
use crate::packet::{DecodeError, Direction, Status};
use crate::packet_laws;
use vstd::prelude::*;
use vstd::utf8::*;

verus! {

/// The session that control packet `p` is about, if it names one.
pub open spec fn session_of(p: packet::PacketView) -> u32 {
    match p {
        packet::PacketView::Hello { session, .. } => session,
        packet::PacketView::HelloAck { session, .. } => session,
        packet::PacketView::Bye { session } => session,
        packet::PacketView::Ping { session, .. } => session,
        packet::PacketView::Pong { session, .. } => session,
    }
}

/// A datagram that the VM agent can read as control packet `p`.
pub open spec fn says(b: Seq<u8>, p: packet::PacketView) -> bool {
    packet::decoded(b) == Ok::<packet::IncomingView, DecodeError>(packet::IncomingView::Control(p))
}

/// A datagram that the far side can read as audio packet `seq` of session `id` with
/// the samples `pcm`.
pub open spec fn carries(
    b: Seq<u8>,
    id: u32,
    direction: Direction,
    seq: u32,
    pcm: Seq<i16>,
) -> bool {
    match packet::decoded(b) {
        Ok(packet::IncomingView::Audio { header, payload }) => {
            &&& header.session == id
            &&& header.direction == direction
            &&& header.seq == seq
            &&& bytes::samples_of(payload) == pcm
        },
        _ => false,
    }
}

/// An audio packet of whole frames carries what it was made of.
pub proof fn audio_packets_carry_their_samples(
    id: u32,
    direction: Direction,
    seq: u32,
    channels: u8,
    pcm: Seq<i16>,
)
    requires
        packet_laws::whole_frames(pcm.len(), channels),
    ensures
        carries(packet::audio_bytes(id, direction, seq, channels, pcm), id, direction, seq, pcm),
{
    packet_laws::audio_packets_round_trip(id, direction, seq, channels, pcm);
    let header = packet::AudioHeader {
        session: id,
        direction,
        seq,
        frames: packet::frame_count(pcm.len(), channels),
    };
    lemma_carries(
        packet::audio_bytes(id, direction, seq, channels, pcm),
        header,
        bytes::samples_bytes(pcm),
        pcm,
    );
}

proof fn lemma_carries(
    b: Seq<u8>,
    header: packet::AudioHeader,
    payload: Seq<u8>,
    pcm: Seq<i16>,
)
    requires
        packet::decoded(b) == Ok::<packet::IncomingView, DecodeError>(
            packet::IncomingView::Audio { header, payload },
        ),
        bytes::samples_of(payload) == pcm,
    ensures
        carries(b, header.session, header.direction, header.seq, pcm),
{
}

/// The handshake says who the host is, what it wants, and nothing but the token it
/// was given.
pub proof fn the_hello_carries_the_settings(id: u32, cfg: HostConfig, now: u64)
    requires
        encode_utf8(cfg.server.token@).len() <= 255,
    ensures
        says(
            session::HostModel::fresh(id, cfg, now).hello,
            packet::PacketView::Hello {
                token: encode_utf8(cfg.server.token@),
                session: id,
                mic: cfg.mic.spec_format(),
                speaker: cfg.speaker.spec_format(),
            },
        ),
{
    let p = packet::PacketView::Hello {
        token: encode_utf8(cfg.server.token@),
        session: id,
        mic: cfg.mic.spec_format(),
        speaker: cfg.speaker.spec_format(),
    };
    packet_laws::control_packets_round_trip(p, Seq::empty());
    assert(packet::packet_bytes(p) + Seq::<u8>::empty() =~= packet::packet_bytes(p));
}

/// Packets about another session, and packets that make no sense, change nothing
/// but the time of the last packet.
pub proof fn strangers_change_nothing(m: session::HostModel, now: u64, b: Seq<u8>)
    requires
        match packet::decoded(b) {
            Ok(packet::IncomingView::Control(p)) => session_of(p) != m.id,
            Ok(packet::IncomingView::Audio { header, .. }) => header.session != m.id
                || header.direction != Direction::Speaker,
            Err(_) => true,
        },
    ensures
        m.received(now, b).0 == (session::HostModel { last_rx: now, ..m }),
        m.received(now, b).1 is Ignore || m.received(now, b).1 is Malformed,
{
}

/// A ping of this session is answered with a pong that carries the same nonce.
pub proof fn a_ping_is_answered(m: session::HostModel, now: u64, b: Seq<u8>, nonce: u64)
    requires
        says(b, packet::PacketView::Ping { session: m.id, nonce }),
    ensures
        m.received(now, b).1 matches session::HostActionView::Reply(data) && says(
            data,
            packet::PacketView::Pong { session: m.id, nonce },
        ),
{
    let p = packet::PacketView::Pong { session: m.id, nonce };
    packet_laws::control_packets_round_trip(p, Seq::empty());
    assert(packet::packet_bytes(p) + Seq::<u8>::empty() =~= packet::packet_bytes(p));
}

/// The pong for the last ping ends the wait for it and measures the round trip; any
/// other pong is ignored.
pub proof fn only_the_last_ping_is_measured(
    m: session::HostModel,
    sent: u64,
    nonce: u64,
    now: u64,
    b: Seq<u8>,
    other: u64,
)
    requires
        m.established,
        !m.idle(sent),
        says(b, packet::PacketView::Pong { session: m.id, nonce: other }),
    ensures
        ({
            let waiting = m.pinged(sent, nonce).0;
            let after = waiting.received(now, b).0;
            if other == nonce {
                after.rtt == Some(clock::elapsed(now, sent)) && after.pending_ping is None
            } else {
                after.rtt == m.rtt && after.pending_ping == waiting.pending_ping
            }
        }),
{
}

/// Microphone audio leaves only while the session is up. Until then it is counted
/// as dropped and takes up no sequence number.
pub proof fn the_microphone_waits_for_the_handshake(m: session::HostModel, pcm: Seq<i16>)
    requires
        !m.established,
    ensures
        m.spoken(pcm).1 is None,
        m.spoken(pcm).0.seq == m.seq,
        m.spoken(pcm).0.counters.mic_dropped == jitter::counted(m.counters.mic_dropped, 1),
{
}

/// While the session is up, consecutive microphone packets carry consecutive
/// sequence numbers, and what the VM reads from each is what was recorded.
pub proof fn microphone_packets_are_numbered(m: session::HostModel, pcm: Seq<i16>)
    requires
        m.established,
        packet_laws::whole_frames(pcm.len(), m.mic_channels),
    ensures
        m.spoken(pcm).0.seq == jitter::later_seq(m.seq, 1),
        m.spoken(pcm).1 matches Some(data) && carries(data, m.id, Direction::Mic, m.seq, pcm),
{
    audio_packets_carry_their_samples(m.id, Direction::Mic, m.seq, m.mic_channels, pcm);
}

/// An accepted handshake starts the microphone stream at sequence number 0; being
/// told again changes nothing.
pub proof fn a_repeated_welcome_is_ignored(
    m: session::HostModel,
    now: u64,
    b: Seq<u8>,
    p: packet::PacketView,
)
    requires
        says(b, p),
        p matches packet::PacketView::HelloAck { status, session, .. } && status == Status::Okay
            && session == m.id,
    ensures
        m.received(now, b).0.established,
        !m.established ==> m.received(now, b).0.seq == 0 && m.received(now, b).1 is BridgeUp,
        m.established ==> m.received(now, b) == (
            session::HostModel { last_rx: now, ..m },
            session::HostActionView::Ignore,
        ),
{
}

/// A refusal takes the session down, whatever its reason, so that the host goes on
/// knocking.
pub proof fn a_refused_host_keeps_knocking(
    m: session::HostModel,
    now: u64,
    b: Seq<u8>,
    p: packet::PacketView,
)
    requires
        says(b, p),
        p matches packet::PacketView::HelloAck { status, session, .. } && status != Status::Okay
            && session == m.id,
    ensures
        !m.received(now, b).0.established,
        m.received(now, b).1 is Rejected,
        m.received(now, b).0.hello == m.hello,
{
}

/// A link is declared dead on a ping timer if and only if nothing has come for
/// longer than the idle timeout, and then the host shakes hands anew.
pub proof fn a_silent_link_is_given_up(m: session::HostModel, now: u64, nonce: u64)
    requires
        m.established,
    ensures
        m.pinged(now, nonce).1 is Lost <==> clock::elapsed(now, m.last_rx) > m.idle_timeout_ms
            * clock::NANOS_PER_MS,
        m.pinged(now, nonce).1 is Lost ==> !m.pinged(now, nonce).0.established && m.pinged(
            now,
            nonce,
        ).0.pending_ping is None,
        m.pinged(now, nonce).1 is Lost || m.pinged(now, nonce).1 is Send,
{
}

/// Only the VM agent's yes brings a session up.
pub proof fn nothing_but_a_welcome_brings_it_up(m: session::HostModel, now: u64, b: Seq<u8>)
    requires
        !m.established,
    ensures
        m.received(now, b).0.established <==> (packet::decoded(b) matches Ok(
            packet::IncomingView::Control(packet::PacketView::HelloAck { status, session, .. }),
        ) && status == Status::Okay && session == m.id),
{
}

} // verus!
