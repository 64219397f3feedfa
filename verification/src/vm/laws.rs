//! What holds of the VM agent, whatever arrives from whomever.

use crate::bytes;
use crate::clock;
use crate::endpoint::Endpoint;
use crate::host::laws;
use crate::jitter;
use crate::packet;
use crate::packet::{Direction, Status};
use crate::packet_laws;
use crate::vm::session;
use vstd::prelude::*;
use vstd::utf8::*;

verus! {

/// A wrong token is answered with a bare refusal that does not depend on the right
/// one: two agents with different tokens give the same answer, without a message.
/// The agent's state does not change.
pub proof fn a_wrong_token_learns_nothing(
    a: session::VmModel,
    b: session::VmModel,
    now: u64,
    start: session::PendingStartView,
    token: Seq<u8>,
)
    requires
        encode_utf8(a.token) != token,
        encode_utf8(b.token) != token,
    ensures
        a.greeted(now, start, token).0 == a,
        a.greeted(now, start, token).1 == b.greeted(now, start, token).1,
        a.greeted(now, start, token).1 matches session::VmActionView::BadToken(data) && laws::says(
            data,
            packet::PacketView::HelloAck {
                status: Status::AuthFailed,
                session: start.id,
                mic: start.mic,
                speaker: start.speaker,
                message: Seq::empty(),
            },
        ),
{
    lemma_reply_reads_back(Status::AuthFailed, start, Seq::empty());
}

/// The host reads an answer of at most 255 bytes as it was meant.
proof fn lemma_reply_reads_back(
    status: Status,
    start: session::PendingStartView,
    message: Seq<char>,
)
    requires
        encode_utf8(message).len() <= 255,
    ensures
        laws::says(
            session::reply_bytes(status, start.id, start.mic, start.speaker, message),
            packet::PacketView::HelloAck {
                status,
                session: start.id,
                mic: start.mic,
                speaker: start.speaker,
                message,
            },
        ),
{
    let p = packet::PacketView::HelloAck {
        status,
        session: start.id,
        mic: start.mic,
        speaker: start.speaker,
        message,
    };
    packet_laws::control_packets_round_trip(p, Seq::empty());
    assert(packet::packet_bytes(p) + Seq::<u8>::empty() =~= packet::packet_bytes(p));
}

/// A live session belongs to its host: another host with the right token is told so,
/// and by whom, and the session is untouched.
pub proof fn a_live_session_keeps_its_host(
    m: session::VmModel,
    now: u64,
    start: session::PendingStartView,
    token: Seq<u8>,
)
    requires
        m.host matches Some(h) && h.peer != start.peer && clock::elapsed(now, h.last_rx)
            < m.idle_timeout_ms * clock::NANOS_PER_MS,
        encode_utf8(m.token) == token,
        start.mic.valid(),
        start.speaker.valid(),
    ensures
        m.greeted(now, start, token) == (
            m,
            session::VmActionView::Busy(
                session::reply_bytes(
                    Status::Busy,
                    start.id,
                    start.mic,
                    start.speaker,
                    m.host->Some_0.label,
                ),
            ),
        ),
{
}

/// A host that has been silent for the idle timeout can be replaced.
pub proof fn a_silent_host_can_be_replaced(
    m: session::VmModel,
    now: u64,
    start: session::PendingStartView,
    token: Seq<u8>,
)
    requires
        m.host matches Some(h) && h.peer != start.peer && clock::elapsed(now, h.last_rx)
            >= m.idle_timeout_ms * clock::NANOS_PER_MS,
        encode_utf8(m.token) == token,
        start.mic.valid(),
        start.speaker.valid(),
    ensures
        m.greeted(now, start, token) == (
            session::VmModel { host: None, ..m },
            session::VmActionView::Start { start, replaced: Some(m.host->Some_0.id) },
        ),
{
}

/// A `Hello` that asks for the session that is up already is only acknowledged: the
/// answer is the session's summary once more, no device is reopened, and of the session
/// nothing changes but the time of the last packet. The playback stream keeps its
/// numbering.
pub proof fn a_repeated_hello_keeps_the_session(
    m: session::VmModel,
    now: u64,
    start: session::PendingStartView,
    token: Seq<u8>,
)
    requires
        encode_utf8(m.token) == token,
        start.mic.valid(),
        start.speaker.valid(),
        m.unchanged(start.peer, start.id, start.mic, start.speaker),
    ensures
        m.greeted(now, start, token) == (
            session::VmModel {
                host: Some(session::PeerModel { last_rx: now, ..m.host->Some_0 }),
                ..m
            },
            session::VmActionView::Welcome(
                session::reply_bytes(Status::Okay, start.id, start.mic, start.speaker, m.summary),
            ),
        ),
{
}

/// A session that has just come up is the one that its `Hello` asked for, so that a
/// resent one finds it unchanged.
pub proof fn a_started_session_is_what_was_asked_for(
    m: session::VmModel,
    now: u64,
    start: session::PendingStartView,
)
    ensures
        m.started(now, start).unchanged(start.peer, start.id, start.mic, start.speaker),
        m.started(now, start).token == m.token,
        m.started(now, start).summary == m.summary,
{
}

/// The same of the datagram itself: a resent `Hello` reaches the session as it was
/// sent, and is only acknowledged.
pub proof fn a_resent_hello_is_acknowledged(
    m: session::VmModel,
    now: u64,
    start: session::PendingStartView,
    token: Seq<u8>,
)
    requires
        encode_utf8(m.token) == token,
        token.len() <= 255,
        start.mic.valid(),
        start.speaker.valid(),
        m.unchanged(start.peer, start.id, start.mic, start.speaker),
    ensures
        m.received(
            now,
            start.peer,
            start.label,
            packet::packet_bytes(
                packet::PacketView::Hello {
                    token,
                    session: start.id,
                    mic: start.mic,
                    speaker: start.speaker,
                },
            ),
        ) == (
            m.awake(now),
            session::VmActionView::Welcome(
                session::reply_bytes(Status::Okay, start.id, start.mic, start.speaker, m.summary),
            ),
        ),
{
    let p = packet::PacketView::Hello {
        token,
        session: start.id,
        mic: start.mic,
        speaker: start.speaker,
    };
    packet_laws::control_packets_round_trip(p, Seq::empty());
    assert(packet::packet_bytes(p) + Seq::<u8>::empty() =~= packet::packet_bytes(p));
    lemma_control_is_told(m, now, start.peer, start.label, packet::packet_bytes(p), p);
    a_repeated_hello_keeps_the_session(m, now, start, token);
}

/// What is made of a datagram that reads as a control packet.
proof fn lemma_control_is_told(
    m: session::VmModel,
    now: u64,
    peer: Endpoint,
    label: Seq<char>,
    b: Seq<u8>,
    p: packet::PacketView,
)
    requires
        laws::says(b, p),
    ensures
        m.received(now, peer, label, b) == m.told(now, peer, label, p),
{
}

/// No format gets through that the library could not run with.
pub proof fn only_valid_formats_start(
    m: session::VmModel,
    now: u64,
    start: session::PendingStartView,
    token: Seq<u8>,
)
    requires
        m.greeted(now, start, token).1 is Start || m.greeted(now, start, token).1 is Welcome,
    ensures
        encode_utf8(m.token) == token,
        start.mic.valid(),
        start.speaker.valid(),
{
}

/// Anything but a `Hello` that does not come from the session's host, or is about
/// another session, changes nothing and is not answered.
pub proof fn strangers_change_nothing(
    m: session::VmModel,
    now: u64,
    peer: Endpoint,
    label: Seq<char>,
    b: Seq<u8>,
)
    requires
        match packet::decoded(b) {
            Ok(packet::IncomingView::Control(p)) => !(p is Hello) && !m.owned_by(
                peer,
                laws::session_of(p),
            ),
            Ok(packet::IncomingView::Audio { header, .. }) => !m.owned_by(peer, header.session),
            Err(_) => true,
        },
    ensures
        m.received(now, peer, label, b).0 == m,
        m.received(now, peer, label, b).1 is Ignore || m.received(now, peer, label, b).1 is Malformed,
{
}

/// A ping of the session's host is answered with a pong that carries the same nonce,
/// and counts as a sign of life.
pub proof fn a_ping_is_answered(
    m: session::VmModel,
    now: u64,
    peer: Endpoint,
    label: Seq<char>,
    b: Seq<u8>,
    id: u32,
    nonce: u64,
)
    requires
        m.owned_by(peer, id),
        laws::says(b, packet::PacketView::Ping { session: id, nonce }),
    ensures
        m.received(now, peer, label, b).0 == m.awake(now),
        m.received(now, peer, label, b).1 matches session::VmActionView::Pong(data) && laws::says(
            data,
            packet::PacketView::Pong { session: id, nonce },
        ),
{
    let p = packet::PacketView::Pong { session: id, nonce };
    packet_laws::control_packets_round_trip(p, Seq::empty());
    assert(packet::packet_bytes(p) + Seq::<u8>::empty() =~= packet::packet_bytes(p));
}

/// Captured playback goes to the session's host alone, in numbered packets from
/// which the host reads what was captured; without a host nothing is sent.
pub proof fn playback_goes_to_the_host(m: session::VmModel, pcm: Seq<i16>)
    requires
        m.host matches Some(h) ==> packet_laws::whole_frames(pcm.len(), h.speaker.channels),
    ensures
        m.host is None ==> m.captured(pcm).1 is None,
        m.host matches Some(h) ==> {
            &&& m.captured(pcm).0.host->Some_0.seq == jitter::later_seq(h.seq, 1)
            &&& m.captured(pcm).1 matches Some(out) && out.to == h.peer && laws::carries(
                out.data,
                h.id,
                Direction::Speaker,
                h.seq,
                pcm,
            )
        },
{
    if let Some(h) = m.host {
        laws::audio_packets_carry_their_samples(
            h.id,
            Direction::Speaker,
            h.seq,
            h.speaker.channels,
            pcm,
        );
    }
}

/// What is made of a datagram that reads as audio.
proof fn lemma_audio_is_heard(
    m: session::VmModel,
    now: u64,
    peer: Endpoint,
    label: Seq<char>,
    b: Seq<u8>,
    header: packet::AudioHeader,
    payload: Seq<u8>,
)
    requires
        packet::decoded(b) == Ok::<packet::IncomingView, packet::DecodeError>(
            packet::IncomingView::Audio { header, payload },
        ),
    ensures
        m.received(now, peer, label, b) == m.heard(now, peer, header, payload),
{
}

/// Microphone audio of the session's host reaches the jitter buffer as it was
/// recorded.
pub proof fn the_hosts_microphone_is_played(
    m: session::VmModel,
    now: u64,
    peer: Endpoint,
    label: Seq<char>,
    id: u32,
    seq: u32,
    channels: u8,
    pcm: Seq<i16>,
)
    requires
        m.owned_by(peer, id),
        m.mic_enabled,
        packet_laws::whole_frames(pcm.len(), channels),
    ensures
        m.received(
            now,
            peer,
            label,
            packet::audio_bytes(id, Direction::Mic, seq, channels, pcm),
        ).1 == (session::VmActionView::Play { seq, samples: pcm }),
{
    packet_laws::audio_packets_round_trip(id, Direction::Mic, seq, channels, pcm);
    let header = packet::AudioHeader {
        session: id,
        direction: Direction::Mic,
        seq,
        frames: packet::frame_count(pcm.len(), channels),
    };
    let b = packet::audio_bytes(id, Direction::Mic, seq, channels, pcm);
    lemma_audio_is_heard(m, now, peer, label, b, header, bytes::samples_bytes(pcm));
}

} // verus!
