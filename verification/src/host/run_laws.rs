//! What holds of a host session over a whole run, whatever happens in it.

use crate::bytes;
use crate::format::{Codec, Format};
use crate::host::config::HostConfig;
use crate::host::laws;
use crate::host::session;
use crate::packet;
use crate::packet::{DecodeError, Direction, Status};
use crate::packet_laws;
use vstd::prelude::*;
use vstd::utf8::*;

verus! {

/// Something that happens to a host session.
pub enum HostEvent {
    /// A packet came.
    Received { now: u64, data: Seq<u8> },
    /// The microphone has a packet of samples.
    Recorded { pcm: Seq<i16> },
    /// The network took a microphone packet, or did not.
    Sent { ok: bool },
    /// The ping timer fired.
    PingTimer { now: u64, nonce: u64 },
}

/// The session after one event.
pub open spec fn next(m: session::HostModel, e: HostEvent) -> session::HostModel {
    match e {
        HostEvent::Received { now, data } => m.received(now, data).0,
        HostEvent::Recorded { pcm } => m.spoken(pcm).0,
        HostEvent::Sent { ok } => m.sent(ok),
        HostEvent::PingTimer { now, nonce } => m.pinged(now, nonce).0,
    }
}

/// The session after `events`.
pub open spec fn after(m: session::HostModel, events: Seq<HostEvent>) -> session::HostModel
    decreases events.len(),
{
    if events.len() == 0 {
        m
    } else {
        next(after(m, events.drop_last()), events.last())
    }
}

/// When the last packet of `events` came, or `start` if none did.
pub open spec fn heard_at(start: u64, events: Seq<HostEvent>) -> u64
    decreases events.len(),
{
    if events.len() == 0 {
        start
    } else {
        match events.last() {
            HostEvent::Received { now, .. } => now,
            _ => heard_at(start, events.drop_last()),
        }
    }
}

/// How many packets of samples the microphone had in `events`.
pub open spec fn recorded(events: Seq<HostEvent>) -> nat
    decreases events.len(),
{
    if events.len() == 0 {
        0
    } else {
        recorded(events.drop_last()) + if events.last() is Recorded {
            1nat
        } else {
            0nat
        }
    }
}

/// The session is up all through `events`.
pub open spec fn stays_up(m: session::HostModel, events: Seq<HostEvent>) -> bool
    decreases events.len(),
{
    after(m, events).established && (events.len() > 0 ==> stays_up(m, events.drop_last()))
}

/// The format of these numbers.
pub open spec fn pcm_format(rate: u32, channels: u8, frame_ms: u8) -> Format {
    Format { rate, channels, codec: Codec::PcmS16Le, frame_ms }
}

/// What a host of these settings knocks with.
pub open spec fn wanted(id: u32, cfg: HostConfig) -> packet::PacketView {
    packet::PacketView::Hello {
        token: encode_utf8(cfg.server.token@),
        session: id,
        mic: pcm_format(cfg.mic.rate, cfg.mic.channels, cfg.mic.frame_ms),
        speaker: pcm_format(cfg.speaker.rate, cfg.speaker.channels, cfg.speaker.frame_ms),
    }
}

/// No event changes what a session was made with.
proof fn lemma_settings_stay(m: session::HostModel, e: HostEvent)
    ensures
        next(m, e).id == m.id,
        next(m, e).hello == m.hello,
        next(m, e).mic_channels == m.mic_channels,
        next(m, e).speaker == m.speaker,
        next(m, e).idle_timeout_ms == m.idle_timeout_ms,
        next(m, e).last_rx == match e {
            HostEvent::Received { now, .. } => now,
            _ => m.last_rx,
        },
{
}

/// All through a run, a session goes by the identifier and the settings that it was made
/// with, and knows when the last packet came.
pub proof fn a_session_keeps_its_settings(
    id: u32,
    cfg: HostConfig,
    start: u64,
    events: Seq<HostEvent>,
)
    ensures
        ({
            let m = after(session::HostModel::fresh(id, cfg, start), events);
            &&& m.id == id
            &&& m.mic_channels == cfg.mic.channels
            &&& m.speaker == cfg.speaker.enabled
            &&& m.idle_timeout_ms == cfg.server.idle_timeout_ms
            &&& m.hello == session::HostModel::fresh(id, cfg, start).hello
            &&& m.last_rx == heard_at(start, events)
        }),
    decreases events.len(),
{
    if events.len() > 0 {
        let front = events.drop_last();
        a_session_keeps_its_settings(id, cfg, start, front);
        lemma_settings_stay(
            after(session::HostModel::fresh(id, cfg, start), front),
            events.last(),
        );
    }
}

/// Whenever the handshake timer fires, a session that is not up knocks with its token,
/// its identifier and the two formats of its settings; one that is up keeps quiet.
pub proof fn a_host_knocks_until_it_is_answered(
    id: u32,
    cfg: HostConfig,
    start: u64,
    events: Seq<HostEvent>,
)
    requires
        encode_utf8(cfg.server.token@).len() <= 255,
    ensures
        ({
            let m = after(session::HostModel::fresh(id, cfg, start), events);
            &&& m.knock() is None <==> m.established
            &&& m.knock() matches Some(data) ==> laws::says(data, wanted(id, cfg))
        }),
{
    a_session_keeps_its_settings(id, cfg, start, events);
    laws::the_hello_carries_the_settings(id, cfg, start);
}

/// A session starts down, with everything else blank.
pub proof fn a_session_starts_down(id: u32, cfg: HostConfig, start: u64)
    ensures
        ({
            let m = session::HostModel::fresh(id, cfg, start);
            &&& !m.established
            &&& m.seq == 0
            &&& m.rtt is None
            &&& m.pending_ping is None
            &&& m.last_rx == start
            &&& m.counters.mic_packets == 0
            &&& m.counters.mic_dropped == 0
            &&& m.counters.speaker_packets == 0
        }),
{
}

/// On the way out a session that is up says goodbye under its identifier, one that is
/// not says nothing.
pub proof fn a_live_session_says_goodbye(m: session::HostModel)
    ensures
        m.farewell() is None <==> !m.established,
        m.farewell() matches Some(data) ==> laws::says(
            data,
            packet::PacketView::Bye { session: m.id },
        ),
{
    let p = packet::PacketView::Bye { session: m.id };
    packet_laws::control_packets_round_trip(p, Seq::empty());
    assert(packet::packet_bytes(p) + Seq::<u8>::empty() =~= packet::packet_bytes(p));
}

/// The next microphone sequence number grows by one with each microphone packet that is
/// sent, is set to 0 by a packet that brings the session up, and is touched by nothing
/// else.
pub proof fn only_sending_moves_the_numbering(m: session::HostModel, e: HostEvent)
    ensures
        next(m, e).seq == if e is Recorded && m.established {
            (m.seq + 1) % 0x1_0000_0000
        } else if e is Received && !m.established && next(m, e).established {
            0
        } else {
            m.seq as int
        },
{
}

/// Microphone packets sent one after the other while the session is up carry consecutive
/// sequence numbers, whatever arrives, is reported or is due in between, and the VM reads
/// from each what was recorded.
pub proof fn microphone_packets_are_numbered_throughout(
    m: session::HostModel,
    events: Seq<HostEvent>,
    pcm: Seq<i16>,
)
    requires
        stays_up(m, events),
    ensures
        after(m, events).seq == (m.seq + recorded(events)) % 0x1_0000_0000,
        after(m, events).id == m.id,
        after(m, events).mic_channels == m.mic_channels,
        packet_laws::whole_frames(pcm.len(), m.mic_channels) ==> (after(m, events).spoken(
            pcm,
        ).1 matches Some(data) && laws::carries(
            data,
            m.id,
            Direction::Mic,
            ((m.seq + recorded(events)) % 0x1_0000_0000) as u32,
            pcm,
        )),
{
    lemma_numbering(m, events);
    if packet_laws::whole_frames(pcm.len(), m.mic_channels) {
        let now = after(m, events);
        lemma_spoken(now, pcm);
    }
}

proof fn lemma_numbering(m: session::HostModel, events: Seq<HostEvent>)
    requires
        stays_up(m, events),
    ensures
        after(m, events).established,
        after(m, events).seq == (m.seq + recorded(events)) % 0x1_0000_0000,
        after(m, events).id == m.id,
        after(m, events).mic_channels == m.mic_channels,
    decreases events.len(),
{
    if events.len() > 0 {
        let front = events.drop_last();
        lemma_numbering(m, front);
        only_sending_moves_the_numbering(after(m, front), events.last());
        lemma_settings_stay(after(m, front), events.last());
    }
}

proof fn lemma_spoken(m: session::HostModel, pcm: Seq<i16>)
    requires
        m.established,
        packet_laws::whole_frames(pcm.len(), m.mic_channels),
    ensures
        m.spoken(pcm).1 matches Some(data) && laws::carries(data, m.id, Direction::Mic, m.seq, pcm),
{
    laws::audio_packets_carry_their_samples(m.id, Direction::Mic, m.seq, m.mic_channels, pcm);
}

/// While the session is down, the microphone sends nothing.
pub proof fn a_session_that_is_down_sends_nothing(m: session::HostModel, pcm: Seq<i16>)
    ensures
        m.spoken(pcm).1 is Some <==> m.established,
{
}

/// Each counter counts what it is named for: packets that the network took, packets that
/// it did not or that had no session to go to, and packets played.
pub proof fn counters_count(m: session::HostModel, e: HostEvent)
    ensures
        next(m, e).counters.mic_packets == if e == (HostEvent::Sent { ok: true }) {
            (m.counters.mic_packets + 1) % 0x1_0000_0000_0000_0000
        } else {
            m.counters.mic_packets as int
        },
        next(m, e).counters.mic_dropped == if e == (HostEvent::Sent { ok: false }) || (e is Recorded
            && !m.established) {
            (m.counters.mic_dropped + 1) % 0x1_0000_0000_0000_0000
        } else {
            m.counters.mic_dropped as int
        },
        next(m, e).counters.speaker_packets == if (e matches HostEvent::Received { now, data }
            && m.received(now, data).1 is Play) {
            (m.counters.speaker_packets + 1) % 0x1_0000_0000_0000_0000
        } else {
            m.counters.speaker_packets as int
        },
{
}

/// A session that is up goes down if and only if the VM agent says goodbye to it or
/// refuses it, or a ping timer finds that nothing has come for longer than the idle
/// timeout.
pub proof fn what_ends_a_session(m: session::HostModel, e: HostEvent)
    requires
        m.established,
    ensures
        !next(m, e).established <==> match e {
            HostEvent::Received { data, .. } => match packet::decoded(data) {
                Ok(packet::IncomingView::Control(packet::PacketView::Bye { session })) => session
                    == m.id,
                Ok(
                    packet::IncomingView::Control(
                        packet::PacketView::HelloAck { status, session, .. },
                    ),
                ) => session == m.id && status != Status::Okay,
                _ => false,
            },
            HostEvent::PingTimer { now, .. } => now - m.last_rx > m.idle_timeout_ms * 1_000_000,
            _ => false,
        },
{
}

/// A goodbye of this session is acted on, up or not.
pub proof fn a_goodbye_is_acted_on(m: session::HostModel, now: u64, b: Seq<u8>)
    requires
        laws::says(b, packet::PacketView::Bye { session: m.id }),
    ensures
        m.received(now, b).1 is Closed,
        !m.received(now, b).0.established,
{
}

/// Playback of this session is played as it was captured, if the speaker is switched on:
/// the samples and the sequence number are those of the packet, and nothing else of the
/// session changes but the time of the last packet and the count.
pub proof fn playback_is_played(
    m: session::HostModel,
    now: u64,
    seq: u32,
    channels: u8,
    pcm: Seq<i16>,
)
    requires
        packet_laws::whole_frames(pcm.len(), channels),
    ensures
        ({
            let b = packet::audio_bytes(m.id, Direction::Speaker, seq, channels, pcm);
            let r = m.received(now, b);
            if m.speaker {
                &&& r.1 == (session::HostActionView::Play { seq, samples: pcm })
                &&& r.0 == (session::HostModel {
                    last_rx: now,
                    counters: session::Counters {
                        speaker_packets: ((m.counters.speaker_packets + 1)
                            % 0x1_0000_0000_0000_0000) as u64,
                        ..m.counters
                    },
                    ..m
                })
            } else {
                &&& r.1 is Ignore
                &&& r.0 == (session::HostModel { last_rx: now, ..m })
            }
        }),
{
    packet_laws::audio_packets_round_trip(m.id, Direction::Speaker, seq, channels, pcm);
    let header = packet::AudioHeader {
        session: m.id,
        direction: Direction::Speaker,
        seq,
        frames: packet::frame_count(pcm.len(), channels),
    };
    let b = packet::audio_bytes(m.id, Direction::Speaker, seq, channels, pcm);
    lemma_audio_is_heard(m, now, b, header, bytes::samples_bytes(pcm));
}

/// What is made of a datagram that reads as audio.
proof fn lemma_audio_is_heard(
    m: session::HostModel,
    now: u64,
    b: Seq<u8>,
    header: packet::AudioHeader,
    payload: Seq<u8>,
)
    requires
        packet::decoded(b) == Ok::<packet::IncomingView, DecodeError>(
            packet::IncomingView::Audio { header, payload },
        ),
    ensures
        m.received(now, b) == (session::HostModel { last_rx: now, ..m }).heard(header, payload),
{
}

/// Nothing is played but speaker audio of this session, with the speaker switched on.
pub proof fn only_playback_is_played(m: session::HostModel, now: u64, b: Seq<u8>)
    ensures
        m.received(now, b).1 is Play <==> (m.speaker && (packet::decoded(b) matches Ok(
            packet::IncomingView::Audio { header, .. },
        ) && header.session == m.id && header.direction == Direction::Speaker)),
{
}

/// The VM agent's answer is passed on as it was given: the formats and the message with a
/// yes, the status and the message with a no.
pub proof fn the_answer_is_passed_on(
    m: session::HostModel,
    now: u64,
    b: Seq<u8>,
    status: Status,
    mic: Format,
    speaker: Format,
    message: Seq<char>,
)
    requires
        laws::says(
            b,
            packet::PacketView::HelloAck { status, session: m.id, mic, speaker, message },
        ),
    ensures
        status != Status::Okay ==> m.received(now, b) == (
            session::HostModel { last_rx: now, established: false, ..m },
            session::HostActionView::Rejected { status, message },
        ),
        status == Status::Okay && !m.established ==> m.received(now, b) == (
            session::HostModel { last_rx: now, established: true, seq: 0, ..m },
            session::HostActionView::BridgeUp { mic, speaker, message },
        ),
        status == Status::Okay && m.established ==> m.received(now, b) == (
            session::HostModel { last_rx: now, ..m },
            session::HostActionView::Ignore,
        ),
{
}

/// A ping timer sends a ping of this session with the given nonce while the session is
/// up and alive, and remembers when; without a session it does nothing.
pub proof fn a_ping_goes_out(m: session::HostModel, now: u64, nonce: u64)
    ensures
        !m.established ==> m.pinged(now, nonce) == (m, session::PingActionView::Nothing),
        m.established && now - m.last_rx <= m.idle_timeout_ms * 1_000_000 ==> {
            &&& m.pinged(now, nonce).0 == (session::HostModel {
                pending_ping: Some(session::PendingPing { nonce, sent_at: now }),
                ..m
            })
            &&& m.pinged(now, nonce).1 matches session::PingActionView::Send(data) && laws::says(
                data,
                packet::PacketView::Ping { session: m.id, nonce },
            )
        },
{
    let p = packet::PacketView::Ping { session: m.id, nonce };
    packet_laws::control_packets_round_trip(p, Seq::empty());
    assert(packet::packet_bytes(p) + Seq::<u8>::empty() =~= packet::packet_bytes(p));
    assert(m.idle_timeout_ms * 1_000_000 >= 0);
}

/// All through a run, a link is given up on a ping timer if and only if the last packet
/// came longer ago than the configured idle timeout, and the log is told how long ago.
pub proof fn a_link_is_given_up_after_the_configured_silence(
    id: u32,
    cfg: HostConfig,
    start: u64,
    events: Seq<HostEvent>,
    now: u64,
    nonce: u64,
)
    ensures
        ({
            let m = after(session::HostModel::fresh(id, cfg, start), events);
            let silence = now - heard_at(start, events);
            &&& m.pinged(now, nonce).1 is Lost <==> m.established && silence
                > cfg.server.idle_timeout_ms * 1_000_000
            &&& m.pinged(now, nonce).1 matches session::PingActionView::Lost { after } ==> {
                &&& after == silence
                &&& m.pinged(now, nonce).0 == (session::HostModel {
                    established: false,
                    pending_ping: None,
                    rtt: None,
                    ..m
                })
            }
        }),
{
    a_session_keeps_its_settings(id, cfg, start, events);
}

/// The round trip that is shown is the time from the last ping to its pong: nothing else
/// sets it, and only a lost link forgets it.
pub proof fn the_round_trip_is_that_of_the_last_ping(m: session::HostModel, e: HostEvent)
    ensures
        match e {
            HostEvent::Received { now, data } => {
                let answered = match packet::decoded(data) {
                    Ok(
                        packet::IncomingView::Control(packet::PacketView::Pong { session, nonce }),
                    ) => session == m.id && (m.pending_ping matches Some(p) && p.nonce == nonce),
                    _ => false,
                };
                if answered {
                    &&& next(m, e).pending_ping is None
                    &&& next(m, e).rtt matches Some(d) && d == if now >= m.pending_ping->Some_0.sent_at {
                        now - m.pending_ping->Some_0.sent_at
                    } else {
                        0
                    }
                } else {
                    next(m, e).rtt == m.rtt && next(m, e).pending_ping == m.pending_ping
                }
            },
            HostEvent::PingTimer { now, nonce } => if !m.established {
                next(m, e) == m
            } else if next(m, e).established {
                next(m, e).rtt == m.rtt && next(m, e).pending_ping == Some(
                    session::PendingPing { nonce, sent_at: now },
                )
            } else {
                next(m, e).rtt is None && next(m, e).pending_ping is None
            },
            _ => next(m, e).rtt == m.rtt && next(m, e).pending_ping == m.pending_ping,
        },
{
}

/// What a received packet calls for: one that makes no sense is noted with the reason;
/// speaker audio of this session is played; an answer to this session is acted on unless
/// it repeats a yes; a ping of this session is answered; a goodbye to it closes it.
/// Anything else is ignored.
pub proof fn what_a_packet_calls_for(m: session::HostModel, now: u64, b: Seq<u8>)
    ensures
        match packet::decoded(b) {
            Err(e) => m.received(now, b).1 == session::HostActionView::Malformed(e),
            Ok(packet::IncomingView::Audio { header, payload }) => m.received(now, b).1
                == if m.speaker && header.session == m.id && header.direction
                == Direction::Speaker {
                session::HostActionView::Play {
                    seq: header.seq,
                    samples: bytes::samples_of(payload),
                }
            } else {
                session::HostActionView::Ignore
            },
            Ok(packet::IncomingView::Control(p)) => if laws::session_of(p) != m.id {
                m.received(now, b).1 is Ignore
            } else {
                match p {
                    packet::PacketView::Hello { .. } => m.received(now, b).1 is Ignore,
                    packet::PacketView::HelloAck { status, mic, speaker, message, .. } => m.received(
                        now,
                        b,
                    ).1 == if status != Status::Okay {
                        session::HostActionView::Rejected { status, message }
                    } else if m.established {
                        session::HostActionView::Ignore
                    } else {
                        session::HostActionView::BridgeUp { mic, speaker, message }
                    },
                    packet::PacketView::Ping { .. } => m.received(now, b).1 is Reply,
                    packet::PacketView::Pong { .. } => m.received(now, b).1 is Ignore,
                    packet::PacketView::Bye { .. } => m.received(now, b).1 is Closed,
                }
            },
        },
{
}

/// The session that each packet names.
pub proof fn packets_name_their_session(
    token: Seq<u8>,
    status: Status,
    session: u32,
    mic: Format,
    speaker: Format,
    message: Seq<char>,
    nonce: u64,
)
    ensures
        laws::session_of(packet::PacketView::Hello { token, session, mic, speaker }) == session,
        laws::session_of(
            packet::PacketView::HelloAck { status, session, mic, speaker, message },
        ) == session,
        laws::session_of(packet::PacketView::Bye { session }) == session,
        laws::session_of(packet::PacketView::Ping { session, nonce }) == session,
        laws::session_of(packet::PacketView::Pong { session, nonce }) == session,
{
}

} // verus!
