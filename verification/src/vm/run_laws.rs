//! What holds of the VM agent over a whole run, whoever calls.

use crate::bytes;
use crate::endpoint::Endpoint;
use crate::format::Format;
use crate::host::laws;
use crate::packet;
use crate::packet::{Direction, Status};
use crate::packet_laws;
use crate::vm::config::VmConfig;
use crate::vm::session;
use vstd::prelude::*;
use vstd::utf8::*;

verus! {

/// Something that happens to the VM agent.
pub enum VmEvent {
    /// A packet came from `peer`, in words `label`.
    Received { now: u64, peer: Endpoint, label: Seq<char>, data: Seq<u8> },
    /// The devices of a host are open.
    Started { now: u64, start: session::PendingStartView },
    /// Playback was captured.
    Captured { pcm: Seq<i16> },
    /// The network took a playback packet, or did not.
    Sent { ok: bool },
    /// A silent host is looked for.
    Swept { now: u64 },
    /// The agent ends.
    Left,
}

/// The agent after one event.
pub open spec fn next(m: session::VmModel, e: VmEvent) -> session::VmModel {
    match e {
        VmEvent::Received { now, peer, label, data } => m.received(now, peer, label, data).0,
        VmEvent::Started { now, start } => m.opened(now, start).0,
        VmEvent::Captured { pcm } => m.captured(pcm).0,
        VmEvent::Sent { ok } => m.sent(ok),
        VmEvent::Swept { now } => m.swept(now).0,
        VmEvent::Left => m.left().0,
    }
}

/// The agent after `events`.
pub open spec fn after(m: session::VmModel, events: Seq<VmEvent>) -> session::VmModel
    decreases events.len(),
{
    if events.len() == 0 {
        m
    } else {
        next(after(m, events.drop_last()), events.last())
    }
}

/// The nanoseconds from `then` to `now`, none if the clock went backwards.
pub open spec fn silence(now: u64, then: u64) -> int {
    if now >= then {
        now - then
    } else {
        0
    }
}

/// A `Hello` with the right token and formats that can be had.
pub open spec fn welcome_hello(
    m: session::VmModel,
    token: Seq<u8>,
    mic: Format,
    speaker: Format,
) -> bool {
    token == encode_utf8(m.token) && mic.valid() && speaker.valid()
}

/// The packet `b` from `peer` is a sign of life of the session's host `h`: its microphone,
/// a ping, a pong, or once more the `Hello` that the session was made from.
pub open spec fn sign_of_life(
    m: session::VmModel,
    h: session::PeerModel,
    peer: Endpoint,
    b: Seq<u8>,
) -> bool {
    peer == h.peer && match packet::decoded(b) {
        Ok(packet::IncomingView::Audio { header, .. }) => header.session == h.id
            && header.direction == Direction::Mic,
        Ok(packet::IncomingView::Control(packet::PacketView::Ping { session, .. })) => session
            == h.id,
        Ok(packet::IncomingView::Control(packet::PacketView::Pong { session, .. })) => session
            == h.id,
        Ok(
            packet::IncomingView::Control(
                packet::PacketView::Hello { token, session, mic, speaker },
            ),
        ) => welcome_hello(m, token, mic, speaker) && session == h.id && mic == h.mic && speaker
            == h.speaker,
        _ => false,
    }
}

/// The packet `b` from `peer` at `now` ends the session of `h`: its goodbye, or a `Hello`
/// that asks for something else and comes from the same address, or from another one after
/// `h` has been silent for the idle timeout.
pub open spec fn ends(
    m: session::VmModel,
    h: session::PeerModel,
    now: u64,
    peer: Endpoint,
    b: Seq<u8>,
) -> bool {
    match packet::decoded(b) {
        Ok(packet::IncomingView::Control(packet::PacketView::Bye { session })) => peer == h.peer
            && session == h.id,
        Ok(
            packet::IncomingView::Control(
                packet::PacketView::Hello { token, session, mic, speaker },
            ),
        ) => welcome_hello(m, token, mic, speaker) && if peer == h.peer {
            session != h.id || mic != h.mic || speaker != h.speaker
        } else {
            silence(now, h.last_rx) >= m.idle_timeout_ms * 1_000_000
        },
        _ => false,
    }
}

/// No event changes what the agent was made with.
proof fn lemma_settings_stay(m: session::VmModel, e: VmEvent)
    ensures
        next(m, e).token == m.token,
        next(m, e).idle_timeout_ms == m.idle_timeout_ms,
        next(m, e).mic_enabled == m.mic_enabled,
        next(m, e).summary == m.summary,
{
}

/// All through a run, the agent goes by the settings that it was made with.
pub proof fn an_agent_keeps_its_settings(cfg: VmConfig, events: Seq<VmEvent>)
    ensures
        ({
            let m = after(session::VmModel::fresh(cfg), events);
            &&& m.token == cfg.token@
            &&& m.idle_timeout_ms == cfg.idle_timeout_ms
            &&& m.mic_enabled == cfg.mic.enabled
            &&& m.summary == session::VmModel::fresh(cfg).summary
        }),
    decreases events.len(),
{
    if events.len() > 0 {
        let front = events.drop_last();
        an_agent_keeps_its_settings(cfg, front);
        lemma_settings_stay(after(session::VmModel::fresh(cfg), front), events.last());
    }
}

/// A new agent has no host and has counted nothing.
pub proof fn an_agent_starts_alone(cfg: VmConfig)
    ensures
        session::VmModel::fresh(cfg).host is None,
        session::VmModel::fresh(cfg).counters.mic_packets == 0,
        session::VmModel::fresh(cfg).counters.speaker_packets == 0,
        session::VmModel::fresh(cfg).counters.speaker_dropped == 0,
{
}

/// What becomes of a session that is up: a goodbye, another `Hello`, a look that finds the
/// host silent for longer than the idle timeout, or the end of the agent ends it; devices
/// that open put another in its place. Else it stays as it is, but for the time of the
/// last sign of life and the number of the next playback packet.
pub proof fn what_becomes_of_a_session(m: session::VmModel, e: VmEvent, h: session::PeerModel)
    requires
        m.host == Some(h),
    ensures
        next(m, e).host == match e {
            VmEvent::Received { now, peer, data, .. } => if ends(m, h, now, peer, data) {
                None
            } else if sign_of_life(m, h, peer, data) {
                Some(session::PeerModel { last_rx: now, ..h })
            } else {
                Some(h)
            },
            VmEvent::Started { now, start } => Some(fresh_peer(now, start)),
            VmEvent::Captured { .. } => Some(
                session::PeerModel { seq: ((h.seq + 1) % 0x1_0000_0000) as u32, ..h },
            ),
            VmEvent::Swept { now } => if now - h.last_rx > m.idle_timeout_ms * 1_000_000 {
                None
            } else {
                Some(h)
            },
            VmEvent::Left => None,
            VmEvent::Sent { .. } => Some(h),
        },
{
    assert(m.idle_timeout_ms * 1_000_000 >= 0);
    match e {
        VmEvent::Received { now, peer, label, data } => {
            lemma_received(m, h, now, peer, label, data);
        },
        _ => {},
    }
}

proof fn lemma_received(
    m: session::VmModel,
    h: session::PeerModel,
    now: u64,
    peer: Endpoint,
    label: Seq<char>,
    data: Seq<u8>,
)
    requires
        m.host == Some(h),
    ensures
        m.received(now, peer, label, data).0.host == if ends(m, h, now, peer, data) {
            None
        } else if sign_of_life(m, h, peer, data) {
            Some(session::PeerModel { last_rx: now, ..h })
        } else {
            Some(h)
        },
{
    let r = packet::decoded(data);
    match r {
        Ok(packet::IncomingView::Control(packet::PacketView::Hello { token, session, mic, speaker })) => {
            assert(mic.complaint() is None <==> mic.valid());
            assert(speaker.complaint() is None <==> speaker.valid());
        },
        _ => {},
    }
}

/// The session of a host whose devices have just opened.
pub open spec fn fresh_peer(now: u64, start: session::PendingStartView) -> session::PeerModel {
    session::PeerModel {
        id: start.id,
        peer: start.peer,
        label: start.label,
        mic: start.mic,
        speaker: start.speaker,
        last_rx: now,
        seq: 0,
    }
}

/// Without a session, only devices that open make one.
pub proof fn only_open_devices_make_a_session(m: session::VmModel, e: VmEvent)
    requires
        m.host is None,
    ensures
        next(m, e).host == match e {
            VmEvent::Started { now, start } => Some(fresh_peer(now, start)),
            _ => None,
        },
{
}

/// When the host of the session that is up after `events` was last heard from: the last
/// sign of life, or when its devices opened.
pub open spec fn heard_at(m: session::VmModel, events: Seq<VmEvent>) -> u64
    decreases events.len(),
{
    if events.len() == 0 {
        match m.host {
            Some(h) => h.last_rx,
            None => 0,
        }
    } else {
        let front = events.drop_last();
        match events.last() {
            VmEvent::Started { now, .. } => now,
            VmEvent::Received { now, peer, data, .. } => if (after(m, front).host matches Some(h)
                && sign_of_life(after(m, front), h, peer, data)) {
                now
            } else {
                heard_at(m, front)
            },
            _ => heard_at(m, front),
        }
    }
}

proof fn lemma_heard_at(m: session::VmModel, events: Seq<VmEvent>)
    ensures
        after(m, events).host matches Some(h) ==> h.last_rx == heard_at(m, events),
    decreases events.len(),
{
    if events.len() > 0 {
        let front = events.drop_last();
        let before = after(m, front);
        lemma_heard_at(m, front);
        match before.host {
            Some(h) => {
                what_becomes_of_a_session(before, events.last(), h);
            },
            None => {
                only_open_devices_make_a_session(before, events.last());
            },
        }
    }
}

/// All through a run, a look for a silent host closes the session if and only if the
/// host's last sign of life is longer ago than the configured idle timeout, and says how
/// long ago it was.
pub proof fn a_sweep_closes_after_the_configured_silence(
    cfg: VmConfig,
    events: Seq<VmEvent>,
    now: u64,
)
    ensures
        ({
            let m = after(session::VmModel::fresh(cfg), events);
            let quiet = now - heard_at(session::VmModel::fresh(cfg), events);
            let closes = m.host is Some && quiet > cfg.idle_timeout_ms * 1_000_000;
            &&& m.swept(now).1 is Some <==> closes
            &&& closes ==> m.swept(now).0.host is None
            &&& !closes ==> m.swept(now).0 == m
            &&& m.swept(now).1 matches Some(d) ==> d == quiet
        }),
{
    an_agent_keeps_its_settings(cfg, events);
    lemma_heard_at(session::VmModel::fresh(cfg), events);
    assert(cfg.idle_timeout_ms * 1_000_000 >= 0);
}

/// All through a run, the answer to a `Hello` goes by the configured token and timeout:
/// a wrong token is refused first, then formats that cannot be had, then a second host
/// while the first has been heard from within the idle timeout. What gets past that either
/// asks for the session that is up, which is acknowledged, or for another one, which is
/// opened in the place of the one there was.
pub proof fn a_hello_is_answered_by_the_settings(
    cfg: VmConfig,
    events: Seq<VmEvent>,
    now: u64,
    start: session::PendingStartView,
    token: Seq<u8>,
)
    ensures
        ({
            let m = after(session::VmModel::fresh(cfg), events);
            let r = m.greeted(now, start, token);
            let quiet = silence(now, heard_at(session::VmModel::fresh(cfg), events));
            if token != encode_utf8(cfg.token@) {
                r.1 is BadToken && r.0 == m
            } else if !start.mic.valid() || !start.speaker.valid() {
                r.1 is BadFormat && r.0 == m
            } else {
                match m.host {
                    None => r.1 == (session::VmActionView::Start { start, replaced: None })
                        && r.0.host is None,
                    Some(h) => if h.peer != start.peer && quiet < cfg.idle_timeout_ms * 1_000_000 {
                        r.1 is Busy && r.0 == m
                    } else if h.peer == start.peer && h.id == start.id && h.mic == start.mic
                        && h.speaker == start.speaker {
                        r.1 is Welcome && r.0.host == Some(session::PeerModel { last_rx: now, ..h })
                    } else {
                        r.1 == (session::VmActionView::Start { start, replaced: Some(h.id) })
                            && r.0.host is None
                    },
                }
            }
        }),
{
    an_agent_keeps_its_settings(cfg, events);
    lemma_heard_at(session::VmModel::fresh(cfg), events);
    assert(start.mic.complaint() is None <==> start.mic.valid());
    assert(start.speaker.complaint() is None <==> start.speaker.valid());
}

/// A `Hello` on the wire gets the answer that it is owed, with the sender's address.
pub proof fn a_hello_is_taken_as_it_was_sent(
    m: session::VmModel,
    now: u64,
    peer: Endpoint,
    label: Seq<char>,
    b: Seq<u8>,
    token: Seq<u8>,
    id: u32,
    mic: Format,
    speaker: Format,
)
    requires
        laws::says(b, packet::PacketView::Hello { token, session: id, mic, speaker }),
    ensures
        m.received(now, peer, label, b) == m.greeted(
            now,
            session::PendingStartView { id, peer, label, mic, speaker },
            token,
        ),
{
}

/// An answer of at most 255 bytes says what it is meant to.
pub proof fn answers_are_read_as_meant(
    status: Status,
    id: u32,
    mic: Format,
    speaker: Format,
    message: Seq<char>,
)
    requires
        encode_utf8(message).len() <= 255,
    ensures
        laws::says(
            session::reply_bytes(status, id, mic, speaker, message),
            packet::PacketView::HelloAck { status, session: id, mic, speaker, message },
        ),
{
    let p = packet::PacketView::HelloAck { status, session: id, mic, speaker, message };
    packet_laws::control_packets_round_trip(p, Seq::empty());
    assert(packet::packet_bytes(p) + Seq::<u8>::empty() =~= packet::packet_bytes(p));
}

/// The answer `data` to `start` has this status and message, and names what was asked for.
pub open spec fn answers(
    data: Seq<u8>,
    start: session::PendingStartView,
    status: Status,
    message: Seq<char>,
) -> bool {
    laws::says(
        data,
        packet::PacketView::HelloAck {
            status,
            session: start.id,
            mic: start.mic,
            speaker: start.speaker,
            message,
        },
    )
}

/// Every answer to a `Hello` is about the session and the formats that it asked for, with
/// the status that fits. A yes is only given to the host that the session then belongs
/// to, under the identifier and with the formats that the answer names.
pub proof fn a_yes_is_kept(
    m: session::VmModel,
    now: u64,
    start: session::PendingStartView,
    token: Seq<u8>,
)
    ensures
        ({
            let r = m.greeted(now, start, token);
            &&& r.1 matches session::VmActionView::BadToken(data) ==> answers(
                data,
                start,
                Status::AuthFailed,
                Seq::empty(),
            )
            &&& r.1 matches session::VmActionView::Busy(data) ==> (m.host matches Some(h) && h.peer
                != start.peer && (encode_utf8(h.label).len() <= 255 ==> answers(
                data,
                start,
                Status::Busy,
                h.label,
            )))
            &&& r.1 matches session::VmActionView::Welcome(data) ==> {
                &&& r.0.host matches Some(h) && h.peer == start.peer && h.id == start.id && h.mic
                    == start.mic && h.speaker == start.speaker && h.last_rx == now
                &&& encode_utf8(m.summary).len() <= 255 ==> answers(
                    data,
                    start,
                    Status::Okay,
                    m.summary,
                )
            }
            &&& r.1 matches session::VmActionView::BadFormat(data) ==> {
                let message = if !start.mic.valid() {
                    "mic: "@ + start.mic.complaint()->Some_0
                } else {
                    "speaker: "@ + start.speaker.complaint()->Some_0
                };
                &&& !start.mic.valid() || !start.speaker.valid()
                &&& encode_utf8(message).len() <= 255 ==> answers(
                    data,
                    start,
                    Status::UnsupportedFormat,
                    message,
                )
            }
        }),
{
    answers_are_read_as_meant(Status::AuthFailed, start.id, start.mic, start.speaker, Seq::empty());
    if encode_utf8(m.summary).len() <= 255 {
        answers_are_read_as_meant(Status::Okay, start.id, start.mic, start.speaker, m.summary);
    }
    let message = if !start.mic.valid() {
        "mic: "@ + start.mic.complaint()->Some_0
    } else {
        "speaker: "@ + start.speaker.complaint()->Some_0
    };
    if encode_utf8(message).len() <= 255 {
        answers_are_read_as_meant(
            Status::UnsupportedFormat,
            start.id,
            start.mic,
            start.speaker,
            message,
        );
    }
    if let Some(h) = m.host {
        if encode_utf8(h.label).len() <= 255 {
            answers_are_read_as_meant(Status::Busy, start.id, start.mic, start.speaker, h.label);
        }
    }
}

/// Once the devices are open, the session belongs to the host that asked for it, under the
/// identifier and with the formats that it asked for, and the answer says so. Counters
/// and settings stay.
pub proof fn open_devices_make_the_session_asked_for(
    m: session::VmModel,
    now: u64,
    start: session::PendingStartView,
)
    ensures
        m.opened(now, start).0 == (session::VmModel { host: Some(fresh_peer(now, start)), ..m }),
        encode_utf8(m.summary).len() <= 255 ==> answers(
            m.opened(now, start).1,
            start,
            Status::Okay,
            m.summary,
        ),
{
    if encode_utf8(m.summary).len() <= 255 {
        answers_are_read_as_meant(Status::Okay, start.id, start.mic, start.speaker, m.summary);
    }
}

/// A host whose devices do not open is told why.
pub proof fn a_failed_start_is_owned_up_to(
    m: session::VmModel,
    start: session::PendingStartView,
    message: Seq<char>,
)
    requires
        encode_utf8(message).len() <= 255,
    ensures
        answers(m.apology(start, message), start, Status::ServerError, message),
{
    answers_are_read_as_meant(Status::ServerError, start.id, start.mic, start.speaker, message);
}

/// On the way out the session's host is told, at its address and under its identifier.
pub proof fn the_host_is_told_goodbye(m: session::VmModel)
    ensures
        m.left().0 == (session::VmModel { host: None, ..m }),
        m.host is None ==> m.left().1 is None,
        m.host matches Some(h) ==> (m.left().1 matches Some(out) && out.to == h.peer && laws::says(
            out.data,
            packet::PacketView::Bye { session: h.id },
        )),
{
    if let Some(h) = m.host {
        let p = packet::PacketView::Bye { session: h.id };
        packet_laws::control_packets_round_trip(p, Seq::empty());
        assert(packet::packet_bytes(p) + Seq::<u8>::empty() =~= packet::packet_bytes(p));
    }
}

/// Each counter counts what it is named for: microphone packets of the session's host,
/// playback packets that the network took, and those that it did not.
pub proof fn counters_count(m: session::VmModel, e: VmEvent)
    ensures
        next(m, e).counters.mic_packets == if (e matches VmEvent::Received { peer, data, .. }
            && is_microphone(m, peer, data)) {
            (m.counters.mic_packets + 1) % 0x1_0000_0000_0000_0000
        } else {
            m.counters.mic_packets as int
        },
        next(m, e).counters.speaker_packets == if e == (VmEvent::Sent { ok: true }) {
            (m.counters.speaker_packets + 1) % 0x1_0000_0000_0000_0000
        } else {
            m.counters.speaker_packets as int
        },
        next(m, e).counters.speaker_dropped == if e == (VmEvent::Sent { ok: false }) {
            (m.counters.speaker_dropped + 1) % 0x1_0000_0000_0000_0000
        } else {
            m.counters.speaker_dropped as int
        },
{
}

/// The packet `b` from `peer` is microphone audio of the session's host.
pub open spec fn is_microphone(m: session::VmModel, peer: Endpoint, b: Seq<u8>) -> bool {
    match m.host {
        Some(h) => peer == h.peer && match packet::decoded(b) {
            Ok(packet::IncomingView::Audio { header, .. }) => header.session == h.id
                && header.direction == Direction::Mic,
            _ => false,
        },
        None => false,
    }
}

/// What is played is the microphone of the session's host and nothing else, as it was
/// recorded; with the microphone switched off it is only noted.
pub proof fn only_the_hosts_microphone_is_played(
    m: session::VmModel,
    now: u64,
    peer: Endpoint,
    label: Seq<char>,
    b: Seq<u8>,
)
    ensures
        ({
            let r = m.received(now, peer, label, b);
            &&& r.1 is Play <==> is_microphone(m, peer, b) && m.mic_enabled
            &&& r.1 is Heard <==> is_microphone(m, peer, b) && !m.mic_enabled
            &&& r.1 matches session::VmActionView::Play { seq, samples } ==> (packet::decoded(
                b,
            ) matches Ok(packet::IncomingView::Audio { header, payload }) && seq == header.seq
                && samples == bytes::samples_of(payload))
        }),
{
}

/// A session is closed by its host's goodbye and by nobody else's, and a pong goes to
/// nobody but its host.
pub proof fn only_the_host_can_close(
    m: session::VmModel,
    now: u64,
    peer: Endpoint,
    label: Seq<char>,
    b: Seq<u8>,
)
    ensures
        m.received(now, peer, label, b).1 is Closed <==> (m.host matches Some(h) && h.peer == peer
            && laws::says(b, packet::PacketView::Bye { session: h.id })),
        m.received(now, peer, label, b).1 is Pong ==> (m.host matches Some(h) && h.peer == peer),
{
}

/// How many packets of playback were captured in `events`.
pub open spec fn captures(events: Seq<VmEvent>) -> nat
    decreases events.len(),
{
    if events.len() == 0 {
        0
    } else {
        captures(events.drop_last()) + if events.last() is Captured {
            1nat
        } else {
            0nat
        }
    }
}

/// One session is up all through `events`.
pub open spec fn stays_up(m: session::VmModel, events: Seq<VmEvent>) -> bool
    decreases events.len(),
{
    &&& after(m, events).host is Some
    &&& events.len() > 0 ==> !(events.last() is Started) && stays_up(m, events.drop_last())
}

proof fn lemma_numbering(m: session::VmModel, events: Seq<VmEvent>)
    requires
        stays_up(m, events),
    ensures
        m.host is Some,
        after(m, events).host matches Some(k) && k.seq == (m.host->Some_0.seq + captures(events))
            % 0x1_0000_0000 && k.id == m.host->Some_0.id && k.peer == m.host->Some_0.peer && k.mic
            == m.host->Some_0.mic && k.speaker == m.host->Some_0.speaker && k.label
            == m.host->Some_0.label,
    decreases events.len(),
{
    if events.len() > 0 {
        let front = events.drop_last();
        lemma_numbering(m, front);
        what_becomes_of_a_session(after(m, front), events.last(), after(m, front).host->Some_0);
    }
}

/// Playback packets of one session carry consecutive sequence numbers, whatever arrives,
/// is reported or is looked for in between; each goes to the session's host, who reads
/// from it what was captured.
pub proof fn playback_is_numbered_throughout(
    m: session::VmModel,
    events: Seq<VmEvent>,
    pcm: Seq<i16>,
)
    requires
        stays_up(m, events),
        m.host matches Some(h) ==> packet_laws::whole_frames(pcm.len(), h.speaker.channels),
    ensures
        m.host matches Some(h) && (after(m, events).captured(pcm).1 matches Some(out) && out.to
            == h.peer && laws::carries(
            out.data,
            h.id,
            Direction::Speaker,
            ((h.seq + captures(events)) % 0x1_0000_0000) as u32,
            pcm,
        )),
{
    lemma_numbering(m, events);
    lemma_captured(after(m, events), pcm);
}

#[verifier::rlimit(40)]
proof fn lemma_captured(m: session::VmModel, pcm: Seq<i16>)
    requires
        m.host matches Some(h) && packet_laws::whole_frames(pcm.len(), h.speaker.channels),
    ensures
        m.host matches Some(h) && (m.captured(pcm).1 matches Some(out) && out.to == h.peer
            && laws::carries(out.data, h.id, Direction::Speaker, h.seq, pcm)),
{
    let h = m.host->Some_0;
    laws::audio_packets_carry_their_samples(
        h.id,
        Direction::Speaker,
        h.seq,
        h.speaker.channels,
        pcm,
    );
}

/// A session opens the microphone feed if and only if the microphone is switched on, then
/// playback capture if and only if the speaker is, and nothing twice.
pub proof fn a_session_opens_what_is_switched_on(cfg: VmConfig)
    ensures
        session::steps_of(cfg).contains(session::StartStep::Render) <==> cfg.mic.enabled,
        session::steps_of(cfg).contains(session::StartStep::Capture) <==> cfg.speaker.enabled,
        session::steps_of(cfg).no_duplicates(),
        forall|i: int|
            0 <= i < session::steps_of(cfg).len() && #[trigger] session::steps_of(cfg)[i]
                == session::StartStep::Render ==> i == 0,
{
    let steps = session::steps_of(cfg);
    if cfg.mic.enabled {
        assert(steps[0] == session::StartStep::Render);
    }
    if cfg.speaker.enabled {
        assert(steps[steps.len() - 1] == session::StartStep::Capture);
    }
}

/// What a received packet calls for: one that makes no sense is noted with the reason; a
/// `Hello` is answered; of the session's host, its microphone is played or noted, a ping
/// is answered with a pong of the same nonce and a goodbye closes the session. Anything
/// else is ignored.
pub proof fn what_a_packet_calls_for(
    m: session::VmModel,
    now: u64,
    peer: Endpoint,
    label: Seq<char>,
    b: Seq<u8>,
)
    ensures
        ({
            let a = m.received(now, peer, label, b).1;
            let owned = |id: u32| m.host matches Some(h) && h.peer == peer && h.id == id;
            match packet::decoded(b) {
                Err(e) => a == session::VmActionView::Malformed(e),
                Ok(packet::IncomingView::Audio { header, payload }) => a == if owned(header.session)
                    && header.direction == Direction::Mic {
                    if m.mic_enabled {
                        session::VmActionView::Play {
                            seq: header.seq,
                            samples: bytes::samples_of(payload),
                        }
                    } else {
                        session::VmActionView::Heard
                    }
                } else {
                    session::VmActionView::Ignore
                },
                Ok(packet::IncomingView::Control(p)) => match p {
                    packet::PacketView::Hello { .. } => a is BadToken || a is BadFormat || a is Busy
                        || a is Welcome || a is Start,
                    packet::PacketView::Ping { session, nonce } => if owned(session) {
                        a matches session::VmActionView::Pong(data) && laws::says(
                            data,
                            packet::PacketView::Pong { session, nonce },
                        )
                    } else {
                        a is Ignore
                    },
                    packet::PacketView::Bye { session } => a == if owned(session) {
                        session::VmActionView::Closed
                    } else {
                        session::VmActionView::Ignore
                    },
                    _ => a is Ignore,
                },
            }
        }),
{
    match packet::decoded(b) {
        Ok(packet::IncomingView::Control(packet::PacketView::Ping { session, nonce })) => {
            let p = packet::PacketView::Pong { session, nonce };
            lemma_pong(session, nonce);
        },
        _ => {},
    }
}

proof fn lemma_pong(session: u32, nonce: u64)
    ensures
        laws::says(
            packet::packet_bytes(packet::PacketView::Pong { session, nonce }),
            packet::PacketView::Pong { session, nonce },
        ),
{
    let p = packet::PacketView::Pong { session, nonce };
    packet_laws::control_packets_round_trip(p, Seq::empty());
    assert(packet::packet_bytes(p) + Seq::<u8>::empty() =~= packet::packet_bytes(p));
}

/// What goes out goes to the address that it names, as it is.
pub proof fn what_goes_out_says_what_it_holds(out: session::Outgoing)
    ensures
        session::maybe_outgoing(Some(out)) matches Some(v) && v.to == out.to && v.data
            == out.data@,
        session::maybe_outgoing(None) is None,
{
}

} // verus!
