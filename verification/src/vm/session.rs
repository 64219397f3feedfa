//! The VM end of the UDP session.
//!
//! One session at a time. The host dials in, the audio devices open, and both
//! directions run until the host says goodbye or stops talking. Everything the
//! far side needs to know comes back in the `HelloAck`, so a misconfigured
//! device name shows up in the *host's* log rather than only in this one.
//!
//! [`VmSession`] decides; whoever runs it owns the socket, the clock and the
//! devices. Times are nanoseconds since any fixed moment.

use crate::bytes;
use crate::clock;
use crate::clock::{time_since, NANOS_PER_MS};
use crate::endpoint::Endpoint;
use crate::format::Format;
use crate::jitter;
use crate::jitter::JitterBuffer;
use crate::packet;
use crate::packet::{
    decode, decode_samples, encode_audio, token_matches, AudioHeader, DecodeError, Direction,
    Incoming, Packet, Status,
};
use crate::text;
use crate::vm::config::VmConfig;
use vstd::prelude::*;
use vstd::utf8::*;

verus! {

/// How often the log gets a line of statistics.
pub const STATS_INTERVAL_MS: u64 = 30_000;

/// How often a silent host is looked for.
pub const SWEEP_INTERVAL_MS: u64 = 1_000;

/// Playback packets buffered between the capture thread and the socket.
pub const CAPTURE_QUEUE: usize = 8;

/// Counters worth printing every now and then. They wrap around.
#[derive(Clone, Copy, PartialEq, Eq, Debug, Default, Structural)]
pub struct Counters {
    pub mic_packets: u64,
    pub speaker_packets: u64,
    pub speaker_dropped: u64,
}

/// A host that may have a session, once the audio devices are open.
#[derive(Debug)]
pub struct PendingStart {
    pub id: u32,
    pub peer: Endpoint,
    /// The host's address in words.
    pub label: String,
    pub mic: Format,
    pub speaker: Format,
}

/// What a [`PendingStart`] says.
#[verifier::ext_equal]
pub struct PendingStartView {
    pub id: u32,
    pub peer: Endpoint,
    pub label: Seq<char>,
    pub mic: Format,
    pub speaker: Format,
}

impl View for PendingStart {
    type V = PendingStartView;

    open spec fn view(&self) -> PendingStartView {
        PendingStartView {
            id: self.id,
            peer: self.peer,
            label: self.label@,
            mic: self.mic,
            speaker: self.speaker,
        }
    }
}

/// What to do about a received packet.
#[derive(Debug)]
pub enum VmAction {
    /// Nothing.
    Ignore,
    /// Drop it and note why.
    Malformed(DecodeError),
    /// Send this to the sender: its token is wrong.
    BadToken(Vec<u8>),
    /// Send this to the sender: its formats cannot be had.
    BadFormat(Vec<u8>),
    /// Send this to the sender: another host owns the session.
    Busy(Vec<u8>),
    /// Send this to the sender: its session is up already.
    Welcome(Vec<u8>),
    /// Stop the audio devices of the session that this one replaces, if any, open
    /// them anew, and report with [`VmSession::on_started`] or
    /// [`VmSession::on_start_failed`].
    Start { start: PendingStart, replaced: Option<u32> },
    /// Push these samples into the microphone's jitter buffer.
    Play { seq: u32, samples: Vec<i16> },
    /// Microphone audio that nobody wants.
    Heard,
    /// Send this to the sender.
    Pong(Vec<u8>),
    /// The host hung up: stop the audio devices.
    Closed,
}

/// What a [`VmAction`] says.
#[verifier::ext_equal]
pub enum VmActionView {
    Ignore,
    Malformed(DecodeError),
    BadToken(Seq<u8>),
    BadFormat(Seq<u8>),
    Busy(Seq<u8>),
    Welcome(Seq<u8>),
    Start { start: PendingStartView, replaced: Option<u32> },
    Play { seq: u32, samples: Seq<i16> },
    Heard,
    Pong(Seq<u8>),
    Closed,
}

impl View for VmAction {
    type V = VmActionView;

    open spec fn view(&self) -> VmActionView {
        match *self {
            VmAction::Ignore => VmActionView::Ignore,
            VmAction::Malformed(e) => VmActionView::Malformed(e),
            VmAction::BadToken(data) => VmActionView::BadToken(data@),
            VmAction::BadFormat(data) => VmActionView::BadFormat(data@),
            VmAction::Busy(data) => VmActionView::Busy(data@),
            VmAction::Welcome(data) => VmActionView::Welcome(data@),
            VmAction::Start { start, replaced } => VmActionView::Start { start: start@, replaced },
            VmAction::Play { seq, samples } => VmActionView::Play { seq, samples: samples@ },
            VmAction::Heard => VmActionView::Heard,
            VmAction::Pong(data) => VmActionView::Pong(data@),
            VmAction::Closed => VmActionView::Closed,
        }
    }
}

/// Bytes for an address.
#[derive(Debug)]
pub struct Outgoing {
    pub to: Endpoint,
    pub data: Vec<u8>,
}

/// What an [`Outgoing`] says.
#[verifier::ext_equal]
pub struct OutgoingView {
    pub to: Endpoint,
    pub data: Seq<u8>,
}

/// Something to send, or nothing.
pub open spec fn maybe_outgoing(o: Option<Outgoing>) -> Option<OutgoingView> {
    match o {
        None => None,
        Some(out) => Some(OutgoingView { to: out.to, data: out.data@ }),
    }
}

/// The answer to a `Hello`.
pub open spec fn reply_bytes(
    status: Status,
    session: u32,
    mic: Format,
    speaker: Format,
    message: Seq<char>,
) -> Seq<u8> {
    packet::packet_bytes(
        packet::PacketView::HelloAck { status, session, mic, speaker, message },
    )
}

/// What a session of these settings does, in words.
pub open spec fn summary_of(cfg: VmConfig) -> Seq<char> {
    let mic = if cfg.mic.enabled {
        "mic -> "@ + text::or_default(cfg.mic.device@, "(default render)"@)
    } else {
        "mic disabled"@
    };
    let speaker = if cfg.speaker.enabled {
        "speaker <- "@ + cfg.speaker.mode.words() + ":"@ + text::or_default(
            cfg.speaker.device@,
            "(default)"@,
        )
    } else {
        "speaker disabled"@
    };
    mic + ", "@ + speaker
}

/// What exists only while a host is connected.
#[verifier::ext_equal]
pub struct PeerModel {
    pub id: u32,
    pub peer: Endpoint,
    /// The host's address in words.
    pub label: Seq<char>,
    pub mic: Format,
    pub speaker: Format,
    /// When the host's last packet came.
    pub last_rx: u64,
    /// Sequence number of the next playback packet.
    pub seq: u32,
}

/// What a [`VmSession`] stands for.
#[verifier::ext_equal]
pub struct VmModel {
    pub token: Seq<char>,
    pub idle_timeout_ms: u64,
    /// Microphone audio is wanted.
    pub mic_enabled: bool,
    pub summary: Seq<char>,
    pub host: Option<PeerModel>,
    pub counters: Counters,
}

impl VmModel {
    /// An agent that waits for a host.
    pub open spec fn fresh(cfg: VmConfig) -> VmModel {
        VmModel {
            token: cfg.token@,
            idle_timeout_ms: cfg.idle_timeout_ms,
            mic_enabled: cfg.mic.enabled,
            summary: summary_of(cfg),
            host: None,
            counters: Counters { mic_packets: 0, speaker_packets: 0, speaker_dropped: 0 },
        }
    }

    /// The session belongs to `peer` and is called `id`.
    pub open spec fn owned_by(self, peer: Endpoint, id: u32) -> bool {
        self.host matches Some(h) && h.peer == peer && h.id == id
    }

    /// The host is heard from at `now`.
    pub open spec fn awake(self, now: u64) -> VmModel {
        match self.host {
            None => self,
            Some(h) => VmModel { host: Some(PeerModel { last_rx: now, ..h }), ..self },
        }
    }

    /// A session that belongs to someone else, who has not been silent for long.
    pub open spec fn taken(self, now: u64, peer: Endpoint) -> bool {
        self.host matches Some(h) && h.peer != peer && clock::elapsed(now, h.last_rx)
            < self.idle_timeout_ms * NANOS_PER_MS
    }

    /// A `Hello` that asks for what is there already.
    pub open spec fn unchanged(
        self,
        peer: Endpoint,
        id: u32,
        mic: Format,
        speaker: Format,
    ) -> bool {
        self.host matches Some(h) && h.id == id && h.peer == peer && h.mic == mic && h.speaker
            == speaker
    }

    /// A `Hello`.
    pub open spec fn greeted(
        self,
        now: u64,
        start: PendingStartView,
        token: Seq<u8>,
    ) -> (VmModel, VmActionView) {
        let id = start.id;
        let mic = start.mic;
        let speaker = start.speaker;
        if encode_utf8(self.token) != token {
            (
                self,
                VmActionView::BadToken(
                    reply_bytes(Status::AuthFailed, id, mic, speaker, Seq::empty()),
                ),
            )
        } else if let Some(e) = mic.complaint() {
            (
                self,
                VmActionView::BadFormat(
                    reply_bytes(Status::UnsupportedFormat, id, mic, speaker, "mic: "@ + e),
                ),
            )
        } else if let Some(e) = speaker.complaint() {
            (
                self,
                VmActionView::BadFormat(
                    reply_bytes(Status::UnsupportedFormat, id, mic, speaker, "speaker: "@ + e),
                ),
            )
        } else if self.taken(now, start.peer) {
            (
                self,
                VmActionView::Busy(
                    reply_bytes(Status::Busy, id, mic, speaker, self.host->Some_0.label),
                ),
            )
        } else if self.unchanged(start.peer, id, mic, speaker) {
            (
                self.awake(now),
                VmActionView::Welcome(reply_bytes(Status::Okay, id, mic, speaker, self.summary)),
            )
        } else {
            (
                VmModel { host: None, ..self },
                VmActionView::Start {
                    start,
                    replaced: match self.host {
                        None => None,
                        Some(h) => Some(h.id),
                    },
                },
            )
        }
    }

    /// A host whose devices are open.
    pub open spec fn started(self, now: u64, start: PendingStartView) -> VmModel {
        VmModel {
            host: Some(
                PeerModel {
                    id: start.id,
                    peer: start.peer,
                    label: start.label,
                    mic: start.mic,
                    speaker: start.speaker,
                    last_rx: now,
                    seq: 0,
                },
            ),
            ..self
        }
    }

    /// An audio packet.
    pub open spec fn heard(
        self,
        now: u64,
        peer: Endpoint,
        header: AudioHeader,
        payload: Seq<u8>,
    ) -> (VmModel, VmActionView) {
        if !self.owned_by(peer, header.session) || header.direction != Direction::Mic {
            (self, VmActionView::Ignore)
        } else {
            (
                VmModel {
                    counters: Counters {
                        mic_packets: jitter::counted(self.counters.mic_packets, 1),
                        ..self.counters
                    },
                    ..self.awake(now)
                },
                if self.mic_enabled {
                    VmActionView::Play { seq: header.seq, samples: bytes::samples_of(payload) }
                } else {
                    VmActionView::Heard
                },
            )
        }
    }

    /// A control packet.
    pub open spec fn told(
        self,
        now: u64,
        peer: Endpoint,
        label: Seq<char>,
        p: packet::PacketView,
    ) -> (VmModel, VmActionView) {
        match p {
            packet::PacketView::Hello { token, session, mic, speaker } => self.greeted(
                now,
                PendingStartView { id: session, peer, label, mic, speaker },
                token,
            ),
            packet::PacketView::Ping { session, nonce } => if self.owned_by(peer, session) {
                (
                    self.awake(now),
                    VmActionView::Pong(
                        packet::packet_bytes(packet::PacketView::Pong { session, nonce }),
                    ),
                )
            } else {
                (self, VmActionView::Ignore)
            },
            packet::PacketView::Pong { session, .. } => if self.owned_by(peer, session) {
                (self.awake(now), VmActionView::Ignore)
            } else {
                (self, VmActionView::Ignore)
            },
            packet::PacketView::Bye { session } => if self.owned_by(peer, session) {
                (VmModel { host: None, ..self }, VmActionView::Closed)
            } else {
                (self, VmActionView::Ignore)
            },
            packet::PacketView::HelloAck { .. } => (self, VmActionView::Ignore),
        }
    }

    /// A packet that came from `peer` at `now`.
    pub open spec fn received(
        self,
        now: u64,
        peer: Endpoint,
        label: Seq<char>,
        b: Seq<u8>,
    ) -> (VmModel, VmActionView) {
        match packet::decoded(b) {
            Err(e) => (self, VmActionView::Malformed(e)),
            Ok(packet::IncomingView::Audio { header, payload }) => self.heard(
                now,
                peer,
                header,
                payload,
            ),
            Ok(packet::IncomingView::Control(p)) => self.told(now, peer, label, p),
        }
    }

    /// A packet of captured playback: sent to the host, if there is one.
    pub open spec fn captured(self, pcm: Seq<i16>) -> (VmModel, Option<OutgoingView>) {
        match self.host {
            None => (self, None),
            Some(h) => (
                VmModel {
                    host: Some(PeerModel { seq: jitter::later_seq(h.seq, 1), ..h }),
                    ..self
                },
                Some(
                    OutgoingView {
                        to: h.peer,
                        data: packet::audio_bytes(
                            h.id,
                            Direction::Speaker,
                            h.seq,
                            h.speaker.channels,
                            pcm,
                        ),
                    },
                ),
            ),
        }
    }

    /// A playback packet that was handed to the network.
    pub open spec fn sent(self, ok: bool) -> VmModel {
        VmModel {
            counters: if ok {
                Counters {
                    speaker_packets: jitter::counted(self.counters.speaker_packets, 1),
                    ..self.counters
                }
            } else {
                Counters {
                    speaker_dropped: jitter::counted(self.counters.speaker_dropped, 1),
                    ..self.counters
                }
            },
            ..self
        }
    }

    /// The host has been silent for longer than the idle timeout.
    pub open spec fn idle(self, now: u64) -> bool {
        self.host matches Some(h) && clock::elapsed(now, h.last_rx) > self.idle_timeout_ms * NANOS_PER_MS
    }

    /// A look for a silent host: how long it was quiet, if it is closed.
    pub open spec fn swept(self, now: u64) -> (VmModel, Option<u64>) {
        if self.idle(now) {
            (
                VmModel { host: None, ..self },
                Some(clock::elapsed(now, self.host->Some_0.last_rx)),
            )
        } else {
            (self, None)
        }
    }

    /// A host whose devices are open, and the answer to it.
    pub open spec fn opened(self, now: u64, start: PendingStartView) -> (VmModel, Seq<u8>) {
        (
            self.started(now, start),
            reply_bytes(Status::Okay, start.id, start.mic, start.speaker, self.summary),
        )
    }

    /// The answer to a host whose devices did not open.
    pub open spec fn apology(self, start: PendingStartView, message: Seq<char>) -> Seq<u8> {
        reply_bytes(Status::ServerError, start.id, start.mic, start.speaker, message)
    }

    /// The end of the agent, and what is sent on the way out.
    pub open spec fn left(self) -> (VmModel, Option<OutgoingView>) {
        (
            VmModel { host: None, ..self },
            match self.host {
                None => None,
                Some(h) => Some(
                    OutgoingView {
                        to: h.peer,
                        data: packet::packet_bytes(packet::PacketView::Bye { session: h.id }),
                    },
                ),
            },
        )
    }
}

struct Peer {
    id: u32,
    peer: Endpoint,
    label: String,
    mic: Format,
    speaker: Format,
    last_rx: u64,
    seq: u32,
}

impl Peer {
    spec fn model(self) -> PeerModel {
        PeerModel {
            id: self.id,
            peer: self.peer,
            label: self.label@,
            mic: self.mic,
            speaker: self.speaker,
            last_rx: self.last_rx,
            seq: self.seq,
        }
    }
}

/// The VM agent, with or without a host.
pub struct VmSession {
    token: String,
    idle_timeout_ms: u64,
    mic_enabled: bool,
    summary: String,
    host: Option<Peer>,
    counters: Counters,
}

impl View for VmSession {
    type V = VmModel;

    closed spec fn view(&self) -> VmModel {
        VmModel {
            token: self.token@,
            idle_timeout_ms: self.idle_timeout_ms,
            mic_enabled: self.mic_enabled,
            summary: self.summary@,
            host: match self.host {
                None => None,
                Some(h) => Some(h.model()),
            },
            counters: self.counters,
        }
    }
}

/// The answer to a `Hello`.
fn reply(status: Status, start: &PendingStart, message: String) -> (data: Vec<u8>)
    ensures
        data@ == reply_bytes(status, start.id, start.mic, start.speaker, message@),
{
    Packet::HelloAck {
        status,
        session: start.id,
        mic: start.mic,
        speaker: start.speaker,
        message,
    }.encode()
}

/// What a session of these settings does, in words.
pub fn summary(cfg: &VmConfig) -> (s: String)
    ensures
        s@ == summary_of(*cfg),
{
    let mut s: String = String::new();
    if cfg.mic.enabled {
        s.append("mic -> ");
        match cfg.mic.device() {
            Some(name) => s.append(name),
            None => s.append("(default render)"),
        }
    } else {
        s.append("mic disabled");
    }
    s.append(", ");
    if cfg.speaker.enabled {
        s.append("speaker <- ");
        s.append(cfg.speaker.mode.name());
        s.append(":");
        match cfg.speaker.device() {
            Some(name) => s.append(name),
            None => s.append("(default)"),
        }
    } else {
        s.append("speaker disabled");
    }
    assert(s@ =~= summary_of(*cfg));
    s
}

impl VmSession {
    /// An agent that waits for a host.
    pub fn new(cfg: &VmConfig) -> (s: Self)
        ensures
            s@ == VmModel::fresh(*cfg),
    {
        VmSession {
            token: cfg.token.as_str().to_owned(),
            idle_timeout_ms: cfg.idle_timeout_ms,
            mic_enabled: cfg.mic.enabled,
            summary: summary(cfg),
            host: None,
            counters: Counters { mic_packets: 0, speaker_packets: 0, speaker_dropped: 0 },
        }
    }

    /// A host is connected.
    pub fn connected(&self) -> (yes: bool)
        ensures
            yes == (self@.host is Some),
    {
        self.host.is_some()
    }

    /// What a session does, in words.
    pub fn summary(&self) -> (s: &str)
        ensures
            s@ == self@.summary,
    {
        self.summary.as_str()
    }

    /// The connected host's address in words.
    pub fn owner(&self) -> (label: Option<&str>)
        ensures
            text::optional(label) == match self@.host {
                None => None,
                Some(h) => Some(h.label),
            },
    {
        match &self.host {
            None => None,
            Some(h) => Some(h.label.as_str()),
        }
    }

    /// The counters so far.
    pub fn counters(&self) -> (c: Counters)
        ensures
            c == self@.counters,
    {
        self.counters
    }

    fn owned_by(&self, peer: Endpoint, id: u32) -> (yes: bool)
        ensures
            yes == self@.owned_by(peer, id),
    {
        match &self.host {
            None => false,
            Some(h) => h.peer == peer && h.id == id,
        }
    }

    fn wake(&mut self, now: u64)
        ensures
            final(self)@ == old(self)@.awake(now),
    {
        match self.host.take() {
            None => {},
            Some(h) => {
                self.host = Some(Peer { last_rx: now, ..h });
            },
        }
    }

    /// What to do about a packet that came from `peer`, in words `label`, at `now`.
    pub fn on_packet(&mut self, now: u64, peer: Endpoint, label: &str, buf: &[u8]) -> (action:
        VmAction)
        ensures
            (final(self)@, action@) == old(self)@.received(now, peer, label@, buf@),
    {
        match decode(buf) {
            Err(e) => VmAction::Malformed(e),
            Ok(Incoming::Audio { header, payload }) => {
                if !self.owned_by(peer, header.session) || header.direction != Direction::Mic {
                    return VmAction::Ignore;
                }
                self.wake(now);
                self.counters.mic_packets = self.counters.mic_packets.wrapping_add(1);
                if !self.mic_enabled {
                    return VmAction::Heard;
                }
                let mut samples: Vec<i16> = Vec::new();
                decode_samples(payload, &mut samples);
                VmAction::Play { seq: header.seq, samples }
            },
            Ok(Incoming::Control(p)) => self.on_control(now, peer, label, p),
        }
    }

    fn on_control(&mut self, now: u64, peer: Endpoint, label: &str, p: Packet) -> (action: VmAction)
        ensures
            (final(self)@, action@) == old(self)@.told(now, peer, label@, p@),
    {
        match p {
            Packet::Hello { token, session, mic, speaker } => {
                let start: PendingStart = PendingStart {
                    id: session,
                    peer,
                    label: label.to_owned(),
                    mic,
                    speaker,
                };
                self.handle_hello(now, start, token)
            },
            Packet::Ping { session, nonce } => {
                if !self.owned_by(peer, session) {
                    return VmAction::Ignore;
                }
                self.wake(now);
                VmAction::Pong(Packet::Pong { session, nonce }.encode())
            },
            Packet::Pong { session, .. } => {
                if self.owned_by(peer, session) {
                    self.wake(now);
                }
                VmAction::Ignore
            },
            Packet::Bye { session } => {
                if !self.owned_by(peer, session) {
                    return VmAction::Ignore;
                }
                self.host = None;
                VmAction::Closed
            },
            Packet::HelloAck { .. } => VmAction::Ignore,
        }
    }

    /// What to do about a `Hello` that came at `now` with `token`. One that asks for
    /// the session that is up already leaves it alone.
    pub fn handle_hello(&mut self, now: u64, start: PendingStart, token: Vec<u8>) -> (action:
        VmAction)
        ensures
            (final(self)@, action@) == old(self)@.greeted(now, start@, token@),
    {
        if !token_matches(self.token.as_str(), token.as_slice()) {
            return VmAction::BadToken(reply(Status::AuthFailed, &start, String::new()));
        }
        if let Err(e) = start.mic.validate() {
            let message: String = "mic: ".to_owned().concat(e.as_str());
            return VmAction::BadFormat(reply(Status::UnsupportedFormat, &start, message));
        }
        if let Err(e) = start.speaker.validate() {
            let message: String = "speaker: ".to_owned().concat(e.as_str());
            return VmAction::BadFormat(reply(Status::UnsupportedFormat, &start, message));
        }
        // A live session belongs to its host until it times out.
        let mut replaced: Option<u32> = None;
        if let Some(h) = &self.host {
            let silence: u64 = time_since(now, h.last_rx);
            if h.peer != start.peer && (silence as u128) < self.idle_timeout_ms as u128
                * NANOS_PER_MS as u128 {
                return VmAction::Busy(reply(Status::Busy, &start, h.label.as_str().to_owned()));
            }
            // Repeat Hellos are normal — the host resends until an ack gets through —
            // so only rebuild the audio pipeline when something actually changed.
            if h.id == start.id && h.peer == start.peer && h.mic == start.mic && h.speaker
                == start.speaker {
                let data: Vec<u8> = reply(
                    Status::Okay,
                    &start,
                    self.summary.as_str().to_owned(),
                );
                self.wake(now);
                return VmAction::Welcome(data);
            }
            replaced = Some(h.id);
        }
        self.host = None;
        VmAction::Start { start, replaced }
    }

    /// The audio devices of `start` are open. Send the answer to the host.
    pub fn on_started(&mut self, now: u64, start: PendingStart) -> (data: Vec<u8>)
        ensures
            final(self)@ == old(self)@.started(now, start@),
            data@ == reply_bytes(
                Status::Okay,
                start.id,
                start.mic,
                start.speaker,
                old(self)@.summary,
            ),
            (final(self)@, data@) == old(self)@.opened(now, start@),
    {
        let data: Vec<u8> = reply(Status::Okay, &start, self.summary.as_str().to_owned());
        self.host = Some(
            Peer {
                id: start.id,
                peer: start.peer,
                label: start.label,
                mic: start.mic,
                speaker: start.speaker,
                last_rx: now,
                seq: 0,
            },
        );
        data
    }

    /// The audio devices of `start` did not open. Send the answer to the host.
    pub fn on_start_failed(&self, start: &PendingStart, message: &str) -> (data: Vec<u8>)
        ensures
            data@ == reply_bytes(
                Status::ServerError,
                start.id,
                start.mic,
                start.speaker,
                message@,
            ),
            data@ == self@.apology(start@, message@),
    {
        reply(Status::ServerError, start, message.to_owned())
    }

    /// The packet that carries captured playback, if there is a host. Report with
    /// [`VmSession::on_sent`] whether the network took it.
    pub fn on_capture(&mut self, pcm: &[i16]) -> (out: Option<Outgoing>)
        ensures
            (final(self)@, maybe_outgoing(out)) == old(self)@.captured(pcm@),
    {
        match self.host.take() {
            None => None,
            Some(h) => {
                let mut data: Vec<u8> = Vec::new();
                encode_audio(
                    &mut data,
                    h.id,
                    Direction::Speaker,
                    h.seq,
                    h.speaker.channels,
                    pcm,
                );
                let to: Endpoint = h.peer;
                let seq: u32 = h.seq.wrapping_add(1);
                self.host = Some(Peer { seq, ..h });
                Some(Outgoing { to, data })
            },
        }
    }

    /// The network took a playback packet, or did not.
    pub fn on_sent(&mut self, ok: bool)
        ensures
            final(self)@ == old(self)@.sent(ok),
    {
        if ok {
            self.counters.speaker_packets = self.counters.speaker_packets.wrapping_add(1);
        } else {
            self.counters.speaker_dropped = self.counters.speaker_dropped.wrapping_add(1);
        }
    }

    /// Closes the session of a host that went quiet: then stop the audio devices. The
    /// result is how long it was quiet.
    pub fn on_sweep(&mut self, now: u64) -> (after: Option<u64>)
        ensures
            after is Some <==> old(self)@.idle(now),
            after matches Some(d) ==> d == clock::elapsed(now, old(self)@.host->Some_0.last_rx),
            final(self)@ == if old(self)@.idle(now) {
                VmModel { host: None, ..old(self)@ }
            } else {
                old(self)@
            },
            (final(self)@, after) == old(self)@.swept(now),
    {
        if let Some(h) = &self.host {
            let silence: u64 = time_since(now, h.last_rx);
            if silence as u128 > self.idle_timeout_ms as u128 * NANOS_PER_MS as u128 {
                self.host = None;
                return Some(silence);
            }
        }
        None
    }

    /// Ends the session on the way out: send the `Bye` and stop the audio devices.
    pub fn on_shutdown(&mut self) -> (out: Option<Outgoing>)
        ensures
            final(self)@ == (VmModel { host: None, ..old(self)@ }),
            maybe_outgoing(out) == match old(self)@.host {
                None => None,
                Some(h) => Some(
                    OutgoingView {
                        to: h.peer,
                        data: packet::packet_bytes(packet::PacketView::Bye { session: h.id }),
                    },
                ),
            },
            (final(self)@, maybe_outgoing(out)) == old(self)@.left(),
    {
        match self.host.take() {
            None => None,
            Some(h) => Some(
                Outgoing { to: h.peer, data: Packet::Bye { session: h.id }.encode() },
            ),
        }
    }
}

/// The jitter buffer for the microphone stream of format `mic`, if that is switched
/// on.
pub fn mic_buffer(cfg: &VmConfig, mic: &Format) -> (jb: Option<JitterBuffer>)
    requires
        cfg.mic.enabled ==> jitter::addressable(
            mic.channels as nat,
            mic.rate,
            mic.frame_ms,
            cfg.mic.buffer_ms,
        ),
    ensures
        jb is Some <==> cfg.mic.enabled,
        jb matches Some(b) ==> b@.wf() && b@ == jitter::JitterModel::fresh(
            mic.channels as nat,
            mic.rate,
            mic.frame_ms,
            cfg.mic.buffer_ms,
        ),
{
    if !cfg.mic.enabled {
        return None;
    }
    Some(JitterBuffer::new(mic.channels as usize, mic.rate, mic.frame_ms, cfg.mic.buffer_ms))
}

/// A device to open when a session starts.
#[derive(Clone, Copy, PartialEq, Eq, Debug, Structural)]
pub enum StartStep {
    /// The virtual microphone feed.
    Render,
    /// Playback capture.
    Capture,
}

impl StartStep {
    /// This step in words.
    pub open spec fn words(self) -> Seq<char> {
        match self {
            StartStep::Render => "opening the virtual microphone feed"@,
            StartStep::Capture => "opening playback capture"@,
        }
    }
}

/// The devices that a session opens, in order.
pub open spec fn steps_of(cfg: VmConfig) -> Seq<StartStep> {
    let render = if cfg.mic.enabled {
        seq![StartStep::Render]
    } else {
        Seq::empty()
    };
    let capture = if cfg.speaker.enabled {
        seq![StartStep::Capture]
    } else {
        Seq::empty()
    };
    render + capture
}

/// The devices that a session opens, in order. The first one that fails ends the
/// start.
pub fn start_steps(cfg: &VmConfig) -> (steps: Vec<StartStep>)
    ensures
        steps@ == steps_of(*cfg),
{
    let mut steps: Vec<StartStep> = Vec::new();
    if cfg.mic.enabled {
        steps.push(StartStep::Render);
    }
    if cfg.speaker.enabled {
        steps.push(StartStep::Capture);
    }
    assert(steps@ =~= steps_of(*cfg));
    steps
}

/// What the host is told when `step` fails because of `cause`.
pub fn start_failure(step: StartStep, cause: &str) -> (message: String)
    ensures
        message@ == step.words() + ": "@ + cause@,
{
    let mut message: String = match step {
        StartStep::Render => "opening the virtual microphone feed".to_owned(),
        StartStep::Capture => "opening playback capture".to_owned(),
    };
    message.append(": ");
    message.append(cause);
    message
}

} // verus!
