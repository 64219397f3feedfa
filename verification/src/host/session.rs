//! The host end of the UDP session.
//!
//! The host is the client: it keeps sending `Hello` until the VM answers, then
//! streams microphone packets and consumes speaker packets over the same
//! socket. Because both directions share one 5-tuple, the Windows side only
//! needs a single inbound firewall rule and never has to dial back.
//!
//! [`HostSession`] decides; whoever runs it owns the socket, the clock and the
//! devices. Times are nanoseconds since any fixed moment.

use crate::bytes;
use crate::clock;
use crate::clock::{time_since, NANOS_PER_MS};
use crate::format::Format;
use crate::host::config::HostConfig;
use crate::jitter;
use crate::jitter::JitterBuffer;
use crate::packet;
use crate::packet::{
    decode, decode_samples, encode_audio, DecodeError, Direction, Incoming, Packet, Status,
};
use vstd::prelude::*;
use vstd::utf8::*;

verus! {

/// How often a live session is pinged.
pub const PING_INTERVAL_MS: u64 = 2_000;

/// How often the log gets a line of statistics.
pub const STATS_INTERVAL_MS: u64 = 10_000;

/// Microphone packets buffered between the audio thread and the socket. Eight
/// packets is ~80 ms: enough to ride out a scheduler hiccup, short enough that
/// anything worse is better dropped than delivered late.
pub const MIC_QUEUE: usize = 8;

/// Counters worth printing every now and then. They wrap around.
#[derive(Clone, Copy, PartialEq, Eq, Debug, Default, Structural)]
pub struct Counters {
    pub mic_packets: u64,
    pub mic_dropped: u64,
    pub speaker_packets: u64,
}

/// A ping that waits for its pong.
#[derive(Clone, Copy, PartialEq, Eq, Debug, Structural)]
pub struct PendingPing {
    pub nonce: u64,
    pub sent_at: u64,
}

/// What to do about a received packet.
#[derive(Debug)]
pub enum HostAction {
    /// Nothing.
    Ignore,
    /// Drop it and note why.
    Malformed(DecodeError),
    /// Push these samples into the speaker's jitter buffer.
    Play { seq: u32, samples: Vec<i16> },
    /// The session is up: reset the speaker's jitter buffer.
    BridgeUp { mic: Format, speaker: Format, message: String },
    /// The VM agent said no. Keep retrying: the operator may be fixing the far side.
    Rejected { status: Status, message: String },
    /// Send this.
    Reply(Vec<u8>),
    /// The VM agent hung up: reset the speaker's jitter buffer.
    Closed,
}

/// What a [`HostAction`] says.
#[verifier::ext_equal]
pub enum HostActionView {
    Ignore,
    Malformed(DecodeError),
    Play { seq: u32, samples: Seq<i16> },
    BridgeUp { mic: Format, speaker: Format, message: Seq<char> },
    Rejected { status: Status, message: Seq<char> },
    Reply(Seq<u8>),
    Closed,
}

impl View for HostAction {
    type V = HostActionView;

    open spec fn view(&self) -> HostActionView {
        match *self {
            HostAction::Ignore => HostActionView::Ignore,
            HostAction::Malformed(e) => HostActionView::Malformed(e),
            HostAction::Play { seq, samples } => HostActionView::Play { seq, samples: samples@ },
            HostAction::BridgeUp { mic, speaker, message } => HostActionView::BridgeUp {
                mic,
                speaker,
                message: message@,
            },
            HostAction::Rejected { status, message } => HostActionView::Rejected {
                status,
                message: message@,
            },
            HostAction::Reply(data) => HostActionView::Reply(data@),
            HostAction::Closed => HostActionView::Closed,
        }
    }
}

/// What to do when the ping timer fires.
#[derive(Debug)]
pub enum PingAction {
    /// No session, no ping.
    Nothing,
    /// Nothing came for this long: reset the speaker's jitter buffer and shake
    /// hands anew.
    Lost { after: u64 },
    /// Send this.
    Send(Vec<u8>),
}

/// What a [`PingAction`] says.
#[verifier::ext_equal]
pub enum PingActionView {
    Nothing,
    Lost { after: u64 },
    Send(Seq<u8>),
}

impl View for PingAction {
    type V = PingActionView;

    open spec fn view(&self) -> PingActionView {
        match *self {
            PingAction::Nothing => PingActionView::Nothing,
            PingAction::Lost { after } => PingActionView::Lost { after },
            PingAction::Send(data) => PingActionView::Send(data@),
        }
    }
}

/// `data` or nothing.
pub open spec fn maybe_bytes(data: Option<Vec<u8>>) -> Option<Seq<u8>> {
    match data {
        None => None,
        Some(v) => Some(v@),
    }
}

/// What a [`HostSession`] stands for.
#[verifier::ext_equal]
pub struct HostModel {
    pub id: u32,
    /// The `Hello` that opens the session, as it goes on the wire.
    pub hello: Seq<u8>,
    pub mic_channels: u8,
    /// Speaker audio is wanted.
    pub speaker: bool,
    pub idle_timeout_ms: u64,
    pub established: bool,
    /// When the last packet came.
    pub last_rx: u64,
    /// Sequence number of the next microphone packet.
    pub seq: u32,
    pub pending_ping: Option<PendingPing>,
    /// The last measured round trip.
    pub rtt: Option<u64>,
    pub counters: Counters,
}

impl HostModel {
    /// A session that has not been answered yet.
    pub open spec fn fresh(id: u32, cfg: HostConfig, now: u64) -> HostModel {
        HostModel {
            id,
            hello: packet::packet_bytes(
                packet::PacketView::Hello {
                    token: encode_utf8(cfg.server.token@),
                    session: id,
                    mic: cfg.mic.spec_format(),
                    speaker: cfg.speaker.spec_format(),
                },
            ),
            mic_channels: cfg.mic.channels,
            speaker: cfg.speaker.enabled,
            idle_timeout_ms: cfg.server.idle_timeout_ms,
            established: false,
            last_rx: now,
            seq: 0,
            pending_ping: None,
            rtt: None,
            counters: Counters { mic_packets: 0, mic_dropped: 0, speaker_packets: 0 },
        }
    }

    /// An audio packet of this session's speaker, to be played.
    pub open spec fn heard(self, header: packet::AudioHeader, payload: Seq<u8>) -> (
        HostModel,
        HostActionView,
    ) {
        if header.session != self.id || header.direction != Direction::Speaker || !self.speaker {
            (self, HostActionView::Ignore)
        } else {
            (
                HostModel {
                    counters: Counters {
                        speaker_packets: jitter::counted(self.counters.speaker_packets, 1),
                        ..self.counters
                    },
                    ..self
                },
                HostActionView::Play { seq: header.seq, samples: bytes::samples_of(payload) },
            )
        }
    }

    /// The VM agent's answer to the `Hello`.
    pub open spec fn answered(
        self,
        status: Status,
        mic: Format,
        speaker: Format,
        message: Seq<char>,
    ) -> (HostModel, HostActionView) {
        if status != Status::Okay {
            (
                HostModel { established: false, ..self },
                HostActionView::Rejected { status, message },
            )
        } else if self.established {
            (self, HostActionView::Ignore)
        } else {
            (
                HostModel { established: true, seq: 0, ..self },
                HostActionView::BridgeUp { mic, speaker, message },
            )
        }
    }

    /// A pong for `nonce`.
    pub open spec fn ponged(self, now: u64, nonce: u64) -> HostModel {
        match self.pending_ping {
            Some(ping) if ping.nonce == nonce => HostModel {
                rtt: Some(clock::elapsed(now, ping.sent_at)),
                pending_ping: None,
                ..self
            },
            _ => self,
        }
    }

    /// A control packet.
    pub open spec fn told(self, now: u64, p: packet::PacketView) -> (HostModel, HostActionView) {
        match p {
            packet::PacketView::HelloAck { status, session, mic, speaker, message } => if session
                == self.id {
                self.answered(status, mic, speaker, message)
            } else {
                (self, HostActionView::Ignore)
            },
            packet::PacketView::Ping { session, nonce } => if session == self.id {
                (
                    self,
                    HostActionView::Reply(
                        packet::packet_bytes(packet::PacketView::Pong { session, nonce }),
                    ),
                )
            } else {
                (self, HostActionView::Ignore)
            },
            packet::PacketView::Pong { session, nonce } => if session == self.id {
                (self.ponged(now, nonce), HostActionView::Ignore)
            } else {
                (self, HostActionView::Ignore)
            },
            packet::PacketView::Bye { session } => if session == self.id {
                (HostModel { established: false, ..self }, HostActionView::Closed)
            } else {
                (self, HostActionView::Ignore)
            },
            packet::PacketView::Hello { .. } => (self, HostActionView::Ignore),
        }
    }

    /// A packet that came at `now`.
    pub open spec fn received(self, now: u64, b: Seq<u8>) -> (HostModel, HostActionView) {
        let awake = HostModel { last_rx: now, ..self };
        match packet::decoded(b) {
            Err(e) => (awake, HostActionView::Malformed(e)),
            Ok(packet::IncomingView::Audio { header, payload }) => awake.heard(header, payload),
            Ok(packet::IncomingView::Control(p)) => awake.told(now, p),
        }
    }

    /// A packet of microphone samples: sent while the session is up, else dropped.
    pub open spec fn spoken(self, pcm: Seq<i16>) -> (HostModel, Option<Seq<u8>>) {
        if self.established {
            (
                HostModel { seq: jitter::later_seq(self.seq, 1), ..self },
                Some(
                    packet::audio_bytes(self.id, Direction::Mic, self.seq, self.mic_channels, pcm),
                ),
            )
        } else {
            (
                HostModel {
                    counters: Counters {
                        mic_dropped: jitter::counted(self.counters.mic_dropped, 1),
                        ..self.counters
                    },
                    ..self
                },
                None,
            )
        }
    }

    /// A microphone packet that was handed to the network.
    pub open spec fn sent(self, ok: bool) -> HostModel {
        HostModel {
            counters: if ok {
                Counters {
                    mic_packets: jitter::counted(self.counters.mic_packets, 1),
                    ..self.counters
                }
            } else {
                Counters {
                    mic_dropped: jitter::counted(self.counters.mic_dropped, 1),
                    ..self.counters
                }
            },
            ..self
        }
    }

    /// Nothing has come for longer than the idle timeout.
    pub open spec fn idle(self, now: u64) -> bool {
        clock::elapsed(now, self.last_rx) > self.idle_timeout_ms * NANOS_PER_MS
    }

    /// What is sent when the handshake timer fires.
    pub open spec fn knock(self) -> Option<Seq<u8>> {
        if self.established {
            None
        } else {
            Some(self.hello)
        }
    }

    /// What is sent on the way out.
    pub open spec fn farewell(self) -> Option<Seq<u8>> {
        if self.established {
            Some(packet::packet_bytes(packet::PacketView::Bye { session: self.id }))
        } else {
            None
        }
    }

    /// The ping timer fired.
    pub open spec fn pinged(self, now: u64, nonce: u64) -> (HostModel, PingActionView) {
        if !self.established {
            (self, PingActionView::Nothing)
        } else if self.idle(now) {
            (
                HostModel { established: false, pending_ping: None, rtt: None, ..self },
                PingActionView::Lost { after: clock::elapsed(now, self.last_rx) },
            )
        } else {
            (
                HostModel { pending_ping: Some(PendingPing { nonce, sent_at: now }), ..self },
                PingActionView::Send(
                    packet::packet_bytes(packet::PacketView::Ping { session: self.id, nonce }),
                ),
            )
        }
    }
}

/// One run of the host agent.
pub struct HostSession {
    id: u32,
    hello: Vec<u8>,
    mic_channels: u8,
    speaker: bool,
    idle_timeout_ms: u64,
    established: bool,
    last_rx: u64,
    seq: u32,
    pending_ping: Option<PendingPing>,
    rtt: Option<u64>,
    counters: Counters,
}

impl View for HostSession {
    type V = HostModel;

    closed spec fn view(&self) -> HostModel {
        HostModel {
            id: self.id,
            hello: self.hello@,
            mic_channels: self.mic_channels,
            speaker: self.speaker,
            idle_timeout_ms: self.idle_timeout_ms,
            established: self.established,
            last_rx: self.last_rx,
            seq: self.seq,
            pending_ping: self.pending_ping,
            rtt: self.rtt,
            counters: self.counters,
        }
    }
}

impl HostSession {
    /// A session named `id` that has not been answered yet.
    pub fn new(id: u32, cfg: &HostConfig, now: u64) -> (s: Self)
        ensures
            s@ == HostModel::fresh(id, *cfg, now),
    {
        let hello: Packet = Packet::Hello {
            token: vstd::slice::slice_to_vec(cfg.server.token.as_str().as_bytes()),
            session: id,
            mic: cfg.mic.format(),
            speaker: cfg.speaker.format(),
        };
        HostSession {
            id,
            hello: hello.encode(),
            mic_channels: cfg.mic.channels,
            speaker: cfg.speaker.enabled,
            idle_timeout_ms: cfg.server.idle_timeout_ms,
            established: false,
            last_rx: now,
            seq: 0,
            pending_ping: None,
            rtt: None,
            counters: Counters { mic_packets: 0, mic_dropped: 0, speaker_packets: 0 },
        }
    }

    /// The VM agent has accepted the handshake.
    pub fn established(&self) -> (up: bool)
        ensures
            up == self@.established,
    {
        self.established
    }

    /// The last measured round trip.
    pub fn rtt(&self) -> (rtt: Option<u64>)
        ensures
            rtt == self@.rtt,
    {
        self.rtt
    }

    /// The counters so far.
    pub fn counters(&self) -> (c: Counters)
        ensures
            c == self@.counters,
    {
        self.counters
    }

    /// What to do about a packet that came at `now`.
    pub fn on_packet(&mut self, now: u64, buf: &[u8]) -> (action: HostAction)
        ensures
            (final(self)@, action@) == old(self)@.received(now, buf@),
    {
        self.last_rx = now;
        match decode(buf) {
            Err(e) => HostAction::Malformed(e),
            Ok(Incoming::Audio { header, payload }) => {
                if header.session != self.id || header.direction != Direction::Speaker
                    || !self.speaker {
                    return HostAction::Ignore;
                }
                let mut samples: Vec<i16> = Vec::new();
                decode_samples(payload, &mut samples);
                self.counters.speaker_packets = self.counters.speaker_packets.wrapping_add(1);
                HostAction::Play { seq: header.seq, samples }
            },
            Ok(Incoming::Control(p)) => self.on_control(now, p),
        }
    }

    fn on_control(&mut self, now: u64, p: Packet) -> (action: HostAction)
        ensures
            (final(self)@, action@) == old(self)@.told(now, p@),
    {
        match p {
            Packet::HelloAck { status, session, mic, speaker, message } => {
                if session != self.id {
                    return HostAction::Ignore;
                }
                if status != Status::Okay {
                    self.established = false;
                    return HostAction::Rejected { status, message };
                }
                if self.established {
                    return HostAction::Ignore;
                }
                self.established = true;
                self.seq = 0;
                HostAction::BridgeUp { mic, speaker, message }
            },
            Packet::Ping { session, nonce } => {
                if session != self.id {
                    return HostAction::Ignore;
                }
                HostAction::Reply(Packet::Pong { session, nonce }.encode())
            },
            Packet::Pong { session, nonce } => {
                if session == self.id {
                    if let Some(ping) = self.pending_ping {
                        if ping.nonce == nonce {
                            self.rtt = Some(time_since(now, ping.sent_at));
                            self.pending_ping = None;
                        }
                    }
                }
                HostAction::Ignore
            },
            Packet::Bye { session } => {
                if session != self.id {
                    return HostAction::Ignore;
                }
                self.established = false;
                HostAction::Closed
            },
            Packet::Hello { .. } => HostAction::Ignore,
        }
    }

    /// The packet that carries microphone samples, if the session is up. Report with
    /// [`HostSession::on_sent`] whether the network took it.
    pub fn on_microphone(&mut self, pcm: &[i16]) -> (data: Option<Vec<u8>>)
        ensures
            (final(self)@, maybe_bytes(data)) == old(self)@.spoken(pcm@),
    {
        if !self.established {
            self.counters.mic_dropped = self.counters.mic_dropped.wrapping_add(1);
            return None;
        }
        let mut data: Vec<u8> = Vec::new();
        encode_audio(&mut data, self.id, Direction::Mic, self.seq, self.mic_channels, pcm);
        self.seq = self.seq.wrapping_add(1);
        Some(data)
    }

    /// The network took a microphone packet, or did not.
    pub fn on_sent(&mut self, ok: bool)
        ensures
            final(self)@ == old(self)@.sent(ok),
    {
        if ok {
            self.counters.mic_packets = self.counters.mic_packets.wrapping_add(1);
        } else {
            self.counters.mic_dropped = self.counters.mic_dropped.wrapping_add(1);
        }
    }

    /// The `Hello` to send when the handshake timer fires, until the VM has answered.
    pub fn on_hello_timer(&self) -> (data: Option<Vec<u8>>)
        ensures
            maybe_bytes(data) == if self@.established {
                None::<Seq<u8>>
            } else {
                Some(self@.hello)
            },
            maybe_bytes(data) == self@.knock(),
    {
        if self.established {
            None
        } else {
            Some(vstd::slice::slice_to_vec(self.hello.as_slice()))
        }
    }

    /// What to do when the ping timer fires.
    pub fn on_ping_timer(&mut self, now: u64, nonce: u64) -> (action: PingAction)
        ensures
            (final(self)@, action@) == old(self)@.pinged(now, nonce),
    {
        if !self.established {
            return PingAction::Nothing;
        }
        let after: u64 = time_since(now, self.last_rx);
        if after as u128 > self.idle_timeout_ms as u128 * NANOS_PER_MS as u128 {
            self.established = false;
            self.pending_ping = None;
            self.rtt = None;
            return PingAction::Lost { after };
        }
        self.pending_ping = Some(PendingPing { nonce, sent_at: now });
        PingAction::Send(Packet::Ping { session: self.id, nonce }.encode())
    }

    /// The `Bye` to send on the way out, if there is a session to leave.
    pub fn on_shutdown(&self) -> (data: Option<Vec<u8>>)
        ensures
            maybe_bytes(data) == if self@.established {
                Some(packet::packet_bytes(packet::PacketView::Bye { session: self@.id }))
            } else {
                None::<Seq<u8>>
            },
            maybe_bytes(data) == self@.farewell(),
    {
        if self.established {
            Some(Packet::Bye { session: self.id }.encode())
        } else {
            None
        }
    }
}

/// `x` with its halves swapped: a rotation by 16 bits.
pub open spec fn halves_swapped(x: u32) -> u32 {
    ((x % 0x1_0000) * 0x1_0000 + x / 0x1_0000) as u32
}

/// The identifier for a time since 1970, if the clock gives one, and a process.
pub open spec fn session_id_of(secs: u64, nanos: u32, pid: u32) -> u32 {
    (nanos ^ ((secs % 0x1_0000_0000) as u32)) ^ halves_swapped(pid)
}

/// A per-process identifier that survives restarts without a random source:
/// the far side only needs it to tell one run of the agent from the next.
/// `clock` is the time since 1970 in seconds and nanoseconds.
pub fn new_session_id(clock: Option<(u64, u32)>, pid: u32) -> (id: u32)
    ensures
        id == match clock {
            Some((secs, nanos)) => session_id_of(secs, nanos, pid),
            None => halves_swapped(pid),
        },
{
    let swapped: u32 = (pid % 0x1_0000) * 0x1_0000 + pid / 0x1_0000;
    match clock {
        Some((secs, nanos)) => (nanos ^ ((secs % 0x1_0000_0000) as u32)) ^ swapped,
        None => {
            assert(0u32 ^ swapped == swapped) by (bit_vector);
            0u32 ^ swapped
        },
    }
}

/// The jitter buffer for the speaker stream, if that is switched on.
pub fn speaker_buffer(cfg: &HostConfig) -> (jb: Option<JitterBuffer>)
    requires
        cfg.speaker.enabled ==> jitter::addressable(
            cfg.speaker.channels as nat,
            cfg.speaker.rate,
            cfg.speaker.frame_ms,
            cfg.speaker.buffer_ms,
        ),
    ensures
        jb is Some <==> cfg.speaker.enabled,
        jb matches Some(b) ==> b@.wf() && b@ == jitter::JitterModel::fresh(
            cfg.speaker.channels as nat,
            cfg.speaker.rate,
            cfg.speaker.frame_ms,
            cfg.speaker.buffer_ms,
        ),
{
    if !cfg.speaker.enabled {
        return None;
    }
    let f: Format = cfg.speaker.format();
    Some(JitterBuffer::new(f.channels as usize, f.rate, f.frame_ms, cfg.speaker.buffer_ms))
}

} // verus!
