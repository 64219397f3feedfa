//! Settings of the host agent.

use crate::endpoint::Endpoint;
use crate::format::Format;
use crate::packet::Direction;
use crate::text;
use crate::text::push_decimal;
use vstd::prelude::*;

verus! {

/// Everything the host agent can be told.
#[derive(Clone, Debug)]
pub struct HostConfig {
    pub server: ServerConfig,
    /// Host microphone -> VM virtual microphone.
    pub mic: MicConfig,
    /// VM playback -> host headphones.
    pub speaker: SpeakerConfig,
}

/// Where the VM agent is and how patient to be with it.
#[derive(Clone, Debug)]
pub struct ServerConfig {
    /// Address of the VM agent.
    pub address: Endpoint,
    pub token: String,
    /// Give up on a handshake attempt and retry after this long.
    pub handshake_timeout_ms: u64,
    /// Declare the link dead and re-handshake after this long without a packet.
    pub idle_timeout_ms: u64,
}

/// The microphone stream.
#[derive(Clone, Debug)]
pub struct MicConfig {
    pub enabled: bool,
    /// PulseAudio/PipeWire source name. Empty means the system default.
    pub device: String,
    pub rate: u32,
    pub channels: u8,
    pub frame_ms: u8,
}

/// The playback stream.
#[derive(Clone, Debug)]
pub struct SpeakerConfig {
    pub enabled: bool,
    /// PulseAudio/PipeWire sink name. Empty means the system default.
    pub device: String,
    pub rate: u32,
    pub channels: u8,
    pub frame_ms: u8,
    /// Jitter buffer target. This is the latency this side chooses to add in
    /// exchange for surviving network jitter and clock drift.
    pub buffer_ms: u32,
}

/// Streams are on unless switched off.
pub fn default_true() -> (b: bool)
    ensures
        b,
{
    true
}

/// 48 kHz.
pub fn default_rate() -> (rate: u32)
    ensures
        rate == 48_000,
{
    48_000
}

/// One channel, for the microphone.
pub fn default_mono() -> (channels: u8)
    ensures
        channels == 1,
{
    1
}

/// Two channels, for playback.
pub fn default_stereo() -> (channels: u8)
    ensures
        channels == 2,
{
    2
}

/// 10 ms of audio per packet.
pub fn default_frame_ms() -> (ms: u8)
    ensures
        ms == 10,
{
    10
}

/// 40 ms of jitter buffer.
pub fn default_buffer_ms() -> (ms: u32)
    ensures
        ms == 40,
{
    40
}

/// One handshake attempt per second.
pub fn default_handshake_timeout() -> (ms: u64)
    ensures
        ms == 1_000,
{
    1_000
}

/// Five seconds of silence end a session.
pub fn default_idle_timeout() -> (ms: u64)
    ensures
        ms == 5_000,
{
    5_000
}

impl Default for MicConfig {
    fn default() -> (c: Self)
        ensures
            c.enabled,
            c.device@ == Seq::<char>::empty(),
            c.spec_format() == (Format {
                rate: 48_000,
                channels: 1,
                codec: crate::format::Codec::PcmS16Le,
                frame_ms: 10,
            }),
    {
        MicConfig {
            enabled: true,
            device: String::new(),
            rate: default_rate(),
            channels: default_mono(),
            frame_ms: default_frame_ms(),
        }
    }
}

impl Default for SpeakerConfig {
    fn default() -> (c: Self)
        ensures
            c.enabled,
            c.device@ == Seq::<char>::empty(),
            c.spec_format() == (Format {
                rate: 48_000,
                channels: 2,
                codec: crate::format::Codec::PcmS16Le,
                frame_ms: 10,
            }),
            c.buffer_ms == 40,
    {
        SpeakerConfig {
            enabled: true,
            device: String::new(),
            rate: default_rate(),
            channels: default_stereo(),
            frame_ms: default_frame_ms(),
            buffer_ms: default_buffer_ms(),
        }
    }
}

/// `s` unless it is empty.
pub fn opt(s: &str) -> (name: Option<&str>)
    ensures
        text::optional(name) == text::named(s@),
{
    if s.is_empty() {
        None
    } else {
        Some(s)
    }
}

impl MicConfig {
    /// The format that this stream has.
    pub open spec fn spec_format(self) -> Format {
        Format {
            rate: self.rate,
            channels: self.channels,
            codec: crate::format::Codec::PcmS16Le,
            frame_ms: self.frame_ms,
        }
    }

    /// The format that this stream has.
    pub fn format(&self) -> (f: Format)
        ensures
            f == self.spec_format(),
    {
        Format::new(self.rate, self.channels, self.frame_ms)
    }

    /// `None` means "let the server pick the default device".
    pub fn device(&self) -> (name: Option<&str>)
        ensures
            text::optional(name) == text::named(self.device@),
    {
        opt(self.device.as_str())
    }
}

impl SpeakerConfig {
    /// The format that this stream has.
    pub open spec fn spec_format(self) -> Format {
        Format {
            rate: self.rate,
            channels: self.channels,
            codec: crate::format::Codec::PcmS16Le,
            frame_ms: self.frame_ms,
        }
    }

    /// The format that this stream has.
    pub fn format(&self) -> (f: Format)
        ensures
            f == self.spec_format(),
    {
        Format::new(self.rate, self.channels, self.frame_ms)
    }

    /// `None` means "let the server pick the default device".
    pub fn device(&self) -> (name: Option<&str>)
        ensures
            text::optional(name) == text::named(self.device@),
    {
        opt(self.device.as_str())
    }
}

/// A stream whose packets need IP fragmentation on a 1500-byte path.
#[derive(Clone, Copy, PartialEq, Eq, Debug, Structural)]
pub struct Fragmenting {
    pub stream: Direction,
    /// Bytes of samples in each packet.
    pub payload: u64,
}

/// `f` needs IP fragmentation on a 1500-byte path.
pub open spec fn fragments(f: Format) -> bool {
    f.spec_payload() + crate::format::AUDIO_HEADER_LEN + crate::format::IP_UDP_LEN
        > crate::format::ETHERNET_MTU
}

/// The warning that a stream calls for.
pub open spec fn warning_for(stream: Direction, f: Format) -> Seq<Fragmenting> {
    if fragments(f) {
        seq![Fragmenting { stream, payload: f.spec_payload() as u64 }]
    } else {
        Seq::empty()
    }
}

impl HostConfig {
    /// The jitter buffer holds at least two packets.
    pub open spec fn buffer_suffices(self) -> bool {
        self.speaker.buffer_ms >= 2 * self.speaker.frame_ms
    }

    /// What is wrong with these settings, if anything.
    pub open spec fn complaint(self) -> Option<Seq<char>> {
        if !self.mic.enabled && !self.speaker.enabled {
            Some("both `mic` and `speaker` are disabled: there is nothing to bridge"@)
        } else if let Some(e) = self.mic.spec_format().complaint() {
            Some("[mic] "@ + e)
        } else if let Some(e) = self.speaker.spec_format().complaint() {
            Some("[speaker] "@ + e)
        } else if self.speaker.enabled && !self.buffer_suffices() {
            Some(
                "[speaker] buffer_ms ("@ + text::decimal(self.speaker.buffer_ms as nat)
                    + ") must be at least two packets ("@ + text::decimal(
                    2 * self.speaker.frame_ms as nat,
                ) + " ms)"@,
            )
        } else if self.server.idle_timeout_ms < self.server.handshake_timeout_ms {
            Some("server.idle_timeout_ms must not be shorter than handshake_timeout_ms"@)
        } else {
            None
        }
    }

    /// The settings that a session can run with.
    pub open spec fn valid(self) -> bool {
        &&& self.mic.enabled || self.speaker.enabled
        &&& self.mic.spec_format().valid()
        &&& self.speaker.spec_format().valid()
        &&& self.speaker.enabled ==> self.buffer_suffices()
        &&& self.server.idle_timeout_ms >= self.server.handshake_timeout_ms
    }

    /// A refusal says what is wrong with the settings.
    pub fn validate(&self) -> (result: Result<(), String>)
        ensures
            result is Ok <==> self.valid(),
            match result {
                Ok(()) => self.complaint() is None,
                Err(message) => self.complaint() == Some(message@),
            },
    {
        if !self.mic.enabled && !self.speaker.enabled {
            return Err(
                "both `mic` and `speaker` are disabled: there is nothing to bridge".to_owned(),
            );
        }
        if let Err(e) = self.mic.format().validate() {
            return Err("[mic] ".to_owned().concat(e.as_str()));
        }
        if let Err(e) = self.speaker.format().validate() {
            return Err("[speaker] ".to_owned().concat(e.as_str()));
        }
        if self.speaker.enabled {
            let packet_ms: u32 = self.speaker.frame_ms as u32;
            if self.speaker.buffer_ms < packet_ms * 2 {
                let mut message: String = "[speaker] buffer_ms (".to_owned();
                push_decimal(&mut message, self.speaker.buffer_ms as u64);
                message.append(") must be at least two packets (");
                push_decimal(&mut message, (packet_ms * 2) as u64);
                message.append(" ms)");
                assert(Some(message@) == self.complaint());
                return Err(message);
            }
        }
        if self.server.idle_timeout_ms < self.server.handshake_timeout_ms {
            return Err(
                "server.idle_timeout_ms must not be shorter than handshake_timeout_ms".to_owned(),
            );
        }
        Ok(())
    }

    /// The streams to warn about, in the order in which they are looked at: the
    /// look stops where the settings are refused.
    pub open spec fn spec_warnings(self) -> Seq<Fragmenting> {
        let mic = self.mic.spec_format();
        let speaker = self.speaker.spec_format();
        if !self.mic.enabled && !self.speaker.enabled || !mic.valid() {
            Seq::empty()
        } else if !speaker.valid() {
            warning_for(Direction::Mic, mic)
        } else {
            warning_for(Direction::Mic, mic) + warning_for(Direction::Speaker, speaker)
        }
    }

    /// The streams whose packets need IP fragmentation on a 1500-byte path. A
    /// `frame_ms` of 5 helps if the link is not a local virtual NIC.
    pub fn warnings(&self) -> (w: Vec<Fragmenting>)
        ensures
            w@ == self.spec_warnings(),
    {
        let mut w: Vec<Fragmenting> = Vec::new();
        if !self.mic.enabled && !self.speaker.enabled {
            return w;
        }
        let mic: Format = self.mic.format();
        if mic.validate().is_err() {
            return w;
        }
        warn_if_fragmenting(&mut w, Direction::Mic, &mic);
        let speaker: Format = self.speaker.format();
        if speaker.validate().is_err() {
            assert(w@ =~= self.spec_warnings());
            return w;
        }
        warn_if_fragmenting(&mut w, Direction::Speaker, &speaker);
        assert(w@ =~= self.spec_warnings());
        w
    }

    /// Settings with nothing but an address are valid.
    pub proof fn defaults_are_valid(self)
        requires
            self.mic.enabled,
            self.speaker.enabled,
            self.mic.spec_format() == (Format {
                rate: 48_000,
                channels: 1,
                codec: crate::format::Codec::PcmS16Le,
                frame_ms: 10,
            }),
            self.speaker.spec_format() == (Format {
                rate: 48_000,
                channels: 2,
                codec: crate::format::Codec::PcmS16Le,
                frame_ms: 10,
            }),
            self.speaker.buffer_ms == 40,
            self.server.handshake_timeout_ms == 1_000,
            self.server.idle_timeout_ms == 5_000,
        ensures
            self.valid(),
            self.complaint() is None,
    {
    }
}

fn warn_if_fragmenting(w: &mut Vec<Fragmenting>, stream: Direction, f: &Format)
    requires
        f.valid(),
    ensures
        final(w)@ == old(w)@ + warning_for(stream, *f),
{
    let ghost before = w@;
    if !f.fits_ethernet_mtu() {
        proof {
            f.valid_formats_carry_frames();
        }
        w.push(Fragmenting { stream, payload: f.payload_len() as u64 });
    }
    assert(w@ =~= before + warning_for(stream, *f));
}

} // verus!
