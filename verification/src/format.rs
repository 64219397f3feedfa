//! The PCM layout of an audio stream.

use crate::bytes;
use crate::bytes::push_be32;
use crate::packet;
use crate::packet::DecodeError;
use crate::reader::Reader;
use crate::text;
use crate::text::push_decimal;
use vstd::prelude::*;

verus! {

/// How samples are laid out in a payload.
#[derive(Clone, Copy, PartialEq, Eq, Debug, Structural)]
pub enum Codec {
    /// Interleaved signed 16-bit little endian, no compression.
    PcmS16Le,
}

/// The codec that a byte stands for.
pub open spec fn codec_of(v: u8) -> Option<Codec> {
    if v == 0 {
        Some(Codec::PcmS16Le)
    } else {
        None
    }
}

impl Codec {
    /// The byte that stands for this codec.
    pub open spec fn spec_code(self) -> u8 {
        0
    }

    /// The byte that stands for this codec.
    pub fn code(self) -> (v: u8)
        ensures
            v == self.spec_code(),
            codec_of(v) == Some(self),
    {
        match self {
            Codec::PcmS16Le => 0,
        }
    }

    /// The codec that `v` stands for, if any.
    pub fn from_u8(v: u8) -> (codec: Option<Self>)
        ensures
            codec == codec_of(v),
    {
        match v {
            0 => Some(Codec::PcmS16Le),
            _ => None,
        }
    }
}

/// Bytes in front of the samples of an audio packet.
pub const AUDIO_HEADER_LEN: usize = 17;

/// Bytes of an IPv4 and a UDP header.
pub const IP_UDP_LEN: usize = 28;

/// Largest datagram that an Ethernet path carries whole.
pub const ETHERNET_MTU: usize = 1500;

/// PCM layout of one audio stream, agreed during the handshake.
#[derive(Clone, Copy, PartialEq, Eq, Debug, Structural)]
pub struct Format {
    pub rate: u32,
    pub channels: u8,
    pub codec: Codec,
    /// Nominal packet duration. Both sides size their buffers from this.
    pub frame_ms: u8,
}

impl Format {
    /// Bytes of a format on the wire.
    pub const ENCODED_LEN: usize = 7;

    /// Sample frames carried by one packet.
    pub open spec fn spec_frames(self) -> nat {
        (self.rate as nat * self.frame_ms as nat) / 1000
    }

    /// Interleaved samples carried by one packet.
    pub open spec fn spec_samples(self) -> nat {
        self.spec_frames() * self.channels as nat
    }

    /// Bytes of samples carried by one packet.
    pub open spec fn spec_payload(self) -> nat {
        self.spec_samples() * 2
    }

    /// The rates that both sides can run at.
    pub open spec fn rate_supported(self) -> bool {
        ||| self.rate == 8000
        ||| self.rate == 16000
        ||| self.rate == 22050
        ||| self.rate == 24000
        ||| self.rate == 32000
        ||| self.rate == 44100
        ||| self.rate == 48000
        ||| self.rate == 96000
    }

    /// The packet durations that both sides can run at.
    pub open spec fn duration_supported(self) -> bool {
        self.frame_ms == 5 || self.frame_ms == 10 || self.frame_ms == 20
    }

    /// The formats that a session may use.
    pub open spec fn valid(self) -> bool {
        &&& self.rate_supported()
        &&& 1 <= self.channels <= 2
        &&& self.duration_supported()
    }

    /// Why this format is refused, if it is.
    pub open spec fn complaint(self) -> Option<Seq<char>> {
        if !self.rate_supported() {
            Some("unsupported sample rate "@ + text::decimal(self.rate as nat))
        } else if self.channels < 1 || self.channels > 2 {
            Some("channels must be 1 or 2, got "@ + text::decimal(self.channels as nat))
        } else if !self.duration_supported() {
            Some("frame_ms must be 5, 10 or 20, got "@ + text::decimal(self.frame_ms as nat))
        } else {
            None
        }
    }

    /// This format on the wire.
    pub open spec fn wire(self) -> Seq<u8> {
        bytes::be_bytes(self.rate as nat, 4) + seq![
            self.channels,
            self.codec.spec_code(),
            self.frame_ms,
        ]
    }

    /// This format in words.
    pub open spec fn words(self) -> Seq<char> {
        text::decimal(self.rate as nat) + " Hz "@ + (if self.channels == 1 {
            "mono"@
        } else {
            "stereo"@
        }) + " s16le "@ + text::decimal(self.frame_ms as nat) + " ms"@
    }

    /// A 16-bit PCM format.
    pub fn new(rate: u32, channels: u8, frame_ms: u8) -> (f: Self)
        ensures
            f == (Format { rate, channels, codec: Codec::PcmS16Le, frame_ms }),
    {
        Format { rate, channels, codec: Codec::PcmS16Le, frame_ms }
    }

    /// Sample frames carried by one packet.
    pub fn frames_per_packet(&self) -> (n: usize)
        ensures
            n as nat == self.spec_frames(),
    {
        proof {
            self.lemma_sizes();
        }
        (self.rate as u64 * self.frame_ms as u64 / 1000) as usize
    }

    /// Interleaved `i16` values carried by one packet.
    pub fn samples_per_packet(&self) -> (n: usize)
        requires
            self.spec_samples() <= usize::MAX,
        ensures
            n as nat == self.spec_samples(),
    {
        self.frames_per_packet() * self.channels as usize
    }

    /// Bytes of samples carried by one packet.
    pub fn payload_len(&self) -> (n: usize)
        requires
            self.spec_payload() <= usize::MAX,
        ensures
            n as nat == self.spec_payload(),
    {
        self.samples_per_packet() * 2
    }

    /// True when a packet of this format still fits a 1500-byte path without
    /// IP fragmentation. Callers warn rather than refuse: a virtio link between
    /// host and guest reassembles fragments without breaking a sweat.
    pub fn fits_ethernet_mtu(&self) -> (fits: bool)
        ensures
            fits == (self.spec_payload() + AUDIO_HEADER_LEN + IP_UDP_LEN <= ETHERNET_MTU),
    {
        proof {
            self.lemma_sizes();
        }
        let frames: u64 = self.rate as u64 * self.frame_ms as u64 / 1000;
        let payload: u64 = frames * self.channels as u64 * 2;
        payload + AUDIO_HEADER_LEN as u64 + IP_UDP_LEN as u64 <= ETHERNET_MTU as u64
    }

    /// A refusal says what is wrong with the format.
    pub fn validate(&self) -> (result: Result<(), String>)
        ensures
            result is Ok <==> self.valid(),
            match result {
                Ok(()) => self.complaint() is None,
                Err(message) => self.complaint() == Some(message@),
            },
    {
        if !matches!(self.rate, 8000 | 16000 | 22050 | 24000 | 32000 | 44100 | 48000 | 96000) {
            let mut message: String = "unsupported sample rate ".to_owned();
            push_decimal(&mut message, self.rate as u64);
            return Err(message);
        }
        if self.channels < 1 || self.channels > 2 {
            let mut message: String = "channels must be 1 or 2, got ".to_owned();
            push_decimal(&mut message, self.channels as u64);
            return Err(message);
        }
        if !matches!(self.frame_ms, 5 | 10 | 20) {
            let mut message: String = "frame_ms must be 5, 10 or 20, got ".to_owned();
            push_decimal(&mut message, self.frame_ms as u64);
            return Err(message);
        }
        Ok(())
    }

    /// Appends this format as it goes on the wire.
    pub fn encode(&self, out: &mut Vec<u8>)
        ensures
            final(out)@ == old(out)@ + self.wire(),
    {
        let ghost before = out@;
        push_be32(out, self.rate);
        out.push(self.channels);
        out.push(self.codec.code());
        out.push(self.frame_ms);
        assert(out@ =~= before + self.wire());
    }

    /// Reads a format as it comes off the wire.
    pub fn decode(r: &mut Reader<'_>) -> (result: Result<Self, DecodeError>)
        requires
            old(r).wf(),
        ensures
            result == packet::format_at(old(r).packet(), old(r).position() as int),
            result is Ok ==> old(r).moved(*final(r), 7),
    {
        let rate: u32 = r.u32()?;
        let channels: u8 = r.u8()?;
        let codec: Codec = match Codec::from_u8(r.u8()?) {
            Some(codec) => codec,
            None => {
                return Err(DecodeError::UnknownCodec);
            },
        };
        let frame_ms: u8 = r.u8()?;
        Ok(Format { rate, channels, codec, frame_ms })
    }

    /// This format in words.
    pub fn to_string(&self) -> (s: String)
        ensures
            s@ == self.words(),
    {
        let mut s: String = String::new();
        push_decimal(&mut s, self.rate as u64);
        s.append(" Hz ");
        if self.channels == 1 {
            s.append("mono");
        } else {
            s.append("stereo");
        }
        s.append(" s16le ");
        push_decimal(&mut s, self.frame_ms as u64);
        s.append(" ms");
        assert(s@ =~= self.words());
        s
    }

    /// The length of a format on the wire.
    pub proof fn lemma_wire_len(self)
        ensures
            self.wire().len() == Format::ENCODED_LEN,
    {
        bytes::lemma_be_bytes_len(self.rate as nat, 4);
    }

    /// How large the sizes of a packet can be.
    pub proof fn lemma_sizes(self)
        ensures
            self.rate * self.frame_ms <= 0xffff_ffff * 0xff,
            self.spec_frames() <= 0xffff_ffff,
            self.spec_samples() <= 0xffff_ffff * 0xff,
            self.spec_payload() <= 0xffff_ffff * 0x1fe,
    {
        let rate = self.rate;
        let ms = self.frame_ms;
        assert(rate * ms <= 0xffff_ffff * 0xff) by (nonlinear_arith)
            requires
                rate <= 0xffff_ffff,
                ms <= 0xff,
        ;
        let frames = self.spec_frames();
        let channels = self.channels;
        assert(frames * channels <= 0xffff_ffff * 0xff) by (nonlinear_arith)
            requires
                frames <= 0xffff_ffff,
                channels <= 0xff,
        ;
    }

    /// A format that validates carries at least 40 and at most 1920 frames per
    /// packet, at most 960 of them at up to 48 kHz.
    pub proof fn valid_formats_carry_frames(self)
        requires
            self.valid(),
        ensures
            40 <= self.spec_frames() <= 1920,
            self.rate <= 48000 ==> self.spec_frames() <= 960,
            self.spec_payload() <= 4 * self.spec_frames(),
    {
        let frames = self.spec_frames();
        let channels = self.channels;
        assert(frames * channels <= frames * 2) by (nonlinear_arith)
            requires
                channels <= 2,
        ;
    }

    /// Every format up to 48 kHz that validates fits a packet, headers and all.
    pub proof fn packets_up_to_48_khz_fit(self)
        requires
            self.valid(),
            self.rate <= 48000,
        ensures
            self.spec_payload() + AUDIO_HEADER_LEN <= packet::MAX_PACKET,
    {
        self.valid_formats_carry_frames();
    }
}

} // verus!
