//! Wire format spoken between the host agent (Linux, real headset) and the VM
//! agent (Windows, virtual audio devices).
//!
//! Everything rides on a single UDP socket pair. The host is the client: it
//! sends `Hello`, the VM answers `HelloAck` and from then on remembers the
//! address it replied to, so both media directions flow over the same 5-tuple
//! and only one inbound firewall rule is needed on the Windows side.
//!
//! ```text
//! every packet   MAGIC(4) VER(1) TYPE(1)
//!
//! Hello          TOKEN_LEN(1) TOKEN(n) SESSION(4) FORMAT(mic) FORMAT(spk)
//! HelloAck       STATUS(1) SESSION(4) FORMAT(mic) FORMAT(spk) MSG_LEN(1) MSG(n)
//! Audio          SESSION(4) DIR(1) SEQ(4) FRAMES(2) PAYLOAD(...)
//! Bye            SESSION(4)
//! Ping / Pong    SESSION(4) NONCE(8)
//!
//! FORMAT         RATE(4) CHANNELS(1) CODEC(1) FRAME_MS(1)
//! ```
//!
//! All multi-byte integers are big endian. `SEQ` counts audio packets per
//! direction and wraps; the receiver uses it to detect loss and reordering.
//!
//! The trust model is that of a private host <-> VM link with a shared token.
//! There is no encryption — do not expose the listener to an untrusted network.

use crate::bytes;
use crate::bytes::{push_be16, push_be32, push_be64, push_sample, read_sample};
use crate::format::Format;
use crate::reader::Reader;
use crate::text;
use crate::text::push_decimal;
use vstd::prelude::*;
use vstd::utf8::*;

verus! {

/// The first four bytes of every packet: `ABRG`.
pub const MAGIC: [u8; 4] = [0x41, 0x42, 0x52, 0x47];

/// The protocol version.
pub const VERSION: u8 = 1;

/// Enough for a 20 ms stereo frame at 48 kHz plus headers.
pub const MAX_PACKET: usize = 4096;

/// Bytes in front of every packet's own fields.
pub const HEADER_LEN: usize = 6;

/// What a packet is for.
#[derive(Clone, Copy, PartialEq, Eq, Debug, Structural)]
pub enum PacketType {
    Hello,
    HelloAck,
    Audio,
    Bye,
    Ping,
    Pong,
}

/// The packet type that a byte stands for.
pub open spec fn type_of(v: u8) -> Option<PacketType> {
    match v {
        1 => Some(PacketType::Hello),
        2 => Some(PacketType::HelloAck),
        3 => Some(PacketType::Audio),
        4 => Some(PacketType::Bye),
        5 => Some(PacketType::Ping),
        6 => Some(PacketType::Pong),
        _ => None,
    }
}

impl PacketType {
    /// The byte that stands for this type.
    pub open spec fn spec_code(self) -> u8 {
        match self {
            PacketType::Hello => 1,
            PacketType::HelloAck => 2,
            PacketType::Audio => 3,
            PacketType::Bye => 4,
            PacketType::Ping => 5,
            PacketType::Pong => 6,
        }
    }

    /// The byte that stands for this type.
    pub fn code(self) -> (v: u8)
        ensures
            v == self.spec_code(),
            type_of(v) == Some(self),
    {
        match self {
            PacketType::Hello => 1,
            PacketType::HelloAck => 2,
            PacketType::Audio => 3,
            PacketType::Bye => 4,
            PacketType::Ping => 5,
            PacketType::Pong => 6,
        }
    }

    /// The type that `v` stands for, if any.
    pub fn from_u8(v: u8) -> (ty: Option<Self>)
        ensures
            ty == type_of(v),
    {
        match v {
            1 => Some(PacketType::Hello),
            2 => Some(PacketType::HelloAck),
            3 => Some(PacketType::Audio),
            4 => Some(PacketType::Bye),
            5 => Some(PacketType::Ping),
            6 => Some(PacketType::Pong),
            _ => None,
        }
    }
}

/// Which way an audio packet travels.
#[derive(Clone, Copy, PartialEq, Eq, Debug, Structural)]
pub enum Direction {
    /// Host microphone -> VM virtual microphone.
    Mic,
    /// VM playback -> host speakers.
    Speaker,
}

/// The direction that a byte stands for.
pub open spec fn direction_of(v: u8) -> Option<Direction> {
    match v {
        1 => Some(Direction::Mic),
        2 => Some(Direction::Speaker),
        _ => None,
    }
}

impl Direction {
    /// The byte that stands for this direction.
    pub open spec fn spec_code(self) -> u8 {
        match self {
            Direction::Mic => 1,
            Direction::Speaker => 2,
        }
    }

    /// The byte that stands for this direction.
    pub fn code(self) -> (v: u8)
        ensures
            v == self.spec_code(),
            direction_of(v) == Some(self),
    {
        match self {
            Direction::Mic => 1,
            Direction::Speaker => 2,
        }
    }

    /// The direction that `v` stands for, if any.
    pub fn from_u8(v: u8) -> (d: Option<Self>)
        ensures
            d == direction_of(v),
    {
        match v {
            1 => Some(Direction::Mic),
            2 => Some(Direction::Speaker),
            _ => None,
        }
    }

    /// This direction in words.
    pub fn to_string(&self) -> (s: String)
        ensures
            s@ == match *self {
                Direction::Mic => "mic"@,
                Direction::Speaker => "speaker"@,
            },
    {
        match self {
            Direction::Mic => "mic".to_owned(),
            Direction::Speaker => "speaker".to_owned(),
        }
    }
}

/// The VM's answer to a handshake.
#[derive(Clone, Copy, PartialEq, Eq, Debug, Structural)]
pub enum Status {
    Okay,
    AuthFailed,
    /// The requested format is not something this side can produce or consume.
    UnsupportedFormat,
    BadRequest,
    /// Another host already owns the session.
    Busy,
    ServerError,
}

/// The status that a byte stands for.
pub open spec fn status_of(v: u8) -> Option<Status> {
    match v {
        0 => Some(Status::Okay),
        1 => Some(Status::AuthFailed),
        2 => Some(Status::UnsupportedFormat),
        3 => Some(Status::BadRequest),
        4 => Some(Status::Busy),
        5 => Some(Status::ServerError),
        _ => None,
    }
}

impl Status {
    /// The byte that stands for this status.
    pub open spec fn spec_code(self) -> u8 {
        match self {
            Status::Okay => 0,
            Status::AuthFailed => 1,
            Status::UnsupportedFormat => 2,
            Status::BadRequest => 3,
            Status::Busy => 4,
            Status::ServerError => 5,
        }
    }

    /// This status in words.
    pub open spec fn words(self) -> Seq<char> {
        match self {
            Status::Okay => "ok"@,
            Status::AuthFailed => "authentication failed"@,
            Status::UnsupportedFormat => "unsupported audio format"@,
            Status::BadRequest => "malformed request"@,
            Status::Busy => "another host owns the session"@,
            Status::ServerError => "server error"@,
        }
    }

    /// The byte that stands for this status.
    pub fn code(self) -> (v: u8)
        ensures
            v == self.spec_code(),
            status_of(v) == Some(self),
    {
        match self {
            Status::Okay => 0,
            Status::AuthFailed => 1,
            Status::UnsupportedFormat => 2,
            Status::BadRequest => 3,
            Status::Busy => 4,
            Status::ServerError => 5,
        }
    }

    /// The status that `v` stands for, if any.
    pub fn from_u8(v: u8) -> (s: Option<Self>)
        ensures
            s == status_of(v),
    {
        match v {
            0 => Some(Status::Okay),
            1 => Some(Status::AuthFailed),
            2 => Some(Status::UnsupportedFormat),
            3 => Some(Status::BadRequest),
            4 => Some(Status::Busy),
            5 => Some(Status::ServerError),
            _ => None,
        }
    }

    /// This status in words.
    pub fn to_string(&self) -> (s: String)
        ensures
            s@ == self.words(),
    {
        let words: &str = match self {
            Status::Okay => "ok",
            Status::AuthFailed => "authentication failed",
            Status::UnsupportedFormat => "unsupported audio format",
            Status::BadRequest => "malformed request",
            Status::Busy => "another host owns the session",
            Status::ServerError => "server error",
        };
        words.to_owned()
    }
}

/// A packet that carries no audio.
#[derive(Clone, Debug, PartialEq, Eq)]
pub enum Packet {
    Hello { token: Vec<u8>, session: u32, mic: Format, speaker: Format },
    HelloAck { status: Status, session: u32, mic: Format, speaker: Format, message: String },
    Bye { session: u32 },
    Ping { session: u32, nonce: u64 },
    Pong { session: u32, nonce: u64 },
}

/// What a [`Packet`] says.
#[verifier::ext_equal]
pub enum PacketView {
    Hello { token: Seq<u8>, session: u32, mic: Format, speaker: Format },
    HelloAck { status: Status, session: u32, mic: Format, speaker: Format, message: Seq<char> },
    Bye { session: u32 },
    Ping { session: u32, nonce: u64 },
    Pong { session: u32, nonce: u64 },
}

impl View for Packet {
    type V = PacketView;

    open spec fn view(&self) -> PacketView {
        match *self {
            Packet::Hello { token, session, mic, speaker } => PacketView::Hello {
                token: token@,
                session,
                mic,
                speaker,
            },
            Packet::HelloAck { status, session, mic, speaker, message } => PacketView::HelloAck {
                status,
                session,
                mic,
                speaker,
                message: message@,
            },
            Packet::Bye { session } => PacketView::Bye { session },
            Packet::Ping { session, nonce } => PacketView::Ping { session, nonce },
            Packet::Pong { session, nonce } => PacketView::Pong { session, nonce },
        }
    }
}

/// What stands in front of the samples of an audio packet.
#[derive(Clone, Copy, Debug, PartialEq, Eq, Structural)]
pub struct AudioHeader {
    pub session: u32,
    pub direction: Direction,
    pub seq: u32,
    pub frames: u16,
}

/// Either a control packet or the header of an audio packet plus its payload,
/// which is never copied.
#[derive(Debug)]
pub enum Incoming<'a> {
    Control(Packet),
    Audio { header: AudioHeader, payload: &'a [u8] },
}

/// What a received packet says.
#[verifier::ext_equal]
pub enum IncomingView {
    Control(PacketView),
    Audio { header: AudioHeader, payload: Seq<u8> },
}

impl<'a> View for Incoming<'a> {
    type V = IncomingView;

    open spec fn view(&self) -> IncomingView {
        match *self {
            Incoming::Control(packet) => IncomingView::Control(packet@),
            Incoming::Audio { header, payload } => IncomingView::Audio {
                header,
                payload: payload@,
            },
        }
    }
}

/// Why a received packet is dropped.
#[derive(Clone, Copy, PartialEq, Eq, Debug, Structural)]
pub enum DecodeError {
    TooShort,
    BadMagic,
    BadVersion(u8),
    UnknownType(u8),
    UnknownDirection(u8),
    UnknownCodec,
    UnknownStatus(u8),
    /// `frames` disagrees with the number of payload bytes actually present.
    PayloadMismatch,
    Utf8,
}

impl DecodeError {
    /// This error in words.
    pub open spec fn words(self) -> Seq<char> {
        match self {
            DecodeError::TooShort => "packet truncated"@,
            DecodeError::BadMagic => "bad magic"@,
            DecodeError::BadVersion(v) => "unsupported protocol version "@ + text::decimal(
                v as nat,
            ),
            DecodeError::UnknownType(t) => "unknown packet type "@ + text::decimal(t as nat),
            DecodeError::UnknownDirection(d) => "unknown direction "@ + text::decimal(d as nat),
            DecodeError::UnknownCodec => "unknown codec"@,
            DecodeError::UnknownStatus(s) => "unknown status "@ + text::decimal(s as nat),
            DecodeError::PayloadMismatch => "audio payload length disagrees with header"@,
            DecodeError::Utf8 => "message is not valid UTF-8"@,
        }
    }

    /// This error in words.
    pub fn to_string(&self) -> (s: String)
        ensures
            s@ == self.words(),
    {
        match *self {
            DecodeError::TooShort => "packet truncated".to_owned(),
            DecodeError::BadMagic => "bad magic".to_owned(),
            DecodeError::BadVersion(v) => numbered("unsupported protocol version ", v),
            DecodeError::UnknownType(t) => numbered("unknown packet type ", t),
            DecodeError::UnknownDirection(d) => numbered("unknown direction ", d),
            DecodeError::UnknownCodec => "unknown codec".to_owned(),
            DecodeError::UnknownStatus(s) => numbered("unknown status ", s),
            DecodeError::PayloadMismatch => "audio payload length disagrees with header".to_owned(),
            DecodeError::Utf8 => "message is not valid UTF-8".to_owned(),
        }
    }
}

fn numbered(words: &str, n: u8) -> (s: String)
    ensures
        s@ == words@ + text::decimal(n as nat),
{
    let mut s: String = words.to_owned();
    push_decimal(&mut s, n as u64);
    s
}

/// The six bytes in front of every packet's own fields.
pub open spec fn header_bytes(ty: PacketType) -> Seq<u8> {
    MAGIC@ + seq![VERSION, ty.spec_code()]
}

/// A length byte and as much of `data` as it can count.
pub open spec fn counted_bytes(data: Seq<u8>) -> Seq<u8> {
    seq![kept_len(data) as u8] + data.take(kept_len(data))
}

/// How many bytes of `data` a length byte can count.
pub open spec fn kept_len(data: Seq<u8>) -> int {
    if data.len() <= 255 {
        data.len() as int
    } else {
        255
    }
}

/// A control packet on the wire.
pub open spec fn packet_bytes(p: PacketView) -> Seq<u8> {
    match p {
        PacketView::Hello { token, session, mic, speaker } => header_bytes(PacketType::Hello)
            + counted_bytes(token) + bytes::be_bytes(session as nat, 4) + mic.wire()
            + speaker.wire(),
        PacketView::HelloAck { status, session, mic, speaker, message } => header_bytes(
            PacketType::HelloAck,
        ) + seq![status.spec_code()] + bytes::be_bytes(session as nat, 4) + mic.wire()
            + speaker.wire() + counted_bytes(encode_utf8(message)),
        PacketView::Bye { session } => header_bytes(PacketType::Bye) + bytes::be_bytes(
            session as nat,
            4,
        ),
        PacketView::Ping { session, nonce } => header_bytes(PacketType::Ping) + bytes::be_bytes(
            session as nat,
            4,
        ) + bytes::be_bytes(nonce as nat, 8),
        PacketView::Pong { session, nonce } => header_bytes(PacketType::Pong) + bytes::be_bytes(
            session as nat,
            4,
        ) + bytes::be_bytes(nonce as nat, 8),
    }
}

/// Samples in a frame of `channels` channels. None counts as one.
pub open spec fn frame_width(channels: u8) -> nat {
    if channels == 0 {
        1
    } else {
        channels as nat
    }
}

/// Frames that `samples` samples make, as an audio header counts them.
pub open spec fn frame_count(samples: nat, channels: u8) -> u16 {
    ((samples / frame_width(channels)) % 0x1_0000) as u16
}

/// An audio packet on the wire.
pub open spec fn audio_bytes(
    session: u32,
    direction: Direction,
    seq: u32,
    channels: u8,
    samples: Seq<i16>,
) -> Seq<u8> {
    header_bytes(PacketType::Audio) + bytes::be_bytes(session as nat, 4) + seq![
        direction.spec_code(),
    ] + bytes::be_bytes(seq as nat, 4) + bytes::be_bytes(
        frame_count(samples.len(), channels) as nat,
        2,
    ) + bytes::samples_bytes(samples)
}

/// Appends the six bytes in front of every packet's own fields.
fn header(out: &mut Vec<u8>, ty: PacketType)
    ensures
        final(out)@ == old(out)@ + header_bytes(ty),
{
    let ghost before = out@;
    out.push(MAGIC[0]);
    out.push(MAGIC[1]);
    out.push(MAGIC[2]);
    out.push(MAGIC[3]);
    out.push(VERSION);
    out.push(ty.code());
    assert(out@ =~= before + header_bytes(ty));
}

/// Appends a length byte and as much of `data` as it can count.
fn push_counted(out: &mut Vec<u8>, data: &[u8])
    ensures
        final(out)@ == old(out)@ + counted_bytes(data@),
{
    let ghost before = out@;
    let len: usize = if data.len() <= 255 {
        data.len()
    } else {
        255
    };
    out.push(len as u8);
    out.extend_from_slice(vstd::slice::slice_subrange(data, 0, len));
    assert(out@ =~= before + counted_bytes(data@));
}

impl Packet {
    /// This packet on the wire. A token or a message past 255 bytes is cut off there.
    pub fn encode(&self) -> (out: Vec<u8>)
        ensures
            out@ == packet_bytes(self@),
    {
        let mut out: Vec<u8> = Vec::with_capacity(64);
        match self {
            Packet::Hello { token, session, mic, speaker } => {
                header(&mut out, PacketType::Hello);
                push_counted(&mut out, token.as_slice());
                push_be32(&mut out, *session);
                mic.encode(&mut out);
                speaker.encode(&mut out);
            },
            Packet::HelloAck { status, session, mic, speaker, message } => {
                header(&mut out, PacketType::HelloAck);
                out.push(status.code());
                push_be32(&mut out, *session);
                mic.encode(&mut out);
                speaker.encode(&mut out);
                push_counted(&mut out, message.as_str().as_bytes());
            },
            Packet::Bye { session } => {
                header(&mut out, PacketType::Bye);
                push_be32(&mut out, *session);
            },
            Packet::Ping { session, nonce } => {
                header(&mut out, PacketType::Ping);
                push_be32(&mut out, *session);
                push_be64(&mut out, *nonce);
            },
            Packet::Pong { session, nonce } => {
                header(&mut out, PacketType::Pong);
                push_be32(&mut out, *session);
                push_be64(&mut out, *nonce);
            },
        }
        assert(out@ =~= packet_bytes(self@));
        out
    }
}

/// Serialise an audio packet into `out`, which is cleared first.
///
/// `samples` is interleaved native-endian `i16`; it goes on the wire as little
/// endian regardless of host byte order.
pub fn encode_audio(
    out: &mut Vec<u8>,
    session: u32,
    direction: Direction,
    seq: u32,
    channels: u8,
    samples: &[i16],
)
    ensures
        final(out)@ == audio_bytes(session, direction, seq, channels, samples@),
{
    out.clear();
    header(out, PacketType::Audio);
    push_be32(out, session);
    out.push(direction.code());
    push_be32(out, seq);
    let per_frame: usize = if channels == 0 {
        1
    } else {
        channels as usize
    };
    let frames: usize = samples.len() / per_frame;
    push_be16(out, (frames % 0x1_0000) as u16);
    let ghost front = out@;
    let mut i: usize = 0;
    while i < samples.len()
        invariant
            i <= samples@.len(),
            out@ == front + bytes::samples_bytes(samples@.take(i as int)),
        decreases samples@.len() - i,
    {
        push_sample(out, samples[i]);
        i = i + 1;
        proof {
            let done = samples@.take(i as int);
            assert(bytes::samples_bytes(done) =~= bytes::samples_bytes(samples@.take(i - 1))
                + bytes::sample_bytes(samples@[i - 1]));
            assert(out@ =~= front + bytes::samples_bytes(done));
        }
    }
    proof {
        assert(samples@.take(i as int) =~= samples@);
        assert(front =~= header_bytes(PacketType::Audio) + bytes::be_bytes(session as nat, 4)
            + seq![direction.spec_code()] + bytes::be_bytes(seq as nat, 4) + bytes::be_bytes(
            frame_count(samples@.len(), channels) as nat,
            2,
        ));
    }
}

/// Decode `payload` (little endian `i16`) into `out`, which is cleared first. An odd
/// last byte is left out.
pub fn decode_samples(payload: &[u8], out: &mut Vec<i16>)
    ensures
        final(out)@ == bytes::samples_of(payload@),
{
    out.clear();
    let len: usize = payload.len();
    let count: usize = len / 2;
    let mut i: usize = 0;
    while i < count
        invariant
            i <= count,
            count == len / 2,
            payload@.len() == len,
            out@ == bytes::samples_of(payload@).take(i as int),
        decreases count - i,
    {
        out.push(read_sample(payload[2 * i], payload[2 * i + 1]));
        i = i + 1;
        assert(out@ =~= bytes::samples_of(payload@).take(i as int));
    }
    assert(out@ =~= bytes::samples_of(payload@));
}

/// The `n`-byte number at `o`.
pub open spec fn number_at(b: Seq<u8>, o: int, n: int) -> nat {
    bytes::be_value(b.subrange(o, o + n))
}

/// The format at `o`.
pub open spec fn format_at(b: Seq<u8>, o: int) -> Result<Format, DecodeError> {
    if b.len() < o + 6 {
        Err(DecodeError::TooShort)
    } else {
        match crate::format::codec_of(b[o + 5]) {
            None => Err(DecodeError::UnknownCodec),
            Some(codec) => if b.len() < o + 7 {
                Err(DecodeError::TooShort)
            } else {
                Ok(
                    Format {
                        rate: number_at(b, o, 4) as u32,
                        channels: b[o + 4],
                        codec,
                        frame_ms: b[o + 6],
                    },
                )
            },
        }
    }
}

/// The two formats at `o`.
pub open spec fn formats_at(b: Seq<u8>, o: int) -> Result<(Format, Format), DecodeError> {
    match format_at(b, o) {
        Err(e) => Err(e),
        Ok(mic) => match format_at(b, o + 7) {
            Err(e) => Err(e),
            Ok(speaker) => Ok((mic, speaker)),
        },
    }
}

/// What a `Hello` says.
pub open spec fn hello_of(b: Seq<u8>) -> Result<PacketView, DecodeError> {
    if b.len() < 7 || b.len() < 11 + b[6] {
        Err(DecodeError::TooShort)
    } else {
        let n = b[6] as int;
        match formats_at(b, 11 + n) {
            Err(e) => Err(e),
            Ok((mic, speaker)) => Ok(
                PacketView::Hello {
                    token: b.subrange(7, 7 + n),
                    session: number_at(b, 7 + n, 4) as u32,
                    mic,
                    speaker,
                },
            ),
        }
    }
}

/// What a `HelloAck` says.
pub open spec fn hello_ack_of(b: Seq<u8>) -> Result<PacketView, DecodeError> {
    if b.len() < 7 {
        Err(DecodeError::TooShort)
    } else {
        match status_of(b[6]) {
            None => Err(DecodeError::UnknownStatus(b[6])),
            Some(status) => if b.len() < 11 {
                Err(DecodeError::TooShort)
            } else {
                match formats_at(b, 11) {
                    Err(e) => Err(e),
                    Ok((mic, speaker)) => if b.len() < 26 || b.len() < 26 + b[25] {
                        Err(DecodeError::TooShort)
                    } else {
                        let message = b.subrange(26, 26 + b[25]);
                        if !valid_utf8(message) {
                            Err(DecodeError::Utf8)
                        } else {
                            Ok(
                                PacketView::HelloAck {
                                    status,
                                    session: number_at(b, 7, 4) as u32,
                                    mic,
                                    speaker,
                                    message: decode_utf8(message),
                                },
                            )
                        }
                    },
                }
            },
        }
    }
}

/// `payload` bytes are the samples of `frames` frames, one or more, of some number of
/// channels that fits a byte. The header does not say of how many.
pub open spec fn frames_agree(frames: nat, payload: nat) -> bool {
    let samples = payload / 2;
    &&& payload % 2 == 0
    &&& samples > 0
    &&& frames > 0
    &&& samples % frames == 0
    &&& samples / frames <= 255
}

/// What an audio packet says.
pub open spec fn audio_of(b: Seq<u8>) -> Result<IncomingView, DecodeError> {
    if b.len() < 11 {
        Err(DecodeError::TooShort)
    } else {
        match direction_of(b[10]) {
            None => Err(DecodeError::UnknownDirection(b[10])),
            Some(direction) => if b.len() < 17 {
                Err(DecodeError::TooShort)
            } else if !frames_agree(number_at(b, 15, 2), (b.len() - 17) as nat) {
                Err(DecodeError::PayloadMismatch)
            } else {
                Ok(
                    IncomingView::Audio {
                        header: AudioHeader {
                            session: number_at(b, 6, 4) as u32,
                            direction,
                            seq: number_at(b, 11, 4) as u32,
                            frames: number_at(b, 15, 2) as u16,
                        },
                        payload: b.skip(17),
                    },
                )
            },
        }
    }
}

/// What a packet of type `ty` says.
pub open spec fn body_of(b: Seq<u8>, ty: PacketType) -> Result<IncomingView, DecodeError> {
    match ty {
        PacketType::Hello => control(hello_of(b)),
        PacketType::HelloAck => control(hello_ack_of(b)),
        PacketType::Audio => audio_of(b),
        PacketType::Bye => if b.len() < 10 {
            Err(DecodeError::TooShort)
        } else {
            Ok(IncomingView::Control(PacketView::Bye { session: number_at(b, 6, 4) as u32 }))
        },
        PacketType::Ping => if b.len() < 18 {
            Err(DecodeError::TooShort)
        } else {
            Ok(
                IncomingView::Control(
                    PacketView::Ping {
                        session: number_at(b, 6, 4) as u32,
                        nonce: number_at(b, 10, 8) as u64,
                    },
                ),
            )
        },
        PacketType::Pong => if b.len() < 18 {
            Err(DecodeError::TooShort)
        } else {
            Ok(
                IncomingView::Control(
                    PacketView::Pong {
                        session: number_at(b, 6, 4) as u32,
                        nonce: number_at(b, 10, 8) as u64,
                    },
                ),
            )
        },
    }
}

/// A control packet as something received.
pub open spec fn control(p: Result<PacketView, DecodeError>) -> Result<IncomingView, DecodeError> {
    match p {
        Ok(packet) => Ok(IncomingView::Control(packet)),
        Err(e) => Err(e),
    }
}

/// What a received packet says, or why it is dropped.
pub open spec fn decoded(b: Seq<u8>) -> Result<IncomingView, DecodeError> {
    if b.len() < 4 {
        Err(DecodeError::TooShort)
    } else if b.take(4) != MAGIC@ {
        Err(DecodeError::BadMagic)
    } else if b.len() < 5 {
        Err(DecodeError::TooShort)
    } else if b[4] != VERSION {
        Err(DecodeError::BadVersion(b[4]))
    } else if b.len() < 6 {
        Err(DecodeError::TooShort)
    } else {
        match type_of(b[5]) {
            None => Err(DecodeError::UnknownType(b[5])),
            Some(ty) => body_of(b, ty),
        }
    }
}

/// What `result` says.
pub open spec fn outcome(result: Result<Incoming<'_>, DecodeError>) -> Result<
    IncomingView,
    DecodeError,
> {
    match result {
        Ok(incoming) => Ok(incoming@),
        Err(e) => Err(e),
    }
}

/// `String::from_utf8` of std: the text that UTF-8 bytes encode, and an error if and
/// only if they are not valid UTF-8.
#[verifier::external_body]
fn string_from_utf8(data: Vec<u8>) -> (s: Option<String>)
    ensures
        s is Some <==> valid_utf8(data@),
        s matches Some(text) ==> text@ == decode_utf8(data@),
{
    String::from_utf8(data).ok()
}

fn decode_hello<'a>(r: Reader<'a>) -> (result: Result<Packet, DecodeError>)
    requires
        r.wf(),
        r.position() == 6,
    ensures
        match result {
            Ok(p) => hello_of(r.packet()) == Ok::<PacketView, DecodeError>(p@),
            Err(e) => hello_of(r.packet()) == Err::<PacketView, DecodeError>(e),
        },
{
    let mut r = r;
    let len: usize = r.u8()? as usize;
    let token: Vec<u8> = vstd::slice::slice_to_vec(r.take(len)?);
    let session: u32 = r.u32()?;
    let mic: Format = Format::decode(&mut r)?;
    let speaker: Format = Format::decode(&mut r)?;
    Ok(Packet::Hello { token, session, mic, speaker })
}

fn decode_hello_ack<'a>(r: Reader<'a>) -> (result: Result<Packet, DecodeError>)
    requires
        r.wf(),
        r.position() == 6,
    ensures
        match result {
            Ok(p) => hello_ack_of(r.packet()) == Ok::<PacketView, DecodeError>(p@),
            Err(e) => hello_ack_of(r.packet()) == Err::<PacketView, DecodeError>(e),
        },
{
    let mut r = r;
    let raw: u8 = r.u8()?;
    let status: Status = match Status::from_u8(raw) {
        Some(status) => status,
        None => {
            return Err(DecodeError::UnknownStatus(raw));
        },
    };
    let session: u32 = r.u32()?;
    let mic: Format = Format::decode(&mut r)?;
    let speaker: Format = Format::decode(&mut r)?;
    let len: usize = r.u8()? as usize;
    match string_from_utf8(vstd::slice::slice_to_vec(r.take(len)?)) {
        Some(message) => Ok(Packet::HelloAck { status, session, mic, speaker, message }),
        None => Err(DecodeError::Utf8),
    }
}

fn decode_audio<'a>(r: Reader<'a>) -> (result: Result<Incoming<'a>, DecodeError>)
    requires
        r.wf(),
        r.position() == 6,
    ensures
        outcome(result) == audio_of(r.packet()),
{
    let mut r = r;
    let session: u32 = r.u32()?;
    let raw: u8 = r.u8()?;
    let direction: Direction = match Direction::from_u8(raw) {
        Some(direction) => direction,
        None => {
            return Err(DecodeError::UnknownDirection(raw));
        },
    };
    let seq: u32 = r.u32()?;
    let frames: u16 = r.u16()?;
    let payload: &'a [u8] = r.rest();
    let samples: usize = payload.len() / 2;
    let counted: usize = frames as usize;
    if payload.len() % 2 != 0 || samples == 0 || counted == 0 || samples % counted != 0 || samples
        / counted > 255 {
        return Err(DecodeError::PayloadMismatch);
    }
    Ok(Incoming::Audio { header: AudioHeader { session, direction, seq, frames }, payload })
}

/// Decode one received packet. Bytes after the last field of a control packet are
/// ignored.
pub fn decode<'a>(buf: &'a [u8]) -> (result: Result<Incoming<'a>, DecodeError>)
    ensures
        outcome(result) == decoded(buf@),
{
    let mut r: Reader<'a> = Reader::new(buf);
    let magic: &'a [u8] = r.take(4)?;
    if magic[0] != MAGIC[0] || magic[1] != MAGIC[1] || magic[2] != MAGIC[2] || magic[3]
        != MAGIC[3] {
        assert(buf@.take(4) == magic@);
        return Err(DecodeError::BadMagic);
    }
    assert(buf@.take(4) =~= MAGIC@);
    let version: u8 = r.u8()?;
    if version != VERSION {
        return Err(DecodeError::BadVersion(version));
    }
    let raw: u8 = r.u8()?;
    let ty: PacketType = match PacketType::from_u8(raw) {
        Some(ty) => ty,
        None => {
            return Err(DecodeError::UnknownType(raw));
        },
    };
    match ty {
        PacketType::Hello => Ok(Incoming::Control(decode_hello(r)?)),
        PacketType::HelloAck => Ok(Incoming::Control(decode_hello_ack(r)?)),
        PacketType::Audio => decode_audio(r),
        PacketType::Bye => Ok(Incoming::Control(Packet::Bye { session: r.u32()? })),
        PacketType::Ping => {
            let session: u32 = r.u32()?;
            let nonce: u64 = r.u64()?;
            Ok(Incoming::Control(Packet::Ping { session, nonce }))
        },
        PacketType::Pong => {
            let session: u32 = r.u32()?;
            let nonce: u64 = r.u64()?;
            Ok(Incoming::Control(Packet::Pong { session, nonce }))
        },
    }
}

/// Constant-time-ish token comparison. Tokens are short and the link is
/// private, but there is no reason to leak length-prefix timing either.
pub fn token_matches(expected: &str, got: &[u8]) -> (same: bool)
    ensures
        same == (encode_utf8(expected@) == got@),
{
    let expected: &[u8] = expected.as_bytes();
    if expected.len() != got.len() {
        return false;
    }
    let mut acc: u8 = 0;
    let mut i: usize = 0;
    while i < got.len()
        invariant
            i <= got@.len(),
            expected@.len() == got@.len(),
            acc == 0 <==> forall|k: int| 0 <= k < i ==> expected@[k] == got@[k],
        decreases got@.len() - i,
    {
        let a: u8 = expected[i];
        let b: u8 = got[i];
        assert((acc | (a ^ b)) == 0 <==> (acc == 0 && a == b)) by (bit_vector);
        acc = acc | (a ^ b);
        i = i + 1;
    }
    if acc == 0 {
        assert(expected@ =~= got@);
    }
    acc == 0
}

} // verus!
