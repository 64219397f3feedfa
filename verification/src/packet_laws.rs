//! What a read gives back of a write, packet by packet.

use crate::bytes;
use crate::format::Format;
use crate::packet;
use crate::packet::{AudioHeader, DecodeError, Direction, PacketType, MAGIC, VERSION};
use vstd::prelude::*;
use vstd::utf8::*;

verus! {

/// What is left of a packet on the wire: a token or a message past 255 bytes is cut
/// off there, and a message cut inside a character is no text any more.
pub open spec fn kept(p: packet::PacketView) -> Result<packet::PacketView, DecodeError> {
    match p {
        packet::PacketView::Hello { token, session, mic, speaker } => Ok(
            packet::PacketView::Hello {
                token: token.take(packet::kept_len(token)),
                session,
                mic,
                speaker,
            },
        ),
        packet::PacketView::HelloAck { status, session, mic, speaker, message } => {
            let whole = encode_utf8(message);
            let part = whole.take(packet::kept_len(whole));
            if valid_utf8(part) {
                Ok(
                    packet::PacketView::HelloAck {
                        status,
                        session,
                        mic,
                        speaker,
                        message: decode_utf8(part),
                    },
                )
            } else {
                Err(DecodeError::Utf8)
            }
        },
        _ => Ok(p),
    }
}

/// A length byte can count the packet's token or message.
pub open spec fn countable(p: packet::PacketView) -> bool {
    match p {
        packet::PacketView::Hello { token, .. } => token.len() <= 255,
        packet::PacketView::HelloAck { message, .. } => encode_utf8(message).len() <= 255,
        _ => true,
    }
}

/// A number that was written at `o` reads back.
proof fn lemma_number_at(b: Seq<u8>, o: int, x: nat, n: nat)
    requires
        0 <= o,
        o + n <= b.len(),
        b.subrange(o, o + n) == bytes::be_bytes(x, n),
        x < bytes::pow256(n),
    ensures
        packet::number_at(b, o, n as int) == x,
{
    bytes::lemma_be_value_of_bytes(x, n);
}

/// A format that was written at `o` reads back.
proof fn lemma_format_at(b: Seq<u8>, o: int, f: Format)
    requires
        0 <= o,
        o + 7 <= b.len(),
        b.subrange(o, o + 7) == f.wire(),
    ensures
        packet::format_at(b, o) == Ok::<Format, DecodeError>(f),
{
    let w = f.wire();
    bytes::lemma_be_bytes_len(f.rate as nat, 4);
    bytes::lemma_pow256_widths();
    assert(b.subrange(o, o + 4) =~= w.subrange(0, 4));
    assert(w.subrange(0, 4) =~= bytes::be_bytes(f.rate as nat, 4));
    lemma_number_at(b, o, f.rate as nat, 4);
    assert(b[o + 4] == w[4] && b[o + 5] == w[5] && b[o + 6] == w[6]);
}

/// What follows the six bytes in front of every packet.
proof fn lemma_header(b: Seq<u8>, ty: PacketType)
    requires
        b.len() >= 6,
        b.take(6) == packet::header_bytes(ty),
    ensures
        packet::decoded(b) == packet::body_of(b, ty),
{
    let h = packet::header_bytes(ty);
    assert(b.take(4) =~= h.take(4));
    assert(h.take(4) =~= MAGIC@);
    assert(b[4] == h[4] && b[5] == h[5]);
    assert(packet::type_of(ty.spec_code()) == Some(ty));
}

/// Reading back a control packet gives what was written, whatever follows it in the
/// datagram. Only what a length byte cannot count is lost.
pub proof fn control_packets_round_trip(p: packet::PacketView, rest: Seq<u8>)
    ensures
        packet::decoded(packet::packet_bytes(p) + rest) == packet::control(kept(p)),
        countable(p) ==> packet::decoded(packet::packet_bytes(p) + rest) == Ok::<
            packet::IncomingView,
            DecodeError,
        >(packet::IncomingView::Control(p)),
{
    let w = packet::packet_bytes(p);
    let b = w + rest;
    bytes::lemma_pow256_widths();
    match p {
        packet::PacketView::Hello { token, session, mic, speaker } => {
            let n = packet::kept_len(token);
            let part = token.take(n);
            bytes::lemma_be_bytes_len(session as nat, 4);
            mic.lemma_wire_len();
            speaker.lemma_wire_len();
            assert(b.take(6) =~= packet::header_bytes(PacketType::Hello));
            lemma_header(b, PacketType::Hello);
            assert(b[6] == n);
            assert(b.subrange(7, 7 + n) =~= part);
            assert(b.subrange(7 + n, 11 + n) =~= bytes::be_bytes(session as nat, 4));
            lemma_number_at(b, 7 + n, session as nat, 4);
            assert(b.subrange(11 + n, 18 + n) =~= mic.wire());
            lemma_format_at(b, 11 + n, mic);
            assert(b.subrange(18 + n, 25 + n) =~= speaker.wire());
            lemma_format_at(b, 18 + n, speaker);
            if countable(p) {
                assert(part =~= token);
            }
        },
        packet::PacketView::HelloAck { status, session, mic, speaker, message } => {
            let whole = encode_utf8(message);
            let n = packet::kept_len(whole);
            let part = whole.take(n);
            bytes::lemma_be_bytes_len(session as nat, 4);
            mic.lemma_wire_len();
            speaker.lemma_wire_len();
            assert(b.take(6) =~= packet::header_bytes(PacketType::HelloAck));
            lemma_header(b, PacketType::HelloAck);
            assert(b[6] == status.spec_code());
            assert(packet::status_of(b[6]) == Some(status));
            assert(b.subrange(7, 11) =~= bytes::be_bytes(session as nat, 4));
            lemma_number_at(b, 7, session as nat, 4);
            assert(b.subrange(11, 18) =~= mic.wire());
            lemma_format_at(b, 11, mic);
            assert(b.subrange(18, 25) =~= speaker.wire());
            lemma_format_at(b, 18, speaker);
            assert(b[25] == n);
            assert(b.subrange(26, 26 + n) =~= part);
            if countable(p) {
                assert(part =~= whole);
                encode_utf8_valid_utf8(message);
                encode_utf8_decode_utf8(message);
            }
        },
        packet::PacketView::Bye { session } => {
            bytes::lemma_be_bytes_len(session as nat, 4);
            assert(b.take(6) =~= packet::header_bytes(PacketType::Bye));
            lemma_header(b, PacketType::Bye);
            assert(b.subrange(6, 10) =~= bytes::be_bytes(session as nat, 4));
            lemma_number_at(b, 6, session as nat, 4);
        },
        packet::PacketView::Ping { session, nonce } => {
            lemma_ping(b, PacketType::Ping, session, nonce, rest);
        },
        packet::PacketView::Pong { session, nonce } => {
            lemma_ping(b, PacketType::Pong, session, nonce, rest);
        },
    }
}

proof fn lemma_ping(b: Seq<u8>, ty: PacketType, session: u32, nonce: u64, rest: Seq<u8>)
    requires
        b == packet::header_bytes(ty) + bytes::be_bytes(session as nat, 4) + bytes::be_bytes(
            nonce as nat,
            8,
        ) + rest,
    ensures
        packet::decoded(b) == packet::body_of(b, ty),
        b.len() >= 18,
        packet::number_at(b, 6, 4) == session,
        packet::number_at(b, 10, 8) == nonce,
{
    bytes::lemma_pow256_widths();
    bytes::lemma_be_bytes_len(session as nat, 4);
    bytes::lemma_be_bytes_len(nonce as nat, 8);
    assert(b.take(6) =~= packet::header_bytes(ty));
    lemma_header(b, ty);
    assert(b.subrange(6, 10) =~= bytes::be_bytes(session as nat, 4));
    lemma_number_at(b, 6, session as nat, 4);
    assert(b.subrange(10, 18) =~= bytes::be_bytes(nonce as nat, 8));
    lemma_number_at(b, 10, nonce as nat, 8);
}

/// The bytes of the number at `o`.
proof fn lemma_number_bytes(b: Seq<u8>, o: int, n: nat)
    requires
        0 <= o,
        o + n <= b.len(),
    ensures
        bytes::be_bytes(packet::number_at(b, o, n as int), n) == b.subrange(o, o + n),
        packet::number_at(b, o, n as int) < bytes::pow256(n),
{
    bytes::lemma_be_bytes_of_value(b.subrange(o, o + n));
}

/// The bytes of the format at `o`.
proof fn lemma_format_bytes(b: Seq<u8>, o: int, f: Format)
    requires
        0 <= o,
        packet::format_at(b, o) == Ok::<Format, DecodeError>(f),
    ensures
        o + 7 <= b.len(),
        b.subrange(o, o + 7) == f.wire(),
{
    bytes::lemma_pow256_widths();
    lemma_number_bytes(b, o, 4);
    assert(b.subrange(o, o + 7) =~= f.wire());
}

/// A control packet that was read is written back as the bytes it was read from:
/// two datagrams that say the same agree on every byte that counts.
pub proof fn control_packets_are_canonical(b: Seq<u8>, p: packet::PacketView)
    requires
        packet::decoded(b) == Ok::<packet::IncomingView, DecodeError>(
            packet::IncomingView::Control(p),
        ),
    ensures
        countable(p),
        packet::packet_bytes(p).len() <= b.len(),
        b.take(packet::packet_bytes(p).len() as int) == packet::packet_bytes(p),
{
    bytes::lemma_pow256_widths();
    let w = packet::packet_bytes(p);
    let ty = packet::type_of(b[5])->Some_0;
    assert(b.take(6) =~= packet::header_bytes(ty)) by {
        assert(b.take(4) == MAGIC@);
        assert(b.take(6).take(4) =~= b.take(4));
        assert(b[4] == VERSION);
        assert forall|k: int| 0 <= k < 6 implies b.take(6)[k] == packet::header_bytes(ty)[k] by {
            if k < 4 {
                assert(b.take(4)[k] == MAGIC@[k]);
            }
        }
    }
    match p {
        packet::PacketView::Hello { token, session, mic, speaker } => {
            let n = b[6] as int;
            lemma_number_bytes(b, 7 + n, 4);
            lemma_format_bytes(b, 11 + n, mic);
            lemma_format_bytes(b, 18 + n, speaker);
            assert(token.take(packet::kept_len(token)) =~= token);
            assert(w =~= b.take(6) + b.subrange(6, 7) + b.subrange(7, 7 + n) + b.subrange(
                7 + n,
                11 + n,
            ) + b.subrange(11 + n, 18 + n) + b.subrange(18 + n, 25 + n));
            assert(w =~= b.take(25 + n));
        },
        packet::PacketView::HelloAck { status, session, mic, speaker, message } => {
            let n = b[25] as int;
            let part = b.subrange(26, 26 + n);
            decode_utf8_encode_utf8(part);
            lemma_number_bytes(b, 7, 4);
            lemma_format_bytes(b, 11, mic);
            lemma_format_bytes(b, 18, speaker);
            assert(part.take(packet::kept_len(part)) =~= part);
            assert(status.spec_code() == b[6]);
            assert(w =~= b.take(6) + b.subrange(6, 7) + b.subrange(7, 11) + b.subrange(11, 18)
                + b.subrange(18, 25) + b.subrange(25, 26) + part);
            assert(w =~= b.take(26 + n));
        },
        packet::PacketView::Bye { session } => {
            lemma_number_bytes(b, 6, 4);
            assert(w =~= b.take(6) + b.subrange(6, 10));
            assert(w =~= b.take(10));
        },
        packet::PacketView::Ping { session, nonce } => {
            lemma_number_bytes(b, 6, 4);
            lemma_number_bytes(b, 10, 8);
            assert(w =~= b.take(6) + b.subrange(6, 10) + b.subrange(10, 18));
            assert(w =~= b.take(18));
        },
        packet::PacketView::Pong { session, nonce } => {
            lemma_number_bytes(b, 6, 4);
            lemma_number_bytes(b, 10, 8);
            assert(w =~= b.take(6) + b.subrange(6, 10) + b.subrange(10, 18));
            assert(w =~= b.take(18));
        },
    }
}

/// `samples` samples are whole frames, one or more, and no more of them than an audio
/// header can count.
pub open spec fn whole_frames(samples: nat, channels: u8) -> bool {
    &&& samples > 0
    &&& samples % packet::frame_width(channels) == 0
    &&& samples / packet::frame_width(channels) <= 0xffff
}

/// The count in an audio header agrees with whole frames.
proof fn lemma_whole_frames_agree(samples: nat, channels: u8)
    requires
        whole_frames(samples, channels),
    ensures
        packet::frames_agree(packet::frame_count(samples, channels) as nat, 2 * samples),
{
    let width = packet::frame_width(channels) as int;
    let frames = packet::frame_count(samples, channels) as int;
    vstd::arithmetic::div_mod::lemma_fundamental_div_mod(samples as int, width);
    assert(samples as int == width * frames);
    assert(frames > 0) by (nonlinear_arith)
        requires
            samples as int == width * frames,
            samples > 0,
            frames >= 0,
    ;
    vstd::arithmetic::div_mod::lemma_mod_multiples_basic(width, frames);
    vstd::arithmetic::div_mod::lemma_div_by_multiple(width, frames);
}

/// An audio packet reads back as its header and payload where the count in the header
/// agrees with the payload, and is refused where it does not.
pub proof fn audio_packets_are_held_to_their_count(
    session: u32,
    direction: Direction,
    seq: u32,
    channels: u8,
    samples: Seq<i16>,
)
    ensures
        packet::decoded(packet::audio_bytes(session, direction, seq, channels, samples))
            == if packet::frames_agree(
            packet::frame_count(samples.len(), channels) as nat,
            2 * samples.len(),
        ) {
            Ok::<packet::IncomingView, DecodeError>(
                packet::IncomingView::Audio {
                    header: AudioHeader {
                        session,
                        direction,
                        seq,
                        frames: packet::frame_count(samples.len(), channels),
                    },
                    payload: bytes::samples_bytes(samples),
                },
            )
        } else {
            Err::<packet::IncomingView, DecodeError>(DecodeError::PayloadMismatch)
        },
{
    let b = packet::audio_bytes(session, direction, seq, channels, samples);
    let frames = packet::frame_count(samples.len(), channels);
    bytes::lemma_pow256_widths();
    bytes::lemma_be_bytes_len(session as nat, 4);
    bytes::lemma_be_bytes_len(seq as nat, 4);
    bytes::lemma_be_bytes_len(frames as nat, 2);
    assert(b.take(6) =~= packet::header_bytes(PacketType::Audio));
    lemma_header(b, PacketType::Audio);
    assert(b.subrange(6, 10) =~= bytes::be_bytes(session as nat, 4));
    lemma_number_at(b, 6, session as nat, 4);
    assert(b[10] == direction.spec_code());
    assert(b.subrange(11, 15) =~= bytes::be_bytes(seq as nat, 4));
    lemma_number_at(b, 11, seq as nat, 4);
    assert(b.subrange(15, 17) =~= bytes::be_bytes(frames as nat, 2));
    lemma_number_at(b, 15, frames as nat, 2);
    assert(b.skip(17) =~= bytes::samples_bytes(samples));
    assert(b.len() == 17 + 2 * samples.len());
}

/// Reading back an audio packet of whole frames gives its header and its samples.
pub proof fn audio_packets_round_trip(
    session: u32,
    direction: Direction,
    seq: u32,
    channels: u8,
    samples: Seq<i16>,
)
    requires
        whole_frames(samples.len(), channels),
    ensures
        packet::decoded(packet::audio_bytes(session, direction, seq, channels, samples)) == Ok::<
            packet::IncomingView,
            DecodeError,
        >(
            packet::IncomingView::Audio {
                header: AudioHeader {
                    session,
                    direction,
                    seq,
                    frames: packet::frame_count(samples.len(), channels),
                },
                payload: bytes::samples_bytes(samples),
            },
        ),
        bytes::samples_of(bytes::samples_bytes(samples)) == samples,
{
    lemma_whole_frames_agree(samples.len(), channels);
    audio_packets_are_held_to_their_count(session, direction, seq, channels, samples);
    bytes::lemma_samples_round_trip(samples);
}

/// Part of a frame at the end of an audio packet is noticed: the packet is refused, if
/// it has no whole frame or at least as many as it has channels.
pub proof fn part_of_a_frame_is_refused(
    session: u32,
    direction: Direction,
    seq: u32,
    channels: u8,
    samples: Seq<i16>,
)
    requires
        samples.len() % packet::frame_width(channels) != 0,
        samples.len() / packet::frame_width(channels) <= 0xffff,
        samples.len() < channels || samples.len() / packet::frame_width(channels) >= channels,
    ensures
        packet::decoded(packet::audio_bytes(session, direction, seq, channels, samples)) == Err::<
            packet::IncomingView,
            DecodeError,
        >(DecodeError::PayloadMismatch),
{
    lemma_part_of_a_frame_disagrees(samples.len(), channels);
    audio_packets_are_held_to_their_count(session, direction, seq, channels, samples);
}

/// The count in an audio header disagrees with part of a frame, if there is no whole
/// frame or there are at least as many as channels.
proof fn lemma_part_of_a_frame_disagrees(samples: nat, channels: u8)
    requires
        samples % packet::frame_width(channels) != 0,
        samples / packet::frame_width(channels) <= 0xffff,
        samples < channels || samples / packet::frame_width(channels) >= channels,
    ensures
        !packet::frames_agree(packet::frame_count(samples, channels) as nat, 2 * samples),
{
    let width = packet::frame_width(channels) as int;
    let n = samples as int;
    let frames = packet::frame_count(samples, channels) as int;
    let rest = n % width;
    vstd::arithmetic::div_mod::lemma_fundamental_div_mod(n, width);
    assert(0 < rest < width);
    if n < channels {
        vstd::arithmetic::div_mod::lemma_basic_div(n, width);
    } else {
        assert(n == frames * width + rest) by (nonlinear_arith)
            requires
                n == width * frames + rest,
        ;
        vstd::arithmetic::div_mod::lemma_mod_multiples_vanish(width, rest, frames);
        vstd::arithmetic::div_mod::lemma_small_mod(rest as nat, frames as nat);
    }
}

/// What a packet lost on the way is noticed: an audio packet cut short anywhere behind
/// its header is refused, unless what is left makes up whole channels.
pub proof fn a_cut_audio_packet_is_refused(
    session: u32,
    direction: Direction,
    seq: u32,
    channels: u8,
    samples: Seq<i16>,
    len: int,
)
    requires
        whole_frames(samples.len(), channels),
        crate::format::AUDIO_HEADER_LEN <= len < crate::format::AUDIO_HEADER_LEN + 2
            * samples.len(),
        len == crate::format::AUDIO_HEADER_LEN || (len - crate::format::AUDIO_HEADER_LEN) % (2
            * packet::frame_count(samples.len(), channels)) != 0,
    ensures
        packet::decoded(
            packet::audio_bytes(session, direction, seq, channels, samples).take(len),
        ) == Err::<packet::IncomingView, DecodeError>(DecodeError::PayloadMismatch),
{
    let whole = packet::audio_bytes(session, direction, seq, channels, samples);
    let b = whole.take(len);
    let frames = packet::frame_count(samples.len(), channels);
    bytes::lemma_pow256_widths();
    bytes::lemma_be_bytes_len(session as nat, 4);
    bytes::lemma_be_bytes_len(seq as nat, 4);
    bytes::lemma_be_bytes_len(frames as nat, 2);
    assert(whole.len() == 17 + 2 * samples.len());
    assert(b.take(6) =~= packet::header_bytes(PacketType::Audio));
    lemma_header(b, PacketType::Audio);
    assert(b[10] == direction.spec_code());
    assert(b.subrange(15, 17) =~= bytes::be_bytes(frames as nat, 2));
    lemma_number_at(b, 15, frames as nat, 2);
    lemma_part_of_a_channel_disagrees(frames as nat, (len - 17) as nat);
}

/// A count of frames disagrees with a payload that does not make up whole channels.
proof fn lemma_part_of_a_channel_disagrees(frames: nat, payload: nat)
    requires
        payload == 0 || payload % (2 * frames) != 0,
    ensures
        !packet::frames_agree(frames, payload),
{
    if payload > 0 && frames > 0 {
        vstd::arithmetic::div_mod::lemma_mod_breakdown(payload as int, 2, frames as int);
    }
}

/// Of a packet of one channel no cut is missed.
pub proof fn a_cut_mono_packet_is_refused(
    session: u32,
    direction: Direction,
    seq: u32,
    samples: Seq<i16>,
    len: int,
)
    requires
        whole_frames(samples.len(), 1),
        crate::format::AUDIO_HEADER_LEN <= len < crate::format::AUDIO_HEADER_LEN + 2
            * samples.len(),
    ensures
        packet::decoded(packet::audio_bytes(session, direction, seq, 1, samples).take(len)) == Err::<
            packet::IncomingView,
            DecodeError,
        >(DecodeError::PayloadMismatch),
{
    assert(packet::frame_count(samples.len(), 1) == samples.len()) by {
        vstd::arithmetic::div_mod::lemma_div_basics(samples.len() as int);
    }
    if len > crate::format::AUDIO_HEADER_LEN {
        vstd::arithmetic::div_mod::lemma_small_mod(
            (len - crate::format::AUDIO_HEADER_LEN) as nat,
            2 * samples.len(),
        );
    }
    a_cut_audio_packet_is_refused(session, direction, seq, 1, samples, len);
}

/// The frames that an audio header counts are all the whole frames of its samples,
/// as long as they fit the header's 16 bits.
pub proof fn audio_headers_count_frames(samples: nat, channels: u8)
    requires
        channels >= 1,
        samples / channels as nat <= 0xffff,
    ensures
        packet::frame_count(samples, channels) == samples / channels as nat,
{
}

/// An audio packet is as long as its format says, behind its header.
pub proof fn audio_packets_have_the_length_of_their_format(
    session: u32,
    direction: Direction,
    seq: u32,
    f: Format,
    samples: Seq<i16>,
)
    requires
        samples.len() == f.spec_samples(),
    ensures
        packet::audio_bytes(session, direction, seq, f.channels, samples).len()
            == crate::format::AUDIO_HEADER_LEN + f.spec_payload(),
{
    bytes::lemma_be_bytes_len(session as nat, 4);
    bytes::lemma_be_bytes_len(seq as nat, 4);
    bytes::lemma_be_bytes_len(packet::frame_count(samples.len(), f.channels) as nat, 2);
}

} // verus!
