//! Where each field of a packet stands on the wire, byte by byte.

use crate::bytes;
use crate::format::{Codec, Format};
use crate::packet;
use crate::packet::{AudioHeader, DecodeError, Direction, Status};
use vstd::prelude::*;
use vstd::utf8::*;

verus! {

/// The 16-bit number at `o`, high byte first.
pub open spec fn big16(b: Seq<u8>, o: int) -> int {
    b[o] * 0x100 + b[o + 1]
}

/// The 32-bit number at `o`, high byte first.
pub open spec fn big32(b: Seq<u8>, o: int) -> int {
    b[o] * 0x100_0000 + b[o + 1] * 0x1_0000 + b[o + 2] * 0x100 + b[o + 3]
}

/// The 64-bit number at `o`, high byte first.
pub open spec fn big64(b: Seq<u8>, o: int) -> int {
    big32(b, o) * 0x1_0000_0000 + big32(b, o + 4)
}

/// The first six bytes are `ABRG`, version 1 and packet type `ty`.
pub open spec fn opens(b: Seq<u8>, ty: u8) -> bool {
    &&& b.len() >= 6
    &&& b[0] == 0x41 && b[1] == 0x42 && b[2] == 0x52 && b[3] == 0x47
    &&& b[4] == 1
    &&& b[5] == ty
}

/// The seven bytes at `o` are format `f`: rate, channels, codec 0, packet duration.
pub open spec fn format_stands(b: Seq<u8>, o: int, f: Format) -> bool {
    &&& o + 7 <= b.len()
    &&& big32(b, o) == f.rate
    &&& b[o + 4] == f.channels
    &&& b[o + 5] == 0
    &&& b[o + 6] == f.frame_ms
}

/// The two bytes at `o` are sample `s`, low byte first, in two's complement.
pub open spec fn sample_stands(b: Seq<u8>, o: int, s: i16) -> bool {
    b[o] + b[o + 1] * 0x100 == if s >= 0 {
        s as int
    } else {
        s + 0x1_0000
    }
}

/// The byte of a status.
pub open spec fn status_byte(s: Status) -> u8 {
    match s {
        Status::Okay => 0,
        Status::AuthFailed => 1,
        Status::UnsupportedFormat => 2,
        Status::BadRequest => 3,
        Status::Busy => 4,
        Status::ServerError => 5,
    }
}

/// The byte of a direction.
pub open spec fn direction_byte(d: Direction) -> u8 {
    match d {
        Direction::Mic => 1,
        Direction::Speaker => 2,
    }
}

/// `data` behind a length byte at `o`, as much of it as the byte can count.
pub open spec fn counted_stands(b: Seq<u8>, o: int, data: Seq<u8>) -> bool {
    &&& b[o] == if data.len() <= 255 {
        data.len() as int
    } else {
        255
    }
    &&& o + 1 + b[o] <= b.len()
    &&& forall|k: int| 0 <= k < b[o] ==> #[trigger] b[o + 1 + k] == data[k]
}

proof fn lemma_big16(b: Seq<u8>, o: int)
    requires
        0 <= o,
        o + 2 <= b.len(),
    ensures
        packet::number_at(b, o, 2) == big16(b, o),
{
    reveal_with_fuel(bytes::be_value, 3);
    let s = b.subrange(o, o + 2);
    assert(s.drop_last().drop_last().len() == 0);
    assert(s.last() == b[o + 1] && s.drop_last().last() == b[o]);
}

proof fn lemma_big32(b: Seq<u8>, o: int)
    requires
        0 <= o,
        o + 4 <= b.len(),
    ensures
        packet::number_at(b, o, 4) == big32(b, o),
        0 <= big32(b, o) < 0x1_0000_0000,
{
    reveal_with_fuel(bytes::be_value, 5);
    let s = b.subrange(o, o + 4);
    let s3 = s.drop_last();
    let s2 = s3.drop_last();
    let s1 = s2.drop_last();
    assert(s1.drop_last().len() == 0);
    assert(s.last() == b[o + 3] && s3.last() == b[o + 2] && s2.last() == b[o + 1] && s1.last()
        == b[o]);
}

proof fn lemma_big64(b: Seq<u8>, o: int)
    requires
        0 <= o,
        o + 8 <= b.len(),
    ensures
        packet::number_at(b, o, 8) == big64(b, o),
{
    reveal_with_fuel(bytes::be_value, 9);
    lemma_big32(b, o);
    let s = b.subrange(o, o + 8);
    let s7 = s.drop_last();
    let s6 = s7.drop_last();
    let s5 = s6.drop_last();
    let s4 = s5.drop_last();
    let s3 = s4.drop_last();
    let s2 = s3.drop_last();
    let s1 = s2.drop_last();
    assert(s1.drop_last().len() == 0);
    assert(s.last() == b[o + 7] && s7.last() == b[o + 6] && s6.last() == b[o + 5] && s5.last()
        == b[o + 4]);
    assert(s4.last() == b[o + 3] && s3.last() == b[o + 2] && s2.last() == b[o + 1] && s1.last()
        == b[o]);
}

/// A number of two, four or eight bytes stands with its high byte first.
pub proof fn numbers_stand_high_byte_first(b: Seq<u8>)
    ensures
        b.len() == 2 ==> bytes::be_value(b) == big16(b, 0),
        b.len() == 4 ==> bytes::be_value(b) == big32(b, 0),
        b.len() == 8 ==> bytes::be_value(b) == big64(b, 0),
{
    if b.len() == 2 {
        lemma_big16(b, 0);
        assert(b.subrange(0, 2) =~= b);
    } else if b.len() == 4 {
        lemma_big32(b, 0);
        assert(b.subrange(0, 4) =~= b);
    } else if b.len() == 8 {
        lemma_big64(b, 0);
        assert(b.subrange(0, 8) =~= b);
    }
}

/// A number that was written at `o`.
proof fn lemma_written(b: Seq<u8>, o: int, x: nat, n: nat)
    requires
        0 <= o,
        o + n <= b.len(),
        n == 2 || n == 4 || n == 8,
        b.subrange(o, o + n) == bytes::be_bytes(x, n),
        x < bytes::pow256(n),
    ensures
        n == 2 ==> big16(b, o) == x,
        n == 4 ==> big32(b, o) == x,
        n == 8 ==> big64(b, o) == x,
{
    bytes::lemma_be_value_of_bytes(x, n);
    if n == 2 {
        lemma_big16(b, o);
    } else if n == 4 {
        lemma_big32(b, o);
    } else {
        lemma_big64(b, o);
    }
}

proof fn lemma_format_written(b: Seq<u8>, o: int, f: Format)
    requires
        0 <= o,
        o + 7 <= b.len(),
        b.subrange(o, o + 7) == f.wire(),
    ensures
        format_stands(b, o, f),
{
    let w = f.wire();
    bytes::lemma_be_bytes_len(f.rate as nat, 4);
    bytes::lemma_pow256_widths();
    assert(b.subrange(o, o + 4) =~= w.subrange(0, 4));
    assert(w.subrange(0, 4) =~= bytes::be_bytes(f.rate as nat, 4));
    lemma_written(b, o, f.rate as nat, 4);
    assert(b[o + 4] == w[4] && b[o + 5] == w[5] && b[o + 6] == w[6]);
}

/// A `Hello` on the wire: type 1, the token behind its length, the session, the two
/// formats.
pub proof fn a_hello_is_laid_out(token: Seq<u8>, session: u32, mic: Format, speaker: Format)
    ensures
        ({
            let b = packet::packet_bytes(
                packet::PacketView::Hello { token, session, mic, speaker },
            );
            let n = b[6] as int;
            &&& opens(b, 1)
            &&& counted_stands(b, 6, token)
            &&& b.len() == 25 + n
            &&& big32(b, 7 + n) == session
            &&& format_stands(b, 11 + n, mic)
            &&& format_stands(b, 18 + n, speaker)
        }),
{
    let b = packet::packet_bytes(packet::PacketView::Hello { token, session, mic, speaker });
    let n = packet::kept_len(token);
    bytes::lemma_pow256_widths();
    bytes::lemma_be_bytes_len(session as nat, 4);
    mic.lemma_wire_len();
    speaker.lemma_wire_len();
    assert(b[6] == n);
    assert(b.subrange(7 + n, 11 + n) =~= bytes::be_bytes(session as nat, 4));
    lemma_written(b, 7 + n, session as nat, 4);
    assert(b.subrange(11 + n, 18 + n) =~= mic.wire());
    lemma_format_written(b, 11 + n, mic);
    assert(b.subrange(18 + n, 25 + n) =~= speaker.wire());
    lemma_format_written(b, 18 + n, speaker);
}

/// A `HelloAck` on the wire: type 2, the status, the session, the two formats, the message
/// behind its length.
pub proof fn a_hello_ack_is_laid_out(
    status: Status,
    session: u32,
    mic: Format,
    speaker: Format,
    message: Seq<char>,
)
    ensures
        ({
            let b = packet::packet_bytes(
                packet::PacketView::HelloAck { status, session, mic, speaker, message },
            );
            &&& opens(b, 2)
            &&& b[6] == status_byte(status)
            &&& big32(b, 7) == session
            &&& format_stands(b, 11, mic)
            &&& format_stands(b, 18, speaker)
            &&& counted_stands(b, 25, encode_utf8(message))
            &&& b.len() == 26 + b[25]
        }),
{
    let b = packet::packet_bytes(
        packet::PacketView::HelloAck { status, session, mic, speaker, message },
    );
    let n = packet::kept_len(encode_utf8(message));
    bytes::lemma_pow256_widths();
    bytes::lemma_be_bytes_len(session as nat, 4);
    mic.lemma_wire_len();
    speaker.lemma_wire_len();
    assert(b[25] == n);
    assert(b.subrange(7, 11) =~= bytes::be_bytes(session as nat, 4));
    lemma_written(b, 7, session as nat, 4);
    assert(b.subrange(11, 18) =~= mic.wire());
    lemma_format_written(b, 11, mic);
    assert(b.subrange(18, 25) =~= speaker.wire());
    lemma_format_written(b, 18, speaker);
}

/// A `Bye` on the wire: type 4 and the session.
pub proof fn a_bye_is_laid_out(session: u32)
    ensures
        ({
            let b = packet::packet_bytes(packet::PacketView::Bye { session });
            opens(b, 4) && b.len() == 10 && big32(b, 6) == session
        }),
{
    let b = packet::packet_bytes(packet::PacketView::Bye { session });
    bytes::lemma_pow256_widths();
    bytes::lemma_be_bytes_len(session as nat, 4);
    assert(b.subrange(6, 10) =~= bytes::be_bytes(session as nat, 4));
    lemma_written(b, 6, session as nat, 4);
}

/// A `Ping` and a `Pong` on the wire: types 5 and 6, the session and the nonce.
pub proof fn pings_are_laid_out(session: u32, nonce: u64)
    ensures
        ({
            let b = packet::packet_bytes(packet::PacketView::Ping { session, nonce });
            opens(b, 5) && b.len() == 18 && big32(b, 6) == session && big64(b, 10) == nonce
        }),
        ({
            let b = packet::packet_bytes(packet::PacketView::Pong { session, nonce });
            opens(b, 6) && b.len() == 18 && big32(b, 6) == session && big64(b, 10) == nonce
        }),
{
    let a = packet::packet_bytes(packet::PacketView::Ping { session, nonce });
    let b = packet::packet_bytes(packet::PacketView::Pong { session, nonce });
    bytes::lemma_pow256_widths();
    bytes::lemma_be_bytes_len(session as nat, 4);
    bytes::lemma_be_bytes_len(nonce as nat, 8);
    assert(a.subrange(6, 10) =~= bytes::be_bytes(session as nat, 4));
    assert(b.subrange(6, 10) =~= bytes::be_bytes(session as nat, 4));
    assert(a.subrange(10, 18) =~= bytes::be_bytes(nonce as nat, 8));
    assert(b.subrange(10, 18) =~= bytes::be_bytes(nonce as nat, 8));
    lemma_written(a, 6, session as nat, 4);
    lemma_written(b, 6, session as nat, 4);
    lemma_written(a, 10, nonce as nat, 8);
    lemma_written(b, 10, nonce as nat, 8);
}

/// An audio packet on the wire: type 3, the session, the direction, the sequence number,
/// the number of frames, and the samples, low byte first.
pub proof fn audio_is_laid_out(
    session: u32,
    direction: Direction,
    seq: u32,
    channels: u8,
    samples: Seq<i16>,
)
    ensures
        ({
            let b = packet::audio_bytes(session, direction, seq, channels, samples);
            &&& opens(b, 3)
            &&& big32(b, 6) == session
            &&& b[10] == direction_byte(direction)
            &&& big32(b, 11) == seq
            &&& big16(b, 15) == (samples.len() / (if channels >= 1 {
                channels as nat
            } else {
                1
            })) % 0x1_0000
            &&& b.len() == 17 + 2 * samples.len()
            &&& forall|k: int|
                0 <= k < samples.len() ==> sample_stands(b, 17 + 2 * k, #[trigger] samples[k])
        }),
{
    let b = packet::audio_bytes(session, direction, seq, channels, samples);
    let frames = packet::frame_count(samples.len(), channels);
    bytes::lemma_pow256_widths();
    bytes::lemma_be_bytes_len(session as nat, 4);
    bytes::lemma_be_bytes_len(seq as nat, 4);
    bytes::lemma_be_bytes_len(frames as nat, 2);
    assert(b.subrange(6, 10) =~= bytes::be_bytes(session as nat, 4));
    assert(b.subrange(11, 15) =~= bytes::be_bytes(seq as nat, 4));
    assert(b.subrange(15, 17) =~= bytes::be_bytes(frames as nat, 2));
    lemma_written(b, 6, session as nat, 4);
    lemma_written(b, 11, seq as nat, 4);
    lemma_written(b, 15, frames as nat, 2);
    let payload = bytes::samples_bytes(samples);
    assert(b.skip(17) =~= payload);
    assert forall|k: int| 0 <= k < samples.len() implies sample_stands(
        b,
        17 + 2 * k,
        #[trigger] samples[k],
    ) by {
        assert((2 * k) / 2 == k && (2 * k + 1) / 2 == k);
        assert(b[17 + 2 * k] == payload[2 * k]);
        assert(b[17 + 2 * k + 1] == payload[2 * k + 1]);
    }
}

/// Samples are read from byte pairs, low byte first, one from each pair.
pub proof fn samples_are_read_from_pairs(payload: Seq<u8>)
    ensures
        bytes::samples_of(payload).len() == payload.len() / 2,
        forall|k: int|
            0 <= k < payload.len() / 2 ==> sample_stands(
                payload,
                2 * k,
                #[trigger] bytes::samples_of(payload)[k],
            ),
{
}

/// The first four bytes are `ABRG`.
pub open spec fn magic_stands(b: Seq<u8>) -> bool {
    b.len() >= 4 && b[0] == 0x41 && b[1] == 0x42 && b[2] == 0x52 && b[3] == 0x47
}

proof fn lemma_magic(b: Seq<u8>)
    requires
        b.len() >= 4,
    ensures
        b.take(4) == packet::MAGIC@ <==> magic_stands(b),
{
    let m = packet::MAGIC@;
    if magic_stands(b) {
        assert(b.take(4) =~= m);
    }
    if b.take(4) == m {
        assert(b.take(4)[0] == m[0] && b.take(4)[1] == m[1] && b.take(4)[2] == m[2] && b.take(4)[3]
            == m[3]);
    }
}

/// What is wrong with the front of a packet: fewer than four bytes, another magic, no
/// version byte, another version, no type byte, a type that is none of the six.
pub proof fn the_front_is_checked_first(b: Seq<u8>)
    ensures
        b.len() < 4 ==> packet::decoded(b) == Err::<packet::IncomingView, DecodeError>(
            DecodeError::TooShort,
        ),
        b.len() >= 4 && !magic_stands(b) ==> packet::decoded(b) == Err::<
            packet::IncomingView,
            DecodeError,
        >(DecodeError::BadMagic),
        magic_stands(b) && b.len() == 4 ==> packet::decoded(b) == Err::<
            packet::IncomingView,
            DecodeError,
        >(DecodeError::TooShort),
        magic_stands(b) && b.len() >= 5 && b[4] != 1 ==> packet::decoded(b) == Err::<
            packet::IncomingView,
            DecodeError,
        >(DecodeError::BadVersion(b[4])),
        magic_stands(b) && b.len() == 5 && b[4] == 1 ==> packet::decoded(b) == Err::<
            packet::IncomingView,
            DecodeError,
        >(DecodeError::TooShort),
        magic_stands(b) && b.len() >= 6 && b[4] == 1 && !(1 <= b[5] <= 6) ==> packet::decoded(b)
            == Err::<packet::IncomingView, DecodeError>(DecodeError::UnknownType(b[5])),
{
    if b.len() >= 4 {
        lemma_magic(b);
    }
}

/// A `Bye`, a `Ping` or a `Pong` is read from its fields, if they are all there.
pub proof fn short_packets_are_read(b: Seq<u8>)
    ensures
        opens(b, 4) ==> packet::decoded(b) == if b.len() < 10 {
            Err::<packet::IncomingView, DecodeError>(DecodeError::TooShort)
        } else {
            Ok(
                packet::IncomingView::Control(
                    packet::PacketView::Bye { session: big32(b, 6) as u32 },
                ),
            )
        },
        opens(b, 5) ==> packet::decoded(b) == if b.len() < 18 {
            Err::<packet::IncomingView, DecodeError>(DecodeError::TooShort)
        } else {
            Ok(
                packet::IncomingView::Control(
                    packet::PacketView::Ping {
                        session: big32(b, 6) as u32,
                        nonce: big64(b, 10) as u64,
                    },
                ),
            )
        },
        opens(b, 6) ==> packet::decoded(b) == if b.len() < 18 {
            Err::<packet::IncomingView, DecodeError>(DecodeError::TooShort)
        } else {
            Ok(
                packet::IncomingView::Control(
                    packet::PacketView::Pong {
                        session: big32(b, 6) as u32,
                        nonce: big64(b, 10) as u64,
                    },
                ),
            )
        },
{
    if b.len() >= 4 {
        lemma_magic(b);
    }
    if b.len() >= 10 {
        lemma_big32(b, 6);
    }
    if b.len() >= 18 {
        lemma_big64(b, 10);
    }
}

/// `payload` bytes make up `frames` frames of some number of channels that fits a byte.
pub open spec fn makes_frames(frames: int, payload: int) -> bool {
    exists|channels: u8| frames >= 1 && channels >= 1 && payload == #[trigger] samples_bytes_of(
        frames,
        channels,
    )
}

/// The bytes of `frames` frames of `channels` samples, two bytes to a sample.
pub open spec fn samples_bytes_of(frames: int, channels: u8) -> int {
    2 * (frames * channels)
}

proof fn lemma_makes_frames(frames: nat, payload: nat)
    ensures
        packet::frames_agree(frames, payload) <==> makes_frames(frames as int, payload as int),
{
    lemma_channels(frames, payload);
    if makes_frames(frames as int, payload as int) {
        let channels = choose|channels: u8|
            frames >= 1 && channels >= 1 && payload == #[trigger] samples_bytes_of(
                frames as int,
                channels,
            );
        let n = payload / 2;
        assert(n == frames * channels);
        assert(n > 0) by (nonlinear_arith)
            requires
                n == frames * channels,
                frames >= 1,
                channels >= 1,
        ;
        vstd::arithmetic::mul::lemma_mul_is_commutative(frames as int, channels as int);
        vstd::arithmetic::div_mod::lemma_mod_multiples_basic(channels as int, frames as int);
        vstd::arithmetic::div_mod::lemma_div_by_multiple(channels as int, frames as int);
    }
}

proof fn lemma_channels(frames: nat, payload: nat)
    ensures
        packet::frames_agree(frames, payload) ==> makes_frames(frames as int, payload as int),
{
    if packet::frames_agree(frames, payload) {
        let n = payload / 2;
        let channels = n / frames;
        vstd::arithmetic::div_mod::lemma_fundamental_div_mod(n as int, frames as int);
        assert(channels >= 1) by (nonlinear_arith)
            requires
                n == frames * channels,
                n > 0,
        ;
        assert(payload == samples_bytes_of(frames as int, channels as u8));
    }
}

/// An audio packet is read from its fields, if they are all there, its direction is one of
/// the two, and its payload makes up the frames that it counts.
pub proof fn audio_is_read(b: Seq<u8>)
    requires
        opens(b, 3),
    ensures
        packet::decoded(b) == if b.len() < 11 {
            Err::<packet::IncomingView, DecodeError>(DecodeError::TooShort)
        } else if b[10] != 1 && b[10] != 2 {
            Err(DecodeError::UnknownDirection(b[10]))
        } else if b.len() < 17 {
            Err(DecodeError::TooShort)
        } else if !makes_frames(big16(b, 15), b.len() - 17) {
            Err(DecodeError::PayloadMismatch)
        } else {
            Ok(
                packet::IncomingView::Audio {
                    header: AudioHeader {
                        session: big32(b, 6) as u32,
                        direction: if b[10] == 1 {
                            Direction::Mic
                        } else {
                            Direction::Speaker
                        },
                        seq: big32(b, 11) as u32,
                        frames: big16(b, 15) as u16,
                    },
                    payload: b.skip(17),
                },
            )
        },
{
    lemma_magic(b);
    if b.len() >= 17 {
        lemma_big32(b, 6);
        lemma_big32(b, 11);
        lemma_big16(b, 15);
        lemma_makes_frames(big16(b, 15) as nat, (b.len() - 17) as nat);
    }
}

/// The format at `o`.
pub open spec fn format_read(b: Seq<u8>, o: int) -> Format {
    Format {
        rate: big32(b, o) as u32,
        channels: b[o + 4],
        codec: Codec::PcmS16Le,
        frame_ms: b[o + 6],
    }
}

/// Why the two formats at `o` cannot be read, if they cannot: a byte is missing, or a codec
/// is not 0, whichever comes first.
pub open spec fn formats_trouble(b: Seq<u8>, o: int) -> Option<DecodeError> {
    if b.len() < o + 6 {
        Some(DecodeError::TooShort)
    } else if b[o + 5] != 0 {
        Some(DecodeError::UnknownCodec)
    } else if b.len() < o + 13 {
        Some(DecodeError::TooShort)
    } else if b[o + 12] != 0 {
        Some(DecodeError::UnknownCodec)
    } else if b.len() < o + 14 {
        Some(DecodeError::TooShort)
    } else {
        None
    }
}

proof fn lemma_formats(b: Seq<u8>, o: int)
    requires
        0 <= o,
    ensures
        packet::formats_at(b, o) == match formats_trouble(b, o) {
            Some(e) => Err::<(Format, Format), DecodeError>(e),
            None => Ok((format_read(b, o), format_read(b, o + 7))),
        },
{
    if b.len() >= o + 4 {
        lemma_big32(b, o);
    }
    if b.len() >= o + 11 {
        lemma_big32(b, o + 7);
    }
}

/// A `Hello` is read from its fields, if they are all there and both codecs are 0.
pub proof fn a_hello_is_read(b: Seq<u8>)
    requires
        opens(b, 1),
    ensures
        packet::decoded(b) == if b.len() < 7 || b.len() < 11 + b[6] {
            Err::<packet::IncomingView, DecodeError>(DecodeError::TooShort)
        } else {
            match formats_trouble(b, 11 + b[6]) {
                Some(e) => Err(e),
                None => Ok(
                    packet::IncomingView::Control(
                        packet::PacketView::Hello {
                            token: b.subrange(7, 7 + b[6]),
                            session: big32(b, 7 + b[6]) as u32,
                            mic: format_read(b, 11 + b[6]),
                            speaker: format_read(b, 18 + b[6]),
                        },
                    ),
                ),
            }
        },
{
    lemma_magic(b);
    if b.len() >= 7 && b.len() >= 11 + b[6] {
        lemma_big32(b, 7 + b[6]);
        lemma_formats(b, 11 + b[6]);
    }
}

/// The status of a byte.
pub open spec fn status_read(v: u8) -> Status {
    match v {
        0 => Status::Okay,
        1 => Status::AuthFailed,
        2 => Status::UnsupportedFormat,
        3 => Status::BadRequest,
        4 => Status::Busy,
        _ => Status::ServerError,
    }
}

/// A `HelloAck` is read from its fields, if they are all there, its status is one of the
/// six, both codecs are 0 and the message is UTF-8.
pub proof fn a_hello_ack_is_read(b: Seq<u8>)
    requires
        opens(b, 2),
    ensures
        packet::decoded(b) == if b.len() < 7 {
            Err::<packet::IncomingView, DecodeError>(DecodeError::TooShort)
        } else if b[6] > 5 {
            Err(DecodeError::UnknownStatus(b[6]))
        } else if b.len() < 11 {
            Err(DecodeError::TooShort)
        } else {
            match formats_trouble(b, 11) {
                Some(e) => Err(e),
                None => if b.len() < 26 || b.len() < 26 + b[25] {
                    Err(DecodeError::TooShort)
                } else if !valid_utf8(b.subrange(26, 26 + b[25])) {
                    Err(DecodeError::Utf8)
                } else {
                    Ok(
                        packet::IncomingView::Control(
                            packet::PacketView::HelloAck {
                                status: status_read(b[6]),
                                session: big32(b, 7) as u32,
                                mic: format_read(b, 11),
                                speaker: format_read(b, 18),
                                message: decode_utf8(b.subrange(26, 26 + b[25])),
                            },
                        ),
                    )
                },
            }
        },
{
    lemma_magic(b);
    if b.len() >= 11 {
        lemma_big32(b, 7);
        lemma_formats(b, 11);
    }
}

} // verus!
