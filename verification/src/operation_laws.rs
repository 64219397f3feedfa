//! What the operations on buffers, packets and formats hand back and leave behind.

use crate::bytes;
use crate::clock;
use crate::format::{Codec, Format};
use crate::format_laws;
use crate::jitter;
use crate::jitter::{JitterBuffer, JitterStats};
use crate::packet;
use crate::packet::{DecodeError, Direction, Incoming, Packet, PacketType, Status};
use crate::packet_laws;
use crate::pcm;
use crate::pull_laws;
use crate::reopen::Outage;
use crate::resampler;
use crate::rounding::ONE;
use crate::sample_laws;
use crate::text;
use crate::wire_laws;
use vstd::prelude::*;
use vstd::utf8::*;

verus! {

/// A buffer is made empty for its stream, if this machine can address it.
pub proof fn a_buffer_is_made_as_told(
    channels: usize,
    rate_hz: u32,
    frame_ms: u8,
    target_ms: u32,
)
    ensures
        forall|jb: JitterBuffer| #[trigger]
            call_ensures(JitterBuffer::new, (channels, rate_hz, frame_ms, target_ms), jb) ==> jb@
                == jitter::JitterModel::fresh(channels as nat, rate_hz, frame_ms, target_ms),
        forall|ok: bool| #[trigger]
            call_ensures(JitterBuffer::fits, (channels, rate_hz, frame_ms, target_ms), ok) ==> (ok
                <==> channels >= 1 && 8 * (jitter::JitterModel::fresh(
                channels as nat,
                rate_hz,
                frame_ms,
                target_ms,
            ).target_frames * channels) <= isize::MAX),
{
    let t = jitter::latency_frames(rate_hz, frame_ms, target_ms) as int;
    assert(4 * t * channels * 2 == 8 * (t * channels)) by (nonlinear_arith);
}

/// What can be asked of a buffer.
pub proof fn a_buffer_shows_itself(jb: &JitterBuffer)
    ensures
        forall|s: JitterStats| #[trigger]
            call_ensures(JitterBuffer::stats, (jb,), s) ==> s == jb@.stats,
        forall|n: usize| #[trigger]
            call_ensures(JitterBuffer::fill_frames, (jb,), n) ==> n == jb@.queue.len()
                / jb@.channels,
        forall|n: usize| #[trigger]
            call_ensures(JitterBuffer::target_frames, (jb,), n) ==> n == jb@.target_frames,
        forall|r: u64| #[trigger] call_ensures(JitterBuffer::rate, (jb,), r) ==> r == jb@.rate,
{
}

/// Pushing, pulling and resetting a buffer are what the laws of pushing and pulling speak
/// of.
pub proof fn buffers_are_pushed_and_pulled()
    ensures
        forall|jb: &mut JitterBuffer, seq: u32, samples: &[i16], u: ()|
            #![trigger call_ensures(JitterBuffer::push, (jb, seq, samples), u)]
            call_ensures(JitterBuffer::push, (jb, seq, samples), u) ==> final(jb)@
                == (*jb)@.pushed(seq, samples@),
        forall|jb: &mut JitterBuffer, out: &mut [i16], u: ()|
            #![trigger call_ensures(JitterBuffer::pull, (jb, out), u)]
            call_ensures(JitterBuffer::pull, (jb, out), u) ==> {
                &&& final(jb)@ == (*jb)@.pulled((*out)@.len())
                &&& final(out)@ == (*jb)@.output((*out)@)
            },
        forall|jb: &mut JitterBuffer, u: ()|
            #![trigger call_ensures(JitterBuffer::reset, (jb,), u)]
            call_ensures(JitterBuffer::reset, (jb,), u) ==> final(jb)@ == (*jb)@.cleared(),
{
}

/// Fading, mixing and the two steps of the rate come to what they are in plain fractions.
pub proof fn sample_arithmetic_is_plain(
    s: i16,
    i: u64,
    a: i16,
    b: i16,
    t: u64,
    fill: u64,
    target: u64,
    rate: u64,
    desired: u64,
)
    requires
        t <= ONE,
        0 < target,
        resampler::rate_in_limits(rate as nat),
        resampler::rate_in_limits(desired as nat),
    ensures
        forall|g: u64, x: i16|
            #![trigger call_ensures(resampler::fade_out, (i,), g),
                call_ensures(resampler::scale, (s, g), x)]
            call_ensures(resampler::fade_out, (i,), g) && call_ensures(resampler::scale, (s, g), x)
                ==> sample_laws::is_faded(x, s, i as nat),
        forall|x: i16| #[trigger]
            call_ensures(resampler::mix, (a, b, t), x) ==> sample_laws::is_between(
                x as int,
                a,
                b,
                t as nat,
            ),
        forall|d: u64| #[trigger]
            call_ensures(resampler::wanted_rate, (fill, target), d) ==> d
                == resampler::desired_rate(fill as nat, target as nat),
        forall|n: u64| #[trigger]
            call_ensures(resampler::smooth_rate, (rate, desired), n) ==> -176 <= 50 * (n - rate) - (
            desired - rate) <= 176,
{
    sample_laws::a_fade_is_linear(s, i as nat);
    resampler::lemma_faded(s, i as nat);
    sample_laws::a_mix_is_linear(a, b, t as nat);
    pull_laws::a_step_is_a_fiftieth(rate as nat, desired as nat);
}

/// What is sent is what is read: decoding what a control packet was encoded to gives the
/// packet, as long as a length byte can count its token or message.
pub proof fn what_is_sent_is_what_is_read(p: &Packet, out: Vec<u8>, buf: &[u8])
    requires
        call_ensures(Packet::encode, (p,), out),
        buf@ == out@,
        packet_laws::countable(p@),
    ensures
        forall|r: Result<Incoming<'_>, DecodeError>| #[trigger]
            call_ensures(packet::decode, (buf,), r) ==> (r matches Ok(Incoming::Control(q)) && q@
                == p@),
{
    packet_laws::control_packets_round_trip(p@, Seq::empty());
    assert(packet::packet_bytes(p@) + Seq::<u8>::empty() =~= packet::packet_bytes(p@));
}

/// Encoding and decoding are what the laws of the wire speak of.
pub proof fn packets_are_written_and_read(p: &Packet, buf: &[u8], expected: &str)
    ensures
        forall|out: Vec<u8>| #[trigger]
            call_ensures(Packet::encode, (p,), out) ==> out@ == packet::packet_bytes(p@),
        forall|r: Result<Incoming<'_>, DecodeError>| #[trigger]
            call_ensures(packet::decode, (buf,), r) ==> match r {
                Ok(incoming) => packet::decoded(buf@) == Ok::<packet::IncomingView, DecodeError>(
                    incoming@,
                ),
                Err(e) => packet::decoded(buf@) == Err::<packet::IncomingView, DecodeError>(e),
            },
        forall|same: bool| #[trigger]
            call_ensures(packet::token_matches, (expected, buf), same) ==> (same <==> encode_utf8(
                expected@,
            ) == buf@),
        forall|
            out: &mut Vec<u8>,
            session: u32,
            direction: Direction,
            seq: u32,
            channels: u8,
            samples: &[i16],
            u: (),
        |
            #![trigger call_ensures(
                packet::encode_audio,
                (out, session, direction, seq, channels, samples),
                u,
            )]
            call_ensures(
                packet::encode_audio,
                (out, session, direction, seq, channels, samples),
                u,
            ) ==> final(out)@ == packet::audio_bytes(session, direction, seq, channels, samples@),
        forall|payload: &[u8], out: &mut Vec<i16>, u: ()|
            #![trigger call_ensures(packet::decode_samples, (payload, out), u)]
            call_ensures(packet::decode_samples, (payload, out), u) ==> final(out)@
                == bytes::samples_of(payload@),
{
}

/// What a packet says is what it holds.
pub proof fn packets_say_what_they_hold(p: Packet)
    ensures
        p matches Packet::Hello { token, session, mic, speaker } ==> p@ == (
        packet::PacketView::Hello { token: token@, session, mic, speaker }),
        p matches Packet::HelloAck { status, session, mic, speaker, message } ==> p@ == (
        packet::PacketView::HelloAck { status, session, mic, speaker, message: message@ }),
        p matches Packet::Bye { session } ==> p@ == (packet::PacketView::Bye { session }),
        p matches Packet::Ping { session, nonce } ==> p@ == (packet::PacketView::Ping {
            session,
            nonce,
        }),
        p matches Packet::Pong { session, nonce } ==> p@ == (packet::PacketView::Pong {
            session,
            nonce,
        }),
{
}

/// The bytes that stand for packet types, directions, statuses and codecs.
pub proof fn codes_are_fixed(v: u8)
    ensures
        forall|t: Option<PacketType>| #[trigger]
            call_ensures(PacketType::from_u8, (v,), t) ==> t == match v {
                1 => Some(PacketType::Hello),
                2 => Some(PacketType::HelloAck),
                3 => Some(PacketType::Audio),
                4 => Some(PacketType::Bye),
                5 => Some(PacketType::Ping),
                6 => Some(PacketType::Pong),
                _ => None,
            },
        forall|d: Option<Direction>| #[trigger]
            call_ensures(Direction::from_u8, (v,), d) ==> match d {
                Some(x) => v == wire_laws::direction_byte(x),
                None => v != 1 && v != 2,
            },
        forall|s: Option<Status>| #[trigger]
            call_ensures(Status::from_u8, (v,), s) ==> match s {
                Some(x) => v == wire_laws::status_byte(x),
                None => v > 5,
            },
        forall|c: Option<Codec>| #[trigger]
            call_ensures(Codec::from_u8, (v,), c) ==> (c is Some <==> v == 0),
        forall|t: PacketType, x: u8| #[trigger]
            call_ensures(PacketType::code, (t,), x) ==> packet::type_of(x) == Some(t),
        forall|d: Direction, x: u8| #[trigger]
            call_ensures(Direction::code, (d,), x) ==> x == wire_laws::direction_byte(d),
        forall|s: Status, x: u8| #[trigger]
            call_ensures(Status::code, (s,), x) ==> x == wire_laws::status_byte(s),
        forall|c: Codec, x: u8| #[trigger] call_ensures(Codec::code, (c,), x) ==> x == 0,
{
}

/// Directions, statuses and errors in words.
pub proof fn words_are_fixed(d: &Direction, s: &Status, e: &DecodeError)
    ensures
        forall|t: String| #[trigger]
            call_ensures(Direction::to_string, (d,), t) ==> t@ == match *d {
                Direction::Mic => "mic"@,
                Direction::Speaker => "speaker"@,
            },
        forall|t: String| #[trigger]
            call_ensures(Status::to_string, (s,), t) ==> t@ == match *s {
                Status::Okay => "ok"@,
                Status::AuthFailed => "authentication failed"@,
                Status::UnsupportedFormat => "unsupported audio format"@,
                Status::BadRequest => "malformed request"@,
                Status::Busy => "another host owns the session"@,
                Status::ServerError => "server error"@,
            },
        forall|t: String| #[trigger]
            call_ensures(DecodeError::to_string, (e,), t) ==> t@ == match *e {
                DecodeError::TooShort => "packet truncated"@,
                DecodeError::BadMagic => "bad magic"@,
                DecodeError::BadVersion(v) => "unsupported protocol version "@ + text::decimal(
                    v as nat,
                ),
                DecodeError::UnknownType(t) => "unknown packet type "@ + text::decimal(t as nat),
                DecodeError::UnknownDirection(d) => "unknown direction "@ + text::decimal(d as nat),
                DecodeError::UnknownCodec => "unknown codec"@,
                DecodeError::UnknownStatus(s) => "unknown status "@ + text::decimal(s as nat),
                DecodeError::PayloadMismatch => "audio payload length disagrees with header"@,
                DecodeError::Utf8 => "message is not valid UTF-8"@,
            },
{
}

/// A format is made of the numbers it is given, and its sizes, its words and its validity
/// are those that the laws of formats speak of. It fits a 1500-byte path if and only if
/// its samples, the audio header, UDP and IP do.
pub proof fn formats_are_as_told(f: &Format, rate: u32, channels: u8, frame_ms: u8)
    ensures
        forall|n: Format| #[trigger]
            call_ensures(Format::new, (rate, channels, frame_ms), n) ==> n.rate == rate
                && n.channels == channels && n.frame_ms == frame_ms && n.codec == Codec::PcmS16Le,
        forall|n: usize| #[trigger]
            call_ensures(Format::frames_per_packet, (f,), n) ==> n == (f.rate * f.frame_ms) / 1000,
        forall|n: usize| #[trigger]
            call_ensures(Format::samples_per_packet, (f,), n) ==> n == ((f.rate * f.frame_ms)
                / 1000) * f.channels,
        forall|n: usize| #[trigger]
            call_ensures(Format::payload_len, (f,), n) ==> n == 2 * (((f.rate * f.frame_ms) / 1000)
                * f.channels),
        forall|fits: bool| #[trigger]
            call_ensures(Format::fits_ethernet_mtu, (f,), fits) ==> (fits <==> 2 * (((f.rate
                * f.frame_ms) / 1000) * f.channels) + 17 + 8 + 20 <= 1500),
        forall|r: Result<(), String>| #[trigger]
            call_ensures(Format::validate, (f,), r) ==> match r {
                Ok(()) => f.valid(),
                Err(message) => !f.valid() && f.complaint() == Some(message@),
            },
        forall|t: String| #[trigger] call_ensures(Format::to_string, (f,), t) ==> t@ == f.words(),
        forall|out: &mut Vec<u8>, u: ()|
            #![trigger call_ensures(Format::encode, (f, out), u)]
            call_ensures(Format::encode, (f, out), u) ==> final(out)@ == (*out)@ + f.wire(),
{
    format_laws::packets_hold_their_duration(*f);
    assert(f.spec_frames() == (f.rate * f.frame_ms) / 1000);
}

/// Numbers and lists are put into words as the laws of formats say.
pub proof fn words_are_put_together(parts: &Vec<String>, between: &str)
    ensures
        forall|out: &mut String, n: u64, u: ()|
            #![trigger call_ensures(text::push_decimal, (out, n), u)]
            call_ensures(text::push_decimal, (out, n), u) ==> final(out)@ == (*out)@
                + text::decimal(n as nat),
        forall|s: String| #[trigger]
            call_ensures(text::join, (parts, between), s) ==> s@ == text::joined(
                Seq::new(parts@.len(), |i: int| parts@[i]@),
                between@,
            ),
        forall|lines: &mut Vec<String>, line: &str, u: ()|
            #![trigger call_ensures(text::push_line, (lines, line), u)]
            call_ensures(text::push_line, (lines, line), u) ==> {
                &&& final(lines)@.len() == (*lines)@.len() + 1
                &&& final(lines)@.last()@ == line@
            },
{
    assert(text::texts(parts@) =~= Seq::new(parts@.len(), |i: int| parts@[i]@));
    assert forall|lines: &mut Vec<String>, line: &str, u: ()|
        #![trigger call_ensures(text::push_line, (lines, line), u)]
        call_ensures(text::push_line, (lines, line), u) implies {
        &&& final(lines)@.len() == (*lines)@.len() + 1
        &&& final(lines)@.last()@ == line@
    } by {
        let after = text::texts(final(lines)@);
        assert(after.len() == final(lines)@.len());
        assert(after.last() == line@);
        assert(after[after.len() - 1] == final(lines)@[after.len() - 1]@);
    }
}

/// Numbers and samples go on the wire and come off it byte by byte: numbers high byte
/// first, samples low byte first.
pub proof fn numbers_go_byte_by_byte(b: &[u8], lo: u8, hi: u8)
    ensures
        forall|x: u16| #[trigger]
            call_ensures(bytes::read_be16, (b,), x) && b@.len() == 2 ==> x == wire_laws::big16(
                b@,
                0,
            ),
        forall|x: u32| #[trigger]
            call_ensures(bytes::read_be32, (b,), x) && b@.len() == 4 ==> x == wire_laws::big32(
                b@,
                0,
            ),
        forall|x: u64| #[trigger]
            call_ensures(bytes::read_be64, (b,), x) && b@.len() == 8 ==> x == wire_laws::big64(
                b@,
                0,
            ),
        forall|s: i16| #[trigger]
            call_ensures(bytes::read_sample, (lo, hi), s) ==> wire_laws::sample_stands(
                seq![lo, hi],
                0,
                s,
            ),
        forall|out: &mut Vec<u8>, s: i16, u: ()|
            #![trigger call_ensures(bytes::push_sample, (out, s), u)]
            call_ensures(bytes::push_sample, (out, s), u) ==> {
                let n = (*out)@.len() as int;
                &&& final(out)@.len() == n + 2
                &&& final(out)@.take(n) == (*out)@
                &&& wire_laws::sample_stands(final(out)@, n, s)
            },
{
    if b@.len() == 2 || b@.len() == 4 || b@.len() == 8 {
        wire_laws::numbers_stand_high_byte_first(b@);
    }
    assert forall|out: &mut Vec<u8>, s: i16, u: ()|
        #![trigger call_ensures(bytes::push_sample, (out, s), u)]
        call_ensures(bytes::push_sample, (out, s), u) implies {
        let n = (*out)@.len() as int;
        &&& final(out)@.len() == n + 2
        &&& final(out)@.take(n) == (*out)@
        &&& wire_laws::sample_stands(final(out)@, n, s)
    } by {
        assert(final(out)@.take((*out)@.len() as int) =~= (*out)@);
    }
}

/// Time passes forwards, and not at all on a clock that went backwards.
pub proof fn time_passes_forwards(now: u64, then: u64, d: u64)
    requires
        call_ensures(clock::time_since, (now, then), d),
    ensures
        now >= then ==> then + d == now,
        now < then ==> d == 0,
{
}

/// An outage is worth one warning, until the device works again.
pub proof fn an_outage_is_worth_one_warning()
    ensures
        forall|o: Outage| #[trigger] call_ensures(Outage::new, (), o) ==> !o.is_announced(),
        forall|o: &mut Outage, warn: bool|
            #![trigger call_ensures(Outage::failed, (o,), warn)]
            call_ensures(Outage::failed, (o,), warn) ==> {
                &&& warn <==> !(*o).is_announced()
                &&& final(o).is_announced()
            },
        forall|o: &mut Outage, u: ()|
            #![trigger call_ensures(Outage::worked, (o,), u)]
            call_ensures(Outage::worked, (o,), u) ==> !final(o).is_announced(),
{
}

/// What a received packet says is what it holds.
pub proof fn received_packets_say_what_they_hold(i: Incoming<'_>)
    ensures
        i matches Incoming::Control(p) ==> i@ == packet::IncomingView::Control(p@),
        i matches Incoming::Audio { header, payload } ==> i@ == (packet::IncomingView::Audio {
            header,
            payload: payload@,
        }),
        packet::MAX_PACKET == 4096,
        packet::HEADER_LEN == 6,
        packet::VERSION == 1,
        crate::format::AUDIO_HEADER_LEN == 17,
        Format::ENCODED_LEN == 7,
        jitter::RESYNC_GAP_PACKETS == 50,
{
}

/// The bytes for a sound device are those of the samples, in one byte order or the other,
/// two for each.
pub open spec fn device_bytes(b: Seq<u8>, samples: Seq<i16>) -> bool {
    &&& b.len() == 2 * samples.len()
    &&& (forall|k: int|
        0 <= k < samples.len() ==> wire_laws::sample_stands(b, 2 * k, #[trigger] samples[k])) || (
    forall|k: int|
        0 <= k < samples.len() ==> wire_laws::sample_stands(
            seq![b[2 * k + 1], b[2 * k]],
            0,
            #[trigger] samples[k],
        ))
}

proof fn lemma_stored(low_first: bool, samples: Seq<i16>)
    ensures
        device_bytes(pcm::stored(low_first, samples), samples),
{
    let b = pcm::stored(low_first, samples);
    assert(b.len() == 2 * samples.len());
    if low_first {
        assert forall|k: int| 0 <= k < samples.len() implies wire_laws::sample_stands(
            b,
            2 * k,
            #[trigger] samples[k],
        ) by {
            assert((2 * k) / 2 == k && (2 * k + 1) / 2 == k);
            assert(b[2 * k] == bytes::sample_bytes(samples[k])[0]);
            assert(b[2 * k + 1] == bytes::sample_bytes(samples[k])[1]);
        }
    } else {
        assert forall|k: int| 0 <= k < samples.len() implies wire_laws::sample_stands(
            seq![b[2 * k + 1], b[2 * k]],
            0,
            #[trigger] samples[k],
        ) by {
            assert((2 * k) / 2 == k && (2 * k + 1) / 2 == k);
            assert(b[2 * k] == bytes::sample_bytes(samples[k])[1]);
            assert(b[2 * k + 1] == bytes::sample_bytes(samples[k])[0]);
        }
    }
}

/// A block for the sound device is the next pull, as bytes.
pub proof fn a_block_is_the_next_pull()
    ensures
        forall|jb: &mut JitterBuffer, samples: &mut Vec<i16>, b: &[u8]|
            #![trigger call_ensures(pcm::next_block, (jb, samples), b)]
            call_ensures(pcm::next_block, (jb, samples), b) ==> {
                &&& final(jb)@ == (*jb)@.pulled((*samples)@.len())
                &&& final(samples)@ == (*jb)@.output((*samples)@)
                &&& device_bytes(b@, final(samples)@)
            },
        forall|samples: &mut [i16], b: &mut [u8]|
            #![trigger call_ensures(pcm::capture_block, (samples,), b)]
            call_ensures(pcm::capture_block, (samples,), b) ==> {
                &&& device_bytes((*b)@, (*samples)@)
                &&& device_bytes(final(b)@, final(samples)@)
                &&& final(samples)@.len() == (*samples)@.len()
            },
{
    assert forall|jb: &mut JitterBuffer, samples: &mut Vec<i16>, b: &[u8]|
        #![trigger call_ensures(pcm::next_block, (jb, samples), b)]
        call_ensures(pcm::next_block, (jb, samples), b) implies device_bytes(
        b@,
        final(samples)@,
    ) by {
        lemma_stored(true, final(samples)@);
        lemma_stored(false, final(samples)@);
    }
    assert forall|samples: &mut [i16], b: &mut [u8]|
        #![trigger call_ensures(pcm::capture_block, (samples,), b)]
        call_ensures(pcm::capture_block, (samples,), b) implies device_bytes(
        (*b)@,
        (*samples)@,
    ) && device_bytes(final(b)@, final(samples)@) by {
        lemma_stored(true, (*samples)@);
        lemma_stored(false, (*samples)@);
        lemma_stored(true, final(samples)@);
        lemma_stored(false, final(samples)@);
    }
}

} // verus!
