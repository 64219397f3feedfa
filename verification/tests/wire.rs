use audiobridge::packet::HEADER_LEN;
use audiobridge::{
    decode, decode_samples, encode_audio, token_matches, Codec, DecodeError, Direction, Format,
    Incoming, Packet, PacketType, Status, MAX_PACKET,
};

fn fmt_mono() -> Format {
    Format::new(48_000, 1, 10)
}

fn fmt_stereo() -> Format {
    Format::new(48_000, 2, 10)
}

#[test]
fn hello_round_trip() {
    let p = Packet::Hello {
        token: b"s3cret".to_vec(),
        session: 0xdead_beef,
        mic: fmt_mono(),
        speaker: fmt_stereo(),
    };
    let bytes = p.encode();
    match decode(&bytes).unwrap() {
        Incoming::Control(got) => assert_eq!(got, p),
        _ => panic!("expected a control packet"),
    }
}

#[test]
fn hello_ack_round_trip() {
    let p = Packet::HelloAck {
        status: Status::Okay,
        session: 7,
        mic: fmt_mono(),
        speaker: fmt_stereo(),
        message: "CABLE Input".to_string(),
    };
    let bytes = p.encode();
    match decode(&bytes).unwrap() {
        Incoming::Control(got) => assert_eq!(got, p),
        _ => panic!("expected a control packet"),
    }
}

#[test]
fn ping_pong_round_trip() {
    for p in [
        Packet::Ping {
            session: 1,
            nonce: 42,
        },
        Packet::Pong {
            session: 1,
            nonce: 42,
        },
    ] {
        let bytes = p.encode();
        match decode(&bytes).unwrap() {
            Incoming::Control(got) => assert_eq!(got, p),
            _ => panic!("expected a control packet"),
        }
    }
}

#[test]
fn audio_round_trip() {
    let samples: Vec<i16> = (0..960).map(|i| (i as i16).wrapping_mul(37)).collect();
    let mut buf = Vec::new();
    encode_audio(&mut buf, 9, Direction::Speaker, 12345, 2, &samples);

    match decode(&buf).unwrap() {
        Incoming::Audio { header, payload } => {
            assert_eq!(header.session, 9);
            assert_eq!(header.direction, Direction::Speaker);
            assert_eq!(header.seq, 12345);
            assert_eq!(header.frames as usize, samples.len() / 2);
            let mut out = Vec::new();
            decode_samples(payload, &mut out);
            assert_eq!(out, samples);
        }
        _ => panic!("expected an audio packet"),
    }
}

#[test]
fn rejects_garbage() {
    assert_eq!(decode(b"nope").unwrap_err(), DecodeError::BadMagic);
    assert_eq!(decode(&[]).unwrap_err(), DecodeError::TooShort);

    let mut bad = Packet::Bye { session: 1 }.encode();
    bad[4] = 99;
    assert_eq!(decode(&bad).unwrap_err(), DecodeError::BadVersion(99));
}

#[test]
fn truncated_audio_is_rejected() {
    let mut buf = Vec::new();
    encode_audio(&mut buf, 1, Direction::Mic, 0, 1, &[1, 2, 3, 4]);
    buf.truncate(HEADER_LEN + 4); // header plus part of the session id
    assert!(decode(&buf).is_err());
}

#[test]
fn format_sizes() {
    let f = fmt_stereo();
    assert_eq!(f.frames_per_packet(), 480);
    assert_eq!(f.samples_per_packet(), 960);
    assert_eq!(f.payload_len(), 1920);
    assert!(!f.fits_ethernet_mtu());

    let f = Format::new(48_000, 2, 5);
    assert_eq!(f.payload_len(), 960);
    assert!(f.fits_ethernet_mtu());
    assert!(fmt_mono().fits_ethernet_mtu());
}

#[test]
fn format_validation() {
    assert!(fmt_mono().validate().is_ok());
    assert!(Format::new(44_100, 3, 10).validate().is_err());
    assert!(Format::new(12_345, 1, 10).validate().is_err());
    assert!(Format::new(48_000, 1, 7).validate().is_err());
}

#[test]
fn token_comparison() {
    assert!(token_matches("abc", b"abc"));
    assert!(!token_matches("abc", b"abd"));
    assert!(!token_matches("abc", b"ab"));
    assert!(token_matches("", b""));
}

#[test]
fn packets_have_the_documented_layout() {
    let p = Packet::Hello {
        token: b"hi".to_vec(),
        session: 0x0102_0304,
        mic: fmt_mono(),
        speaker: fmt_stereo(),
    };
    assert_eq!(
        p.encode(),
        vec![
            b'A', b'B', b'R', b'G', 1, 1, 2, b'h', b'i', 1, 2, 3, 4, 0, 0, 0xbb, 0x80, 1, 0, 10, 0,
            0, 0xbb, 0x80, 2, 0, 10
        ]
    );
    let mut buf = vec![9u8; 3];
    encode_audio(&mut buf, 5, Direction::Mic, 0xa0b0_c0d0, 2, &[1, -2, 0x1234, i16::MIN]);
    assert_eq!(
        buf,
        vec![
            b'A', b'B', b'R', b'G', 1, 3, 0, 0, 0, 5, 1, 0xa0, 0xb0, 0xc0, 0xd0, 0, 2, 1, 0, 0xfe,
            0xff, 0x34, 0x12, 0, 0x80
        ]
    );
    assert_eq!(
        Packet::Bye { session: 0xff00 }.encode(),
        vec![b'A', b'B', b'R', b'G', 1, 4, 0, 0, 0xff, 0]
    );
    assert_eq!(Packet::Ping { session: 1, nonce: 2 }.encode().len(), 18);
}

#[test]
fn every_decode_error_can_be_had() {
    let bye = Packet::Bye { session: 1 }.encode();
    let edit = |at: usize, value: u8, from: &[u8]| {
        let mut b = from.to_vec();
        b[at] = value;
        b
    };
    assert_eq!(decode(&bye[..5]).unwrap_err(), DecodeError::TooShort);
    assert_eq!(decode(&edit(0, b'X', &bye)).unwrap_err(), DecodeError::BadMagic);
    assert_eq!(decode(&edit(5, 7, &bye)).unwrap_err(), DecodeError::UnknownType(7));

    let mut audio = Vec::new();
    encode_audio(&mut audio, 1, Direction::Mic, 0, 1, &[1, 2]);
    assert_eq!(
        decode(&edit(10, 3, &audio)).unwrap_err(),
        DecodeError::UnknownDirection(3)
    );
    assert_eq!(decode(&audio[..20]).unwrap_err(), DecodeError::PayloadMismatch);
    assert_eq!(decode(&audio[..17]).unwrap_err(), DecodeError::PayloadMismatch);
    assert_eq!(decode(&audio[..16]).unwrap_err(), DecodeError::TooShort);

    let ack = Packet::HelloAck {
        status: Status::Busy,
        session: 3,
        mic: fmt_mono(),
        speaker: fmt_stereo(),
        message: "ü".to_string(),
    }
    .encode();
    assert_eq!(
        decode(&edit(6, 6, &ack)).unwrap_err(),
        DecodeError::UnknownStatus(6)
    );
    assert_eq!(decode(&edit(16, 1, &ack)).unwrap_err(), DecodeError::UnknownCodec);
    assert_eq!(decode(&edit(26, b'x', &ack)).unwrap_err(), DecodeError::Utf8);
    assert_eq!(decode(&ack[..ack.len() - 1]).unwrap_err(), DecodeError::TooShort);
}

#[test]
fn errors_and_enums_read_well() {
    let cases = [
        (DecodeError::TooShort, "packet truncated"),
        (DecodeError::BadMagic, "bad magic"),
        (DecodeError::BadVersion(99), "unsupported protocol version 99"),
        (DecodeError::UnknownType(0), "unknown packet type 0"),
        (DecodeError::UnknownDirection(255), "unknown direction 255"),
        (DecodeError::UnknownCodec, "unknown codec"),
        (DecodeError::UnknownStatus(10), "unknown status 10"),
        (
            DecodeError::PayloadMismatch,
            "audio payload length disagrees with header",
        ),
        (DecodeError::Utf8, "message is not valid UTF-8"),
    ];
    for (e, words) in cases {
        assert_eq!(e.to_string(), words);
    }
    assert_eq!(Direction::Mic.to_string(), "mic");
    assert_eq!(Direction::Speaker.to_string(), "speaker");
    assert_eq!(Status::Okay.to_string(), "ok");
    assert_eq!(Status::AuthFailed.to_string(), "authentication failed");
    assert_eq!(
        Status::UnsupportedFormat.to_string(),
        "unsupported audio format"
    );
    assert_eq!(Status::BadRequest.to_string(), "malformed request");
    assert_eq!(Status::Busy.to_string(), "another host owns the session");
    assert_eq!(Status::ServerError.to_string(), "server error");
    assert_eq!(fmt_mono().to_string(), "48000 Hz mono s16le 10 ms");
    assert_eq!(fmt_stereo().to_string(), "48000 Hz stereo s16le 10 ms");
}

#[test]
fn codes_read_back() {
    for v in 0..=255u8 {
        assert_eq!(PacketType::from_u8(v).map(|t| t.code()), (1..=6).contains(&v).then_some(v));
        assert_eq!(Direction::from_u8(v).map(|d| d.code()), (1..=2).contains(&v).then_some(v));
        assert_eq!(Status::from_u8(v).map(|s| s.code()), (0..=5).contains(&v).then_some(v));
        assert_eq!(Codec::from_u8(v).map(|c| c.code()), (v == 0).then_some(v));
    }
}

#[test]
fn long_tokens_and_messages_are_cut_off() {
    let p = Packet::Hello {
        token: vec![7; 300],
        session: 1,
        mic: fmt_mono(),
        speaker: fmt_mono(),
    };
    match decode(&p.encode()).unwrap() {
        Incoming::Control(Packet::Hello { token, .. }) => assert_eq!(token, vec![7; 255]),
        other => panic!("expected a Hello, got {other:?}"),
    }
    let ack = |message: String| Packet::HelloAck {
        status: Status::ServerError,
        session: 1,
        mic: fmt_mono(),
        speaker: fmt_mono(),
        message,
    };
    match decode(&ack("a".repeat(300)).encode()).unwrap() {
        Incoming::Control(Packet::HelloAck { message, .. }) => {
            assert_eq!(message, "a".repeat(255))
        }
        other => panic!("expected a HelloAck, got {other:?}"),
    }
    // The cut falls inside a two-byte character.
    assert_eq!(
        decode(&ack("ä".repeat(200)).encode()).unwrap_err(),
        DecodeError::Utf8
    );
}

#[test]
fn bytes_after_a_control_packet_are_ignored() {
    let p = Packet::Pong {
        session: 8,
        nonce: u64::MAX,
    };
    let mut bytes = p.encode();
    bytes.extend_from_slice(b"whatever");
    match decode(&bytes).unwrap() {
        Incoming::Control(got) => {
            assert_eq!(got, p);
            assert_eq!(got.encode(), bytes[..18].to_vec());
        }
        other => panic!("expected a Pong, got {other:?}"),
    }
}

#[test]
fn refused_formats_say_why() {
    let why = |f: Format| f.validate().unwrap_err();
    assert_eq!(
        why(Format::new(12_345, 0, 0)),
        "unsupported sample rate 12345"
    );
    assert_eq!(
        why(Format::new(44_100, 3, 10)),
        "channels must be 1 or 2, got 3"
    );
    assert_eq!(
        why(Format::new(48_000, 0, 10)),
        "channels must be 1 or 2, got 0"
    );
    assert_eq!(
        why(Format::new(48_000, 1, 7)),
        "frame_ms must be 5, 10 or 20, got 7"
    );
    for rate in [8000, 16000, 22050, 24000, 32000, 44100, 48000, 96000] {
        for channels in 1..=2 {
            for ms in [5, 10, 20] {
                let f = Format::new(rate, channels, ms);
                assert!(f.validate().is_ok());
                assert!(f.frames_per_packet() >= 40);
            }
        }
    }
    assert!(Format::new(48_000, 2, 20).payload_len() + 17 <= MAX_PACKET);
}

#[test]
fn the_mtu_limit_is_exact() {
    // 17 bytes of packet header and 28 of IP and UDP leave 1455 for samples.
    assert!(Format::new(727_000, 1, 1).fits_ethernet_mtu());
    assert_eq!(Format::new(727_000, 1, 1).payload_len(), 1454);
    assert!(!Format::new(728_000, 1, 1).fits_ethernet_mtu());
}

#[test]
fn frame_counts_cover_odd_cases() {
    let frames = |channels: u8, n: usize| {
        let mut buf = Vec::new();
        encode_audio(&mut buf, 0, Direction::Mic, 0, channels, &vec![0; n]);
        match decode(&buf) {
            Ok(Incoming::Audio { header, .. }) => Ok(header.frames),
            Ok(other) => panic!("expected audio, got {other:?}"),
            Err(e) => Err(e),
        }
    };
    assert_eq!(frames(1, 5), Ok(5));
    assert_eq!(frames(2, 6), Ok(3));
    assert_eq!(frames(0, 5), Ok(5));
    assert_eq!(frames(1, 65_535), Ok(65_535));
    assert_eq!(frames(2, 131_070), Ok(65_535));
    assert_eq!(frames(3, 3), Ok(1));
    assert_eq!(frames(6, 60), Ok(10));
    assert_eq!(frames(255, 510), Ok(2));
    // A frame and a half of two channels looks like a frame of three.
    assert_eq!(frames(2, 3), Ok(1));
    // Part of a frame, no frame, and more frames than the header can count.
    assert_eq!(frames(2, 5), Err(DecodeError::PayloadMismatch));
    assert_eq!(frames(2, 1), Err(DecodeError::PayloadMismatch));
    assert_eq!(frames(3, 10), Err(DecodeError::PayloadMismatch));
    assert_eq!(frames(255, 300), Err(DecodeError::PayloadMismatch));
    assert_eq!(frames(1, 0), Err(DecodeError::PayloadMismatch));
    assert_eq!(frames(1, 65_537), Err(DecodeError::PayloadMismatch));
}

#[test]
fn a_count_that_disagrees_with_the_payload_is_refused() {
    let mut buf = Vec::new();
    encode_audio(&mut buf, 1, Direction::Mic, 0, 1, &[1, 2, 3, 4]);
    buf.truncate(buf.len() - 2); // four frames counted, three samples present
    assert_eq!(decode(&buf).unwrap_err(), DecodeError::PayloadMismatch);
    buf.extend_from_slice(&[9; 2]);
    assert!(decode(&buf).is_ok());
    // Four frames of three channels.
    buf.extend_from_slice(&[9; 16]);
    assert!(decode(&buf).is_ok());
    buf.push(9);
    assert_eq!(decode(&buf).unwrap_err(), DecodeError::PayloadMismatch);
    // A packet of three channels reads back as it was written.
    encode_audio(&mut buf, 8, Direction::Speaker, 9, 3, &[1, -2, 3]);
    match decode(&buf) {
        Ok(Incoming::Audio { header, payload }) => {
            assert_eq!((header.session, header.seq, header.frames), (8, 9, 1));
            let mut out = Vec::new();
            decode_samples(payload, &mut out);
            assert_eq!(out, [1, -2, 3]);
        }
        other => panic!("expected audio, got {other:?}"),
    }
    // A count that no number of channels in a byte agrees with.
    buf.resize(17 + 2 * 255, 0);
    assert!(decode(&buf).is_ok());
    buf.resize(17 + 2 * 256, 0);
    assert_eq!(decode(&buf).unwrap_err(), DecodeError::PayloadMismatch);
    // Every cut through a mono packet is noticed.
    encode_audio(&mut buf, 1, Direction::Mic, 0, 1, &[5; 40]);
    for len in 17..buf.len() {
        assert_eq!(
            decode(&buf[..len]).unwrap_err(),
            DecodeError::PayloadMismatch
        );
    }
}
