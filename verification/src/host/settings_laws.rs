//! What the host agent makes of its settings.

use crate::format::{Codec, Format};
use crate::host::config;
use crate::host::config::{Fragmenting, HostConfig};
use crate::host::pulse;
use crate::host::session;
use crate::host::startup;
use crate::packet::Direction;
use crate::text;
use vstd::prelude::*;

verus! {

/// The format of these settings.
pub open spec fn mic_format(cfg: HostConfig) -> Format {
    Format {
        rate: cfg.mic.rate,
        channels: cfg.mic.channels,
        codec: Codec::PcmS16Le,
        frame_ms: cfg.mic.frame_ms,
    }
}

/// The format of these settings.
pub open spec fn speaker_format(cfg: HostConfig) -> Format {
    Format {
        rate: cfg.speaker.rate,
        channels: cfg.speaker.channels,
        codec: Codec::PcmS16Le,
        frame_ms: cfg.speaker.frame_ms,
    }
}

/// Settings are accepted if and only if a stream is on, both formats can be had, the
/// speaker's buffer holds two packets where the speaker is on, and a link is not given up
/// before a handshake is.
pub proof fn what_settings_are_accepted(cfg: HostConfig)
    ensures
        cfg.valid() <==> {
            &&& cfg.mic.enabled || cfg.speaker.enabled
            &&& mic_format(cfg).valid()
            &&& speaker_format(cfg).valid()
            &&& cfg.speaker.enabled ==> cfg.speaker.buffer_ms >= cfg.speaker.frame_ms
                + cfg.speaker.frame_ms
            &&& cfg.server.handshake_timeout_ms <= cfg.server.idle_timeout_ms
        },
        cfg.complaint() is None <==> cfg.valid(),
        cfg.mic.spec_format() == mic_format(cfg),
        cfg.speaker.spec_format() == speaker_format(cfg),
{
}

/// Of several faults the first is told: nothing to bridge, the microphone's format, the
/// speaker's format, the speaker's buffer, the timeouts. A format's fault is told under
/// the stream's name.
pub proof fn the_first_fault_is_told(cfg: HostConfig)
    ensures
        !cfg.mic.enabled && !cfg.speaker.enabled ==> cfg.complaint() == Some(
            "both `mic` and `speaker` are disabled: there is nothing to bridge"@,
        ),
        (cfg.mic.enabled || cfg.speaker.enabled) ==> {
            &&& mic_format(cfg).complaint() matches Some(e) ==> cfg.complaint() == Some(
                "[mic] "@ + e,
            )
            &&& mic_format(cfg).complaint() is None ==> {
                &&& speaker_format(cfg).complaint() matches Some(e) ==> cfg.complaint() == Some(
                    "[speaker] "@ + e,
                )
                &&& speaker_format(cfg).complaint() is None && cfg.speaker.enabled
                    && cfg.speaker.buffer_ms < 2 * cfg.speaker.frame_ms ==> cfg.complaint() == Some(
                    "[speaker] buffer_ms ("@ + text::decimal(cfg.speaker.buffer_ms as nat)
                        + ") must be at least two packets ("@ + text::decimal(
                        2 * cfg.speaker.frame_ms as nat,
                    ) + " ms)"@,
                )
            }
        },
        (HostConfig {
            server: config::ServerConfig {
                idle_timeout_ms: cfg.server.handshake_timeout_ms,
                ..cfg.server
            },
            ..cfg
        }).valid() && cfg.server.idle_timeout_ms < cfg.server.handshake_timeout_ms
            ==> cfg.complaint() == Some(
            "server.idle_timeout_ms must not be shorter than handshake_timeout_ms"@,
        ),
{
}

/// The bytes of a packet of format `f` on an IPv4 network: samples, the audio header, UDP
/// and IP.
pub open spec fn datagram(f: Format) -> int {
    2 * (f.spec_frames() * f.channels) + 17 + 8 + 20
}

/// With settings that are accepted, a stream is warned about if and only if its packets
/// do not fit 1500 bytes, the microphone before the speaker, with the bytes of samples in
/// a packet.
pub proof fn what_is_warned_about(cfg: HostConfig)
    requires
        cfg.valid(),
    ensures
        ({
            let mic = mic_format(cfg);
            let speaker = speaker_format(cfg);
            let a = Fragmenting {
                stream: Direction::Mic,
                payload: (2 * (mic.spec_frames() * mic.channels)) as u64,
            };
            let b = Fragmenting {
                stream: Direction::Speaker,
                payload: (2 * (speaker.spec_frames() * speaker.channels)) as u64,
            };
            cfg.spec_warnings() == match (datagram(mic) > 1500, datagram(speaker) > 1500) {
                (false, false) => Seq::empty(),
                (true, false) => seq![a],
                (false, true) => seq![b],
                (true, true) => seq![a, b],
            }
        }),
{
    assert(mic_format(cfg).spec_payload() == 2 * (mic_format(cfg).spec_frames() * mic_format(
        cfg,
    ).channels));
    assert(speaker_format(cfg).spec_payload() == 2 * (speaker_format(cfg).spec_frames()
        * speaker_format(cfg).channels));
    let mic = config::warning_for(Direction::Mic, cfg.mic.spec_format());
    let speaker = config::warning_for(Direction::Speaker, cfg.speaker.spec_format());
    assert(cfg.spec_warnings() =~= mic + speaker);
    assert(mic + Seq::<Fragmenting>::empty() =~= mic);
    assert(Seq::<Fragmenting>::empty() + speaker =~= speaker);
}

/// The summary of settings shows the file, the server, and each stream with its device,
/// its format and its buffer, line by line. Of the token it shows only whether there is
/// one.
pub proof fn what_the_summary_shows(cfg: HostConfig, path: Seq<char>, address: Seq<char>)
    ensures
        ({
            let lines = startup::summary_lines(cfg, path, address);
            &&& lines.len() == 5
            &&& lines[0] == "configuration OK: "@ + path
            &&& lines[1] == "  server  : "@ + address
            &&& cfg.server.token@.len() == 0 ==> lines[2] == "  auth    : "@ + "disabled"@
            &&& cfg.server.token@.len() > 0 ==> lines[2] == "  auth    : "@ + "token"@
            &&& !cfg.mic.enabled ==> lines[3] == "  mic     : disabled"@
            &&& cfg.mic.enabled ==> lines[3] == "  mic     : "@ + (if cfg.mic.device@.len() > 0 {
                cfg.mic.device@
            } else {
                "(default source)"@
            }) + " -> VM  ["@ + mic_format(cfg).words() + "]"@
            &&& !cfg.speaker.enabled ==> lines[4] == "  speaker : disabled"@
            &&& cfg.speaker.enabled ==> lines[4] == "  speaker : VM -> "@ + (
            if cfg.speaker.device@.len() > 0 {
                cfg.speaker.device@
            } else {
                "(default sink)"@
            }) + "  ["@ + speaker_format(cfg).words() + ", "@ + text::decimal(
                cfg.speaker.buffer_ms as nat,
            ) + " ms jitter buffer]"@
        }),
{
}

/// The summary never gives the token away: settings that differ in nothing but the text of
/// a token have the same summary.
pub proof fn the_summary_keeps_the_token(
    a: HostConfig,
    b: HostConfig,
    path: Seq<char>,
    address: Seq<char>,
)
    requires
        a.mic == b.mic,
        a.speaker == b.speaker,
        a.server.token@.len() > 0,
        b.server.token@.len() > 0,
    ensures
        startup::summary_lines(a, path, address) == startup::summary_lines(b, path, address),
{
}

proof fn lemma_entries(devices: Seq<pulse::DeviceInfo>, n: nat)
    requires
        n <= devices.len(),
    ensures
        startup::entries_lines(devices, n).len() == 2 * n,
        forall|i: int|
            0 <= i < n ==> startup::entries_lines(devices, n)[2 * i] == startup::entry_lines(
                #[trigger] devices[i],
            )[0] && startup::entries_lines(devices, n)[2 * i + 1] == startup::entry_lines(
                devices[i],
            )[1],
    decreases n,
{
    if n > 0 {
        lemma_entries(devices, (n - 1) as nat);
    }
}

/// The two lines of a listed device: its name, with a star if it is the default, and below
/// it its description.
pub open spec fn listed(d: pulse::DeviceInfo, first: Seq<char>, second: Seq<char>) -> bool {
    &&& first == (if d.is_default {
        "  * "@
    } else {
        "    "@
    }) + d.name@
    &&& second == "      "@ + d.description@
}

/// The device list shows every source and every sink once, in order, under its heading.
pub proof fn every_device_is_listed(
    sources: Seq<pulse::DeviceInfo>,
    sinks: Seq<pulse::DeviceInfo>,
)
    ensures
        ({
            let lines = startup::device_lines(sources, sinks);
            let below = 2 * sources.len() as int + 3;
            &&& lines.len() == 2 * sources.len() + 2 * sinks.len() + 5
            &&& lines[0] == "sources (microphones) — put one in [mic].device"@
            &&& forall|i: int|
                0 <= i < sources.len() ==> listed(
                    #[trigger] sources[i],
                    lines[1 + 2 * i],
                    lines[2 + 2 * i],
                )
            &&& lines[below - 2] == ""@
            &&& lines[below - 1] == "sinks (speakers) — put one in [speaker].device"@
            &&& forall|i: int|
                0 <= i < sinks.len() ==> listed(
                    #[trigger] sinks[i],
                    lines[below + 2 * i],
                    lines[below + 1 + 2 * i],
                )
            &&& lines[lines.len() - 2] == ""@
            &&& lines[lines.len() - 1]
                == "* = current default; leave the config field empty to follow the default."@
        }),
{
    lemma_entries(sources, sources.len());
    lemma_entries(sinks, sinks.len());
    let lines = startup::device_lines(sources, sinks);
    let a = startup::entries_lines(sources, sources.len());
    let b = startup::entries_lines(sinks, sinks.len());
    let below = 2 * sources.len() as int + 3;
    assert forall|i: int| 0 <= i < sources.len() implies listed(
        #[trigger] sources[i],
        lines[1 + 2 * i],
        lines[2 + 2 * i],
    ) by {
        assert(lines[1 + 2 * i] == a[2 * i]);
        assert(lines[2 + 2 * i] == a[2 * i + 1]);
    }
    assert forall|i: int| 0 <= i < sinks.len() implies listed(
        #[trigger] sinks[i],
        lines[below + 2 * i],
        lines[below + 1 + 2 * i],
    ) by {
        assert(lines[below + 2 * i] == b[2 * i]);
        assert(lines[below + 1 + 2 * i] == b[2 * i + 1]);
    }
}

/// A recording stream asks for fragments of one packet and leaves the rest to the server.
/// A playback stream asks for three packets in flight, starts with two, and is refilled by
/// the packet.
pub proof fn streams_are_planned_by_the_packet(payload: nat)
    requires
        3 * payload <= u32::MAX,
    ensures
        ({
            let r = pulse::plan_of(pulse::StreamKind::Record, payload);
            &&& r.fragsize == payload
            &&& r.maxlength == u32::MAX && r.tlength == u32::MAX && r.prebuf == u32::MAX && r.minreq
                == u32::MAX
        }),
        ({
            let p = pulse::plan_of(pulse::StreamKind::Playback, payload);
            &&& p.tlength == payload + payload + payload
            &&& p.prebuf == payload + payload
            &&& p.minreq == payload
            &&& p.maxlength == u32::MAX && p.fragsize == u32::MAX
        }),
{
}

/// What an audio thread does. A device that does not open is tried again, one that fails
/// is opened again, and only playback then drops what it holds; a full queue costs a
/// packet; a network task or a buffer that is gone ends the thread, and nothing else does.
/// Only a device that opens ends an outage, only one that does not open announces it.
pub proof fn what_an_audio_thread_does(
    kind: pulse::StreamKind,
    announced: bool,
    event: pulse::StreamEvent,
)
    ensures
        ({
            let s = pulse::step_of(kind, announced, event);
            &&& s.1 is Retry <==> event == pulse::StreamEvent::OpenFailed
            &&& s.1 matches pulse::StreamStep::Retry { warn } ==> warn == !announced
            &&& s.1 is Reopen <==> event == pulse::StreamEvent::DeviceFailed
            &&& s.1 matches pulse::StreamStep::Reopen { reset } ==> reset == (kind
                == pulse::StreamKind::Playback)
            &&& s.1 is DropPacket <==> event == pulse::StreamEvent::QueueFull
            &&& s.1 is Stop <==> event == pulse::StreamEvent::QueueClosed || event
                == pulse::StreamEvent::BufferLost
            &&& s.0 == if event == pulse::StreamEvent::OpenFailed {
                true
            } else if event == pulse::StreamEvent::Opened {
                false
            } else {
                announced
            }
        }),
{
}

/// Two processes that start at the same moment, and one process at two moments of the same
/// second, have different session identifiers.
pub proof fn session_identifiers_differ(secs: u64, nanos: u32, other: u32, pid: u32, next: u32)
    ensures
        pid != next ==> session::session_id_of(secs, nanos, pid) != session::session_id_of(
            secs,
            nanos,
            next,
        ),
        nanos != other ==> session::session_id_of(secs, nanos, pid) != session::session_id_of(
            secs,
            other,
            pid,
        ),
        pid != next ==> session::halves_swapped(pid) != session::halves_swapped(next),
{
    let s = (secs % 0x1_0000_0000) as u32;
    let a = session::halves_swapped(pid);
    let b = session::halves_swapped(next);
    assert(a != b ==> ((nanos ^ s) ^ a) != ((nanos ^ s) ^ b)) by (bit_vector);
    assert(nanos != other ==> ((nanos ^ s) ^ a) != ((other ^ s) ^ a)) by (bit_vector);
    assert(a == (pid % 0x1_0000) * 0x1_0000 + pid / 0x1_0000);
    assert(b == (next % 0x1_0000) * 0x1_0000 + next / 0x1_0000);
}

} // verus!
