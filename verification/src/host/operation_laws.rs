//! What the operations of the host agent hand back and leave behind.

use crate::format::Format;
use crate::host::config;
use crate::host::config::{Fragmenting, HostConfig};
use crate::host::laws;
use crate::host::pulse;
use crate::host::run_laws;
use crate::host::session;
use crate::host::session::{HostAction, HostSession, PingAction};
use crate::host::settings_laws;
use crate::host::startup;
use crate::host::startup::ConfigStep;
use crate::jitter::JitterBuffer;
use crate::push_laws;
use crate::text;
use vstd::prelude::*;
use vstd::utf8::*;

verus! {

/// A session is made down, under the identifier and with the settings that it is given,
/// and shows itself as it is.
pub proof fn a_session_is_made_as_told(id: u32, cfg: &HostConfig, now: u64, s: HostSession)
    requires
        call_ensures(HostSession::new, (id, cfg, now), s),
    ensures
        s@ == run_laws::after(session::HostModel::fresh(id, *cfg, now), Seq::empty()),
        !s@.established,
        s@.id == id,
        s@.mic_channels == cfg.mic.channels,
        s@.speaker == cfg.speaker.enabled,
        s@.idle_timeout_ms == cfg.server.idle_timeout_ms,
        s@.last_rx == now,
        encode_utf8(cfg.server.token@).len() <= 255 ==> laws::says(
            s@.hello,
            run_laws::wanted(id, *cfg),
        ),
{
    run_laws::a_session_keeps_its_settings(id, *cfg, now, Seq::empty());
    if encode_utf8(cfg.server.token@).len() <= 255 {
        run_laws::a_host_knocks_until_it_is_answered(id, *cfg, now, Seq::empty());
    }
}

/// What can be asked of a session.
pub proof fn a_session_shows_itself(s: &HostSession)
    ensures
        forall|up: bool| #[trigger]
            call_ensures(HostSession::established, (s,), up) ==> up == s@.established,
        forall|rtt: Option<u64>| #[trigger]
            call_ensures(HostSession::rtt, (s,), rtt) ==> rtt == s@.rtt,
        forall|c: session::Counters| #[trigger]
            call_ensures(HostSession::counters, (s,), c) ==> c == s@.counters,
        forall|data: Option<Vec<u8>>| #[trigger]
            call_ensures(HostSession::on_hello_timer, (s,), data) ==> session::maybe_bytes(data)
                == s@.knock(),
        forall|data: Option<Vec<u8>>| #[trigger]
            call_ensures(HostSession::on_shutdown, (s,), data) ==> session::maybe_bytes(data)
                == s@.farewell(),
{
}

/// Each operation on a session is the event of its name, and hands back what the session
/// then has to do.
pub proof fn operations_are_events()
    ensures
        forall|s: &mut HostSession, now: u64, buf: &[u8], a: HostAction|
            #![trigger call_ensures(HostSession::on_packet, (s, now, buf), a)]
            call_ensures(HostSession::on_packet, (s, now, buf), a) ==> {
                &&& final(s)@ == run_laws::next(
                    (*s)@,
                    run_laws::HostEvent::Received { now, data: buf@ },
                )
                &&& a@ == (*s)@.received(now, buf@).1
            },
        forall|s: &mut HostSession, pcm: &[i16], data: Option<Vec<u8>>|
            #![trigger call_ensures(HostSession::on_microphone, (s, pcm), data)]
            call_ensures(HostSession::on_microphone, (s, pcm), data) ==> {
                &&& final(s)@ == run_laws::next(
                    (*s)@,
                    run_laws::HostEvent::Recorded { pcm: pcm@ },
                )
                &&& session::maybe_bytes(data) == (*s)@.spoken(pcm@).1
            },
        forall|s: &mut HostSession, ok: bool, u: ()|
            #![trigger call_ensures(HostSession::on_sent, (s, ok), u)]
            call_ensures(HostSession::on_sent, (s, ok), u) ==> final(s)@ == run_laws::next(
                (*s)@,
                run_laws::HostEvent::Sent { ok },
            ),
        forall|s: &mut HostSession, now: u64, nonce: u64, a: PingAction|
            #![trigger call_ensures(HostSession::on_ping_timer, (s, now, nonce), a)]
            call_ensures(HostSession::on_ping_timer, (s, now, nonce), a) ==> {
                &&& final(s)@ == run_laws::next(
                    (*s)@,
                    run_laws::HostEvent::PingTimer { now, nonce },
                )
                &&& a@ == (*s)@.pinged(now, nonce).1
            },
{
}

/// What an action says is what it holds.
pub proof fn actions_say_what_they_hold(a: HostAction, p: PingAction)
    ensures
        a matches HostAction::Play { seq, samples } ==> a@ == (session::HostActionView::Play {
            seq,
            samples: samples@,
        }),
        a matches HostAction::BridgeUp { mic, speaker, message } ==> a@ == (
        session::HostActionView::BridgeUp { mic, speaker, message: message@ }),
        a matches HostAction::Rejected { status, message } ==> a@ == (
        session::HostActionView::Rejected { status, message: message@ }),
        a matches HostAction::Reply(data) ==> a@ == session::HostActionView::Reply(data@),
        a matches HostAction::Malformed(e) ==> a@ == session::HostActionView::Malformed(e),
        a is Ignore <==> a@ is Ignore,
        a is Closed <==> a@ is Closed,
        p matches PingAction::Send(data) ==> p@ == session::PingActionView::Send(data@),
        p matches PingAction::Lost { after } ==> p@ == (session::PingActionView::Lost { after }),
        p is Nothing <==> p@ is Nothing,
{
}

/// The identifier tells one process from another and one moment from the next.
pub proof fn identifiers_are_made_of_time_and_process(
    secs: u64,
    nanos: u32,
    pid: u32,
    other: u32,
    a: u32,
    b: u32,
)
    requires
        call_ensures(session::new_session_id, (Some((secs, nanos)), pid), a),
        call_ensures(session::new_session_id, (Some((secs, nanos)), other), b),
    ensures
        a == b <==> pid == other,
{
    settings_laws::session_identifiers_differ(secs, nanos, nanos, pid, other);
}

/// The same without a clock, and of one process at two moments of a second.
pub proof fn identifiers_without_a_clock_differ(
    secs: u64,
    nanos: u32,
    later: u32,
    pid: u32,
    other: u32,
)
    ensures
        forall|a: u32, b: u32|
            #![trigger call_ensures(session::new_session_id, (None::<(u64, u32)>, pid), a),
                call_ensures(session::new_session_id, (None::<(u64, u32)>, other), b)]
            call_ensures(session::new_session_id, (None::<(u64, u32)>, pid), a) && call_ensures(
                session::new_session_id,
                (None::<(u64, u32)>, other),
                b,
            ) ==> (a == b <==> pid == other),
        forall|a: u32, b: u32|
            #![trigger call_ensures(session::new_session_id, (Some((secs, nanos)), pid), a),
                call_ensures(session::new_session_id, (Some((secs, later)), pid), b)]
            call_ensures(session::new_session_id, (Some((secs, nanos)), pid), a) && call_ensures(
                session::new_session_id,
                (Some((secs, later)), pid),
                b,
            ) ==> (a == b <==> nanos == later),
{
    settings_laws::session_identifiers_differ(secs, nanos, later, pid, other);
}

/// The speaker's buffer is there if and only if the speaker is on, for the speaker's
/// format and the configured latency.
pub proof fn the_speakers_buffer_fits_its_settings(cfg: &HostConfig, jb: Option<JitterBuffer>)
    requires
        call_ensures(session::speaker_buffer, (cfg,), jb),
    ensures
        jb is Some <==> cfg.speaker.enabled,
        jb matches Some(b) ==> {
            let latency = (cfg.speaker.rate * cfg.speaker.buffer_ms) / 1000;
            &&& b@.channels == cfg.speaker.channels
            &&& b@.queue.len() == 0
            &&& b@.target_frames == if latency >= 2 * b@.frames_per_packet {
                latency
            } else {
                2 * b@.frames_per_packet as int
            }
            &&& (cfg.speaker.rate * cfg.speaker.frame_ms) / 1000 >= 1 ==> b@.frames_per_packet == (
            cfg.speaker.rate * cfg.speaker.frame_ms) / 1000
        },
{
    push_laws::a_buffer_starts_empty(
        cfg.speaker.channels as nat,
        cfg.speaker.rate,
        cfg.speaker.frame_ms,
        cfg.speaker.buffer_ms,
    );
}

/// Settings are accepted and refused as the laws of settings say, and their formats and
/// devices are those that they name.
pub proof fn settings_are_checked(cfg: &HostConfig)
    ensures
        forall|r: Result<(), String>| #[trigger]
            call_ensures(HostConfig::validate, (cfg,), r) ==> match r {
                Ok(()) => cfg.valid(),
                Err(message) => !cfg.valid() && cfg.complaint() == Some(message@),
            },
        forall|w: Vec<Fragmenting>| #[trigger]
            call_ensures(HostConfig::warnings, (cfg,), w) ==> w@ == cfg.spec_warnings(),
        forall|f: Format| #[trigger]
            call_ensures(config::MicConfig::format, (&cfg.mic,), f) ==> f
                == settings_laws::mic_format(*cfg),
        forall|f: Format| #[trigger]
            call_ensures(config::SpeakerConfig::format, (&cfg.speaker,), f) ==> f
                == settings_laws::speaker_format(*cfg),
        forall|name: Option<&str>| #[trigger]
            call_ensures(config::MicConfig::device, (&cfg.mic,), name) ==> match name {
                None => cfg.mic.device@.len() == 0,
                Some(n) => n@ == cfg.mic.device@ && n@.len() > 0,
            },
        forall|name: Option<&str>| #[trigger]
            call_ensures(config::SpeakerConfig::device, (&cfg.speaker,), name) ==> match name {
                None => cfg.speaker.device@.len() == 0,
                Some(n) => n@ == cfg.speaker.device@ && n@.len() > 0,
            },
{
}

/// Without settings, streams are on, at 48 kHz, with 10 ms packets, a mono microphone, a
/// stereo speaker with 40 ms of buffer, a handshake every second and five seconds of
/// patience.
pub proof fn what_goes_without_saying()
    ensures
        forall|b: bool| #[trigger] call_ensures(config::default_true, (), b) ==> b,
        forall|r: u32| #[trigger] call_ensures(config::default_rate, (), r) ==> r == 48_000,
        forall|c: u8| #[trigger] call_ensures(config::default_mono, (), c) ==> c == 1,
        forall|c: u8| #[trigger] call_ensures(config::default_stereo, (), c) ==> c == 2,
        forall|ms: u8| #[trigger] call_ensures(config::default_frame_ms, (), ms) ==> ms == 10,
        forall|ms: u32| #[trigger] call_ensures(config::default_buffer_ms, (), ms) ==> ms == 40,
        forall|ms: u64| #[trigger]
            call_ensures(config::default_handshake_timeout, (), ms) ==> ms == 1_000,
        forall|ms: u64| #[trigger]
            call_ensures(config::default_idle_timeout, (), ms) ==> ms == 5_000,
        forall|c: config::MicConfig| #[trigger]
            call_ensures(config::MicConfig::default, (), c) ==> c.enabled && c.device@.len() == 0
                && c.rate == 48_000 && c.channels == 1 && c.frame_ms == 10,
        forall|c: config::SpeakerConfig| #[trigger]
            call_ensures(config::SpeakerConfig::default, (), c) ==> c.enabled && c.device@.len()
                == 0 && c.rate == 48_000 && c.channels == 2 && c.frame_ms == 10 && c.buffer_ms
                == 40,
{
}

/// A file that is named is used. Else the working directory is looked at first and the
/// executable's only if nothing is there; what is found first is used, and only when both
/// looks have failed is there none.
pub proof fn where_the_settings_are_looked_for(
    explicit: bool,
    here: Option<bool>,
    there: Option<bool>,
    step: ConfigStep,
)
    requires
        call_ensures(startup::config_step, (explicit, here, there), step),
    ensures
        step == ConfigStep::UseExplicit <==> explicit,
        step == ConfigStep::LookInWorkingDir <==> !explicit && here is None,
        step == ConfigStep::UseWorkingDir <==> !explicit && here == Some(true),
        step == ConfigStep::LookBesideExecutable <==> !explicit && here == Some(false) && there is None,
        step == ConfigStep::UseBesideExecutable <==> !explicit && here == Some(false) && there
            == Some(true),
        step == ConfigStep::GiveUp <==> !explicit && here == Some(false) && there == Some(false),
{
}

/// What operators read is what the laws of settings speak of.
pub proof fn operators_read_the_settings(
    cfg: &HostConfig,
    path: &str,
    address: &str,
    sources: &Vec<pulse::DeviceInfo>,
    sinks: &Vec<pulse::DeviceInfo>,
)
    ensures
        forall|lines: Vec<String>| #[trigger]
            call_ensures(startup::summary, (cfg, path, address), lines) ==> text::texts(lines@)
                == startup::summary_lines(*cfg, path@, address@),
        forall|lines: Vec<String>| #[trigger]
            call_ensures(startup::device_list, (sources, sinks), lines) ==> text::texts(lines@)
                == startup::device_lines(sources@, sinks@),
        forall|message: String| #[trigger]
            call_ensures(startup::config_not_found, (path, address), message) ==> message@
                == "host.toml was not found in the current working directory ("@ + path@
                + ") or beside the executable ("@ + address@ + "); use --config <path>"@,
{
}

/// A stream is planned if and only if the sound server takes it, by the packet; a refusal
/// names the format. A stream that does not open is named too.
pub proof fn streams_are_planned_or_refused(
    f: &Format,
    kind: pulse::StreamKind,
    accepted: bool,
    cause: &str,
)
    ensures
        forall|r: Result<pulse::BufferPlan, String>| #[trigger]
            call_ensures(pulse::plan_stream, (f, kind, accepted), r) ==> match r {
                Ok(plan) => accepted && plan == pulse::plan_of(
                    kind,
                    2 * (f.spec_frames() * f.channels as nat),
                ),
                Err(message) => !accepted && message@ == "PulseAudio rejects "@ + f.words()
                    + " as a sample spec"@,
            },
        forall|m: String| #[trigger]
            call_ensures(pulse::open_failure, (kind, cause), m) ==> m@ == "opening "@ + (
            match kind {
                pulse::StreamKind::Record => "microphone to VM"@,
                pulse::StreamKind::Playback => "playback from VM"@,
            }) + ": "@ + cause@,
        forall|name: &'static str| #[trigger]
            call_ensures(pulse::StreamKind::stream_name, (kind,), name) ==> name@ == match kind {
                pulse::StreamKind::Record => "microphone to VM"@,
                pulse::StreamKind::Playback => "playback from VM"@,
            },
{
    assert(f.spec_payload() == 2 * (f.spec_frames() * f.channels as nat));
}

/// An audio thread takes the steps that its laws speak of, and remembers whether its
/// outage is announced.
pub proof fn audio_threads_take_their_steps()
    ensures
        forall|
            o: &mut crate::reopen::Outage,
            kind: pulse::StreamKind,
            event: pulse::StreamEvent,
            step: pulse::StreamStep,
        |
            #![trigger call_ensures(pulse::next_step, (o, kind, event), step)]
            call_ensures(pulse::next_step, (o, kind, event), step) ==> {
                &&& final(o).is_announced() == pulse::step_of(
                    kind,
                    (*o).is_announced(),
                    event,
                ).0
                &&& step == pulse::step_of(kind, (*o).is_announced(), event).1
            },
{
}

/// Every listed device is there, in order, with its own name and description; those, and
/// only those, with the default's name are marked.
pub proof fn the_default_device_is_marked(
    items: &Vec<pulse::Listed>,
    default_name: &String,
    out: Vec<pulse::DeviceInfo>,
    i: int,
)
    requires
        call_ensures(pulse::mark_default, (items, default_name), out),
        0 <= i < items@.len(),
    ensures
        out@.len() == items@.len(),
        out@[i].name@ == items@[i].name@,
        out@[i].description@ == items@[i].description@,
        out@[i].is_default <==> items@[i].name@ == default_name@,
{
    assert(pulse::marks(out@[i], items@[i], default_name@));
}

/// How often and how many, and what bytes or a text say.
pub proof fn measures_are_fixed(data: Vec<u8>, s: &str, parts: Seq<String>, i: int)
    requires
        0 <= i < parts.len(),
    ensures
        session::PING_INTERVAL_MS == 2_000,
        session::STATS_INTERVAL_MS == 10_000,
        session::MIC_QUEUE == 8,
        crate::reopen::REOPEN_DELAY_MS == 1_000,
        session::maybe_bytes(Some(data)) == Some(data@),
        session::maybe_bytes(None) is None,
        text::optional(Some(s)) == Some(s@),
        text::optional(None) is None,
        text::texts(parts).len() == parts.len(),
        text::texts(parts)[i] == parts[i]@,
{
}

} // verus!
