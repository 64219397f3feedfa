//! What the operations of the VM agent hand back and leave behind.

use crate::endpoint::Endpoint;
use crate::format::Format;
use crate::jitter::JitterBuffer;
use crate::push_laws;
use crate::text;
use crate::vm::audio;
use crate::vm::audio::{
    CapturePacer, DeviceInfo, DeviceSearch, EndpointEvent, EndpointKind, EndpointStep, RenderWatch,
};
use crate::vm::config;
use crate::vm::config::{CaptureMode, VmConfig};
use crate::vm::pacing_laws;
use crate::vm::run_laws;
use crate::vm::session;
use crate::vm::session::{Outgoing, PendingStart, StartStep, VmAction, VmSession};
use crate::vm::startup;
use vstd::prelude::*;

verus! {

/// An agent is made without a host and with the settings that it is given, and shows
/// itself as it is.
pub proof fn an_agent_is_made_as_told(cfg: &VmConfig, s: VmSession)
    requires
        call_ensures(VmSession::new, (cfg,), s),
    ensures
        s@ == run_laws::after(session::VmModel::fresh(*cfg), Seq::empty()),
        s@.token == cfg.token@,
        s@.idle_timeout_ms == cfg.idle_timeout_ms,
        s@.mic_enabled == cfg.mic.enabled,
        s@.host is None,
{
    run_laws::an_agent_keeps_its_settings(*cfg, Seq::empty());
    run_laws::an_agent_starts_alone(*cfg);
}

/// What can be asked of an agent.
pub proof fn an_agent_shows_itself(s: &VmSession, start: &PendingStart, message: &str)
    ensures
        forall|yes: bool| #[trigger]
            call_ensures(VmSession::connected, (s,), yes) ==> (yes <==> s@.host is Some),
        forall|t: &str| #[trigger] call_ensures(VmSession::summary, (s,), t) ==> t@ == s@.summary,
        forall|label: Option<&str>| #[trigger]
            call_ensures(VmSession::owner, (s,), label) ==> match s@.host {
                None => label is None,
                Some(h) => label matches Some(l) && l@ == h.label,
            },
        forall|c: session::Counters| #[trigger]
            call_ensures(VmSession::counters, (s,), c) ==> c == s@.counters,
        forall|data: Vec<u8>| #[trigger]
            call_ensures(VmSession::on_start_failed, (s, start, message), data) ==> data@
                == s@.apology(start@, message@),
{
}

/// What a host that waits for its devices has asked for.
pub proof fn a_pending_start_says_what_it_holds(p: PendingStart)
    ensures
        p@.id == p.id,
        p@.peer == p.peer,
        p@.label == p.label@,
        p@.mic == p.mic,
        p@.speaker == p.speaker,
{
}

/// What an action says is what it holds.
pub proof fn actions_say_what_they_hold(a: VmAction)
    ensures
        a matches VmAction::Start { start, replaced } ==> a@ == (session::VmActionView::Start {
            start: start@,
            replaced,
        }),
        a matches VmAction::Play { seq, samples } ==> a@ == (session::VmActionView::Play {
            seq,
            samples: samples@,
        }),
        a matches VmAction::Malformed(e) ==> a@ == session::VmActionView::Malformed(e),
        a matches VmAction::BadToken(d) ==> a@ == session::VmActionView::BadToken(d@),
        a matches VmAction::BadFormat(d) ==> a@ == session::VmActionView::BadFormat(d@),
        a matches VmAction::Busy(d) ==> a@ == session::VmActionView::Busy(d@),
        a matches VmAction::Welcome(d) ==> a@ == session::VmActionView::Welcome(d@),
        a matches VmAction::Pong(d) ==> a@ == session::VmActionView::Pong(d@),
        a is Ignore <==> a@ is Ignore,
        a is Heard <==> a@ is Heard,
        a is Closed <==> a@ is Closed,
{
}

/// Each operation on an agent is the event of its name, and hands back what the agent then
/// has to do or to send.
pub proof fn operations_are_events()
    ensures
        forall|s: &mut VmSession, now: u64, peer: Endpoint, label: &str, buf: &[u8], a: VmAction|
            #![trigger call_ensures(VmSession::on_packet, (s, now, peer, label, buf), a)]
            call_ensures(VmSession::on_packet, (s, now, peer, label, buf), a) ==> {
                &&& final(s)@ == run_laws::next(
                    (*s)@,
                    run_laws::VmEvent::Received { now, peer, label: label@, data: buf@ },
                )
                &&& a@ == (*s)@.received(now, peer, label@, buf@).1
            },
        forall|s: &mut VmSession, now: u64, start: PendingStart, token: Vec<u8>, a: VmAction|
            #![trigger call_ensures(VmSession::handle_hello, (s, now, start, token), a)]
            call_ensures(VmSession::handle_hello, (s, now, start, token), a) ==> (
            final(s)@,
            a@,
        ) == (*s)@.greeted(now, start@, token@),
        forall|s: &mut VmSession, now: u64, start: PendingStart, data: Vec<u8>|
            #![trigger call_ensures(VmSession::on_started, (s, now, start), data)]
            call_ensures(VmSession::on_started, (s, now, start), data) ==> {
                &&& final(s)@ == run_laws::next(
                    (*s)@,
                    run_laws::VmEvent::Started { now, start: start@ },
                )
                &&& data@ == (*s)@.opened(now, start@).1
            },
        forall|s: &mut VmSession, pcm: &[i16], out: Option<Outgoing>|
            #![trigger call_ensures(VmSession::on_capture, (s, pcm), out)]
            call_ensures(VmSession::on_capture, (s, pcm), out) ==> {
                &&& final(s)@ == run_laws::next((*s)@, run_laws::VmEvent::Captured { pcm: pcm@ })
                &&& session::maybe_outgoing(out) == (*s)@.captured(pcm@).1
            },
        forall|s: &mut VmSession, ok: bool, u: ()|
            #![trigger call_ensures(VmSession::on_sent, (s, ok), u)]
            call_ensures(VmSession::on_sent, (s, ok), u) ==> final(s)@ == run_laws::next(
                (*s)@,
                run_laws::VmEvent::Sent { ok },
            ),
        forall|s: &mut VmSession, now: u64, after: Option<u64>|
            #![trigger call_ensures(VmSession::on_sweep, (s, now), after)]
            call_ensures(VmSession::on_sweep, (s, now), after) ==> {
                &&& final(s)@ == run_laws::next((*s)@, run_laws::VmEvent::Swept { now })
                &&& after == (*s)@.swept(now).1
            },
        forall|s: &mut VmSession, out: Option<Outgoing>|
            #![trigger call_ensures(VmSession::on_shutdown, (s,), out)]
            call_ensures(VmSession::on_shutdown, (s,), out) ==> {
                &&& final(s)@ == run_laws::next((*s)@, run_laws::VmEvent::Left)
                &&& session::maybe_outgoing(out) == (*s)@.left().1
            },
{
}

/// The microphone's buffer is there if and only if the microphone is on, for the format
/// that the host asked for and the configured latency.
pub proof fn the_microphones_buffer_fits(cfg: &VmConfig, mic: &Format, jb: Option<JitterBuffer>)
    requires
        call_ensures(session::mic_buffer, (cfg, mic), jb),
    ensures
        jb is Some <==> cfg.mic.enabled,
        jb matches Some(b) ==> {
            let latency = (mic.rate * cfg.mic.buffer_ms) / 1000;
            &&& b@.channels == mic.channels
            &&& b@.queue.len() == 0
            &&& b@.target_frames == if latency >= 2 * b@.frames_per_packet {
                latency
            } else {
                2 * b@.frames_per_packet as int
            }
            &&& (mic.rate * mic.frame_ms) / 1000 >= 1 ==> b@.frames_per_packet == (mic.rate
                * mic.frame_ms) / 1000
        },
{
    push_laws::a_buffer_starts_empty(
        mic.channels as nat,
        mic.rate,
        mic.frame_ms,
        cfg.mic.buffer_ms,
    );
}

/// A session opens the devices that are switched on, and a device that does not open is
/// named with the reason.
pub proof fn a_session_opens_its_devices(cfg: &VmConfig, step: StartStep, cause: &str)
    ensures
        forall|steps: Vec<StartStep>| #[trigger]
            call_ensures(session::start_steps, (cfg,), steps) ==> {
                &&& steps@.contains(StartStep::Render) <==> cfg.mic.enabled
                &&& steps@.contains(StartStep::Capture) <==> cfg.speaker.enabled
                &&& steps@.no_duplicates()
            },
        forall|m: String| #[trigger]
            call_ensures(session::start_failure, (step, cause), m) ==> m@ == (match step {
                StartStep::Render => "opening the virtual microphone feed"@,
                StartStep::Capture => "opening playback capture"@,
            }) + ": "@ + cause@,
        forall|t: String| #[trigger]
            call_ensures(session::summary, (cfg,), t) ==> t@ == session::VmModel::fresh(
                *cfg,
            ).summary,
{
    run_laws::a_session_opens_what_is_switched_on(*cfg);
}

/// Settings are accepted and refused as the laws of settings say, and their devices are
/// those that they name.
pub proof fn settings_are_checked(cfg: &VmConfig)
    ensures
        forall|r: Result<(), String>| #[trigger]
            call_ensures(VmConfig::validate, (cfg,), r) ==> match r {
                Ok(()) => cfg.valid(),
                Err(message) => !cfg.valid() && cfg.complaint() == Some(message@),
            },
        forall|yes: bool| #[trigger]
            call_ensures(VmConfig::feeds_default_device, (cfg,), yes) ==> (yes <==> cfg.valid()
                && cfg.mic.enabled && cfg.mic.device@.len() == 0),
        forall|name: Option<&str>| #[trigger]
            call_ensures(config::MicConfig::device, (&cfg.mic,), name) ==> match name {
                None => cfg.mic.device@.len() == 0,
                Some(n) => n@ == cfg.mic.device@ && n@.len() > 0,
            },
        forall|name: Option<&str>| #[trigger]
            call_ensures(config::SpeakerConfig::device, (&cfg.speaker,), name) ==> match name {
                None => cfg.speaker.device@.len() == 0,
                Some(n) => n@ == cfg.speaker.device@ && n@.len() > 0,
            },
{
}

/// Without settings, streams are on, playback is tapped by loopback, the buffer is 40 ms
/// and the patience five seconds.
pub proof fn what_goes_without_saying()
    ensures
        forall|b: bool| #[trigger] call_ensures(config::default_true, (), b) ==> b,
        forall|ms: u32| #[trigger] call_ensures(config::default_buffer_ms, (), ms) ==> ms == 40,
        forall|ms: u64| #[trigger]
            call_ensures(config::default_idle_timeout, (), ms) ==> ms == 5_000,
        forall|m: CaptureMode| #[trigger]
            call_ensures(CaptureMode::default, (), m) ==> m == CaptureMode::Loopback,
        forall|c: config::MicConfig| #[trigger]
            call_ensures(config::MicConfig::default, (), c) ==> c.enabled && c.device@.len() == 0
                && c.buffer_ms == 40,
        forall|c: config::SpeakerConfig| #[trigger]
            call_ensures(config::SpeakerConfig::default, (), c) ==> c.enabled && c.device@.len()
                == 0 && c.mode == CaptureMode::Loopback,
{
}

/// What operators read is what the laws of settings speak of.
pub proof fn operators_read_the_settings(
    cfg: &VmConfig,
    path: &str,
    address: &str,
    render: &Vec<DeviceInfo>,
    capture: &Vec<DeviceInfo>,
)
    ensures
        forall|lines: Vec<String>| #[trigger]
            call_ensures(startup::summary, (cfg, path, address), lines) ==> text::texts(lines@)
                == startup::summary_lines(*cfg, path@, address@),
        forall|lines: Vec<String>| #[trigger]
            call_ensures(startup::device_list, (render, capture), lines) ==> text::texts(lines@)
                == startup::device_lines(render@, capture@),
{
}

/// Loopback taps an endpoint that plays, the other mode one that records. An endpoint that
/// plays has three packets of slack, one that is captured from four, and never less than
/// the engine needs.
pub proof fn endpoints_are_planned_by_the_packet(
    mode: CaptureMode,
    f: &Format,
    wanted: i64,
    needed: i64,
)
    ensures
        forall|kind: EndpointKind| #[trigger]
            call_ensures(audio::endpoint_direction, (mode,), kind) ==> (kind
                == EndpointKind::Render <==> mode == CaptureMode::Loopback),
        forall|n: i64| #[trigger]
            call_ensures(audio::slack_frames, (f, EndpointKind::Render), n) ==> n == 3 * ((f.rate
                * f.frame_ms) / 1000),
        forall|n: i64| #[trigger]
            call_ensures(audio::slack_frames, (f, EndpointKind::Capture), n) ==> n == 4 * ((f.rate
                * f.frame_ms) / 1000),
        forall|d: i64| #[trigger]
            call_ensures(audio::buffer_duration, (wanted, needed), d) ==> d >= wanted && d >= needed
                && (d == wanted || d == needed),
{
    assert(f.spec_frames() * 3 == 3 * ((f.rate * f.frame_ms) / 1000));
    assert(f.spec_frames() * 4 == 4 * ((f.rate * f.frame_ms) / 1000));
}

/// A listed endpoint has the name that was given, and is the default if and only if its
/// identifier is known and is the default's.
pub proof fn a_listed_endpoint_is_marked(
    name: String,
    id: Option<String>,
    default_id: &Option<String>,
    entry: DeviceInfo,
)
    requires
        call_ensures(audio::list_entry, (name, id, default_id), entry),
    ensures
        entry.name@ == name@,
        entry.is_default <==> match (id, *default_id) {
            (Some(a), Some(b)) => a@ == b@,
            _ => false,
        },
{
}

/// A text contains another if and only if that stands in it, letter for letter.
pub proof fn what_a_text_contains(whole: &str, part: &str, yes: bool)
    requires
        call_ensures(audio::text_contains, (whole, part), yes),
    ensures
        yes <==> exists|before: Seq<char>, after: Seq<char>|
            #[trigger] (before + part@ + after) == whole@,
{
    if yes {
        let i = choose|i: int| audio::stands_at(whole@, part@, i);
        let before = whole@.take(i);
        let after = whole@.skip(i + part@.len());
        assert(whole@.subrange(i, i + part@.len()) == part@);
        assert(before + part@ + after =~= whole@);
    }
    if exists|before: Seq<char>, after: Seq<char>| #[trigger] (before + part@ + after) == whole@ {
        let (before, after) = choose|before: Seq<char>, after: Seq<char>|
            #[trigger] (before + part@ + after) == whole@;
        assert(whole@.subrange(before.len() as int, (before.len() + part@.len()) as int) =~= part@);
        assert(audio::stands_at(whole@, part@, before.len() as int));
    }
}

/// A search looks at one name after the other, stops at one that is the wanted one, letter
/// for letter, and else takes the only one that contains it, but for case.
pub proof fn a_search_goes_name_by_name(wanted: &str, s: &DeviceSearch, kind: EndpointKind, i: u32)
    ensures
        forall|n: DeviceSearch| #[trigger]
            call_ensures(DeviceSearch::new, (wanted,), n) ==> n@ == audio::searched(
                wanted@,
                Seq::empty(),
            ),
        forall|d: &mut DeviceSearch, friendly: &str, exact: bool|
            #![trigger call_ensures(DeviceSearch::offer, (d, friendly), exact)]
            call_ensures(DeviceSearch::offer, (d, friendly), exact) ==> {
                &&& exact <==> friendly@ == (*d)@.wanted
                &&& exact ==> final(d)@ == (*d)@
                &&& !exact ==> final(d)@ == (*d)@.looked_at(
                    friendly@,
                    audio::similar(friendly@, (*d)@.wanted),
                )
            },
        forall|r: Result<u32, String>| #[trigger]
            call_ensures(DeviceSearch::finish, (s, kind), r) ==> match r {
                Ok(n) => s@.fuzzy.len() == 1 && n == s@.fuzzy[0],
                Err(message) => s@.fuzzy.len() != 1 && message@ == s@.complaint(kind),
            },
        forall|name: &str| #[trigger]
            call_ensures(DeviceSearch::name, (s, i), name) ==> name@ == s@.names[i as int],
{
}

/// One more name in a search.
pub proof fn a_search_remembers_what_it_saw(
    m: audio::SearchModel,
    wanted: Seq<char>,
    names: Seq<Seq<char>>,
    name: Seq<char>,
)
    requires
        m == audio::searched(wanted, names),
    ensures
        m.looked_at(name, audio::similar(name, wanted)) == audio::searched(
            wanted,
            names.push(name),
        ),
{
    assert(names.push(name).drop_last() =~= names);
}

/// The thread of an endpoint takes the steps that its laws speak of, and remembers whether
/// its outage is announced and how many events it has missed in a row.
pub proof fn endpoint_threads_take_their_steps()
    ensures
        forall|
            o: &mut crate::reopen::Outage,
            w: &mut RenderWatch,
            stream: StartStep,
            event: EndpointEvent,
            step: EndpointStep,
        |
            #![trigger call_ensures(audio::next_step, (o, w, stream, event), step)]
            call_ensures(audio::next_step, (o, w, stream, event), step) ==> {
                let s = audio::endpoint_step_of(stream, (*o).is_announced(), (*w).in_a_row(), event);
                &&& final(o).is_announced() == s.0
                &&& final(w).in_a_row() == s.1
                &&& step == s.2
            },
        forall|w: RenderWatch| #[trigger]
            call_ensures(RenderWatch::new, (), w) ==> w.in_a_row() == 0,
        forall|w: &mut RenderWatch, u: ()|
            #![trigger call_ensures(RenderWatch::signalled, (w,), u)]
            call_ensures(RenderWatch::signalled, (w,), u) ==> final(w).in_a_row() == 0,
        forall|w: &mut RenderWatch, dead: bool|
            #![trigger call_ensures(RenderWatch::timed_out, (w,), dead)]
            call_ensures(RenderWatch::timed_out, (w,), dead) ==> final(w).in_a_row()
                == (*w).in_a_row() + 1 && (dead <==> (*w).in_a_row() >= 24),
{
}

/// A schedule is made empty for its format, and each operation on it is the event of its
/// name.
pub proof fn schedules_are_run_by_events(f: &Format, now: u64)
    ensures
        forall|ok: bool| #[trigger]
            call_ensures(CapturePacer::fits, (f,), ok) ==> (ok <==> 16 * (f.spec_frames()
                * f.channels) <= isize::MAX),
        forall|p: CapturePacer| #[trigger]
            call_ensures(CapturePacer::new, (f, now), p) ==> p@ == audio::PacerModel::fresh(
                *f,
                now,
            ),
        forall|p: &mut CapturePacer, data: &[i16], frames: usize, silent: bool, u: ()|
            #![trigger call_ensures(CapturePacer::absorb, (p, data, frames, silent), u)]
            call_ensures(CapturePacer::absorb, (p, data, frames, silent), u) ==> final(p)@
                == pacing_laws::next(
                (*p)@,
                pacing_laws::PacerEvent::Absorbed { data: data@, frames: frames as nat, silent },
            ),
        forall|p: &mut CapturePacer, excess: usize|
            #![trigger call_ensures(CapturePacer::trim, (p,), excess)]
            call_ensures(CapturePacer::trim, (p,), excess) ==> {
                &&& final(p)@ == pacing_laws::next((*p)@, pacing_laws::PacerEvent::Trimmed)
                &&& excess == (*p)@.queue.len() - final(p)@.queue.len()
            },
        forall|p: &mut CapturePacer, t: u64, slipped: bool|
            #![trigger call_ensures(CapturePacer::resync, (p, t), slipped)]
            call_ensures(CapturePacer::resync, (p, t), slipped) ==> {
                &&& final(p)@ == pacing_laws::next(
                    (*p)@,
                    pacing_laws::PacerEvent::Checked { now: t },
                )
                &&& slipped <==> t > (*p)@.next_due + 500_000_000
            },
        forall|p: &mut CapturePacer, t: u64, pcm: Option<Vec<i16>>|
            #![trigger call_ensures(CapturePacer::next_packet, (p, t), pcm)]
            call_ensures(CapturePacer::next_packet, (p, t), pcm) ==> {
                &&& final(p)@ == pacing_laws::next((*p)@, pacing_laws::PacerEvent::Asked { now: t })
                &&& audio::maybe_samples(pcm) == (*p)@.asked(t).1
            },
{
    let n = f.spec_frames() * f.channels as nat;
    assert(n * 4 * 4 == 16 * n);
}

/// A name is similar to the wanted one if and only if that stands in it when both are put
/// in lower case.
pub proof fn similar_names_differ_in_case_alone(name: Seq<char>, wanted: Seq<char>)
    ensures
        audio::similar(name, wanted) <==> exists|before: Seq<char>, after: Seq<char>|
            #[trigger] (before + audio::lowercase(wanted) + after) == audio::lowercase(name),
{
    let whole = audio::lowercase(name);
    let part = audio::lowercase(wanted);
    if audio::similar(name, wanted) {
        let i = choose|i: int| audio::stands_at(whole, part, i);
        let before = whole.take(i);
        let after = whole.skip(i + part.len());
        assert(whole.subrange(i, i + part.len()) == part);
        assert(before + part + after =~= whole);
    }
    if exists|before: Seq<char>, after: Seq<char>| #[trigger] (before + part + after) == whole {
        let (before, after) = choose|before: Seq<char>, after: Seq<char>|
            #[trigger] (before + part + after) == whole;
        assert(whole.subrange(before.len() as int, (before.len() + part.len()) as int) =~= part);
        assert(audio::stands_at(whole, part, before.len() as int));
    }
}

/// The same search, given the names in lower case.
pub proof fn a_search_in_lower_case_goes_the_same_way()
    ensures
        forall|d: &mut DeviceSearch, friendly: &str, lower: &str, lower_wanted: &str, exact: bool|
            #![trigger call_ensures(
                DeviceSearch::offer_lowered,
                (d, friendly, lower, lower_wanted),
                exact,
            )]
            call_ensures(
                DeviceSearch::offer_lowered,
                (d, friendly, lower, lower_wanted),
                exact,
            ) ==> {
                &&& exact <==> friendly@ == (*d)@.wanted
                &&& exact ==> final(d)@ == (*d)@
                &&& !exact ==> final(d)@ == (*d)@.looked_at(
                    friendly@,
                    audio::contains(lower@, lower_wanted@),
                )
            },
{
}

/// Names and messages in words.
pub proof fn words_are_fixed(kind: EndpointKind, mode: CaptureMode, friendly: &str)
    ensures
        forall|s: &'static str| #[trigger]
            call_ensures(EndpointKind::name, (kind,), s) ==> s@ == match kind {
                EndpointKind::Render => "Render"@,
                EndpointKind::Capture => "Capture"@,
            },
        forall|s: &'static str| #[trigger]
            call_ensures(CaptureMode::name, (mode,), s) ==> s@ == match mode {
                CaptureMode::Loopback => "Loopback"@,
                CaptureMode::Capture => "Capture"@,
            },
        forall|m: String| #[trigger]
            call_ensures(RenderWatch::obituary, (friendly,), m) ==> m@ == "\""@ + friendly@
                + "\" stopped signalling; reopening"@,
        forall|m: String| #[trigger]
            call_ensures(audio::unsupported, (), m) ==> m@
                == "audiobridge-vm can only open audio devices on Windows"@,
        forall|r: Result<(Vec<DeviceInfo>, Vec<DeviceInfo>), String>| #[trigger]
            call_ensures(audio::list_devices, (), r) ==> (r matches Err(m) && m@
                == "audiobridge-vm can only open audio devices on Windows"@),
{
}

/// How often, how long and how many.
pub proof fn measures_are_fixed(pcm: Vec<i16>)
    ensures
        session::STATS_INTERVAL_MS == 30_000,
        session::SWEEP_INTERVAL_MS == 1_000,
        session::CAPTURE_QUEUE == 8,
        audio::EVENT_TIMEOUT_MS == 200,
        audio::MAX_EVENT_TIMEOUTS == 25,
        audio::CAPTURE_POLL_MS == 2,
        audio::SCHEDULE_RESET_MS == 500,
        audio::CAPTURE_SLACK_PACKETS == 4,
        audio::RENDER_SLACK_PACKETS == 3,
        audio::maybe_samples(Some(pcm)) == Some(pcm@),
        audio::maybe_samples(None) is None,
{
}

} // verus!
