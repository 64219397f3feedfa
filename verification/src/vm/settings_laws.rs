//! What the VM agent makes of its settings and of its devices.

use crate::text;
use crate::vm::audio;
use crate::vm::config::{CaptureMode, VmConfig};
use crate::vm::session;
use crate::vm::session::StartStep;
use crate::vm::startup;
use vstd::prelude::*;

verus! {

/// Settings are accepted if and only if a stream is on and the microphone's buffer, where
/// the microphone is on, is 10 ms at least. Of two faults the first is told.
pub proof fn what_settings_are_accepted(cfg: VmConfig)
    ensures
        cfg.valid() <==> (cfg.mic.enabled || cfg.speaker.enabled) && (!cfg.mic.enabled
            || cfg.mic.buffer_ms >= 10),
        cfg.complaint() is None <==> cfg.valid(),
        !cfg.mic.enabled && !cfg.speaker.enabled ==> cfg.complaint() == Some(
            "both `mic` and `speaker` are disabled: there is nothing to bridge"@,
        ),
        cfg.mic.enabled && cfg.mic.buffer_ms < 10 ==> cfg.complaint() == Some(
            "[mic] buffer_ms of "@ + text::decimal(cfg.mic.buffer_ms as nat)
                + " is too small to absorb any jitter"@,
        ),
{
}

/// A device name, or what stands for the default one.
pub open spec fn shown(name: Seq<char>, otherwise: Seq<char>) -> Seq<char> {
    if name.len() > 0 {
        name
    } else {
        otherwise
    }
}

/// A capture mode's name.
pub open spec fn mode_name(mode: CaptureMode) -> Seq<char> {
    match mode {
        CaptureMode::Loopback => "Loopback"@,
        CaptureMode::Capture => "Capture"@,
    }
}

/// What the host is told about a session: where its microphone goes and where playback
/// comes from, or that they are switched off.
pub proof fn what_the_host_is_told(cfg: VmConfig)
    ensures
        session::VmModel::fresh(cfg).summary == (if cfg.mic.enabled {
            "mic -> "@ + shown(cfg.mic.device@, "(default render)"@)
        } else {
            "mic disabled"@
        }) + ", "@ + (if cfg.speaker.enabled {
            "speaker <- "@ + mode_name(cfg.speaker.mode) + ":"@ + shown(
                cfg.speaker.device@,
                "(default)"@,
            )
        } else {
            "speaker disabled"@
        }),
{
}

/// The summary of settings shows the file, the address, and each stream with its device,
/// line by line. Of the token it shows only whether there is one.
pub proof fn what_the_summary_shows(cfg: VmConfig, path: Seq<char>, address: Seq<char>)
    ensures
        ({
            let lines = startup::summary_lines(cfg, path, address);
            &&& lines.len() == 7
            &&& lines[0] == "configuration OK: "@ + path
            &&& lines[1] == "  listen  : "@ + address
            &&& cfg.token@.len() == 0 ==> lines[2] == "  auth    : "@ + "disabled"@
            &&& cfg.token@.len() > 0 ==> lines[2] == "  auth    : "@ + "token"@
            &&& !cfg.mic.enabled ==> lines[3] == "  mic     : disabled"@
            &&& cfg.mic.enabled ==> lines[3] == "  mic     : Linux -> "@ + shown(
                cfg.mic.device@,
                "(default render device)"@,
            ) + "  ["@ + text::decimal(cfg.mic.buffer_ms as nat) + " ms jitter buffer]"@
            &&& !cfg.speaker.enabled ==> lines[4] == "  speaker : disabled"@
            &&& cfg.speaker.enabled ==> lines[4] == "  speaker : "@ + mode_name(cfg.speaker.mode)
                + " of "@ + shown(cfg.speaker.device@, "(default endpoint)"@) + " -> Linux"@
            &&& lines[5] == ""@
            &&& lines[6] == "Audio formats are chosen by the host and arrive in its Hello."@
        }),
{
}

/// The summary never gives the token away: settings that differ in nothing but the text of
/// a token have the same summary.
pub proof fn the_summary_keeps_the_token(
    a: VmConfig,
    b: VmConfig,
    path: Seq<char>,
    address: Seq<char>,
)
    requires
        a.mic == b.mic,
        a.speaker == b.speaker,
        a.token@.len() > 0,
        b.token@.len() > 0,
    ensures
        startup::summary_lines(a, path, address) == startup::summary_lines(b, path, address),
{
}

/// The line of a listed device: its name, with a star if it is the default.
pub open spec fn listed(d: audio::DeviceInfo, line: Seq<char>) -> bool {
    line == (if d.is_default {
        "  * "@
    } else {
        "    "@
    }) + d.name@
}

/// The device list shows every render and every capture endpoint once, in order, under its
/// heading.
pub proof fn every_device_is_listed(
    render: Seq<audio::DeviceInfo>,
    capture: Seq<audio::DeviceInfo>,
)
    ensures
        ({
            let lines = startup::device_lines(render, capture);
            let below = render.len() as int + 3;
            &&& lines.len() == render.len() + capture.len() + 7
            &&& lines[0]
                == "render endpoints (playback) — [mic].device, and [speaker].device in loopback mode"@
            &&& forall|i: int|
                0 <= i < render.len() ==> listed(#[trigger] render[i], lines[1 + i])
            &&& lines[below - 2] == ""@
            &&& lines[below - 1]
                == "capture endpoints (recording) — [speaker].device in capture mode"@
            &&& forall|i: int|
                0 <= i < capture.len() ==> listed(#[trigger] capture[i], lines[below + i])
            &&& lines[lines.len() - 4] == ""@
            &&& lines[lines.len() - 3] == "* = current default."@
        }),
{
}

/// What the thread of an endpoint does. An endpoint that fails is tried again, with a
/// warning only if the outage is new, and only the microphone feed then drops what it
/// holds; an endpoint is declared dead after 25 missed events in a row; a full queue costs
/// a packet; a network task that is gone lets the endpoint go.
pub proof fn what_an_endpoint_thread_does(
    stream: StartStep,
    announced: bool,
    timeouts: nat,
    event: audio::EndpointEvent,
)
    ensures
        ({
            let s = audio::endpoint_step_of(stream, announced, timeouts, event);
            &&& s.2 is Retry <==> event == audio::EndpointEvent::Failed
            &&& s.2 matches audio::EndpointStep::Retry { warn, reset } ==> warn == !announced
                && reset == (stream == StartStep::Render)
            &&& s.2 is Again <==> event == audio::EndpointEvent::Finished
            &&& s.2 is GiveUp <==> event == audio::EndpointEvent::BufferLost || (event
                == audio::EndpointEvent::TimedOut && timeouts >= 24)
            &&& s.2 is DropPacket <==> event == audio::EndpointEvent::QueueFull
            &&& s.2 is Finish <==> event == audio::EndpointEvent::QueueClosed
            &&& s.0 == if event == audio::EndpointEvent::Failed {
                true
            } else if event == audio::EndpointEvent::Finished {
                false
            } else {
                announced
            }
            &&& s.1 == if event == audio::EndpointEvent::TimedOut {
                timeouts + 1
            } else if event == audio::EndpointEvent::Signalled || event
                == audio::EndpointEvent::Failed || event == audio::EndpointEvent::Finished {
                0
            } else {
                timeouts
            }
        }),
{
}

/// Where no name will do, the operator is told which names there are: all of them if none
/// is similar, else all that are.
pub proof fn a_failed_search_lists_the_names(
    wanted: Seq<char>,
    names: Seq<Seq<char>>,
    kind: audio::EndpointKind,
)
    ensures
        ({
            let m = audio::searched(wanted, names);
            let what = match kind {
                audio::EndpointKind::Render => "Render"@,
                audio::EndpointKind::Capture => "Capture"@,
            };
            &&& m.fuzzy.len() == 0 ==> m.complaint(kind) == "no "@ + what + " device matches \""@
                + wanted + "\". Available: "@ + text::joined(names, ", "@)
            &&& m.fuzzy.len() > 0 ==> m.complaint(kind) == "\""@ + wanted + "\" matches several "@
                + what + " devices ("@ + text::joined(
                Seq::new(m.fuzzy.len(), |k: int| names[m.fuzzy[k]]),
                ", "@,
            ) + "); use the full name"@
        }),
    decreases names.len(),
{
    let m = audio::searched(wanted, names);
    lemma_searched_names(wanted, names);
    assert(m.similar_names() =~= Seq::new(m.fuzzy.len(), |k: int| names[m.fuzzy[k]]));
}

proof fn lemma_searched_names(wanted: Seq<char>, names: Seq<Seq<char>>)
    ensures
        audio::searched(wanted, names).names == names,
        audio::searched(wanted, names).wanted == wanted,
    decreases names.len(),
{
    if names.len() > 0 {
        lemma_searched_names(wanted, names.drop_last());
        assert(names.drop_last().push(names.last()) =~= names);
    } else {
        assert(audio::searched(wanted, names).names =~= names);
    }
}

} // verus!
