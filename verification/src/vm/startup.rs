//! What the VM agent says before a session.

use crate::host::startup;
use crate::text;
use crate::text::{push_decimal, push_line};
use crate::vm::audio::DeviceInfo;
use crate::vm::config;
use crate::vm::config::VmConfig;
use vstd::prelude::*;

verus! {

/// The microphone's line of the summary.
pub open spec fn mic_line(c: config::MicConfig) -> Seq<char> {
    if c.enabled {
        "  mic     : Linux -> "@ + text::or_default(c.device@, "(default render device)"@)
            + "  ["@ + text::decimal(c.buffer_ms as nat) + " ms jitter buffer]"@
    } else {
        "  mic     : disabled"@
    }
}

/// The speaker's line of the summary.
pub open spec fn speaker_line(c: config::SpeakerConfig) -> Seq<char> {
    if c.enabled {
        "  speaker : "@ + c.mode.words() + " of "@ + text::or_default(
            c.device@,
            "(default endpoint)"@,
        ) + " -> Linux"@
    } else {
        "  speaker : disabled"@
    }
}

/// The lines of the summary.
pub open spec fn summary_lines(cfg: VmConfig, path: Seq<char>, address: Seq<char>) -> Seq<
    Seq<char>,
> {
    seq![
        "configuration OK: "@ + path,
        "  listen  : "@ + address,
        startup::auth_line(cfg.token@),
        mic_line(cfg.mic),
        speaker_line(cfg.speaker),
        ""@,
        "Audio formats are chosen by the host and arrive in its Hello."@,
    ]
}

/// The summary of settings read from `path`, line by line. `address` is the address
/// to listen on, in words.
pub fn summary(cfg: &VmConfig, path: &str, address: &str) -> (lines: Vec<String>)
    ensures
        text::texts(lines@) == summary_lines(*cfg, path@, address@),
{
    let mut lines: Vec<String> = Vec::new();
    lines.push("configuration OK: ".to_owned().concat(path));
    lines.push("  listen  : ".to_owned().concat(address));
    if cfg.token.as_str().is_empty() {
        lines.push("  auth    : ".to_owned().concat("disabled"));
    } else {
        lines.push("  auth    : ".to_owned().concat("token"));
    }
    let mut mic: String = String::new();
    if cfg.mic.enabled {
        mic.append("  mic     : Linux -> ");
        match cfg.mic.device() {
            Some(name) => mic.append(name),
            None => mic.append("(default render device)"),
        }
        mic.append("  [");
        push_decimal(&mut mic, cfg.mic.buffer_ms as u64);
        mic.append(" ms jitter buffer]");
    } else {
        mic.append("  mic     : disabled");
    }
    assert(mic@ =~= mic_line(cfg.mic));
    lines.push(mic);
    let mut speaker: String = String::new();
    if cfg.speaker.enabled {
        speaker.append("  speaker : ");
        speaker.append(cfg.speaker.mode.name());
        speaker.append(" of ");
        match cfg.speaker.device() {
            Some(name) => speaker.append(name),
            None => speaker.append("(default endpoint)"),
        }
        speaker.append(" -> Linux");
    } else {
        speaker.append("  speaker : disabled");
    }
    assert(speaker@ =~= speaker_line(cfg.speaker));
    lines.push(speaker);
    lines.push("".to_owned());
    lines.push("Audio formats are chosen by the host and arrive in its Hello.".to_owned());
    assert(text::texts(lines@) =~= summary_lines(*cfg, path@, address@));
    lines
}

/// The line of a device list entry.
pub open spec fn entry_line(d: DeviceInfo) -> Seq<char> {
    (if d.is_default {
        "  * "@
    } else {
        "    "@
    }) + d.name@
}

/// The lines of the device list.
pub open spec fn device_lines(render: Seq<DeviceInfo>, capture: Seq<DeviceInfo>) -> Seq<
    Seq<char>,
> {
    seq![
        "render endpoints (playback) — [mic].device, and [speaker].device in loopback mode"@,
    ] + render.map_values(|d: DeviceInfo| entry_line(d)) + seq![
        ""@,
        "capture endpoints (recording) — [speaker].device in capture mode"@,
    ] + capture.map_values(|d: DeviceInfo| entry_line(d)) + seq![
        ""@,
        "* = current default."@,
        "Feed the virtual cable's *render* endpoint (e.g. \"CABLE Input\"); applications"@,
        "then select its capture side (e.g. \"CABLE Output\") as their microphone."@,
    ]
}

fn push_entries(lines: &mut Vec<String>, devices: &Vec<DeviceInfo>)
    ensures
        text::texts(final(lines)@) == text::texts(old(lines)@) + devices@.map_values(
            |d: DeviceInfo| entry_line(d),
        ),
{
    let ghost all = devices@.map_values(|d: DeviceInfo| entry_line(d));
    let mut i: usize = 0;
    assert(text::texts(lines@) =~= text::texts(old(lines)@) + all.take(0));
    while i < devices.len()
        invariant
            i <= devices@.len(),
            all == devices@.map_values(|d: DeviceInfo| entry_line(d)),
            text::texts(lines@) == text::texts(old(lines)@) + all.take(i as int),
        decreases devices@.len() - i,
    {
        let ghost before = text::texts(lines@);
        let d: &DeviceInfo = &devices[i];
        if d.is_default {
            lines.push("  * ".to_owned().concat(d.name.as_str()));
        } else {
            lines.push("    ".to_owned().concat(d.name.as_str()));
        }
        i = i + 1;
        proof {
            assert(text::texts(lines@) =~= before.push(all[i - 1]));
            assert(all.take(i as int) =~= all.take(i - 1).push(all[i - 1]));
            assert(text::texts(lines@) =~= text::texts(old(lines)@) + all.take(i as int));
        }
    }
    assert(all.take(i as int) =~= all);
}

/// The device list, line by line.
pub fn device_list(render: &Vec<DeviceInfo>, capture: &Vec<DeviceInfo>) -> (lines: Vec<String>)
    ensures
        text::texts(lines@) == device_lines(render@, capture@),
{
    let mut lines: Vec<String> = Vec::new();
    assert(text::texts(lines@) =~= Seq::<Seq<char>>::empty());
    push_line(&mut lines, "render endpoints (playback) — [mic].device, and [speaker].device in loopback mode");
    push_entries(&mut lines, render);
    push_line(&mut lines, "");
    push_line(&mut lines, "capture endpoints (recording) — [speaker].device in capture mode");
    push_entries(&mut lines, capture);
    push_line(&mut lines, "");
    push_line(&mut lines, "* = current default.");
    push_line(&mut lines, "Feed the virtual cable's *render* endpoint (e.g. \"CABLE Input\"); applications");
    push_line(&mut lines, "then select its capture side (e.g. \"CABLE Output\") as their microphone.");
    assert(text::texts(lines@) =~= device_lines(render@, capture@));
    lines
}

} // verus!
