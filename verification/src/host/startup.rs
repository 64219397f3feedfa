//! What the host agent says and decides before a session.

use crate::host::config;
use crate::host::config::HostConfig;
use crate::host::pulse::DeviceInfo;
use crate::text;
use crate::text::{push_decimal, push_line};
use vstd::prelude::*;

verus! {

/// Where to look for the settings next, or where they are.
#[derive(Clone, Copy, PartialEq, Eq, Debug, Structural)]
pub enum ConfigStep {
    /// The file named on the command line.
    UseExplicit,
    /// Look for `host.toml` in the current working directory.
    LookInWorkingDir,
    UseWorkingDir,
    /// Look for `host.toml` beside the executable.
    LookBesideExecutable,
    UseBesideExecutable,
    /// There is none.
    GiveUp,
}

/// What to do about the settings, given whether a file was named and what the looks
/// so far have found: the current working directory goes before the executable's.
pub fn config_step(
    explicit: bool,
    in_working_dir: Option<bool>,
    beside_executable: Option<bool>,
) -> (step: ConfigStep)
    ensures
        step == if explicit {
            ConfigStep::UseExplicit
        } else {
            match (in_working_dir, beside_executable) {
                (None, _) => ConfigStep::LookInWorkingDir,
                (Some(true), _) => ConfigStep::UseWorkingDir,
                (Some(false), None) => ConfigStep::LookBesideExecutable,
                (Some(false), Some(true)) => ConfigStep::UseBesideExecutable,
                (Some(false), Some(false)) => ConfigStep::GiveUp,
            }
        },
{
    if explicit {
        return ConfigStep::UseExplicit;
    }
    match in_working_dir {
        None => ConfigStep::LookInWorkingDir,
        Some(found) => {
            if found {
                return ConfigStep::UseWorkingDir;
            }
            match beside_executable {
                None => ConfigStep::LookBesideExecutable,
                Some(found) => {
                    if found {
                        ConfigStep::UseBesideExecutable
                    } else {
                        ConfigStep::GiveUp
                    }
                },
            }
        },
    }
}

/// What to tell an operator without settings.
pub fn config_not_found(working_dir: &str, executable_dir: &str) -> (message: String)
    ensures
        message@ == "host.toml was not found in the current working directory ("@ + working_dir@
            + ") or beside the executable ("@ + executable_dir@ + "); use --config <path>"@,
{
    let mut message: String = "host.toml was not found in the current working directory (".to_owned();
    message.append(working_dir);
    message.append(") or beside the executable (");
    message.append(executable_dir);
    message.append("); use --config <path>");
    message
}

/// How the far side is told who knocks.
pub open spec fn auth_line(token: Seq<char>) -> Seq<char> {
    "  auth    : "@ + if token.len() == 0 {
        "disabled"@
    } else {
        "token"@
    }
}

/// The microphone's line of the summary.
pub open spec fn mic_line(c: config::MicConfig) -> Seq<char> {
    if c.enabled {
        "  mic     : "@ + text::or_default(c.device@, "(default source)"@) + " -> VM  ["@
            + c.spec_format().words() + "]"@
    } else {
        "  mic     : disabled"@
    }
}

/// The speaker's line of the summary.
pub open spec fn speaker_line(c: config::SpeakerConfig) -> Seq<char> {
    if c.enabled {
        "  speaker : VM -> "@ + text::or_default(c.device@, "(default sink)"@) + "  ["@
            + c.spec_format().words() + ", "@ + text::decimal(c.buffer_ms as nat)
            + " ms jitter buffer]"@
    } else {
        "  speaker : disabled"@
    }
}

/// The lines of the summary.
pub open spec fn summary_lines(cfg: HostConfig, path: Seq<char>, address: Seq<char>) -> Seq<
    Seq<char>,
> {
    seq![
        "configuration OK: "@ + path,
        "  server  : "@ + address,
        auth_line(cfg.server.token@),
        mic_line(cfg.mic),
        speaker_line(cfg.speaker),
    ]
}

/// The summary of settings read from `path`, line by line. `address` is the server's
/// address in words.
pub fn summary(cfg: &HostConfig, path: &str, address: &str) -> (lines: Vec<String>)
    ensures
        text::texts(lines@) == summary_lines(*cfg, path@, address@),
{
    let mut lines: Vec<String> = Vec::new();
    lines.push("configuration OK: ".to_owned().concat(path));
    lines.push("  server  : ".to_owned().concat(address));
    if cfg.server.token.as_str().is_empty() {
        lines.push("  auth    : ".to_owned().concat("disabled"));
    } else {
        lines.push("  auth    : ".to_owned().concat("token"));
    }
    let mut mic: String = String::new();
    if cfg.mic.enabled {
        mic.append("  mic     : ");
        match cfg.mic.device() {
            Some(name) => mic.append(name),
            None => mic.append("(default source)"),
        }
        mic.append(" -> VM  [");
        mic.append(cfg.mic.format().to_string().as_str());
        mic.append("]");
    } else {
        mic.append("  mic     : disabled");
    }
    assert(mic@ =~= mic_line(cfg.mic));
    lines.push(mic);
    let mut speaker: String = String::new();
    if cfg.speaker.enabled {
        speaker.append("  speaker : VM -> ");
        match cfg.speaker.device() {
            Some(name) => speaker.append(name),
            None => speaker.append("(default sink)"),
        }
        speaker.append("  [");
        speaker.append(cfg.speaker.format().to_string().as_str());
        speaker.append(", ");
        push_decimal(&mut speaker, cfg.speaker.buffer_ms as u64);
        speaker.append(" ms jitter buffer]");
    } else {
        speaker.append("  speaker : disabled");
    }
    assert(speaker@ =~= speaker_line(cfg.speaker));
    lines.push(speaker);
    assert(text::texts(lines@) =~= summary_lines(*cfg, path@, address@));
    lines
}

/// The two lines of a device list entry.
pub open spec fn entry_lines(d: DeviceInfo) -> Seq<Seq<char>> {
    seq![
        (if d.is_default {
            "  * "@
        } else {
            "    "@
        }) + d.name@,
        "      "@ + d.description@,
    ]
}

/// The lines of the first `n` entries.
pub open spec fn entries_lines(devices: Seq<DeviceInfo>, n: nat) -> Seq<Seq<char>>
    decreases n,
{
    if n == 0 {
        Seq::empty()
    } else {
        entries_lines(devices, (n - 1) as nat) + entry_lines(devices[n - 1])
    }
}

/// The lines of the device list.
pub open spec fn device_lines(sources: Seq<DeviceInfo>, sinks: Seq<DeviceInfo>) -> Seq<Seq<char>> {
    seq!["sources (microphones) — put one in [mic].device"@] + entries_lines(
        sources,
        sources.len(),
    ) + seq![""@, "sinks (speakers) — put one in [speaker].device"@] + entries_lines(
        sinks,
        sinks.len(),
    ) + seq![""@, "* = current default; leave the config field empty to follow the default."@]
}

fn push_entries(lines: &mut Vec<String>, devices: &Vec<DeviceInfo>)
    ensures
        text::texts(final(lines)@) == text::texts(old(lines)@) + entries_lines(
            devices@,
            devices@.len(),
        ),
{
    let mut i: usize = 0;
    assert(text::texts(lines@) =~= text::texts(old(lines)@) + entries_lines(devices@, 0));
    while i < devices.len()
        invariant
            i <= devices@.len(),
            text::texts(lines@) == text::texts(old(lines)@) + entries_lines(devices@, i as nat),
        decreases devices@.len() - i,
    {
        let ghost before = text::texts(lines@);
        let d: &DeviceInfo = &devices[i];
        if d.is_default {
            lines.push("  * ".to_owned().concat(d.name.as_str()));
        } else {
            lines.push("    ".to_owned().concat(d.name.as_str()));
        }
        lines.push("      ".to_owned().concat(d.description.as_str()));
        i = i + 1;
        proof {
            assert(text::texts(lines@) =~= before + entry_lines(devices@[i - 1]));
            assert(before + entry_lines(devices@[i - 1]) =~= text::texts(old(lines)@)
                + entries_lines(devices@, i as nat));
        }
    }
}

/// The device list, line by line.
pub fn device_list(sources: &Vec<DeviceInfo>, sinks: &Vec<DeviceInfo>) -> (lines: Vec<String>)
    ensures
        text::texts(lines@) == device_lines(sources@, sinks@),
{
    let mut lines: Vec<String> = Vec::new();
    assert(text::texts(lines@) =~= Seq::<Seq<char>>::empty());
    push_line(&mut lines, "sources (microphones) — put one in [mic].device");
    push_entries(&mut lines, sources);
    push_line(&mut lines, "");
    push_line(&mut lines, "sinks (speakers) — put one in [speaker].device");
    push_entries(&mut lines, sinks);
    push_line(&mut lines, "");
    push_line(&mut lines, "* = current default; leave the config field empty to follow the default.");
    assert(text::texts(lines@) =~= device_lines(sources@, sinks@));
    lines
}

} // verus!
