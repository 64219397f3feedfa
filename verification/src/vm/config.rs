//! Settings of the VM agent.

use crate::endpoint::Endpoint;
use crate::text;
use crate::text::push_decimal;
use vstd::prelude::*;

verus! {

/// Everything the VM agent can be told.
#[derive(Clone, Debug)]
pub struct VmConfig {
    /// Address to listen on.
    pub listen: Endpoint,
    pub token: String,
    /// Tear the session down after this long without a packet from the host.
    pub idle_timeout_ms: u64,
    /// Where audio arriving from Linux is played: the render half of a virtual
    /// cable, whose capture half applications then select as their microphone.
    pub mic: MicConfig,
    /// What is captured and sent back to Linux.
    pub speaker: SpeakerConfig,
}

/// The stream arriving from Linux.
#[derive(Clone, Debug)]
pub struct MicConfig {
    pub enabled: bool,
    /// Friendly name of a *render* endpoint, e.g.
    /// `CABLE Input (VB-Audio Virtual Cable)`. Empty means the default one,
    /// which is almost never what you want here.
    pub device: String,
    /// Jitter buffer target for the stream arriving from Linux.
    pub buffer_ms: u32,
}

/// The stream sent to Linux.
#[derive(Clone, Debug)]
pub struct SpeakerConfig {
    pub enabled: bool,
    pub mode: CaptureMode,
    /// Friendly name of the endpoint to take audio from. Which kind of endpoint
    /// depends on `mode`. Empty means that mode's default endpoint.
    pub device: String,
}

/// How the Windows side gets hold of the audio applications are playing.
#[derive(Clone, Copy, PartialEq, Eq, Debug, Structural)]
pub enum CaptureMode {
    /// Tap a *render* endpoint with `AUDCLNT_STREAMFLAGS_LOOPBACK`. Point it at
    /// whatever the system default playback device is and everything Windows
    /// plays comes back, no second virtual cable required.
    Loopback,
    /// Read a real *capture* endpoint. Use this when playback is routed into a
    /// second virtual cable, whose capture half is then read directly — one
    /// less conversion than loopback, and it keeps working when the render
    /// endpoint goes idle.
    Capture,
}

impl Default for CaptureMode {
    fn default() -> (mode: Self)
        ensures
            mode == CaptureMode::Loopback,
    {
        CaptureMode::Loopback
    }
}

impl CaptureMode {
    /// The mode's name.
    pub open spec fn words(self) -> Seq<char> {
        match self {
            CaptureMode::Loopback => "Loopback"@,
            CaptureMode::Capture => "Capture"@,
        }
    }

    /// The mode's name.
    pub fn name(self) -> (s: &'static str)
        ensures
            s@ == self.words(),
    {
        match self {
            CaptureMode::Loopback => "Loopback",
            CaptureMode::Capture => "Capture",
        }
    }
}

/// Streams are on unless switched off.
pub fn default_true() -> (b: bool)
    ensures
        b,
{
    true
}

/// 40 ms of jitter buffer.
pub fn default_buffer_ms() -> (ms: u32)
    ensures
        ms == 40,
{
    40
}

/// Five seconds of silence end a session.
pub fn default_idle_timeout() -> (ms: u64)
    ensures
        ms == 5_000,
{
    5_000
}

impl Default for MicConfig {
    fn default() -> (c: Self)
        ensures
            c.enabled,
            c.device@ == Seq::<char>::empty(),
            c.buffer_ms == 40,
    {
        MicConfig { enabled: true, device: String::new(), buffer_ms: default_buffer_ms() }
    }
}

impl Default for SpeakerConfig {
    fn default() -> (c: Self)
        ensures
            c.enabled,
            c.mode == CaptureMode::Loopback,
            c.device@ == Seq::<char>::empty(),
    {
        SpeakerConfig { enabled: true, mode: CaptureMode::Loopback, device: String::new() }
    }
}

/// `s` unless it is empty.
pub fn opt(s: &str) -> (name: Option<&str>)
    ensures
        text::optional(name) == text::named(s@),
{
    if s.is_empty() {
        None
    } else {
        Some(s)
    }
}

impl MicConfig {
    /// `None` means the default render endpoint.
    pub fn device(&self) -> (name: Option<&str>)
        ensures
            text::optional(name) == text::named(self.device@),
    {
        opt(self.device.as_str())
    }
}

impl SpeakerConfig {
    /// `None` means the mode's default endpoint.
    pub fn device(&self) -> (name: Option<&str>)
        ensures
            text::optional(name) == text::named(self.device@),
    {
        opt(self.device.as_str())
    }
}

impl VmConfig {
    /// What is wrong with these settings, if anything.
    pub open spec fn complaint(self) -> Option<Seq<char>> {
        if !self.mic.enabled && !self.speaker.enabled {
            Some("both `mic` and `speaker` are disabled: there is nothing to bridge"@)
        } else if self.mic.enabled && self.mic.buffer_ms < 10 {
            Some(
                "[mic] buffer_ms of "@ + text::decimal(self.mic.buffer_ms as nat)
                    + " is too small to absorb any jitter"@,
            )
        } else {
            None
        }
    }

    /// The settings that a session can run with.
    pub open spec fn valid(self) -> bool {
        &&& self.mic.enabled || self.speaker.enabled
        &&& self.mic.enabled ==> self.mic.buffer_ms >= 10
    }

    /// A refusal says what is wrong with the settings.
    pub fn validate(&self) -> (result: Result<(), String>)
        ensures
            result is Ok <==> self.valid(),
            match result {
                Ok(()) => self.complaint() is None,
                Err(message) => self.complaint() == Some(message@),
            },
    {
        if !self.mic.enabled && !self.speaker.enabled {
            return Err(
                "both `mic` and `speaker` are disabled: there is nothing to bridge".to_owned(),
            );
        }
        if self.mic.enabled && self.mic.buffer_ms < 10 {
            let mut message: String = "[mic] buffer_ms of ".to_owned();
            push_decimal(&mut message, self.mic.buffer_ms as u64);
            message.append(" is too small to absorb any jitter");
            return Err(message);
        }
        Ok(())
    }

    /// Audio from Linux would go to the default playback device: applications would
    /// hear it instead of recording it. Settings that are refused call for no such
    /// warning.
    pub fn feeds_default_device(&self) -> (yes: bool)
        ensures
            yes == (self.valid() && self.mic.enabled && self.mic.device@.len() == 0),
    {
        if self.validate().is_err() {
            return false;
        }
        self.mic.enabled && self.mic.device().is_none()
    }

    /// Settings with nothing but an address are valid.
    pub proof fn defaults_are_valid(self)
        requires
            self.mic.enabled,
            self.speaker.enabled,
            self.mic.buffer_ms == 40,
        ensures
            self.valid(),
            self.complaint() is None,
    {
    }
}

} // verus!
