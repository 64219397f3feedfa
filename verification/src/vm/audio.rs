//! Windows audio devices: which endpoint to use, when to give up on it, and when the
//! next packet of captured playback is due.

use crate::clock::NANOS_PER_MS;
use crate::format::Format;
use crate::reopen::Outage;
use crate::text;
use crate::vm::config::CaptureMode;
use crate::vm::session::StartStep;
use std::collections::VecDeque;
use vstd::prelude::*;

verus! {

/// How long the render loop waits on the endpoint event before looking at the
/// stop flag again. Also bounds how long stopping it blocks.
pub const EVENT_TIMEOUT_MS: u32 = 200;

/// Consecutive event timeouts tolerated before the endpoint is declared dead
/// and reopened. 25 * 200 ms = 5 s.
pub const MAX_EVENT_TIMEOUTS: u32 = 25;

/// Poll interval for the capture loop. A third of the smallest packet we send,
/// so a packet is never more than a fraction of its own duration late.
pub const CAPTURE_POLL_MS: u64 = 2;

/// If the capture loop falls this far behind its schedule — a suspend, a long
/// GC pause in some other process, a live migration — restart the schedule
/// instead of emitting a burst of thousands of packets.
pub const SCHEDULE_RESET_MS: u64 = 500;

/// Packets of captured playback that may wait.
pub const CAPTURE_SLACK_PACKETS: usize = 4;

/// The latest moment that a schedule can be at, far beyond any uptime.
pub const LAST_MOMENT: u64 = 0x8000_0000_0000_0000;

/// One entry of `--list-devices`.
#[derive(Clone, Debug, PartialEq, Eq)]
pub struct DeviceInfo {
    pub name: String,
    pub is_default: bool,
}

/// The two kinds of endpoint.
#[derive(Clone, Copy, PartialEq, Eq, Debug, Structural)]
pub enum EndpointKind {
    Render,
    Capture,
}

impl EndpointKind {
    /// The kind's name.
    pub open spec fn words(self) -> Seq<char> {
        match self {
            EndpointKind::Render => "Render"@,
            EndpointKind::Capture => "Capture"@,
        }
    }

    /// The kind's name.
    pub fn name(self) -> (s: &'static str)
        ensures
            s@ == self.words(),
    {
        match self {
            EndpointKind::Render => "Render",
            EndpointKind::Capture => "Capture",
        }
    }
}

/// The endpoint kind a capture mode reads from. Loopback taps a *render*
/// endpoint: a capture stream on one is what makes it a loopback tap.
pub fn endpoint_direction(mode: CaptureMode) -> (kind: EndpointKind)
    ensures
        kind == match mode {
            CaptureMode::Loopback => EndpointKind::Render,
            CaptureMode::Capture => EndpointKind::Capture,
        },
{
    match mode {
        CaptureMode::Loopback => EndpointKind::Render,
        CaptureMode::Capture => EndpointKind::Capture,
    }
}

/// Packets of slack in the buffer of an endpoint that plays.
pub const RENDER_SLACK_PACKETS: u64 = 3;

/// Frames of slack in an endpoint's buffer: three packets where it plays, four where
/// it is captured from.
pub fn slack_frames(f: &Format, kind: EndpointKind) -> (frames: i64)
    ensures
        frames == match kind {
            EndpointKind::Render => f.spec_frames() * RENDER_SLACK_PACKETS,
            EndpointKind::Capture => f.spec_frames() * CAPTURE_SLACK_PACKETS,
        },
{
    proof {
        f.lemma_sizes();
    }
    let frames: u64 = f.frames_per_packet() as u64;
    match kind {
        EndpointKind::Render => (frames * RENDER_SLACK_PACKETS) as i64,
        EndpointKind::Capture => (frames * CAPTURE_SLACK_PACKETS as u64) as i64,
    }
}

/// The duration of an endpoint's buffer: what is wanted, but never below what the
/// engine says it needs.
pub fn buffer_duration(wanted: i64, engine_needs: i64) -> (duration: i64)
    ensures
        duration == if wanted >= engine_needs {
            wanted
        } else {
            engine_needs
        },
{
    if wanted >= engine_needs {
        wanted
    } else {
        engine_needs
    }
}

/// Why no device opens anywhere but on Windows.
pub fn unsupported() -> (message: String)
    ensures
        message@ == "audiobridge-vm can only open audio devices on Windows"@,
{
    "audiobridge-vm can only open audio devices on Windows".to_owned()
}

/// The render and the capture endpoints of a machine that is not a Windows machine:
/// there are none to be had.
pub fn list_devices() -> (result: Result<(Vec<DeviceInfo>, Vec<DeviceInfo>), String>)
    ensures
        result matches Err(message) && message@
            == "audiobridge-vm can only open audio devices on Windows"@,
{
    Err(unsupported())
}

/// The text of an optional string.
pub open spec fn maybe_text(s: Option<String>) -> Option<Seq<char>> {
    match s {
        None => None,
        Some(t) => Some(t@),
    }
}

/// An entry of the device list: the default is the device whose identifier is known
/// and is that of the default device.
pub fn list_entry(name: String, id: Option<String>, default_id: &Option<String>) -> (entry:
    DeviceInfo)
    ensures
        entry.name@ == name@,
        entry.is_default == (id is Some && maybe_text(id) == maybe_text(*default_id)),
{
    let is_default: bool = match (&id, default_id) {
        (Some(a), Some(b)) => *a == *b,
        _ => false,
    };
    DeviceInfo { name, is_default }
}

/// The lower-case form of a text, as std computes it.
pub uninterp spec fn lowercase(s: Seq<char>) -> Seq<char>;

/// `str::to_lowercase` of std: the Unicode lower-case form of the text, which depends
/// on the text alone.
#[verifier::external_body]
fn to_lowercase(s: &str) -> (lower: String)
    ensures
        lower@ == lowercase(s@),
{
    s.to_lowercase()
}

/// `part` stands somewhere in `whole`.
pub open spec fn contains(whole: Seq<char>, part: Seq<char>) -> bool {
    exists|i: int| stands_at(whole, part, i)
}

/// `part` stands in `whole` at `i`.
pub open spec fn stands_at(whole: Seq<char>, part: Seq<char>, i: int) -> bool {
    0 <= i && i + part.len() <= whole.len() && whole.subrange(i, (i + part.len()) as int) == part
}

fn chars_of(s: &str) -> (out: Vec<char>)
    ensures
        out@ == s@,
{
    let n: usize = s.unicode_len();
    let mut out: Vec<char> = Vec::new();
    let mut i: usize = 0;
    while i < n
        invariant
            i <= n,
            n == s@.len(),
            out@ == s@.take(i as int),
        decreases n - i,
    {
        out.push(s.get_char(i));
        i = i + 1;
        assert(out@ =~= s@.take(i as int));
    }
    assert(out@ =~= s@);
    out
}

fn matches_at(whole: &Vec<char>, part: &Vec<char>, i: usize) -> (yes: bool)
    requires
        i + part@.len() <= whole@.len(),
    ensures
        yes == stands_at(whole@, part@, i as int),
{
    let len: usize = whole.len();
    let mut k: usize = 0;
    while k < part.len()
        invariant
            k <= part@.len(),
            len == whole@.len(),
            i + part@.len() <= len,
            forall|j: int| 0 <= j < k ==> whole@[i + j] == part@[j],
        decreases part@.len() - k,
    {
        if whole[i + k] != part[k] {
            assert(whole@.subrange(i as int, i + part@.len())[k as int] != part@[k as int]);
            return false;
        }
        k = k + 1;
    }
    assert(whole@.subrange(i as int, i + part@.len()) =~= part@);
    true
}

/// `part` stands somewhere in `whole`.
pub fn text_contains(whole: &str, part: &str) -> (yes: bool)
    ensures
        yes == contains(whole@, part@),
{
    let w: Vec<char> = chars_of(whole);
    let p: Vec<char> = chars_of(part);
    if p.len() > w.len() {
        return false;
    }
    let last: usize = w.len() - p.len();
    let mut i: usize = 0;
    while i <= last
        invariant
            i <= last + 1,
            last + p@.len() == w@.len(),
            w@ == whole@,
            p@ == part@,
            forall|j: int| 0 <= j < i ==> !stands_at(whole@, part@, j),
        decreases last + 1 - i,
    {
        if matches_at(&w, &p, i) {
            return true;
        }
        if i == last {
            assert(!contains(whole@, part@));
            return false;
        }
        i = i + 1;
    }
    false
}

/// What a [`DeviceSearch`] stands for.
#[verifier::ext_equal]
pub struct SearchModel {
    pub wanted: Seq<char>,
    /// The names looked at so far.
    pub names: Seq<Seq<char>>,
    /// Which of them contain the wanted one, but for case.
    pub fuzzy: Seq<int>,
}

impl SearchModel {
    /// One more name, with the wanted name in it or not, but for case.
    pub open spec fn looked_at(self, name: Seq<char>, similar: bool) -> SearchModel {
        SearchModel {
            names: self.names.push(name),
            fuzzy: if similar {
                self.fuzzy.push(self.names.len() as int)
            } else {
                self.fuzzy
            },
            ..self
        }
    }

    /// The names that contain the wanted one, but for case.
    pub open spec fn similar_names(self) -> Seq<Seq<char>> {
        self.fuzzy.map_values(|i: int| self.names[i])
    }

    /// Every index is one of a name.
    pub open spec fn wf(self) -> bool {
        &&& self.names.len() <= u32::MAX
        &&& forall|k: int| 0 <= k < self.fuzzy.len() ==> 0 <= #[trigger] self.fuzzy[k]
            < self.names.len()
    }

    /// Why none of the names will do.
    pub open spec fn complaint(self, kind: EndpointKind) -> Seq<char> {
        if self.fuzzy.len() == 0 {
            "no "@ + kind.words() + " device matches \""@ + self.wanted + "\". Available: "@
                + text::joined(self.names, ", "@)
        } else {
            "\""@ + self.wanted + "\" matches several "@ + kind.words() + " devices ("@
                + text::joined(self.similar_names(), ", "@) + "); use the full name"@
        }
    }
}

/// Resolves a configured device name. Exact friendly-name match wins; failing
/// that a unique case-insensitive substring match, so an operator can write
/// `CABLE Input` instead of `CABLE Input (VB-Audio Virtual Cable)`. Ambiguous
/// or missing names produce an error that lists what is actually there.
pub struct DeviceSearch {
    wanted: String,
    names: Vec<String>,
    fuzzy: Vec<u32>,
}

impl View for DeviceSearch {
    type V = SearchModel;

    closed spec fn view(&self) -> SearchModel {
        SearchModel {
            wanted: self.wanted@,
            names: text::texts(self.names@),
            fuzzy: self.fuzzy@.map_values(|i: u32| i as int),
        }
    }
}

impl DeviceSearch {
    /// A search for `wanted`.
    pub fn new(wanted: &str) -> (s: Self)
        ensures
            s@ == (SearchModel { wanted: wanted@, names: Seq::empty(), fuzzy: Seq::empty() }),
            s@.wf(),
    {
        let s = DeviceSearch {
            wanted: wanted.to_owned(),
            names: Vec::new(),
            fuzzy: Vec::new(),
        };
        assert(s@ =~= (SearchModel { wanted: wanted@, names: Seq::empty(), fuzzy: Seq::empty() }));
        s
    }

    /// Looks at the next device. True if it is the wanted one, name and all: the
    /// search is over.
    pub fn offer(&mut self, friendly: &str) -> (exact: bool)
        requires
            old(self)@.wf(),
            old(self)@.names.len() < u32::MAX,
        ensures
            exact == (friendly@ == old(self)@.wanted),
            final(self)@.wf(),
            final(self)@ == if exact {
                old(self)@
            } else {
                old(self)@.looked_at(
                    friendly@,
                    contains(lowercase(friendly@), lowercase(old(self)@.wanted)),
                )
            },
    {
        let lower: String = to_lowercase(friendly);
        let lower_wanted: String = to_lowercase(self.wanted.as_str());
        self.offer_lowered(friendly, lower.as_str(), lower_wanted.as_str())
    }

    /// Looks at the next device, given its name and the wanted one in lower case.
    pub fn offer_lowered(&mut self, friendly: &str, lower: &str, lower_wanted: &str) -> (exact:
        bool)
        requires
            old(self)@.wf(),
            old(self)@.names.len() < u32::MAX,
        ensures
            exact == (friendly@ == old(self)@.wanted),
            final(self)@.wf(),
            final(self)@ == if exact {
                old(self)@
            } else {
                old(self)@.looked_at(friendly@, contains(lower@, lower_wanted@))
            },
    {
        let name: String = friendly.to_owned();
        if name == self.wanted {
            return true;
        }
        let ghost before = self@;
        if text_contains(lower, lower_wanted) {
            self.fuzzy.push(self.names.len() as u32);
        }
        self.names.push(name);
        proof {
            assert(self@.names =~= before.names.push(friendly@));
            assert(self@ =~= before.looked_at(friendly@, contains(lower@, lower_wanted@)));
            assert forall|k: int| 0 <= k < self@.fuzzy.len() implies 0
                <= #[trigger] self@.fuzzy[k] < self@.names.len() by {
                if k < before.fuzzy.len() {
                    assert(self@.fuzzy[k] == before.fuzzy[k]);
                }
            }
        }
        false
    }

    /// The device to take after all have been looked at and none is the wanted one,
    /// name and all.
    pub fn finish(&self, kind: EndpointKind) -> (result: Result<u32, String>)
        requires
            self@.wf(),
        ensures
            match result {
                Ok(i) => self@.fuzzy.len() == 1 && i == self@.fuzzy[0] && i < self@.names.len(),
                Err(message) => self@.fuzzy.len() != 1 && message@ == self@.complaint(kind),
            },
    {
        if self.fuzzy.len() == 1 {
            assert(self@.fuzzy[0] == self.fuzzy@[0] as int);
            return Ok(self.fuzzy[0]);
        }
        let mut message: String = String::new();
        if self.fuzzy.len() == 0 {
            message.append("no ");
            message.append(kind.name());
            message.append(" device matches \"");
            message.append(self.wanted.as_str());
            message.append("\". Available: ");
            message.append(text::join(&self.names, ", ").as_str());
        } else {
            message.append("\"");
            message.append(self.wanted.as_str());
            message.append("\" matches several ");
            message.append(kind.name());
            message.append(" devices (");
            message.append(self.similar().as_str());
            message.append("); use the full name");
        }
        assert(message@ =~= self@.complaint(kind));
        Err(message)
    }

    /// The name of device `i`.
    pub fn name(&self, i: u32) -> (name: &str)
        requires
            i < self@.names.len(),
        ensures
            name@ == self@.names[i as int],
    {
        self.names[i as usize].as_str()
    }

    /// The names that contain the wanted one, but for case, with commas between.
    fn similar(&self) -> (list: String)
        requires
            self@.wf(),
        ensures
            list@ == text::joined(self@.similar_names(), ", "@),
    {
        let mut list: Vec<String> = Vec::new();
        let mut k: usize = 0;
        while k < self.fuzzy.len()
            invariant
                k <= self.fuzzy@.len(),
                self@.wf(),
                text::texts(list@) == self@.similar_names().take(k as int),
            decreases self.fuzzy@.len() - k,
        {
            assert(self@.fuzzy[k as int] == self.fuzzy@[k as int] as int);
            let i: usize = self.fuzzy[k] as usize;
            let ghost before = list@;
            list.push(self.names[i].as_str().to_owned());
            k = k + 1;
            proof {
                let all = self@.similar_names();
                assert(list@.last()@ == self@.names[i as int]);
                assert(text::texts(list@) =~= text::texts(before).push(self@.names[i as int]));
                assert(all.take(k as int) =~= all.take(k - 1).push(all[k - 1]));
            }
        }
        assert(self@.similar_names().take(k as int) =~= self@.similar_names());
        text::join(&list, ", ")
    }
}

/// What can happen to an audio thread.
#[derive(Clone, Copy, PartialEq, Eq, Debug, Structural)]
pub enum EndpointEvent {
    /// The endpoint did not open, or was lost.
    Failed,
    /// The endpoint was let go in good order.
    Finished,
    /// The endpoint's event came in time.
    Signalled,
    /// The endpoint's event did not come in time.
    TimedOut,
    /// The network task took a packet.
    Delivered,
    /// The network task is behind.
    QueueFull,
    /// The network task is gone.
    QueueClosed,
    /// The jitter buffer's lock is poisoned.
    BufferLost,
}

/// What an audio thread does next.
#[derive(Clone, Copy, PartialEq, Eq, Debug, Structural)]
pub enum EndpointStep {
    /// Reset the jitter buffer where that is due, wait a moment and open the endpoint
    /// again, with a warning or without.
    Retry { warn: bool, reset: bool },
    /// Open the endpoint again, unless the thread was asked to end.
    Again,
    /// Go on.
    Run,
    /// Go on; this packet is lost.
    DropPacket,
    /// Let go of the endpoint in good order.
    Finish,
    /// Let go of the endpoint: it is declared dead.
    GiveUp,
}

/// What the thread of `stream` does next, whether its outage is announced then, and how
/// many event timeouts in a row it has seen.
pub open spec fn endpoint_step_of(
    stream: StartStep,
    announced: bool,
    timeouts: nat,
    event: EndpointEvent,
) -> (bool, nat, EndpointStep) {
    match event {
        EndpointEvent::Failed => (
            true,
            0,
            EndpointStep::Retry { warn: !announced, reset: stream == StartStep::Render },
        ),
        EndpointEvent::Finished => (false, 0, EndpointStep::Again),
        EndpointEvent::Signalled => (announced, 0, EndpointStep::Run),
        EndpointEvent::TimedOut => (
            announced,
            timeouts + 1,
            if timeouts + 1 >= MAX_EVENT_TIMEOUTS {
                EndpointStep::GiveUp
            } else {
                EndpointStep::Run
            },
        ),
        EndpointEvent::Delivered => (announced, timeouts, EndpointStep::Run),
        EndpointEvent::QueueFull => (announced, timeouts, EndpointStep::DropPacket),
        EndpointEvent::QueueClosed => (announced, timeouts, EndpointStep::Finish),
        EndpointEvent::BufferLost => (announced, timeouts, EndpointStep::GiveUp),
    }
}

/// What the thread of `stream` does next. An endpoint that opens anew starts with no
/// timeouts.
pub fn next_step(
    o: &mut Outage,
    watch: &mut RenderWatch,
    stream: StartStep,
    event: EndpointEvent,
) -> (step: EndpointStep)
    requires
        old(watch).in_a_row() < MAX_EVENT_TIMEOUTS || event != EndpointEvent::TimedOut,
    ensures
        (final(o).is_announced(), final(watch).in_a_row(), step) == endpoint_step_of(
            stream,
            old(o).is_announced(),
            old(watch).in_a_row(),
            event,
        ),
{
    match event {
        EndpointEvent::Failed => {
            watch.signalled();
            EndpointStep::Retry {
                warn: o.failed(),
                reset: match stream {
                    StartStep::Render => true,
                    StartStep::Capture => false,
                },
            }
        },
        EndpointEvent::Finished => {
            watch.signalled();
            o.worked();
            EndpointStep::Again
        },
        EndpointEvent::Signalled => {
            watch.signalled();
            EndpointStep::Run
        },
        EndpointEvent::TimedOut => {
            if watch.timed_out() {
                EndpointStep::GiveUp
            } else {
                EndpointStep::Run
            }
        },
        EndpointEvent::Delivered => EndpointStep::Run,
        EndpointEvent::QueueFull => EndpointStep::DropPacket,
        EndpointEvent::QueueClosed => EndpointStep::Finish,
        EndpointEvent::BufferLost => EndpointStep::GiveUp,
    }
}

/// Notices when a render endpoint stops signalling.
pub struct RenderWatch {
    timeouts: u32,
}

impl RenderWatch {
    /// Event timeouts since the last event.
    pub closed spec fn in_a_row(self) -> nat {
        self.timeouts as nat
    }

    /// Nothing missed yet.
    pub fn new() -> (w: Self)
        ensures
            w.in_a_row() == 0,
    {
        RenderWatch { timeouts: 0 }
    }

    /// The endpoint signalled.
    pub fn signalled(&mut self)
        ensures
            final(self).in_a_row() == 0,
    {
        self.timeouts = 0;
    }

    /// The endpoint did not signal in time. True once it has to be declared dead.
    pub fn timed_out(&mut self) -> (dead: bool)
        requires
            old(self).in_a_row() < MAX_EVENT_TIMEOUTS,
        ensures
            final(self).in_a_row() == old(self).in_a_row() + 1,
            dead == (final(self).in_a_row() >= MAX_EVENT_TIMEOUTS),
    {
        self.timeouts = self.timeouts + 1;
        self.timeouts >= MAX_EVENT_TIMEOUTS
    }

    /// What the log says of a dead endpoint.
    pub fn obituary(friendly: &str) -> (message: String)
        ensures
            message@ == "\""@ + friendly@ + "\" stopped signalling; reopening"@,
    {
        let mut message: String = "\"".to_owned();
        message.append(friendly);
        message.append("\" stopped signalling; reopening");
        message
    }
}

/// `n` samples of silence.
pub open spec fn silence(n: nat) -> Seq<i16> {
    Seq::new(n, |j: int| 0i16)
}

/// A packet of samples, or none.
pub open spec fn maybe_samples(pcm: Option<Vec<i16>>) -> Option<Seq<i16>> {
    match pcm {
        None => None,
        Some(data) => Some(data@),
    }
}

/// What a [`CapturePacer`] stands for.
#[verifier::ext_equal]
pub struct PacerModel {
    /// Samples in a packet.
    pub packet_samples: nat,
    pub channels: nat,
    /// Duration of a packet, in nanoseconds.
    pub frame: nat,
    /// Captured samples that have not been sent.
    pub queue: Seq<i16>,
    /// When the next packet is due.
    pub next_due: nat,
}

impl PacerModel {
    /// Capture of a stream of format `f` that starts at `now`.
    pub open spec fn fresh(f: Format, now: u64) -> PacerModel {
        let frame = f.frame_ms as nat * NANOS_PER_MS as nat;
        PacerModel {
            packet_samples: f.spec_samples(),
            channels: f.channels as nat,
            frame,
            queue: Seq::empty(),
            next_due: now as nat + frame,
        }
    }

    /// What holds of every schedule.
    pub open spec fn wf(self) -> bool {
        &&& self.frame <= 255 * NANOS_PER_MS
        &&& self.next_due <= LAST_MOMENT + self.frame
        &&& self.packet_samples * CAPTURE_SLACK_PACKETS * 4 <= isize::MAX
    }

    /// `frames` captured frames put at the end, as zeros if the device says that they
    /// are silent.
    pub open spec fn absorbed(self, data: Seq<i16>, frames: nat, silent: bool) -> PacerModel {
        let n = frames * self.channels;
        PacerModel {
            queue: self.queue + if silent {
                silence(n)
            } else {
                data.take(n as int)
            },
            ..self
        }
    }

    /// Samples past the slack.
    pub open spec fn excess(self) -> nat {
        let most = self.packet_samples * CAPTURE_SLACK_PACKETS as nat;
        if self.queue.len() > most {
            (self.queue.len() - most) as nat
        } else {
            0
        }
    }

    /// The oldest samples past the slack dropped.
    pub open spec fn trimmed(self) -> PacerModel {
        PacerModel { queue: self.queue.skip(self.excess() as int), ..self }
    }

    /// The schedule is too far behind to catch up.
    pub open spec fn slipped(self, now: u64) -> bool {
        now > self.next_due + SCHEDULE_RESET_MS * NANOS_PER_MS
    }

    /// A schedule that was too far behind restarted at `now`.
    pub open spec fn resynced(self, now: u64) -> PacerModel {
        if self.slipped(now) {
            PacerModel { next_due: now as nat, ..self }
        } else {
            self
        }
    }

    /// A whole packet is there.
    pub open spec fn has_packet(self) -> bool {
        self.queue.len() >= self.packet_samples
    }

    /// The next packet: captured samples if there are enough, else silence.
    pub open spec fn packet(self) -> Seq<i16> {
        if self.has_packet() {
            self.queue.take(self.packet_samples as int)
        } else {
            silence(self.packet_samples)
        }
    }

    /// The next packet handed out.
    pub open spec fn emitted(self) -> PacerModel {
        PacerModel {
            queue: if self.has_packet() {
                self.queue.skip(self.packet_samples as int)
            } else {
                self.queue
            },
            next_due: self.next_due + self.frame,
            ..self
        }
    }

    /// The next packet handed out, if it is due.
    pub open spec fn asked(self, now: u64) -> (PacerModel, Option<Seq<i16>>) {
        if now >= self.next_due {
            (self.emitted(), Some(self.packet()))
        } else {
            (self, None)
        }
    }

    /// `n` packets handed out.
    pub open spec fn emitted_times(self, n: nat) -> PacerModel
        decreases n,
    {
        if n == 0 {
            self
        } else {
            self.emitted_times((n - 1) as nat).emitted()
        }
    }
}

/// Emits whole packets of captured playback on a wall-clock schedule, substituting
/// silence when the endpoint has nothing to give.
///
/// A loopback tap simply goes quiet when no application is playing. If we went
/// quiet too, the host's jitter buffer would drain, underrun, and then have to
/// re-warm — adding its full buffer of latency to the first moment of every
/// sound. Sending silence instead keeps the pipeline primed for the cost of
/// 768 kbit/s of zeros on a virtual NIC.
pub struct CapturePacer {
    packet_samples: usize,
    channels: usize,
    frame: u64,
    queue: VecDeque<i16>,
    next_due: u64,
}

impl View for CapturePacer {
    type V = PacerModel;

    closed spec fn view(&self) -> PacerModel {
        PacerModel {
            packet_samples: self.packet_samples as nat,
            channels: self.channels as nat,
            frame: self.frame as nat,
            queue: self.queue@,
            next_due: self.next_due as nat,
        }
    }
}

/// This machine can address the queue of a stream of format `f`: room for twice the
/// slack, two bytes to a sample.
pub open spec fn queue_addressable(f: Format) -> bool {
    f.spec_samples() * CAPTURE_SLACK_PACKETS * 4 <= isize::MAX
}

impl CapturePacer {
    /// True when this machine can address the queue of a stream of format `f`.
    pub fn fits(f: &Format) -> (ok: bool)
        ensures
            ok == queue_addressable(*f),
    {
        proof {
            f.lemma_sizes();
        }
        let samples: u64 = f.frames_per_packet() as u64 * f.channels as u64;
        assert(samples as nat == f.spec_samples());
        let packets: u64 = CAPTURE_SLACK_PACKETS as u64;
        assert(samples * packets <= 0xffff_ffff * 0x3fc) by (nonlinear_arith)
            requires
                samples <= 0xffff_ffff * 0xff,
                packets == 4,
        ;
        let slack: u64 = samples * packets;
        slack * 4 <= isize::MAX as u64
    }

    /// Capture of a stream of format `f` that starts at `now`.
    pub fn new(f: &Format, now: u64) -> (p: Self)
        requires
            queue_addressable(*f),
            now <= LAST_MOMENT,
        ensures
            p@ == PacerModel::fresh(*f, now),
            p@.wf(),
    {
        let packet_samples: usize = f.samples_per_packet();
        let frame: u64 = f.frame_ms as u64 * NANOS_PER_MS;
        CapturePacer {
            packet_samples,
            channels: f.channels as usize,
            frame,
            queue: VecDeque::with_capacity(packet_samples * CAPTURE_SLACK_PACKETS * 2),
            next_due: now + frame,
        }
    }

    /// Takes in `frames` captured frames. Buffers flagged silent carry undefined
    /// samples, so they are taken as zeros.
    pub fn absorb(&mut self, data: &[i16], frames: usize, silent: bool)
        requires
            old(self)@.wf(),
            frames * old(self)@.channels <= usize::MAX,
            !silent ==> frames * old(self)@.channels <= data@.len(),
        ensures
            final(self)@ == old(self)@.absorbed(data@, frames as nat, silent),
            final(self)@.wf(),
    {
        proof {
            vstd::arithmetic::mul::lemma_mul_nonnegative(frames as int, self@.channels as int);
        }
        let n: usize = frames * self.channels;
        let ghost want = if silent {
            silence(n as nat)
        } else {
            data@.take(n as int)
        };
        let mut i: usize = 0;
        while i < n
            invariant
                i <= n,
                !silent ==> n <= data@.len(),
                want == if silent {
                    silence(n as nat)
                } else {
                    data@.take(n as int)
                },
                self@ == (PacerModel {
                    queue: old(self)@.queue + want.take(i as int),
                    ..old(self)@
                }),
            decreases n - i,
        {
            if silent {
                self.queue.push_back(0);
            } else {
                self.queue.push_back(data[i]);
            }
            i = i + 1;
            assert(self.queue@ =~= old(self)@.queue + want.take(i as int));
        }
        assert(want.take(n as int) =~= want);
    }

    /// Past four packets of slack the endpoint is running ahead of our schedule and
    /// the oldest audio is the least useful: drops it, and says how much.
    pub fn trim(&mut self) -> (excess: usize)
        requires
            old(self)@.wf(),
        ensures
            final(self)@ == old(self)@.trimmed(),
            final(self)@.wf(),
            excess as nat == old(self)@.excess(),
    {
        let most: usize = self.packet_samples * CAPTURE_SLACK_PACKETS;
        let excess: usize = if self.queue.len() > most {
            self.queue.len() - most
        } else {
            0
        };
        self.drop_front(excess);
        excess
    }

    fn drop_front(&mut self, n: usize)
        requires
            n <= old(self)@.queue.len(),
        ensures
            final(self)@ == (PacerModel { queue: old(self)@.queue.skip(n as int), ..old(self)@ }),
    {
        let mut i: usize = 0;
        assert(self.queue@ =~= old(self)@.queue.skip(0));
        while i < n
            invariant
                i <= n <= old(self)@.queue.len(),
                self@ == (PacerModel { queue: old(self)@.queue.skip(i as int), ..old(self)@ }),
            decreases n - i,
        {
            let _ = self.queue.pop_front();
            i = i + 1;
            assert(self.queue@ =~= old(self)@.queue.skip(i as int));
        }
    }

    /// Restarts a schedule that has slipped badly, and says whether it had.
    pub fn resync(&mut self, now: u64) -> (slipped: bool)
        requires
            old(self)@.wf(),
            now <= LAST_MOMENT,
        ensures
            slipped == old(self)@.slipped(now),
            final(self)@ == old(self)@.resynced(now),
            final(self)@.wf(),
    {
        if now > self.next_due + SCHEDULE_RESET_MS * NANOS_PER_MS {
            self.next_due = now;
            return true;
        }
        false
    }

    /// The next packet, if it is due.
    pub fn next_packet(&mut self, now: u64) -> (pcm: Option<Vec<i16>>)
        requires
            old(self)@.wf(),
            now <= LAST_MOMENT,
        ensures
            final(self)@.wf(),
            match pcm {
                Some(data) => now >= old(self)@.next_due && data@ == old(self)@.packet()
                    && final(self)@ == old(self)@.emitted(),
                None => now < old(self)@.next_due && final(self)@ == old(self)@,
            },
            (final(self)@, maybe_samples(pcm)) == old(self)@.asked(now),
    {
        if now < self.next_due {
            return None;
        }
        let mut data: Vec<i16> = Vec::new();
        if self.queue.len() >= self.packet_samples {
            let mut i: usize = 0;
            while i < self.packet_samples
                invariant
                    i <= self.packet_samples <= self.queue@.len(),
                    self@ == old(self)@,
                    data@ == self.queue@.take(i as int),
                decreases self.packet_samples - i,
            {
                data.push(self.queue[i]);
                i = i + 1;
                assert(data@ =~= self.queue@.take(i as int));
            }
            self.drop_front(self.packet_samples);
        } else {
            data = vec![0i16;self.packet_samples];
            assert(data@ =~= silence(self.packet_samples as nat));
        }
        self.next_due = self.next_due + self.frame;
        assert(self@ =~= old(self)@.emitted());
        Some(data)
    }
}

/// What is due after `n` packets.
proof fn lemma_schedule(m: PacerModel, n: nat)
    ensures
        m.emitted_times(n).next_due == m.next_due + n * m.frame,
        m.emitted_times(n).frame == m.frame,
        m.emitted_times(n).packet_samples == m.packet_samples,
    decreases n,
{
    if n > 0 {
        lemma_schedule(m, (n - 1) as nat);
        assert((n - 1) * m.frame + m.frame == n * m.frame) by (nonlinear_arith);
    } else {
        assert(0 * m.frame == 0);
    }
}

/// However late the loop wakes up, a burst is short: after the schedule has been
/// looked at, at most 500 ms worth of packets and one more are due at once.
pub proof fn bursts_are_short(m: PacerModel, now: u64, n: nat)
    requires
        m.frame > 0,
        m.resynced(now).emitted_times(n).next_due <= now,
    ensures
        n * m.frame <= SCHEDULE_RESET_MS * NANOS_PER_MS,
{
    lemma_schedule(m.resynced(now), n);
}

/// A schedule that has not slipped keeps its beat: packet `n` is due `n` packet
/// durations after the first, however irregularly the loop wakes up.
pub proof fn the_beat_is_kept(m: PacerModel, n: nat)
    ensures
        m.emitted_times(n).next_due == m.next_due + n * m.frame,
{
    lemma_schedule(m, n);
}

/// Every packet has the full length, whether or not there was something to capture.
pub proof fn packets_are_whole(m: PacerModel)
    ensures
        m.packet().len() == m.packet_samples,
        m.queue.len() == 0 ==> m.packet() == silence(m.packet_samples),
{
    assert(m.queue.len() == 0 ==> m.packet() =~= silence(m.packet_samples));
}

/// What waits never exceeds four packets after a trim, and the newest audio stays.
pub proof fn the_backlog_is_bounded(m: PacerModel)
    ensures
        m.trimmed().queue.len() <= m.packet_samples * CAPTURE_SLACK_PACKETS,
        m.trimmed().queue == m.queue.skip(m.queue.len() - m.trimmed().queue.len()),
{
}

/// `name` contains the wanted name, but for case.
pub open spec fn similar(name: Seq<char>, wanted: Seq<char>) -> bool {
    contains(lowercase(name), lowercase(wanted))
}

/// A search for `wanted` that has looked at all of `names`.
pub open spec fn searched(wanted: Seq<char>, names: Seq<Seq<char>>) -> SearchModel
    decreases names.len(),
{
    if names.len() == 0 {
        SearchModel { wanted, names: Seq::empty(), fuzzy: Seq::empty() }
    } else {
        searched(wanted, names.drop_last()).looked_at(names.last(), similar(names.last(), wanted))
    }
}

/// The similar names are found in order, each once, and none is passed over.
proof fn lemma_searched(wanted: Seq<char>, names: Seq<Seq<char>>)
    ensures
        searched(wanted, names).wanted == wanted,
        searched(wanted, names).names == names,
        forall|k: int|
            0 <= k < searched(wanted, names).fuzzy.len() ==> {
                let i = #[trigger] searched(wanted, names).fuzzy[k];
                0 <= i < names.len() && similar(names[i], wanted)
            },
        forall|j: int, k: int|
            0 <= j < k < searched(wanted, names).fuzzy.len() ==> searched(wanted, names).fuzzy[j]
                < searched(wanted, names).fuzzy[k],
        forall|i: int|
            0 <= i < names.len() && #[trigger] similar(names[i], wanted) ==> searched(
                wanted,
                names,
            ).fuzzy.contains(i),
    decreases names.len(),
{
    let m = searched(wanted, names);
    if names.len() > 0 {
        let front = names.drop_last();
        let before = searched(wanted, front);
        lemma_searched(wanted, front);
        assert(m.names =~= names);
        assert forall|i: int|
            0 <= i < names.len() && #[trigger] similar(names[i], wanted) implies m.fuzzy.contains(
            i,
        ) by {
            if i < front.len() {
                assert(similar(front[i], wanted));
                let k = choose|k: int| 0 <= k < before.fuzzy.len() && before.fuzzy[k] == i;
                assert(m.fuzzy[k] == i);
            } else {
                assert(m.fuzzy.last() == i);
            }
        }
        assert forall|k: int| 0 <= k < m.fuzzy.len() implies {
            let i = #[trigger] m.fuzzy[k];
            0 <= i < names.len() && similar(names[i], wanted)
        } by {
            if k < before.fuzzy.len() {
                assert(m.fuzzy[k] == before.fuzzy[k]);
                assert(names[before.fuzzy[k]] == front[before.fuzzy[k]]);
            }
        }
        assert forall|j: int, k: int| 0 <= j < k < m.fuzzy.len() implies m.fuzzy[j]
            < m.fuzzy[k] by {
            assert(m.fuzzy[j] == before.fuzzy[j]);
            if k < before.fuzzy.len() {
                assert(m.fuzzy[k] == before.fuzzy[k]);
            }
        }
    } else {
        assert(m.names =~= names);
    }
}

/// Where no device has the wanted name, one is taken if and only if it is the only
/// one whose name contains the wanted one, but for case.
pub proof fn a_unique_similar_name_is_found(wanted: Seq<char>, names: Seq<Seq<char>>, i: int)
    requires
        0 <= i < names.len(),
    ensures
        searched(wanted, names).fuzzy == seq![i] <==> (similar(names[i], wanted) && forall|j: int|
            0 <= j < names.len() && j != i ==> !#[trigger] similar(names[j], wanted)),
        searched(wanted, names).fuzzy.len() == 0 <==> forall|j: int|
            0 <= j < names.len() ==> !#[trigger] similar(names[j], wanted),
{
    lemma_searched(wanted, names);
    let fuzzy = searched(wanted, names).fuzzy;
    if fuzzy == seq![i] {
        assert(fuzzy[0] == i);
        assert forall|j: int| 0 <= j < names.len() && j != i implies !#[trigger] similar(
            names[j],
            wanted,
        ) by {
            if similar(names[j], wanted) {
                assert(fuzzy.contains(j));
            }
        }
    }
    if similar(names[i], wanted) && forall|j: int|
        0 <= j < names.len() && j != i ==> !#[trigger] similar(names[j], wanted) {
        assert(fuzzy.contains(i));
        if fuzzy.len() > 1 {
            assert(fuzzy[0] < fuzzy[1]);
            assert(similar(names[fuzzy[0]], wanted) && similar(names[fuzzy[1]], wanted));
        }
        assert(fuzzy =~= seq![i]);
    }
    if fuzzy.len() > 0 {
        assert(similar(names[fuzzy[0]], wanted));
    }
    if fuzzy.len() == 0 {
        assert forall|j: int| 0 <= j < names.len() implies !#[trigger] similar(
            names[j],
            wanted,
        ) by {
            if similar(names[j], wanted) {
                assert(fuzzy.contains(j));
            }
        }
    }
}

} // verus!
