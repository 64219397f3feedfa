//! What the host asks of its sound server.

use crate::format::Format;
use crate::reopen::Outage;
use vstd::prelude::*;

verus! {

/// How libpulse spells "server default" in buffer sizes.
pub const SERVER_DEFAULT: u32 = 0xffff_ffff;

/// One entry of `--list-devices`.
#[derive(Clone, Debug, PartialEq, Eq)]
pub struct DeviceInfo {
    pub name: String,
    pub description: String,
    pub is_default: bool,
}

/// Which way a stream goes.
#[derive(Clone, Copy, PartialEq, Eq, Debug, Structural)]
pub enum StreamKind {
    /// From the microphone.
    Record,
    /// To the speakers.
    Playback,
}

impl StreamKind {
    /// The stream's name in mixers.
    pub open spec fn words(self) -> Seq<char> {
        match self {
            StreamKind::Record => "microphone to VM"@,
            StreamKind::Playback => "playback from VM"@,
        }
    }

    /// The stream's name in mixers.
    pub fn stream_name(self) -> (name: &'static str)
        ensures
            name@ == self.words(),
    {
        match self {
            StreamKind::Record => "microphone to VM",
            StreamKind::Playback => "playback from VM",
        }
    }
}

/// Buffer sizes of a stream, in bytes.
#[derive(Clone, Copy, PartialEq, Eq, Debug, Structural)]
pub struct BufferPlan {
    pub maxlength: u32,
    pub tlength: u32,
    pub prebuf: u32,
    pub minreq: u32,
    pub fragsize: u32,
}

/// The buffer sizes for packets of `payload` bytes.
pub open spec fn plan_of(kind: StreamKind, payload: nat) -> BufferPlan {
    match kind {
        StreamKind::Record => BufferPlan {
            maxlength: SERVER_DEFAULT,
            tlength: SERVER_DEFAULT,
            prebuf: SERVER_DEFAULT,
            minreq: SERVER_DEFAULT,
            fragsize: payload as u32,
        },
        StreamKind::Playback => BufferPlan {
            maxlength: SERVER_DEFAULT,
            tlength: (3 * payload) as u32,
            prebuf: (2 * payload) as u32,
            minreq: payload as u32,
            fragsize: SERVER_DEFAULT,
        },
    }
}

/// The buffer sizes for a stream of format `f`, given whether the sound server takes
/// such a stream at all.
pub fn plan_stream(f: &Format, kind: StreamKind, accepted: bool) -> (result: Result<
    BufferPlan,
    String,
>)
    requires
        3 * f.spec_payload() <= u32::MAX,
    ensures
        match result {
            Ok(plan) => accepted && plan == plan_of(kind, f.spec_payload()),
            Err(message) => !accepted && message@ == "PulseAudio rejects "@ + f.words()
                + " as a sample spec"@,
        },
{
    if !accepted {
        let mut message: String = "PulseAudio rejects ".to_owned();
        message.append(f.to_string().as_str());
        message.append(" as a sample spec");
        return Err(message);
    }
    let bytes: u32 = f.payload_len() as u32;
    Ok(
        match kind {
            StreamKind::Record => BufferPlan {
                maxlength: SERVER_DEFAULT,
                tlength: SERVER_DEFAULT,
                prebuf: SERVER_DEFAULT,
                minreq: SERVER_DEFAULT,
                // One packet per read: the smallest fragment that still avoids a
                // syscall per sample.
                fragsize: bytes,
            },
            StreamKind::Playback => BufferPlan {
                maxlength: SERVER_DEFAULT,
                // Three packets in flight on the device side. Less than this and
                // an ordinary scheduling hiccup underruns the card.
                tlength: bytes * 3,
                prebuf: bytes * 2,
                minreq: bytes,
                fragsize: SERVER_DEFAULT,
            },
        },
    )
}

/// What the log says when a stream does not open.
pub fn open_failure(kind: StreamKind, cause: &str) -> (message: String)
    ensures
        message@ == "opening "@ + kind.words() + ": "@ + cause@,
{
    let mut message: String = "opening ".to_owned();
    message.append(kind.stream_name());
    message.append(": ");
    message.append(cause);
    message
}

/// What can happen to an audio thread.
#[derive(Clone, Copy, PartialEq, Eq, Debug, Structural)]
pub enum StreamEvent {
    /// The device did not open.
    OpenFailed,
    Opened,
    /// The device stopped reading or writing.
    DeviceFailed,
    /// The network task took a packet.
    Delivered,
    /// The network task is behind.
    QueueFull,
    /// The network task is gone.
    QueueClosed,
    /// The jitter buffer's lock is poisoned.
    BufferLost,
}

/// What an audio thread does next.
#[derive(Clone, Copy, PartialEq, Eq, Debug, Structural)]
pub enum StreamStep {
    /// Wait a moment and open the device again, with a warning or without.
    Retry { warn: bool },
    /// Go on with the next packet.
    Run,
    /// Go on with the next packet; this one is lost.
    DropPacket,
    /// Open the device again at once. The jitter buffer is reset first where that is
    /// due: what it holds would be played late.
    Reopen { reset: bool },
    /// End the thread.
    Stop,
}

/// What an audio thread does next, and whether its outage is announced then.
pub open spec fn step_of(kind: StreamKind, announced: bool, event: StreamEvent) -> (
    bool,
    StreamStep,
) {
    match event {
        StreamEvent::OpenFailed => (true, StreamStep::Retry { warn: !announced }),
        StreamEvent::Opened => (false, StreamStep::Run),
        StreamEvent::DeviceFailed => (
            announced,
            StreamStep::Reopen { reset: kind == StreamKind::Playback },
        ),
        StreamEvent::Delivered => (announced, StreamStep::Run),
        // Fresh microphone audio is better dropped than delivered late.
        StreamEvent::QueueFull => (announced, StreamStep::DropPacket),
        StreamEvent::QueueClosed => (announced, StreamStep::Stop),
        // A poisoned lock means the process is going down.
        StreamEvent::BufferLost => (announced, StreamStep::Stop),
    }
}

/// What an audio thread of this kind does next.
pub fn next_step(o: &mut Outage, kind: StreamKind, event: StreamEvent) -> (step: StreamStep)
    ensures
        (final(o).is_announced(), step) == step_of(kind, old(o).is_announced(), event),
{
    match event {
        StreamEvent::OpenFailed => StreamStep::Retry { warn: o.failed() },
        StreamEvent::Opened => {
            o.worked();
            StreamStep::Run
        },
        StreamEvent::DeviceFailed => StreamStep::Reopen {
            reset: match kind {
                StreamKind::Record => false,
                StreamKind::Playback => true,
            },
        },
        StreamEvent::Delivered => StreamStep::Run,
        StreamEvent::QueueFull => StreamStep::DropPacket,
        StreamEvent::QueueClosed => StreamStep::Stop,
        StreamEvent::BufferLost => StreamStep::Stop,
    }
}

/// The same outage is announced once: of two failed opens with nothing in between that
/// opened the device, only the first can warn.
pub proof fn an_outage_warns_once(kind: StreamKind, announced: bool, between: Seq<StreamEvent>)
    requires
        forall|i: int| 0 <= i < between.len() ==> #[trigger] between[i] != StreamEvent::Opened,
    ensures
        step_of(
            kind,
            announced_after(kind, step_of(kind, announced, StreamEvent::OpenFailed).0, between),
            StreamEvent::OpenFailed,
        ).1 == (StreamStep::Retry { warn: false }),
{
    lemma_stays_announced(kind, between);
}

/// Whether an outage is announced after `events`.
pub open spec fn announced_after(
    kind: StreamKind,
    announced: bool,
    events: Seq<StreamEvent>,
) -> bool
    decreases events.len(),
{
    if events.len() == 0 {
        announced
    } else {
        step_of(kind, announced_after(kind, announced, events.drop_last()), events.last()).0
    }
}

proof fn lemma_stays_announced(kind: StreamKind, events: Seq<StreamEvent>)
    requires
        forall|i: int| 0 <= i < events.len() ==> #[trigger] events[i] != StreamEvent::Opened,
    ensures
        announced_after(kind, true, events),
    decreases events.len(),
{
    if events.len() > 0 {
        assert(events.last() == events[events.len() - 1]);
        lemma_stays_announced(kind, events.drop_last());
    }
}

/// A name and a description as the sound server gives them.
pub struct Listed {
    pub name: String,
    pub description: String,
}

/// `entry` is `item` with the default marked.
pub open spec fn marks(entry: DeviceInfo, item: Listed, default_name: Seq<char>) -> bool {
    &&& entry.name@ == item.name@
    &&& entry.description@ == item.description@
    &&& entry.is_default == (item.name@ == default_name)
}

/// The devices that the sound server lists, with the current default marked.
pub fn mark_default(items: &Vec<Listed>, default_name: &String) -> (out: Vec<DeviceInfo>)
    ensures
        out@.len() == items@.len(),
        forall|i: int|
            0 <= i < items@.len() ==> marks(#[trigger] out@[i], items@[i], default_name@),
{
    let mut out: Vec<DeviceInfo> = Vec::new();
    let mut i: usize = 0;
    while i < items.len()
        invariant
            i <= items@.len(),
            out@.len() == i,
            forall|k: int| 0 <= k < i ==> marks(#[trigger] out@[k], items@[k], default_name@),
        decreases items@.len() - i,
    {
        let item: &Listed = &items[i];
        out.push(
            DeviceInfo {
                is_default: item.name == *default_name,
                name: item.name.as_str().to_owned(),
                description: item.description.as_str().to_owned(),
            },
        );
        i = i + 1;
    }
    out
}

} // verus!
