//! What holds of captured playback over a whole run of its schedule.

use crate::format::Format;
use crate::vm::audio;
use vstd::prelude::*;

verus! {

/// Something that happens to a schedule of captured playback.
pub enum PacerEvent {
    /// Frames were captured, silent ones or not.
    Absorbed { data: Seq<i16>, frames: nat, silent: bool },
    /// A packet is asked for.
    Asked { now: u64 },
    /// The schedule is looked at.
    Checked { now: u64 },
    /// What waits is cut back to the slack.
    Trimmed,
}

/// The schedule after one event.
pub open spec fn next(m: audio::PacerModel, e: PacerEvent) -> audio::PacerModel {
    match e {
        PacerEvent::Absorbed { data, frames, silent } => m.absorbed(data, frames, silent),
        PacerEvent::Asked { now } => m.asked(now).0,
        PacerEvent::Checked { now } => m.resynced(now),
        PacerEvent::Trimmed => m.trimmed(),
    }
}

/// The schedule after `events`.
pub open spec fn after(m: audio::PacerModel, events: Seq<PacerEvent>) -> audio::PacerModel
    decreases events.len(),
{
    if events.len() == 0 {
        m
    } else {
        next(after(m, events.drop_last()), events.last())
    }
}

/// The samples that `e` brings in.
pub open spec fn brought(m: audio::PacerModel, e: PacerEvent) -> Seq<i16> {
    match e {
        PacerEvent::Absorbed { data, frames, silent } => if silent {
            Seq::new(frames * m.channels, |k: int| 0i16)
        } else {
            data.take((frames * m.channels) as int)
        },
        _ => Seq::empty(),
    }
}

/// The captured samples that `e` hands out: the packet, if enough waited to fill it.
pub open spec fn handed(m: audio::PacerModel, e: PacerEvent) -> Seq<i16> {
    match e {
        PacerEvent::Asked { now } => match m.asked(now).1 {
            Some(pcm) => if m.queue.len() >= m.packet_samples {
                pcm
            } else {
                Seq::empty()
            },
            None => Seq::empty(),
        },
        _ => Seq::empty(),
    }
}

/// All samples that `events` bring in, in order.
pub open spec fn all_brought(m: audio::PacerModel, events: Seq<PacerEvent>) -> Seq<i16>
    decreases events.len(),
{
    if events.len() == 0 {
        Seq::empty()
    } else {
        all_brought(m, events.drop_last()) + brought(m, events.last())
    }
}

/// All captured samples that `events` hand out, in order.
pub open spec fn all_handed(m: audio::PacerModel, events: Seq<PacerEvent>) -> Seq<i16>
    decreases events.len(),
{
    if events.len() == 0 {
        Seq::empty()
    } else {
        all_handed(m, events.drop_last()) + handed(after(m, events.drop_last()), events.last())
    }
}

/// A schedule of format `f` has packets of the format's length and duration, nothing
/// waits yet, and the first packet is due one duration after the start.
pub proof fn a_schedule_starts_empty(f: Format, now: u64)
    ensures
        ({
            let m = audio::PacerModel::fresh(f, now);
            &&& m.queue.len() == 0
            &&& m.channels == f.channels
            &&& m.packet_samples == ((f.rate * f.frame_ms) / 1000) * f.channels
            &&& m.frame == f.frame_ms * 1_000_000
            &&& m.next_due == now + f.frame_ms * 1_000_000
        }),
{
}

/// A packet is handed out if and only if it is due. It has the full length. If enough
/// waits to fill it, it is the oldest of that, and the rest stays in order; if less waits,
/// it is silence, and what waits stays as it is.
pub proof fn a_packet_takes_all_or_nothing(m: audio::PacerModel, now: u64)
    ensures
        m.asked(now).1 is Some <==> now >= m.next_due,
        m.asked(now).1 is None ==> m.asked(now).0 == m,
        m.asked(now).1 matches Some(pcm) ==> {
            &&& pcm.len() == m.packet_samples
            &&& m.queue.len() >= m.packet_samples ==> pcm + m.asked(now).0.queue == m.queue
            &&& m.queue.len() < m.packet_samples ==> m.asked(now).0.queue == m.queue && forall|
                k: int,
            |
                0 <= k < pcm.len() ==> #[trigger] pcm[k] == 0
            &&& m.asked(now).0.next_due == m.next_due + m.frame
        },
{
    if now >= m.next_due && m.queue.len() >= m.packet_samples {
        assert(m.asked(now).1->Some_0 + m.asked(now).0.queue =~= m.queue);
    }
}

/// No event changes the length and duration of a packet. The next packet becomes due one
/// duration later when one is handed out, and is due at once when the schedule is found
/// more than half a second behind; nothing else moves the schedule.
pub proof fn what_moves_the_schedule(m: audio::PacerModel, e: PacerEvent)
    ensures
        next(m, e).packet_samples == m.packet_samples,
        next(m, e).channels == m.channels,
        next(m, e).frame == m.frame,
        next(m, e).next_due == match e {
            PacerEvent::Asked { now } => if now >= m.next_due {
                m.next_due + m.frame
            } else {
                m.next_due
            },
            PacerEvent::Checked { now } => if now > m.next_due + 500_000_000 {
                now as nat
            } else {
                m.next_due
            },
            _ => m.next_due,
        },
{
}

/// Looking at the schedule leaves alone what waits, and says whether it had slipped by
/// more than half a second.
pub proof fn a_look_drops_nothing(m: audio::PacerModel, now: u64)
    ensures
        m.resynced(now).queue == m.queue,
        m.slipped(now) <==> now > m.next_due + 500_000_000,
        !m.slipped(now) ==> m.resynced(now) == m,
{
}

/// A trim keeps the newest four packets' worth of what waits, all of it if there is no
/// more, and says how much it dropped.
pub proof fn a_trim_keeps_the_newest(m: audio::PacerModel)
    ensures
        m.queue.len() <= 4 * m.packet_samples ==> m.trimmed() == m && m.excess() == 0,
        m.queue.len() > 4 * m.packet_samples ==> {
            &&& m.trimmed().queue.len() == 4 * m.packet_samples
            &&& m.queue == m.queue.take(m.excess() as int) + m.trimmed().queue
            &&& m.excess() == m.queue.len() - 4 * m.packet_samples
        },
{
    assert(m.packet_samples * 4 == 4 * m.packet_samples);
    if m.queue.len() <= 4 * m.packet_samples {
        assert(m.queue.skip(0) =~= m.queue);
    } else {
        assert(m.queue =~= m.queue.take(m.excess() as int) + m.trimmed().queue);
    }
}

proof fn lemma_sizes_stay(m: audio::PacerModel, events: Seq<PacerEvent>)
    ensures
        after(m, events).packet_samples == m.packet_samples,
        after(m, events).channels == m.channels,
        after(m, events).frame == m.frame,
    decreases events.len(),
{
    if events.len() > 0 {
        lemma_sizes_stay(m, events.drop_last());
        what_moves_the_schedule(after(m, events.drop_last()), events.last());
    }
}

/// Captured playback is neither lost, doubled nor reordered: over any run without a trim,
/// the captured packets that were handed out and what still waits are together everything
/// that waited before and everything that was captured since, in order.
pub proof fn nothing_captured_is_lost(m: audio::PacerModel, events: Seq<PacerEvent>)
    requires
        forall|i: int| 0 <= i < events.len() ==> !(#[trigger] events[i] is Trimmed),
        forall|i: int|
            0 <= i < events.len() ==> (#[trigger] events[i] matches PacerEvent::Absorbed {
                data,
                frames,
                silent,
            } ==> silent || frames * m.channels <= data.len()),
    ensures
        all_handed(m, events) + after(m, events).queue == m.queue + all_brought(m, events),
    decreases events.len(),
{
    if events.len() == 0 {
        assert(all_handed(m, events) + m.queue =~= m.queue + all_brought(m, events));
    } else {
        let front = events.drop_last();
        let e = events.last();
        assert(e == events[events.len() - 1]);
        assert forall|i: int| 0 <= i < front.len() implies !(#[trigger] front[i] is Trimmed) by {
            assert(front[i] == events[i]);
        }
        assert forall|i: int| 0 <= i < front.len() implies (
        #[trigger] front[i] matches PacerEvent::Absorbed { data, frames, silent } ==> silent
            || frames * m.channels <= data.len()) by {
            assert(front[i] == events[i]);
        }
        nothing_captured_is_lost(m, front);
        lemma_sizes_stay(m, front);
        let before = after(m, front);
        match e {
            PacerEvent::Absorbed { data, frames, silent } => {
                assert(next(before, e).queue =~= before.queue + brought(m, e));
            },
            PacerEvent::Asked { now } => {
                a_packet_takes_all_or_nothing(before, now);
                assert(handed(before, e) + next(before, e).queue =~= before.queue);
            },
            _ => {},
        }
        assert(handed(before, e) + next(before, e).queue =~= before.queue + brought(m, e));
        assert(all_handed(m, events) + next(before, e).queue =~= all_handed(m, front) + (handed(
            before,
            e,
        ) + next(before, e).queue));
        assert((all_handed(m, front) + before.queue) + brought(m, e) =~= all_handed(m, front) + (
        before.queue + brought(m, e)));
        assert(m.queue + all_brought(m, events) =~= (m.queue + all_brought(m, front)) + brought(
            m,
            e,
        ));
    }
}

} // verus!
