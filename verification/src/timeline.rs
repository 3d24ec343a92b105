//! When the events of a list start, counted in frames of the output.
use crate::events::{port_message, timed, SmafEvent, SmafEventView, TimedEvent};
use crate::waves::{capped, capped_product};
use vstd::prelude::*;

verus! {

/// The lowest rate at which a file is rendered, in Hz.
pub const MIN_SAMPLE_RATE: u32 = 8_000;

/// The rate at which a file is rendered where `requested` is asked for.
pub open spec fn rendered_rate(requested: u32) -> u32 {
    if requested > MIN_SAMPLE_RATE {
        requested
    } else {
        MIN_SAMPLE_RATE
    }
}

/// The rate at which a file is rendered where `requested` is asked for.
pub fn output_rate(requested: u32) -> (rate: u32)
    ensures
        rate == rendered_rate(requested),
{
    if requested > MIN_SAMPLE_RATE {
        requested
    } else {
        MIN_SAMPLE_RATE
    }
}

/// The frame in which a millisecond falls.
pub open spec fn frame_of(time: nat, sample_rate: u32) -> nat {
    capped(time * sample_rate) / 1000
}

/// The first event from `from` on that is not yet due at `frame`.
pub open spec fn first_not_due(
    events: Seq<TimedEvent>,
    sample_rate: u32,
    frame: nat,
    from: nat,
) -> nat
    decreases events.len() - from,
{
    if from >= events.len() || frame_of(events[from as int].0, sample_rate) > frame {
        from
    } else {
        first_not_due(events, sample_rate, frame, from + 1)
    }
}

/// Whether an event is audio that the file itself carries: a sampled wave or a
/// note of an FM voice.
pub open spec fn carries_audio(event: SmafEventView) -> bool {
    event is Wave || event is MaFmNote
}

/// Whether an event is audio that the file itself carries.
///
/// Generic MIDI events represent MA handset-ROM instruments which are not
/// contained in the MMF and must remain on the host's explicit ROM/SF2 fallback
/// path.
pub fn is_embedded_audio(event: &SmafEvent) -> (embedded: bool)
    ensures
        embedded == carries_audio(event@),
{
    match event {
        SmafEvent::Wave { .. } => true,
        SmafEvent::MaFmNote(_) => true,
        _ => false,
    }
}

/// How far the playback of a list of events has come.
#[derive(Clone, Copy, Debug, PartialEq, Eq, Structural)]
pub struct Timeline {
    pub sample_rate: u32,
    pub frame: usize,
    pub next_event: usize,
}

impl Timeline {
    /// The start of a list.
    pub fn new(sample_rate: u32) -> (timeline: Self)
        ensures
            timeline == (Timeline {
                sample_rate: rendered_rate(sample_rate),
                frame: 0,
                next_event: 0,
            }),
    {
        Timeline { sample_rate: output_rate(sample_rate), frame: 0, next_event: 0 }
    }

    /// Starts the list again.
    pub fn restart_cycle(&mut self)
        ensures
            *final(self) == (Timeline { frame: 0, next_event: 0, ..*old(self) }),
    {
        self.frame = 0;
        self.next_event = 0;
    }

    /// Starts the events that are due: those from the returned place up to the
    /// next event.
    pub fn start_due(&mut self, events: &[(usize, SmafEvent)]) -> (from: usize)
        ensures
            from == old(self).next_event,
            *final(self) == (Timeline {
                next_event: first_not_due(
                    timed(events@),
                    old(self).sample_rate,
                    old(self).frame as nat,
                    old(self).next_event as nat,
                ) as usize,
                ..*old(self)
            }),
            final(self).next_event >= from,
            final(self).next_event <= events.len() || final(self).next_event == from,
            forall|i: int|
                from <= i < final(self).next_event ==> ({
                    let scaled = #[trigger] events[i].0 * old(self).sample_rate;
                    scaled < 1000 * (old(self).frame + 1) || scaled > usize::MAX
                }),
            from <= events.len() && final(self).next_event < events.len()
                ==> events[final(self).next_event as int].0 * old(self).sample_rate >= 1000 * (old(
                self,
            ).frame + 1),
    {
        let from = self.next_event;
        let ghost views = timed(events@);
        let ghost (rate, frame) = (self.sample_rate, self.frame as nat);
        while self.next_event < events.len()
            invariant
                views == timed(events@),
                rate == old(self).sample_rate,
                frame == old(self).frame,
                from == old(self).next_event,
                self.sample_rate == rate,
                self.frame == frame,
                from <= self.next_event,
                self.next_event <= events.len() || self.next_event == from,
                forall|i: int|
                    from <= i < self.next_event ==> ({
                        let scaled = #[trigger] events[i].0 * rate;
                        scaled < 1000 * (frame + 1) || scaled > usize::MAX
                    }),
                first_not_due(views, rate, frame, from as nat) == first_not_due(
                    views,
                    rate,
                    frame,
                    self.next_event as nat,
                ),
            decreases events.len() - self.next_event,
        {
            let time = events[self.next_event].0;
            assert(views[self.next_event as int].0 == time);
            let event_frame = capped_product(time, self.sample_rate as usize) / 1000;
            if event_frame > self.frame {
                return from;
            }
            self.next_event += 1;
        }
        from
    }

    /// Whether nothing is left: every event has started and no voice sounds.
    pub fn is_over(&self, events: usize, voices: usize) -> (over: bool)
        ensures
            over == (self.next_event == events && voices == 0),
    {
        self.next_event == events && voices == 0
    }

    /// Goes on to the next frame.
    pub fn advance(&mut self)
        ensures
            *final(self) == (Timeline {
                frame: capped(old(self).frame + 1) as usize,
                ..*old(self)
            }),
            old(self).frame < usize::MAX ==> final(self).frame == old(self).frame + 1,
            old(self).frame == usize::MAX ==> final(self).frame == usize::MAX,
    {
        self.frame = self.frame.saturating_add(1);
    }
}

/// Where no event is before its predecessor, the events that have started are
/// exactly those that are due.
pub proof fn law_due_events_start(
    events: Seq<TimedEvent>,
    sample_rate: u32,
    frame: nat,
    from: nat,
    place: int,
)
    requires
        from <= events.len(),
        forall|i: int, j: int| 0 <= i <= j < events.len() ==> events[i].0 <= events[j].0,
        forall|i: int| 0 <= i < from ==> frame_of(#[trigger] events[i].0, sample_rate) <= frame,
        0 <= place < events.len(),
    ensures
        frame_of(events[place].0, sample_rate) <= frame <==> place < first_not_due(
            events,
            sample_rate,
            frame,
            from,
        ),
    decreases events.len() - from,
{
    if from >= events.len() {
    } else if frame_of(events[from as int].0, sample_rate) > frame {
        if place >= from {
            assert(events[from as int].0 <= events[place].0);
            lemma_frame_of(events[from as int].0, events[place].0, sample_rate);
        }
    } else {
        law_due_events_start(events, sample_rate, frame, from + 1, place);
    }
}

/// A later millisecond falls in no earlier frame.
pub proof fn lemma_frame_of(earlier: nat, later: nat, sample_rate: u32)
    requires
        earlier <= later,
    ensures
        frame_of(earlier, sample_rate) <= frame_of(later, sample_rate),
{
    assert(earlier * sample_rate <= later * sample_rate) by (nonlinear_arith)
        requires
            earlier <= later,
    ;
}

/// A file is rendered at the rate that is asked for, and at 8000 Hz where that is less.
pub proof fn law_rendered_rates(requested: u32)
    ensures
        rendered_rate(requested) >= 8000,
        rendered_rate(requested) >= requested,
        rendered_rate(requested) == requested || rendered_rate(requested) == 8000,
{
}

/// The frame in which an event falls depends on the rate: where no event is before its
/// predecessor and the products can be counted, the events that have started at a frame
/// are those whose milliseconds times the rate are below a thousand times the frame
/// behind it.  So one second after the start is the frame numbered like the rate.
pub proof fn law_events_start_at_their_rate(
    events: Seq<TimedEvent>,
    sample_rate: u32,
    frame: nat,
    place: int,
)
    requires
        forall|i: int, j: int| 0 <= i <= j < events.len() ==> events[i].0 <= events[j].0,
        0 <= place < events.len(),
        events[place].0 * sample_rate <= usize::MAX,
    ensures
        place < first_not_due(events, sample_rate, frame, 0) <==> events[place].0 * sample_rate
            < 1000 * (frame + 1),
{
    law_due_events_start(events, sample_rate, frame, 0, place);
}

/// The frame of a millisecond: a thousand times the frame is at most the milliseconds
/// times the rate, a thousand times the next frame is more.
pub proof fn law_frames_of_milliseconds(time: nat, sample_rate: u32)
    requires
        time * sample_rate <= usize::MAX,
    ensures
        1000 * frame_of(time, sample_rate) <= time * sample_rate < 1000 * (frame_of(
            time,
            sample_rate,
        ) + 1),
{
    assert(time * sample_rate >= 0) by (nonlinear_arith);
}

/// What carries audio of its own needs no MIDI port, and only the end marker is neither.
pub proof fn law_audio_needs_no_port(event: SmafEventView)
    ensures
        carries_audio(event) <==> port_message(event) is None && !(event is End),
{
}

} // verus!
