//! Playback events.
use crate::ma_voice::MaFmNote;
use vstd::prelude::*;

verus! {

/// Loudness and position with which a wave sounds.
#[derive(Clone, Copy, Debug, PartialEq, Eq, Structural)]
pub struct WaveDynamics {
    pub velocity: u8,
    pub volume: u8,
    pub expression: u8,
    pub pan: Option<u8>,
}

impl WaveDynamics {
    /// Full loudness, no explicit position.
    pub fn unity() -> (dynamics: Self)
        ensures
            dynamics == (WaveDynamics { velocity: 127, volume: 127, expression: 127, pan: None }),
    {
        Self { velocity: 127, volume: 127, expression: 127, pan: None }
    }
}

/// Something to be played at a point in time.
#[derive(Clone, Debug, PartialEq)]
#[allow(inconsistent_fields)]
pub enum SmafEvent {
    Wave { channels: u8, sampling_rate: u32, data: Vec<i16>, dynamics: WaveDynamics },
    MaFmNote(MaFmNote),
    MidiNoteOn { channel: u8, note: u8, velocity: u8 },
    MidiNoteOff { channel: u8, note: u8, velocity: u8 },
    MidiProgramChange { channel: u8, program: u8 },
    MidiControlChange { channel: u8, control: u8, value: u8 },
    MidiPitchBend { channel: u8, value: u16 },
    MidiSysEx(Vec<u8>),
    End,
}

/// An event with its lists as sequences.
#[allow(inconsistent_fields)]
pub enum SmafEventView {
    Wave { channels: u8, sampling_rate: u32, data: Seq<i16>, dynamics: WaveDynamics },
    MaFmNote(MaFmNote),
    MidiNoteOn { channel: u8, note: u8, velocity: u8 },
    MidiNoteOff { channel: u8, note: u8, velocity: u8 },
    MidiProgramChange { channel: u8, program: u8 },
    MidiControlChange { channel: u8, control: u8, value: u8 },
    MidiPitchBend { channel: u8, value: u16 },
    MidiSysEx(Seq<u8>),
    End,
}

impl View for SmafEvent {
    type V = SmafEventView;

    open spec fn view(&self) -> SmafEventView {
        match *self {
            SmafEvent::Wave { channels, sampling_rate, data, dynamics } => SmafEventView::Wave {
                channels,
                sampling_rate,
                data: data@,
                dynamics,
            },
            SmafEvent::MaFmNote(note) => SmafEventView::MaFmNote(note),
            SmafEvent::MidiNoteOn { channel, note, velocity } => SmafEventView::MidiNoteOn {
                channel,
                note,
                velocity,
            },
            SmafEvent::MidiNoteOff { channel, note, velocity } => SmafEventView::MidiNoteOff {
                channel,
                note,
                velocity,
            },
            SmafEvent::MidiProgramChange { channel, program } => SmafEventView::MidiProgramChange {
                channel,
                program,
            },
            SmafEvent::MidiControlChange {
                channel,
                control,
                value,
            } => SmafEventView::MidiControlChange { channel, control, value },
            SmafEvent::MidiPitchBend { channel, value } => SmafEventView::MidiPitchBend {
                channel,
                value,
            },
            SmafEvent::MidiSysEx(data) => SmafEventView::MidiSysEx(data@),
            SmafEvent::End => SmafEventView::End,
        }
    }
}

/// An event and the millisecond at which it is due.
pub type TimedEvent = (nat, SmafEventView);

/// A list of timed events as a mathematical sequence.
pub open spec fn timed(events: Seq<(usize, SmafEvent)>) -> Seq<TimedEvent> {
    events.map_values(|event: (usize, SmafEvent)| (event.0 as nat, event.1@))
}

/// The list with one more event.
pub proof fn lemma_timed_push(events: Seq<(usize, SmafEvent)>, time: usize, event: SmafEvent)
    ensures
        timed(events.push((time, event))) == timed(events) + seq![(time as nat, event@)],
{
    assert(timed(events.push((time, event))) =~= timed(events) + seq![(time as nat, event@)]);
}

/// Two lists, one behind the other.
pub proof fn lemma_timed_append(first: Seq<(usize, SmafEvent)>, second: Seq<(usize, SmafEvent)>)
    ensures
        timed(first + second) == timed(first) + timed(second),
{
    assert(timed(first + second) =~= timed(first) + timed(second));
}

/// What an event adds to the number of sounding notes of a MIDI channel and note
/// number.
pub open spec fn note_change(event: SmafEventView, channel: u8, note: u8) -> int {
    match event {
        SmafEventView::MidiNoteOn { channel: c, note: n, .. } => if c == channel && n == note {
            1
        } else {
            0
        },
        SmafEventView::MidiNoteOff { channel: c, note: n, .. } => if c == channel && n == note {
            -1
        } else {
            0
        },
        _ => 0,
    }
}

/// How many notes of a MIDI channel and note number a list leaves sounding.
pub open spec fn left_sounding(events: Seq<TimedEvent>, channel: u8, note: u8) -> int
    decreases events.len(),
{
    if events.len() == 0 {
        0
    } else {
        left_sounding(events.drop_last(), channel, note) + note_change(
            events.last().1,
            channel,
            note,
        )
    }
}

/// Two lists leave as many notes sounding as both together.
pub proof fn lemma_left_sounding(
    first: Seq<TimedEvent>,
    second: Seq<TimedEvent>,
    channel: u8,
    note: u8,
)
    ensures
        left_sounding(first + second, channel, note) == left_sounding(first, channel, note)
            + left_sounding(second, channel, note),
    decreases second.len(),
{
    if second.len() == 0 {
        assert(first + second =~= first);
    } else {
        assert((first + second).drop_last() =~= first + second.drop_last());
        lemma_left_sounding(first, second.drop_last(), channel, note);
    }
}

/// The place of an event among those of one millisecond: a class, then three
/// bytes that tell events of a class apart.
pub open spec fn sort_key(event: SmafEventView) -> (u8, [u8; 3]) {
    match event {
        SmafEventView::MidiSysEx(data) => (
            4,
            [
                if data.len() > 0 {
                    data[0]
                } else {
                    0xf0
                },
                0,
                0,
            ],
        ),
        SmafEventView::MidiControlChange { channel, control, value } => (
            5,
            [0xb0 | channel, control, value],
        ),
        SmafEventView::MidiPitchBend { channel, value } => (
            5,
            [0xe0 | channel, (value & 0x7f) as u8, ((value >> 7) & 0x7f) as u8],
        ),
        SmafEventView::MidiProgramChange { channel, program } => (6, [0xc0 | channel, program, 0]),
        SmafEventView::MidiNoteOff { channel, note, velocity } => (
            20,
            [0x80 | channel, note, velocity],
        ),
        SmafEventView::MidiNoteOn { channel, note, velocity } => (
            30,
            [0x90 | channel, note, velocity],
        ),
        SmafEventView::Wave { channels, .. } => (40, [channels, 0, 0]),
        SmafEventView::MaFmNote(note) => (35, [note.channel, note.note, note.velocity]),
        SmafEventView::End => (99, [0xff, 0x2f, 0]),
    }
}

/// The sort key of an event.
pub fn event_sort_key(event: &SmafEvent) -> (key: (u8, [u8; 3]))
    ensures
        key == sort_key(event@),
{
    let key: (u8, [u8; 3]) = match event {
        SmafEvent::MidiSysEx(data) => (
            4,
            [
                if data.len() > 0 {
                    data[0]
                } else {
                    0xf0
                },
                0,
                0,
            ],
        ),
        SmafEvent::MidiControlChange { channel, control, value } => (
            5,
            [0xb0 | *channel, *control, *value],
        ),
        SmafEvent::MidiPitchBend { channel, value } => (
            5,
            [0xe0 | *channel, (*value & 0x7f) as u8, ((*value >> 7) & 0x7f) as u8],
        ),
        SmafEvent::MidiProgramChange { channel, program } => (6, [0xc0 | *channel, *program, 0]),
        SmafEvent::MidiNoteOff { channel, note, velocity } => (
            20,
            [0x80 | *channel, *note, *velocity],
        ),
        SmafEvent::MidiNoteOn { channel, note, velocity } => (
            30,
            [0x90 | *channel, *note, *velocity],
        ),
        SmafEvent::Wave { channels, .. } => (40, [*channels, 0, 0]),
        SmafEvent::MaFmNote(note) => (35, [note.channel, note.note, note.velocity]),
        SmafEvent::End => (99, [0xff, 0x2f, 0]),
    };
    assert(key.1 =~= sort_key(event@).1);
    key
}

/// The message that plays an event on a MIDI port.  None for what no MIDI
/// message plays: sampled waves, FM notes and the end marker.
pub open spec fn port_message(event: SmafEventView) -> Option<Seq<u8>> {
    match event {
        SmafEventView::MidiNoteOn { channel, note, velocity } => Some(
            seq![0x90u8 | channel, note, velocity],
        ),
        SmafEventView::MidiNoteOff { channel, note, velocity } => Some(
            seq![0x80u8 | channel, note, velocity],
        ),
        SmafEventView::MidiProgramChange { channel, program } => Some(
            seq![0xc0u8 | channel, program],
        ),
        SmafEventView::MidiControlChange { channel, control, value } => Some(
            seq![0xb0u8 | channel, control, value],
        ),
        SmafEventView::MidiPitchBend { channel, value } => Some(
            seq![0xe0u8 | channel, (value & 0x7f) as u8, ((value >> 7) & 0x7f) as u8],
        ),
        SmafEventView::MidiSysEx(data) => Some(data),
        SmafEventView::Wave { .. } => None,
        SmafEventView::MaFmNote(_) => None,
        SmafEventView::End => None,
    }
}

/// The message that plays an event on a MIDI port, if one does.
pub fn midi_message(event: &SmafEvent) -> (message: Option<Vec<u8>>)
    ensures
        message is Some <==> port_message(event@) is Some,
        message matches Some(bytes) ==> port_message(event@) == Some(bytes@),
{
    match event {
        SmafEvent::MidiNoteOn { channel, note, velocity } => Some(
            vec![0x90 | *channel, *note, *velocity],
        ),
        SmafEvent::MidiNoteOff { channel, note, velocity } => Some(
            vec![0x80 | *channel, *note, *velocity],
        ),
        SmafEvent::MidiProgramChange { channel, program } => Some(vec![0xc0 | *channel, *program]),
        SmafEvent::MidiControlChange { channel, control, value } => Some(
            vec![0xb0 | *channel, *control, *value],
        ),
        SmafEvent::MidiPitchBend { channel, value } => Some(
            vec![0xe0 | *channel, (*value & 0x7f) as u8, ((*value >> 7) & 0x7f) as u8],
        ),
        SmafEvent::MidiSysEx(data) => {
            let copy = data.clone();
            assert(copy@ =~= data@);
            Some(copy)
        },
        SmafEvent::Wave { .. } => None,
        SmafEvent::MaFmNote(_) => None,
        SmafEvent::End => None,
    }
}

/// Milliseconds from `now` to an event; none for one that is already due.
pub fn delay_ms(now: usize, time: usize) -> (delay: usize)
    ensures
        delay == (if time > now { time - now } else { 0 }),
        now + delay >= time,
        delay > 0 ==> now + delay == time,
{
    time.saturating_sub(now)
}

/// An exclusive message framed by its start and end bytes, each added only
/// where it is missing.
pub open spec fn framed(data: Seq<u8>) -> Seq<u8> {
    let opened = if data.len() > 0 && data[0] == 0xf0 {
        data
    } else {
        seq![0xf0u8] + data
    };
    if opened.last() == 0xf7 {
        opened
    } else {
        opened.push(0xf7)
    }
}

/// Frames an exclusive message.
pub fn make_sysex_message(data: &[u8]) -> (message: Vec<u8>)
    ensures
        message@ == framed(data@),
{
    let mut message: Vec<u8> = Vec::with_capacity(data.len().saturating_add(2));
    if !(data.len() > 0 && data[0] == 0xf0) {
        message.push(0xf0);
    }
    message.extend_from_slice(data);
    assert(message@ =~= if data@.len() > 0 && data@[0] == 0xf0 {
        data@
    } else {
        seq![0xf0u8] + data@
    });
    if message[message.len() - 1] != 0xf7 {
        message.push(0xf7);
    }
    message
}

/// A framed message starts and ends with the bytes that frame it, holds the
/// message between them, and framing it again changes nothing.
pub proof fn law_framed_messages(data: Seq<u8>)
    ensures
        framed(data).len() >= 2,
        framed(data)[0] == 0xf0,
        framed(data).last() == 0xf7,
        framed(framed(data)) == framed(data),
        data.len() > 0 ==> exists|at: int|
            0 <= at <= 1 && #[trigger] framed(data).skip(at).take(data.len() as int) == data,
{
    let message = framed(data);
    if data.len() > 0 {
        let at: int = if data[0] == 0xf0 {
            0
        } else {
            1
        };
        assert(message.skip(at).take(data.len() as int) =~= data);
    }
}

/// Every event is played in one way: as a MIDI message, as audio that the file
/// itself carries, or not at all, as the end marker.
pub proof fn law_events_are_played_in_one_way(event: SmafEventView)
    ensures
        port_message(event) is Some <==> !(event is Wave || event is MaFmNote || event is End),
{
}

/// Status bytes with their channel, and the two halves of a pitch bend.
pub proof fn lemma_status_bytes(channel: u8, value: u16)
    by (bit_vector)
    requires
        channel < 16,
        value < 0x4000,
    ensures
        0x80u8 | channel == 0x80 + channel,
        0x90u8 | channel == 0x90 + channel,
        0xb0u8 | channel == 0xb0 + channel,
        0xc0u8 | channel == 0xc0 + channel,
        0xe0u8 | channel == 0xe0 + channel,
        ((value & 0x7f) as u8) == value % 128,
        (((value >> 7) & 0x7f) as u8) == value / 128,
{
}

/// A MIDI message starts with its kind and channel: 0x80 for note-offs, 0x90 for
/// note-ons, 0xb0 for controls, 0xc0 for programs and 0xe0 for pitch bends, with the
/// channel added; the numbers of the event follow, a pitch bend as its low and then its
/// high seven bits.  An exclusive message is sent as it is.
pub proof fn law_port_messages_spell_their_event(
    channel: u8,
    number: u8,
    value: u8,
    bend: u16,
    data: Seq<u8>,
)
    requires
        channel < 16,
        bend < 0x4000,
    ensures
        port_message(
            SmafEventView::MidiNoteOff { channel, note: number, velocity: value },
        ) matches Some(bytes) && bytes.len() == 3 && bytes[0] == 0x80 + channel && bytes[1]
            == number && bytes[2] == value,
        port_message(
            SmafEventView::MidiNoteOn { channel, note: number, velocity: value },
        ) matches Some(bytes) && bytes.len() == 3 && bytes[0] == 0x90 + channel && bytes[1]
            == number && bytes[2] == value,
        port_message(
            SmafEventView::MidiControlChange { channel, control: number, value },
        ) matches Some(bytes) && bytes.len() == 3 && bytes[0] == 0xb0 + channel && bytes[1]
            == number && bytes[2] == value,
        port_message(
            SmafEventView::MidiProgramChange { channel, program: number },
        ) matches Some(bytes) && bytes.len() == 2 && bytes[0] == 0xc0 + channel && bytes[1]
            == number,
        port_message(
            SmafEventView::MidiPitchBend { channel, value: bend },
        ) matches Some(bytes) && bytes.len() == 3 && bytes[0] == 0xe0 + channel && bytes[1] < 128
            && bytes[2] < 128 && bytes[1] + 128 * bytes[2] == bend,
        port_message(SmafEventView::MidiSysEx(data)) == Some(data),
{
    lemma_status_bytes(channel, bend);
}

/// Framing adds nothing but the two bytes, and only those that are missing.
pub proof fn law_framing_adds_what_is_missing(data: Seq<u8>)
    ensures
        data.len() >= 2 && data[0] == 0xf0 && data.last() == 0xf7 ==> framed(data) == data,
        data.len() > 0 && data[0] == 0xf0 && data.last() != 0xf7 ==> framed(data) == data.push(
            0xf7,
        ),
        data.len() > 0 && data[0] != 0xf0 && data.last() == 0xf7 ==> framed(data) == seq![0xf0u8]
            + data,
        data.len() > 0 && data[0] != 0xf0 && data.last() != 0xf7 ==> framed(data) == (
        seq![0xf0u8] + data).push(0xf7),
        data.len() == 0 ==> framed(data) == seq![0xf0u8, 0xf7],
{
    if data.len() == 0 {
        assert(framed(data) =~= seq![0xf0u8, 0xf7]);
    } else {
        assert((seq![0xf0u8] + data).last() == data.last());
    }
}

/// A note-on raises the number of sounding notes of its channel and number by one, a
/// note-off lowers it by one, and nothing else touches it.
pub proof fn law_notes_are_counted(event: SmafEventView, channel: u8, note: u8)
    ensures
        note_change(event, channel, note) == 1 <==> (event matches SmafEventView::MidiNoteOn {
            channel: c,
            note: n,
            ..
        } && c == channel && n == note),
        note_change(event, channel, note) == -1 <==> (event matches SmafEventView::MidiNoteOff {
            channel: c,
            note: n,
            ..
        } && c == channel && n == note),
        -1 <= note_change(event, channel, note) <= 1,
{
}

} // verus!
