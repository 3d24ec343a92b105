//! From a score track to timed playback events.
use crate::container::{
    wave_entries, FormatType, PCMDataChunk, PCMDataChunkView, ScoreTrack, ScoreTrackChunk,
    ScoreTrackChunkView, ScoreTrackView, SequenceDataView,
};
use crate::events::{
    framed, law_framed_messages, left_sounding, lemma_left_sounding, lemma_timed_append,
    lemma_timed_push, make_sysex_message, timed, SmafEvent, SmafEventView, TimedEvent,
};
use crate::ma_voice::{
    exclusive_voice, lemma_number_behind, lemma_vlq_end, parse_ma_voice_exclusive,
    setup_message, setup_voices, vlq,
};
use crate::order::{
    all_sounded, latest, lemma_closed_list_has_sounded, lemma_latest_joined,
};
use crate::sequence::{
    all_released, all_well_formed, law_sequences_are_sound, law_sequences_can_be_played,
    next_offset, sequence_fits, sequence_result, sounded_by, try_parse_sequence_events,
    well_formed, Setting,
};
use crate::tone_map::{law_tracks_start_valid, ToneMap, ToneMapView};
use vstd::prelude::*;

verus! {

/// Reads a variable-length number of any length.
pub fn read_midi_vlq(data: &[u8], offset: usize) -> (number: Option<(usize, usize)>)
    ensures
        number is Some <==> vlq(data@, offset as int, 0, data@.len()) is Some,
        number matches Some((value, end)) ==> vlq(data@, offset as int, 0, data@.len()) == Some(
            (value, end as int),
        ),
{
    let mut value: usize = 0;
    let mut at = offset;
    let ghost mut budget = data@.len();
    while at < data.len()
        invariant
            budget >= data@.len() - at,
            vlq(data@, offset as int, 0, data@.len()) == vlq(data@, at as int, value, budget),
        decreases data.len() - at,
    {
        let byte = data[at];
        at += 1;
        value = (value << 7) | (byte & 0x7f) as usize;
        proof {
            budget = (budget - 1) as nat;
        }
        if byte & 0x80 == 0 {
            return Some((value, at));
        }
    }
    None
}

/// The messages among the setup messages from `at` on that are no voice
/// definitions, each framed.
///
/// A message is 0xf0, its length and its bytes.  Reading stops at the first byte
/// that starts no message and at a message that is cut off.  None where a
/// message would end past the largest `usize`.
pub open spec fn setup_messages(data: Seq<u8>, at: int) -> Option<Seq<Seq<u8>>>
    decreases data.len() - at,
{
    if at < 0 || at >= data.len() || data[at] != 0xf0 {
        Some(Seq::empty())
    } else {
        match vlq(data, at + 1, 0, data.len()) {
            None => Some(Seq::empty()),
            Some((length, start)) => if start + length > usize::MAX {
                None
            } else if start + length > data.len() {
                Some(Seq::empty())
            } else {
                proof {
                    lemma_vlq_end(data, at + 1, 0, data.len());
                }
                let message = data.subrange(start, start + length);
                match setup_messages(data, start + length) {
                    None => None,
                    Some(rest) => Some(
                        if exclusive_voice(message) is Some {
                            rest
                        } else {
                            seq![framed(message)] + rest
                        },
                    ),
                }
            },
        }
    }
}

/// Setup messages as playback events at time zero.
pub open spec fn setup_events(data: Seq<u8>) -> Option<Seq<TimedEvent>> {
    match setup_messages(data, 0) {
        None => None,
        Some(messages) => Some(message_events(messages)),
    }
}

/// Framed messages as events at time zero.
pub open spec fn message_events(messages: Seq<Seq<u8>>) -> Seq<TimedEvent> {
    messages.map_values(|message: Seq<u8>| (0nat, SmafEventView::MidiSysEx(message)))
}

/// Reads the setup messages that a MIDI port gets.  None where a message would
/// end past the largest `usize`.
///
/// MA custom-voice definitions configure this engine's internal FM/PCM voice
/// table. Forwarding them to an unrelated GM/SF2 synth is both ineffective and
/// can perturb synth-specific SysEx state. Only non-voice setup messages
/// (reset/effects/etc.) are kept for the MIDI edge.
pub fn try_parse_setup_sysex_events(data: &[u8]) -> (events: Option<Vec<(usize, SmafEvent)>>)
    ensures
        events is Some <==> setup_events(data@) is Some,
        events matches Some(list) ==> setup_events(data@) == Some(timed(list@)),
{
    let ghost whole = setup_messages(data@, 0);
    let ghost mut framed_messages: Seq<Seq<u8>> = Seq::empty();
    let mut result: Vec<(usize, SmafEvent)> = Vec::new();
    let mut offset: usize = 0;
    assert(timed(result@) =~= message_events(framed_messages));
    assert(forall|rest: Seq<Seq<u8>>| framed_messages + rest =~= rest);
    while offset < data.len() && data[offset] == 0xf0
        invariant
            offset <= data.len(),
            whole == setup_messages(data@, 0),
            timed(result@) == message_events(framed_messages),
            match setup_messages(data@, offset as int) {
                None => whole is None,
                Some(rest) => whole == Some(framed_messages + rest),
            },
        decreases data.len() - offset,
    {
        proof {
            lemma_vlq_end(data@, offset + 1, 0, data@.len());
        }
        let (length, start) = match read_midi_vlq(data, offset + 1) {
            Some(number) => number,
            None => {
                assert(framed_messages + Seq::<Seq<u8>>::empty() =~= framed_messages);
                return Some(result);
            },
        };
        let end = match start.checked_add(length) {
            Some(end) => end,
            None => return None,
        };
        if end > data.len() {
            assert(framed_messages + Seq::<Seq<u8>>::empty() =~= framed_messages);
            return Some(result);
        }
        let payload = vstd::slice::slice_subrange(data, start, end);
        if parse_ma_voice_exclusive(payload).is_none() {
            let event = SmafEvent::MidiSysEx(make_sysex_message(payload));
            proof {
                let message = framed(payload@);
                match setup_messages(data@, end as int) {
                    Some(rest) => {
                        assert(framed_messages + (seq![message] + rest) =~= framed_messages.push(
                            message,
                        ) + rest);
                    },
                    None => {},
                }
                lemma_timed_push(result@, 0, event);
                assert(message_events(framed_messages.push(message)) =~= message_events(
                    framed_messages,
                ) + seq![(0nat, event@)]);
                framed_messages = framed_messages.push(message);
            }
            result.push((0, event));
        }
        offset = end;
    }
    assert(framed_messages + Seq::<Seq<u8>>::empty() =~= framed_messages);
    Some(result)
}

/// Reads the setup messages that a MIDI port gets.
pub fn parse_setup_sysex_events(data: &[u8]) -> (events: Vec<(usize, SmafEvent)>)
    requires
        setup_events(data@) is Some,
    ensures
        setup_events(data@) == Some(timed(events@)),
{
    try_parse_setup_sysex_events(data).unwrap()
}

/// The first wave table among a track's chunks from `from` on.
pub open spec fn wave_table(chunks: Seq<ScoreTrackChunkView>, from: int) -> Seq<PCMDataChunkView>
    decreases chunks.len() - from,
{
    if from < 0 || from >= chunks.len() {
        Seq::empty()
    } else {
        match chunks[from] {
            ScoreTrackChunkView::PCMData(waves) => waves,
            _ => wave_table(chunks, from + 1),
        }
    }
}

/// Channel state and events after the setup data among the first `count` chunks:
/// their voices are defined, their other messages sent.
pub open spec fn after_setup(
    tone: ToneMapView,
    chunks: Seq<ScoreTrackChunkView>,
    count: nat,
) -> Option<(ToneMapView, Seq<TimedEvent>)>
    decreases count,
{
    if count == 0 {
        Some((tone, Seq::empty()))
    } else {
        match after_setup(tone, chunks, (count - 1) as nat) {
            None => None,
            Some((tone, events)) => match chunks[count - 1] {
                ScoreTrackChunkView::SetupData(data) => match setup_events(data) {
                    None => None,
                    Some(sent) => Some(
                        (
                            ToneMapView {
                                custom_voices: tone.custom_voices + setup_voices(data, 0),
                                ..tone
                            },
                            events + sent,
                        ),
                    ),
                },
                _ => Some((tone, events)),
            },
        }
    }
}

/// Channel state and events after the sequences among the first `count` chunks,
/// which start from `tone` and `events`.
pub open spec fn after_sequences(
    setting: Setting,
    timebase_d: u8,
    tone: ToneMapView,
    events: Seq<TimedEvent>,
    chunks: Seq<ScoreTrackChunkView>,
    count: nat,
) -> Option<(ToneMapView, Seq<TimedEvent>)>
    decreases count,
{
    if count == 0 {
        Some((tone, events))
    } else {
        match after_sequences(setting, timebase_d, tone, events, chunks, (count - 1) as nat) {
            None => None,
            Some((tone, events)) => match chunks[count - 1] {
                ScoreTrackChunkView::SequenceData(sequence) => match sequence_result(
                    setting,
                    timebase_d,
                    tone,
                    sequence,
                ) {
                    None => None,
                    Some((left, played)) => Some((left, events + played)),
                },
                _ => Some((tone, events)),
            },
        }
    }
}

/// What the sequences of a track are played with.
pub open spec fn track_setting(track: ScoreTrackView, channel_offset: u8) -> Setting {
    Setting {
        timebase_g: track.timebase_g,
        channel_offset,
        use_channel_offset: track.format_type == FormatType::HandyPhoneStandard,
        waves: wave_table(track.chunks, 0),
    }
}

/// What a track plays from an initialised channel state: its setup data, then
/// its sequences, with the waves of its first wave table.
pub open spec fn track_result(
    tone: ToneMapView,
    track: ScoreTrackView,
    channel_offset: u8,
) -> Option<(ToneMapView, Seq<TimedEvent>)> {
    match after_setup(tone, track.chunks, track.chunks.len()) {
        None => None,
        Some((tone, events)) => after_sequences(
            track_setting(track, channel_offset),
            track.timebase_d,
            tone,
            events,
            track.chunks,
            track.chunks.len(),
        ),
    }
}

/// What a score track plays, and the Handy Phone channel state behind it.  Handy
/// Phone tracks share one channel state; a Mobile Standard track has its own.
pub open spec fn score_result(
    handy_tone: ToneMapView,
    track: ScoreTrackView,
    channel_offset: u8,
) -> Option<(ToneMapView, Seq<TimedEvent>)> {
    if track.format_type == FormatType::HandyPhoneStandard {
        track_result(
            handy_tone.init_track(track.format_type, track.channel_status, channel_offset),
            track,
            channel_offset,
        )
    } else {
        match track_result(
            ToneMapView::fresh().init_track(track.format_type, track.channel_status, 0),
            track,
            channel_offset,
        ) {
            None => None,
            Some((_, events)) => Some((handy_tone, events)),
        }
    }
}

fn find_wave_table<'b, 'a>(chunks: &'b [ScoreTrackChunk<'a>]) -> (waves: &'b [PCMDataChunk<'a>])
    ensures
        wave_entries(waves@) == wave_table(
            chunks@.map_values(|chunk: ScoreTrackChunk<'a>| chunk@),
            0,
        ),
{
    let ghost views = chunks@.map_values(|chunk: ScoreTrackChunk<'a>| chunk@);
    let mut i: usize = 0;
    while i < chunks.len()
        invariant
            i <= chunks.len(),
            views == chunks@.map_values(|chunk: ScoreTrackChunk<'a>| chunk@),
            wave_table(views, 0) == wave_table(views, i as int),
        decreases chunks.len() - i,
    {
        if let ScoreTrackChunk::PCMData(waves) = &chunks[i] {
            return waves.as_slice();
        }
        i += 1;
    }
    let none: &'b [PCMDataChunk<'a>] = &[];
    assert(wave_entries(none@) =~= wave_table(views, 0));
    none
}

proof fn lemma_setup_stops(
    tone: ToneMapView,
    chunks: Seq<ScoreTrackChunkView>,
    at: nat,
    count: nat,
)
    requires
        at <= count,
        after_setup(tone, chunks, at) is None,
    ensures
        after_setup(tone, chunks, count) is None,
    decreases count,
{
    if at < count {
        lemma_setup_stops(tone, chunks, at, (count - 1) as nat);
    }
}

proof fn lemma_sequences_stop(
    setting: Setting,
    timebase_d: u8,
    tone: ToneMapView,
    events: Seq<TimedEvent>,
    chunks: Seq<ScoreTrackChunkView>,
    at: nat,
    count: nat,
)
    requires
        at <= count,
        after_sequences(setting, timebase_d, tone, events, chunks, at) is None,
    ensures
        after_sequences(setting, timebase_d, tone, events, chunks, count) is None,
    decreases count,
{
    if at < count {
        lemma_sequences_stop(setting, timebase_d, tone, events, chunks, at, (count - 1) as nat);
    }
}

fn play_setup(track: &ScoreTrack<'_>, tone_map: &mut ToneMap) -> (events: Option<
    Vec<(usize, SmafEvent)>,
>)
    ensures
        match after_setup(old(tone_map)@, track@.chunks, track@.chunks.len()) {
            None => events is None,
            Some((tone, sent)) => {
                &&& events is Some
                &&& final(tone_map)@ == tone
                &&& timed(events.unwrap()@) == sent
            },
        },
{
    let ghost tone = tone_map@;
    let ghost chunks = track@.chunks;
    let mut result: Vec<(usize, SmafEvent)> = Vec::new();
    let mut i: usize = 0;
    assert(timed(result@) =~= Seq::empty());
    while i < track.chunks.len()
        invariant
            i <= chunks.len(),
            chunks.len() == track.chunks.len(),
            chunks == track@.chunks,
            tone == old(tone_map)@,
            after_setup(tone, chunks, i as nat) == Some((tone_map@, timed(result@))),
        decreases chunks.len() - i,
    {
        assert(chunks[i as int] == track.chunks@[i as int]@);
        if let ScoreTrackChunk::SetupData(setup_data) = &track.chunks[i] {
            tone_map.load_custom_voices(setup_data);
            let mut sent = match try_parse_setup_sysex_events(setup_data) {
                Some(sent) => sent,
                None => {
                    proof {
                        lemma_setup_stops(tone, chunks, (i + 1) as nat, chunks.len());
                    }
                    return None;
                },
            };
            proof {
                lemma_timed_append(result@, sent@);
            }
            result.append(&mut sent);
        }
        i += 1;
    }
    Some(result)
}

fn play_track(
    track: &ScoreTrack<'_>,
    channel_offset: u8,
    is_handy: bool,
    tone_map: &mut ToneMap,
) -> (events: Option<Vec<(usize, SmafEvent)>>)
    requires
        is_handy == (track.format_type == FormatType::HandyPhoneStandard),
    ensures
        match track_result(old(tone_map)@, track@, channel_offset) {
            None => events is None,
            Some((tone, played)) => {
                &&& events is Some
                &&& final(tone_map)@ == tone
                &&& timed(events.unwrap()@) == played
            },
        },
{
    let mut result = match play_setup(track, tone_map) {
        Some(result) => result,
        None => return None,
    };
    let waves = find_wave_table(track.chunks.as_slice());
    let ghost setting = Setting {
        timebase_g: track.timebase_g,
        channel_offset,
        use_channel_offset: is_handy,
        waves: wave_entries(waves@),
    };
    let ghost chunks = track@.chunks;
    let ghost tone = tone_map@;
    let ghost sent = timed(result@);
    let mut i: usize = 0;
    while i < track.chunks.len()
        invariant
            i <= chunks.len(),
            chunks.len() == track.chunks.len(),
            chunks == track@.chunks,
            setting == (Setting {
                timebase_g: track.timebase_g,
                channel_offset,
                use_channel_offset: is_handy,
                waves: wave_entries(waves@),
            }),
            track_result(old(tone_map)@, track@, channel_offset) == after_sequences(
                setting,
                track.timebase_d,
                tone,
                sent,
                chunks,
                chunks.len(),
            ),
            after_sequences(setting, track.timebase_d, tone, sent, chunks, i as nat) == Some(
                (tone_map@, timed(result@)),
            ),
        decreases chunks.len() - i,
    {
        assert(chunks[i as int] == track.chunks@[i as int]@);
        if let ScoreTrackChunk::SequenceData(sequence_data) = &track.chunks[i] {
            let (mut played, _) = match try_parse_sequence_events(
                sequence_data.as_slice(),
                track.timebase_d,
                track.timebase_g,
                channel_offset,
                is_handy,
                waves,
                tone_map,
            ) {
                Some(played) => played,
                None => {
                    proof {
                        lemma_sequences_stop(
                            setting,
                            track.timebase_d,
                            tone,
                            sent,
                            chunks,
                            (i + 1) as nat,
                            chunks.len(),
                        );
                    }
                    return None;
                },
            };
            proof {
                lemma_timed_append(result@, played@);
            }
            result.append(&mut played);
        }
        i += 1;
    }
    Some(result)
}

/// Plays a score track: its events, and the channel offset for the next track.
/// None where a sequence or a setup message cannot be played to its end.
pub fn try_parse_score_track_events(
    track: &ScoreTrack<'_>,
    handy_channel_offset: u8,
    handy_tone_map: &mut ToneMap,
) -> (played: Option<(Vec<(usize, SmafEvent)>, u8)>)
    ensures
        match score_result(old(handy_tone_map)@, track@, handy_channel_offset) {
            None => played is None,
            Some((tone, events)) => {
                &&& played is Some
                &&& final(handy_tone_map)@ == tone
                &&& timed(played.unwrap().0@) == events
                &&& played.unwrap().1 == next_offset(
                    handy_channel_offset,
                    track.format_type == FormatType::HandyPhoneStandard,
                )
            },
        },
{
    if track.format_type == FormatType::HandyPhoneStandard {
        handy_tone_map.init_track(
            track.format_type,
            track.channel_status.as_slice(),
            handy_channel_offset,
        );
        match play_track(track, handy_channel_offset, true, handy_tone_map) {
            Some(events) => Some((events, handy_channel_offset.saturating_add(4))),
            None => None,
        }
    } else {
        let mut mobile_tone_map = ToneMap::new();
        mobile_tone_map.init_track(track.format_type, track.channel_status.as_slice(), 0);
        match play_track(track, handy_channel_offset, false, &mut mobile_tone_map) {
            Some(events) => Some((events, handy_channel_offset)),
            None => None,
        }
    }
}

/// Plays a score track: its events, and the channel offset for the next track.
pub fn parse_score_track_events(
    track: &ScoreTrack<'_>,
    handy_channel_offset: u8,
    handy_tone_map: &mut ToneMap,
) -> (played: (Vec<(usize, SmafEvent)>, u8))
    requires
        score_result(old(handy_tone_map)@, track@, handy_channel_offset) is Some,
    ensures
        score_result(old(handy_tone_map)@, track@, handy_channel_offset) == Some(
            (final(handy_tone_map)@, timed(played.0@)),
        ),
        played.1 == next_offset(
            handy_channel_offset,
            track.format_type == FormatType::HandyPhoneStandard,
        ),
{
    try_parse_score_track_events(track, handy_channel_offset, handy_tone_map).unwrap()
}

/// No voice definition among setup messages reaches a MIDI port: what is sent
/// there is some other message, framed.
pub proof fn law_setup_keeps_voices_inside(data: Seq<u8>, at: int, i: int)
    requires
        setup_messages(data, at) is Some,
        0 <= i < setup_messages(data, at).unwrap().len(),
    ensures
        exists|message: Seq<u8>|
            exclusive_voice(message) is None && setup_messages(data, at).unwrap()[i]
                == #[trigger] framed(message),
    decreases data.len() - at,
{
    let messages = setup_messages(data, at).unwrap();
    let (length, start) = vlq(data, at + 1, 0, data.len()).unwrap();
    lemma_vlq_end(data, at + 1, 0, data.len());
    let message = data.subrange(start, start + length);
    let rest = setup_messages(data, start + length).unwrap();
    if exclusive_voice(message) is Some {
        law_setup_keeps_voices_inside(data, start + length, i);
    } else if i == 0 {
        assert(messages[0] == framed(message));
    } else {
        law_setup_keeps_voices_inside(data, start + length, i - 1);
        assert(messages[i] == rest[i - 1]);
    }
}

/// Setup events are well formed and switch no notes.
proof fn lemma_setup_events(data: Seq<u8>)
    ensures
        setup_events(data) matches Some(sent) ==> all_well_formed(sent) && all_released(sent)
            && all_sounded(sent),
{
    if let Some(messages) = setup_messages(data, 0) {
        let sent = message_events(messages);
        assert forall|i: int| 0 <= i < sent.len() implies well_formed(#[trigger] sent[i].1) by {
            law_setup_keeps_voices_inside(data, 0, i);
            let message = choose|message: Seq<u8>|
                exclusive_voice(message) is None && messages[i] == #[trigger] framed(message);
            law_framed_messages(message);
        }
        assert forall|channel: u8, note: u8| #[trigger] left_sounding(sent, channel, note)
            == 0 by {
            lemma_messages_release_nothing(sent, channel, note);
        }
    }
}

proof fn lemma_messages_release_nothing(events: Seq<TimedEvent>, channel: u8, note: u8)
    requires
        forall|i: int| 0 <= i < events.len() ==> #[trigger] events[i].1 is MidiSysEx,
    ensures
        left_sounding(events, channel, note) == 0,
    decreases events.len(),
{
    if events.len() > 0 {
        lemma_messages_release_nothing(events.drop_last(), channel, note);
        assert(events[events.len() - 1].1 is MidiSysEx);
    }
}

/// Well-formed lists that switch off what they switch on, and whose latest event
/// comes when all have sounded, one behind the other.
pub proof fn lemma_lists_joined(first: Seq<TimedEvent>, second: Seq<TimedEvent>)
    requires
        all_well_formed(first),
        all_well_formed(second),
        all_released(first),
        all_released(second),
        all_sounded(first),
        all_sounded(second),
    ensures
        all_well_formed(first + second),
        all_released(first + second),
        all_sounded(first + second),
{
    lemma_latest_joined(first, second);
    assert forall|i: int| 0 <= i < (first + second).len() implies sounded_by(
        #[trigger] (first + second)[i],
    ) <= latest(first + second) by {
        if i < first.len() {
            assert(sounded_by(first[i]) <= latest(first));
        } else {
            assert(sounded_by(second[i - first.len()]) <= latest(second));
        }
    }
    assert forall|channel: u8, note: u8| #[trigger] left_sounding(first + second, channel, note)
        == 0 by {
        lemma_left_sounding(first, second, channel, note);
    }
}

/// A sequence has sounded by its end marker.
pub proof fn lemma_closed_lists_have_sounded(
    setting: Setting,
    timebase_d: u8,
    tone: ToneMapView,
    sequence: Seq<SequenceDataView>,
)
    requires
        tone.valid(),
    ensures
        sequence_result(setting, timebase_d, tone, sequence) matches Some((_, events))
            ==> all_sounded(events),
{
    law_sequences_are_sound(setting, timebase_d, tone, sequence);
    if let Some((_, events)) = sequence_result(setting, timebase_d, tone, sequence) {
        lemma_closed_list_has_sounded(events);
    }
}

proof fn lemma_after_setup(tone: ToneMapView, chunks: Seq<ScoreTrackChunkView>, count: nat)
    requires
        tone.valid(),
    ensures
        after_setup(tone, chunks, count) matches Some((after, events)) ==> {
            &&& after.valid()
            &&& all_well_formed(events)
            &&& all_released(events)
            &&& all_sounded(events)
        },
    decreases count,
{
    if count > 0 {
        lemma_after_setup(tone, chunks, (count - 1) as nat);
        if let Some((before, events)) = after_setup(tone, chunks, (count - 1) as nat) {
            if let ScoreTrackChunkView::SetupData(data) = chunks[count - 1] {
                lemma_setup_events(data);
                if let Some(sent) = setup_events(data) {
                    lemma_lists_joined(events, sent);
                }
            }
        }
    }
}

proof fn lemma_after_sequences(
    setting: Setting,
    timebase_d: u8,
    tone: ToneMapView,
    events: Seq<TimedEvent>,
    chunks: Seq<ScoreTrackChunkView>,
    count: nat,
)
    requires
        tone.valid(),
        all_well_formed(events),
        all_released(events),
        all_sounded(events),
    ensures
        after_sequences(setting, timebase_d, tone, events, chunks, count) matches Some(
            (after, played),
        ) ==> {
            &&& after.valid()
            &&& all_well_formed(played)
            &&& all_released(played)
            &&& all_sounded(played)
        },
    decreases count,
{
    if count > 0 {
        let fewer = (count - 1) as nat;
        lemma_after_sequences(setting, timebase_d, tone, events, chunks, fewer);
        if let Some((before, so_far)) = after_sequences(
            setting,
            timebase_d,
            tone,
            events,
            chunks,
            fewer,
        ) {
            if let ScoreTrackChunkView::SequenceData(sequence) = chunks[count - 1] {
                law_sequences_are_sound(setting, timebase_d, before, sequence);
                lemma_closed_lists_have_sounded(setting, timebase_d, before, sequence);
                if let Some((left, played)) = sequence_result(
                    setting,
                    timebase_d,
                    before,
                    sequence,
                ) {
                    lemma_lists_joined(so_far, played);
                }
            }
        }
    }
}

/// A score track plays well-formed events, switches off every note that it
/// switches on, has sounded by its latest event, and keeps the channel state
/// valid.
pub proof fn law_score_tracks_are_sound(
    handy_tone: ToneMapView,
    track: ScoreTrackView,
    channel_offset: u8,
)
    requires
        handy_tone.valid(),
    ensures
        score_result(handy_tone, track, channel_offset) matches Some((after, events)) ==> {
            &&& after.valid()
            &&& all_well_formed(events)
            &&& all_released(events)
            &&& all_sounded(events)
        },
{
    let handy = track.format_type == FormatType::HandyPhoneStandard;
    let start = if handy {
        handy_tone.init_track(track.format_type, track.channel_status, channel_offset)
    } else {
        ToneMapView::fresh().init_track(track.format_type, track.channel_status, 0)
    };
    law_tracks_start_valid(handy_tone, track.format_type, track.channel_status, channel_offset);
    law_tracks_start_valid(
        ToneMapView::fresh(),
        track.format_type,
        track.channel_status,
        0,
    );
    lemma_after_setup(start, track.chunks, track.chunks.len());
    if let Some((tone, events)) = after_setup(start, track.chunks, track.chunks.len()) {
        lemma_after_sequences(
            track_setting(track, channel_offset),
            track.timebase_d,
            tone,
            events,
            track.chunks,
            track.chunks.len(),
        );
    }
}

/// Whether one of the first four bytes from `at` on would end a variable-length
/// number, or the data end before.
pub open spec fn short_number(data: Seq<u8>, at: int) -> bool {
    ||| at + 3 >= data.len()
    ||| data[at] & 0x80 == 0
    ||| data[at + 1] & 0x80 == 0
    ||| data[at + 2] & 0x80 == 0
    ||| data[at + 3] & 0x80 == 0
}

/// Whether the lengths of setup messages have at most four bytes, and their ends
/// can be counted.
pub open spec fn setup_fits(data: Seq<u8>) -> bool {
    &&& data.len() + 0x1000_0000 <= usize::MAX
    &&& forall|i: int|
        0 <= i < data.len() && #[trigger] data[i] == 0xf0 ==> short_number(data, i + 1)
}

/// Whether the setup messages and the notes of a track end where that can be
/// counted and, on a Handy Phone track, its events are within the first sixteen
/// channels of the file.
pub open spec fn track_fits(track: ScoreTrackView, channel_offset: u8) -> bool {
    forall|i: int|
        0 <= i < track.chunks.len() ==> match #[trigger] track.chunks[i] {
            ScoreTrackChunkView::SetupData(data) => setup_fits(data),
            ScoreTrackChunkView::SequenceData(sequence) => sequence_fits(
                track_setting(track, channel_offset),
                track.timebase_d,
                track.format_type == FormatType::HandyPhoneStandard,
                sequence,
            ),
            _ => true,
        }
}

/// Appending seven bits to a number of up to 21 bits.
proof fn lemma_appended(value: usize, byte: u8)
    by (bit_vector)
    ensures
        value == 0 ==> ((value << 7) | ((byte & 0x7f) as usize)) < 0x80,
        value < 0x80 ==> ((value << 7) | ((byte & 0x7f) as usize)) < 0x4000,
        value < 0x4000 ==> ((value << 7) | ((byte & 0x7f) as usize)) < 0x20_0000,
        value < 0x20_0000 ==> ((value << 7) | ((byte & 0x7f) as usize)) < 0x1000_0000,
{
}

proof fn lemma_short_number(data: Seq<u8>, at: int, budget: nat)
    requires
        short_number(data, at),
    ensures
        vlq(data, at, 0, budget) matches Some((length, _)) ==> length < 0x1000_0000,
{
    reveal_with_fuel(vlq, 5);
    let first = (0usize << 7) | (data[at] & 0x7f) as usize;
    let second = (first << 7) | (data[at + 1] & 0x7f) as usize;
    let third = (second << 7) | (data[at + 2] & 0x7f) as usize;
    lemma_appended(0, data[at]);
    lemma_appended(first, data[at + 1]);
    lemma_appended(second, data[at + 2]);
    lemma_appended(third, data[at + 3]);
}

proof fn lemma_setup_ends(data: Seq<u8>, at: int)
    requires
        setup_fits(data),
    ensures
        setup_messages(data, at) is Some,
    decreases data.len() - at,
{
    if 0 <= at < data.len() && data[at] == 0xf0 {
        lemma_short_number(data, at + 1, data.len());
        lemma_vlq_end(data, at + 1, 0, data.len());
        if let Some((length, start)) = vlq(data, at + 1, 0, data.len()) {
            if start + length <= data.len() {
                lemma_setup_ends(data, start + length);
            }
        }
    }
}

/// Setup data whose messages have lengths of at most four bytes can be read to
/// their end.
pub proof fn law_setup_can_be_read(data: Seq<u8>)
    requires
        setup_fits(data),
    ensures
        setup_events(data) is Some,
{
    lemma_setup_ends(data, 0);
}

proof fn lemma_setup_is_played(
    tone: ToneMapView,
    track: ScoreTrackView,
    channel_offset: u8,
    count: nat,
)
    requires
        count <= track.chunks.len(),
        track_fits(track, channel_offset),
    ensures
        after_setup(tone, track.chunks, count) matches Some((after, _)) && after.real_map
            == tone.real_map && after.format_type == tone.format_type,
    decreases count,
{
    if count > 0 {
        lemma_setup_is_played(tone, track, channel_offset, (count - 1) as nat);
        if let ScoreTrackChunkView::SetupData(data) = track.chunks[count - 1] {
            law_setup_can_be_read(data);
        }
    }
}

proof fn lemma_sequences_are_played(
    tone: ToneMapView,
    events: Seq<TimedEvent>,
    track: ScoreTrackView,
    channel_offset: u8,
    count: nat,
)
    requires
        tone.valid(),
        tone.assignable(),
        tone.handy() == (track.format_type == FormatType::HandyPhoneStandard),
        count <= track.chunks.len(),
        track_fits(track, channel_offset),
    ensures
        after_sequences(
            track_setting(track, channel_offset),
            track.timebase_d,
            tone,
            events,
            track.chunks,
            count,
        ) matches Some((after, _)) && after.valid() && after.assignable() && after.handy()
            == tone.handy(),
    decreases count,
{
    if count > 0 {
        let setting = track_setting(track, channel_offset);
        let fewer = (count - 1) as nat;
        lemma_sequences_are_played(tone, events, track, channel_offset, fewer);
        let (before, _) = after_sequences(
            setting,
            track.timebase_d,
            tone,
            events,
            track.chunks,
            fewer,
        ).unwrap();
        if let ScoreTrackChunkView::SequenceData(sequence) = track.chunks[count - 1] {
            law_sequences_can_be_played(setting, track.timebase_d, before, sequence);
            law_sequences_are_sound(setting, track.timebase_d, before, sequence);
        }
    }
}

/// A score track can be played to its end as long as the ends of its notes and
/// setup messages can be counted and, on a Handy Phone track, its events are within
/// the first sixteen channels of the file; the MIDI channels of Handy Phone tracks
/// stay within those that exist.
pub proof fn law_score_tracks_can_be_played(
    handy_tone: ToneMapView,
    track: ScoreTrackView,
    channel_offset: u8,
)
    requires
        handy_tone.valid(),
        handy_tone.assignable(),
        track_fits(track, channel_offset),
    ensures
        score_result(handy_tone, track, channel_offset) matches Some((after, _))
            && after.assignable(),
{
    let start = if track.format_type == FormatType::HandyPhoneStandard {
        handy_tone.init_track(track.format_type, track.channel_status, channel_offset)
    } else {
        ToneMapView::fresh().init_track(track.format_type, track.channel_status, 0)
    };
    law_tracks_start_valid(handy_tone, track.format_type, track.channel_status, channel_offset);
    law_tracks_start_valid(
        ToneMapView::fresh(),
        track.format_type,
        track.channel_status,
        0,
    );
    lemma_setup_is_played(start, track, channel_offset, track.chunks.len());
    lemma_after_setup(start, track.chunks, track.chunks.len());
    let (tone, events) = after_setup(start, track.chunks, track.chunks.len()).unwrap();
    lemma_sequences_are_played(tone, events, track, channel_offset, track.chunks.len());
}

proof fn lemma_enough_budget(data: Seq<u8>, at: int, value: usize, budget: nat, more: nat)
    requires
        0 <= at,
        at + budget >= data.len(),
        at + more >= data.len(),
    ensures
        vlq(data, at, value, budget) == vlq(data, at, value, more),
    decreases budget,
{
    if at < data.len() && data[at] & 0x80 != 0 {
        lemma_enough_budget(
            data,
            at + 1,
            (value << 7) | (data[at] & 0x7f) as usize,
            (budget - 1) as nat,
            (more - 1) as nat,
        );
    }
}

proof fn lemma_messages_behind(prefix: Seq<u8>, data: Seq<u8>, at: int)
    requires
        0 <= at,
        setup_messages(prefix + data, prefix.len() + at) is Some,
    ensures
        setup_messages(prefix + data, prefix.len() + at) == setup_messages(data, at),
    decreases data.len() - at,
{
    let all = prefix + data;
    if at < data.len() {
        assert(all[prefix.len() + at] == data[at]);
        lemma_number_behind(prefix, data, at + 1, 0, data.len());
        lemma_enough_budget(all, prefix.len() + at + 1, 0, data.len(), all.len());
        lemma_vlq_end(data, at + 1, 0, data.len());
        if let Some((length, start)) = vlq(data, at + 1, 0, data.len()) {
            if data[at] == 0xf0 && start + length <= data.len() {
                lemma_vlq_end(all, prefix.len() + at + 1, 0, all.len());
                lemma_messages_behind(prefix, data, start + length);
                assert(all.subrange(prefix.len() + start, prefix.len() + start + length)
                    =~= data.subrange(start, start + length));
            }
        }
    }
}

/// The messages of setup data are sent at time zero, framed and in order, but for those
/// that define a voice.  Where no message starts, none follows.
pub proof fn law_setup_messages_are_sent_in_order(message: Seq<u8>, rest: Seq<u8>)
    requires
        message.len() < 128,
        setup_events(setup_message(message) + rest) is Some,
    ensures
        setup_events(rest) is Some,
        setup_events(setup_message(message) + rest).unwrap() == (if exclusive_voice(
            message,
        ) is Some {
            Seq::<TimedEvent>::empty()
        } else {
            seq![(0nat, SmafEventView::MidiSysEx(framed(message)))]
        }) + setup_events(rest).unwrap(),
        rest.len() == 0 || rest[0] != 0xf0 ==> setup_events(rest) == Some(
            Seq::<TimedEvent>::empty(),
        ),
{
    let first = setup_message(message);
    let data = first + rest;
    assert(data[0] == 0xf0 && data[1] == message.len());
    crate::ma_voice::lemma_appended(0, data[1]);
    assert(vlq(data, 1, 0, data.len()) == Some((message.len() as usize, 2int)));
    assert(data.subrange(2, 2 + message.len() as int) =~= message);
    assert(first.len() == 2 + message.len());
    lemma_messages_behind(first, rest, 0);
    let behind = setup_messages(rest, 0).unwrap();
    assert(message_events(Seq::<Seq<u8>>::empty()) =~= Seq::<TimedEvent>::empty());
    if exclusive_voice(message) is None {
        assert(message_events(seq![framed(message)] + behind) =~= seq![
            (0nat, SmafEventView::MidiSysEx(framed(message))),
        ] + message_events(behind));
    } else {
        assert(Seq::<TimedEvent>::empty() + message_events(behind) =~= message_events(behind));
    }
}

/// The waves of a track are those of its first wave table; a track without one has none.
pub proof fn law_tracks_use_their_first_wave_table(chunks: Seq<ScoreTrackChunkView>, at: int)
    ensures
        0 <= at < chunks.len() && chunks[at] is PCMData && (forall|j: int|
            0 <= j < at ==> !((#[trigger] chunks[j]) is PCMData)) ==> chunks[at]
            == ScoreTrackChunkView::PCMData(wave_table(chunks, 0)),
        (forall|j: int| 0 <= j < chunks.len() ==> !((#[trigger] chunks[j]) is PCMData))
            ==> wave_table(chunks, 0).len() == 0,
{
    lemma_wave_table(chunks, at, 0);
}

proof fn lemma_wave_table(chunks: Seq<ScoreTrackChunkView>, at: int, from: int)
    requires
        0 <= from,
    ensures
        from <= at < chunks.len() && chunks[at] is PCMData && (forall|j: int|
            from <= j < at ==> !((#[trigger] chunks[j]) is PCMData)) ==> chunks[at]
            == ScoreTrackChunkView::PCMData(wave_table(chunks, from)),
        (forall|j: int| from <= j < chunks.len() ==> !((#[trigger] chunks[j]) is PCMData))
            ==> wave_table(chunks, from).len() == 0,
    decreases chunks.len() - from,
{
    if from < chunks.len() {
        lemma_wave_table(chunks, at, from + 1);
    }
}

/// The setup data of a track add their voices and send their messages in the order of the
/// chunks, and other chunks do nothing then; the sequences are played in the order of the
/// chunks behind them, each on the state that the one before has left, and other chunks do
/// nothing then.
pub proof fn law_chunks_take_their_turn(
    tone: ToneMapView,
    events: Seq<TimedEvent>,
    track: ScoreTrackView,
    channel_offset: u8,
    count: nat,
)
    requires
        count < track.chunks.len(),
    ensures
        ({
            let chunk = track.chunks[count as int];
            let setting = Setting {
                timebase_g: track.timebase_g,
                channel_offset,
                use_channel_offset: track.format_type is HandyPhoneStandard,
                waves: wave_table(track.chunks, 0),
            };
            &&& after_setup(tone, track.chunks, 0) == Some((tone, Seq::<TimedEvent>::empty()))
            &&& after_setup(tone, track.chunks, count) matches Some((before, sent)) ==> {
                let after = after_setup(tone, track.chunks, count + 1);
                &&& !(chunk is SetupData) ==> after == Some((before, sent))
                &&& chunk matches ScoreTrackChunkView::SetupData(data) ==> {
                    &&& setup_events(data) is None ==> after is None
                    &&& setup_events(data) is Some ==> (after matches Some((left, all)) && all
                        == sent + setup_events(data).unwrap() && left.custom_voices
                        == before.custom_voices + setup_voices(data, 0) && left == (ToneMapView {
                        custom_voices: left.custom_voices,
                        ..before
                    }))
                }
            }
            &&& after_sequences(setting, track.timebase_d, tone, events, track.chunks, 0) == Some(
                (tone, events),
            )
            &&& after_sequences(
                setting,
                track.timebase_d,
                tone,
                events,
                track.chunks,
                count,
            ) matches Some((before, sent)) ==> {
                let after = after_sequences(
                    setting,
                    track.timebase_d,
                    tone,
                    events,
                    track.chunks,
                    count + 1,
                );
                &&& !(chunk is SequenceData) ==> after == Some((before, sent))
                &&& chunk matches ScoreTrackChunkView::SequenceData(sequence)
                    ==> match sequence_result(setting, track.timebase_d, before, sequence) {
                    None => after is None,
                    Some((left, played)) => after == Some((left, sent + played)),
                }
            }
        }),
{
}

/// A track with one setup and one sequence chunk plays, from the start of its format, the
/// messages of the setup and then the sequence, wherever the setup stands; its gate times
/// and durations count in its own time bases, and its channels behind the offset only on a
/// Handy Phone track.
pub proof fn law_tracks_set_up_before_they_play(
    handy_tone: ToneMapView,
    track: ScoreTrackView,
    data: Seq<u8>,
    sequence: Seq<SequenceDataView>,
    channel_offset: u8,
)
    requires
        setup_events(data) is Some,
        track.chunks == seq![
            ScoreTrackChunkView::SetupData(data),
            ScoreTrackChunkView::SequenceData(sequence),
        ] || track.chunks == seq![
            ScoreTrackChunkView::SequenceData(sequence),
            ScoreTrackChunkView::SetupData(data),
        ],
    ensures
        ({
            let handy = track.format_type is HandyPhoneStandard;
            let start = if handy {
                handy_tone.init_track(track.format_type, track.channel_status, channel_offset)
            } else {
                handy_tone.init_track(track.format_type, track.channel_status, 0)
            };
            let set_up = ToneMapView {
                custom_voices: start.custom_voices + setup_voices(data, 0),
                ..start
            };
            let setting = Setting {
                timebase_g: track.timebase_g,
                channel_offset,
                use_channel_offset: handy,
                waves: Seq::empty(),
            };
            match sequence_result(setting, track.timebase_d, set_up, sequence) {
                None => score_result(handy_tone, track, channel_offset) is None,
                Some((left, played)) => score_result(handy_tone, track, channel_offset) == Some(
                    (
                        if handy {
                            left
                        } else {
                            handy_tone
                        },
                        setup_events(data).unwrap() + played,
                    ),
                ),
            }
        }),
{
    let handy = track.format_type is HandyPhoneStandard;
    let offset = if handy {
        channel_offset
    } else {
        0
    };
    let start = handy_tone.init_track(track.format_type, track.channel_status, offset);
    let sent = setup_events(data).unwrap();
    let set_up = ToneMapView {
        custom_voices: start.custom_voices + setup_voices(data, 0),
        ..start
    };
    assert(Seq::<TimedEvent>::empty() + sent =~= sent);
    assert(after_setup(start, track.chunks, 2) == Some((set_up, sent))) by {
        law_chunks_take_their_turn(start, sent, track, channel_offset, 0);
        law_chunks_take_their_turn(start, sent, track, channel_offset, 1);
    }
    law_tracks_use_their_first_wave_table(track.chunks, 0);
    assert(wave_table(track.chunks, 0) =~= Seq::empty());
    law_chunks_take_their_turn(set_up, sent, track, channel_offset, 0);
    law_chunks_take_their_turn(set_up, sent, track, channel_offset, 1);
    law_tracks_play_all_their_chunks(handy_tone, track, channel_offset);
}

/// A Mobile Standard track leaves the channel state of the Handy Phone tracks as it is and
/// plays the same whatever that is and wherever the channels have come to.
pub proof fn law_mobile_tracks_stand_alone(
    one: ToneMapView,
    other: ToneMapView,
    track: ScoreTrackView,
    channel_offset: u8,
)
    requires
        !(track.format_type is HandyPhoneStandard),
    ensures
        match (
            score_result(one, track, channel_offset),
            score_result(other, track, channel_offset),
        ) {
            (Some((left, events)), Some((other_left, other_events))) => left == one && other_left
                == other && events == other_events,
            (None, None) => true,
            _ => false,
        },
{
}

/// A track whose only chunk is a sequence plays that sequence from the start of its format.
pub proof fn law_single_sequences_are_tracks(
    handy_tone: ToneMapView,
    track: ScoreTrackView,
    sequence: Seq<SequenceDataView>,
    channel_offset: u8,
)
    requires
        track.format_type is HandyPhoneStandard,
        track.chunks == seq![ScoreTrackChunkView::SequenceData(sequence)],
    ensures
        ({
            let start = handy_tone.init_track(
                FormatType::HandyPhoneStandard,
                track.channel_status,
                channel_offset,
            );
            let setting = Setting {
                timebase_g: track.timebase_g,
                channel_offset,
                use_channel_offset: true,
                waves: Seq::empty(),
            };
            match sequence_result(setting, track.timebase_d, start, sequence) {
                None => score_result(handy_tone, track, channel_offset) is None,
                Some((left, played)) => score_result(handy_tone, track, channel_offset) == Some(
                    (left, played),
                ),
            }
        }),
{
    reveal_with_fuel(after_setup, 2);
    reveal_with_fuel(after_sequences, 2);
    reveal_with_fuel(wave_table, 2);
    if let Some((_, played)) = sequence_result(
        track_setting(track, channel_offset),
        track.timebase_d,
        handy_tone.init_track(track.format_type, track.channel_status, channel_offset),
        sequence,
    ) {
        assert(Seq::<TimedEvent>::empty() + played =~= played);
    }
}

/// A track plays all its chunks: every setup chunk, and then every sequence from the state
/// and the events that they have left, with its own time bases.
pub proof fn law_tracks_play_all_their_chunks(
    handy_tone: ToneMapView,
    track: ScoreTrackView,
    channel_offset: u8,
)
    ensures
        ({
            let handy = track.format_type is HandyPhoneStandard;
            let setting = Setting {
                timebase_g: track.timebase_g,
                channel_offset,
                use_channel_offset: handy,
                waves: wave_table(track.chunks, 0),
            };
            let offset = if handy {
                channel_offset
            } else {
                0
            };
            let start = handy_tone.init_track(track.format_type, track.channel_status, offset);
            let all = track.chunks.len();
            let result = score_result(handy_tone, track, channel_offset);
            match after_setup(start, track.chunks, all) {
                None => result is None,
                Some((set_up, sent)) => match after_sequences(
                    setting,
                    track.timebase_d,
                    set_up,
                    sent,
                    track.chunks,
                    all,
                ) {
                    None => result is None,
                    Some((left, played)) => result matches Some((tone, events)) && events == played
                        && (handy ==> tone == left) && (!handy ==> tone == handy_tone),
                },
            }
        }),
{
}

} // verus!
