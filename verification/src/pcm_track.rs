//! From a PCM audio track to timed playback events.
use crate::container::{
    channel_count, layout_channels, PCMAudioSequenceData, PCMAudioSequenceEvent, PCMAudioTrack,
    PCMAudioTrackChunk, PCMAudioTrackChunkView, PCMAudioTrackView,
};
use crate::events::{
    left_sounding, lemma_timed_push, timed, SmafEvent, SmafEventView, TimedEvent, WaveDynamics,
};
use crate::sequence::{
    advanced, all_released, all_well_formed, in_written_order, later, sounds_within,
};
use crate::tone_map::{data_bytes, least};
use crate::waves::{
    capped, capped_product, decode_pcm_audio_track_wave, decoded_duration_ms, decoded_track_wave,
    duration_ms, gated, trim_to_gate,
};
use vstd::prelude::*;

verus! {

/// How far a PCM audio sequence has come: the dynamics of its four channels, the
/// time, the time until which something sounds, and the events so far.
#[verifier::ext_equal]
pub struct PcmProgress {
    pub volume: Seq<u8>,
    pub expression: Seq<u8>,
    pub pan: Seq<u8>,
    pub pan_explicit: Seq<bool>,
    pub now: nat,
    pub sounding: nat,
    pub events: Seq<TimedEvent>,
}

/// The start of a PCM audio sequence: full loudness, no explicit position.
pub open spec fn start_of_pcm() -> PcmProgress {
    PcmProgress {
        volume: Seq::new(4, |i: int| 127u8),
        expression: Seq::new(4, |i: int| 127u8),
        pan: Seq::new(4, |i: int| 64u8),
        pan_explicit: Seq::new(4, |i: int| false),
        now: 0,
        sounding: 0,
        events: Seq::empty(),
    }
}

/// The first sequence among a track's chunks from `from` on.
pub open spec fn first_sequence(chunks: Seq<PCMAudioTrackChunkView>, from: int) -> Option<
    Seq<PCMAudioSequenceData>,
>
    decreases chunks.len() - from,
{
    if from < 0 || from >= chunks.len() {
        None
    } else {
        match chunks[from] {
            PCMAudioTrackChunkView::SequenceData(sequence) => Some(sequence),
            _ => first_sequence(chunks, from + 1),
        }
    }
}

/// The first wave numbered `number` among a track's chunks from `from` on.
pub open spec fn track_wave(chunks: Seq<PCMAudioTrackChunkView>, number: u8, from: int) -> Option<
    Seq<u8>,
>
    decreases chunks.len() - from,
{
    if from < 0 || from >= chunks.len() {
        None
    } else {
        match chunks[from] {
            PCMAudioTrackChunkView::WaveData(entry, data) => if entry == number {
                Some(data)
            } else {
                track_wave(chunks, number, from + 1)
            },
            _ => track_wave(chunks, number, from + 1),
        }
    }
}

/// The decoded samples of a track's wave, where it holds one of that number that
/// can be decoded.
pub open spec fn playable_wave(track: PCMAudioTrackView, number: u8) -> Option<Seq<i16>> {
    match track_wave(track.chunks, number, 0) {
        None => None,
        Some(data) => decoded_track_wave(track, data),
    }
}

/// The list entry of an audio channel.
pub open spec fn pcm_entry(channel: u8) -> int {
    if channel < 3 {
        channel as int
    } else {
        3
    }
}

/// The progress after one more event, at `before.now`.
pub open spec fn after_pcm_event(
    track: PCMAudioTrackView,
    before: PcmProgress,
    event: PCMAudioSequenceEvent,
) -> PcmProgress {
    match event {
        PCMAudioSequenceEvent::WaveMessage { channel, wave_number, gate_time } => {
            match playable_wave(track, wave_number) {
                None => before,
                Some(samples) => {
                    let channels = layout_channels(track.channel);
                    let rate = track.sampling_freq as u32;
                    let data = gated(samples, channels, rate, gate_time, track.timebase_g);
                    let entry = pcm_entry(channel);
                    let dynamics = WaveDynamics {
                        velocity: 127,
                        volume: before.volume[entry],
                        expression: before.expression[entry],
                        pan: if before.pan_explicit[entry] {
                            Some(before.pan[entry])
                        } else {
                            None
                        },
                    };
                    PcmProgress {
                        sounding: later(
                            before.sounding,
                            capped(
                                (before.now + duration_ms(
                                    data.len() as int,
                                    channels,
                                    rate,
                                )) as int,
                            ),
                        ),
                        events: before.events + seq![
                            (
                                before.now,
                                SmafEventView::Wave {
                                    channels,
                                    sampling_rate: rate,
                                    data,
                                    dynamics,
                                },
                            ),
                        ],
                        ..before
                    }
                },
            }
        },
        PCMAudioSequenceEvent::Volume { channel, value } => PcmProgress {
            volume: before.volume.update(pcm_entry(channel), least(value, 127)),
            ..before
        },
        PCMAudioSequenceEvent::Expression { channel, value } => PcmProgress {
            expression: before.expression.update(pcm_entry(channel), least(value, 127)),
            ..before
        },
        PCMAudioSequenceEvent::Pan { channel, value } => PcmProgress {
            pan: before.pan.update(pcm_entry(channel), least(value, 127)),
            pan_explicit: before.pan_explicit.update(pcm_entry(channel), true),
            ..before
        },
        PCMAudioSequenceEvent::PitchBend { .. } => before,
        PCMAudioSequenceEvent::Nop => before,
        PCMAudioSequenceEvent::Exclusive => before,
    }
}

/// The progress after the first `count` entries of a PCM audio sequence.
pub open spec fn pcm_progress(
    track: PCMAudioTrackView,
    sequence: Seq<PCMAudioSequenceData>,
    count: nat,
) -> PcmProgress
    decreases count,
{
    if count == 0 {
        start_of_pcm()
    } else {
        let before = pcm_progress(track, sequence, (count - 1) as nat);
        let entry = sequence[count - 1];
        let time = advanced(before.now, entry.duration, track.timebase_d);
        after_pcm_event(
            track,
            PcmProgress { now: time, sounding: later(before.sounding, time), ..before },
            entry.event,
        )
    }
}

/// What a PCM audio track plays: the waves of its first sequence, closed by an
/// end marker when the last one has ended.  A track without sequence is empty.
pub open spec fn pcm_track_events(track: PCMAudioTrackView) -> Seq<TimedEvent> {
    match first_sequence(track.chunks, 0) {
        None => Seq::empty(),
        Some(sequence) => {
            let done = pcm_progress(track, sequence, sequence.len());
            done.events.push((later(done.sounding, done.now), SmafEventView::End))
        },
    }
}

fn find_sequence<'b, 'a>(chunks: &'b [PCMAudioTrackChunk<'a>]) -> (sequence: Option<
    &'b [PCMAudioSequenceData],
>)
    ensures
        match first_sequence(chunks@.map_values(|chunk: PCMAudioTrackChunk<'a>| chunk@), 0) {
            None => sequence is None,
            Some(entries) => sequence is Some && sequence.unwrap()@ == entries,
        },
{
    let ghost views = chunks@.map_values(|chunk: PCMAudioTrackChunk<'a>| chunk@);
    let mut i: usize = 0;
    while i < chunks.len()
        invariant
            i <= chunks.len(),
            views == chunks@.map_values(|chunk: PCMAudioTrackChunk<'a>| chunk@),
            first_sequence(views, 0) == first_sequence(views, i as int),
        decreases chunks.len() - i,
    {
        if let PCMAudioTrackChunk::SequenceData(sequence) = &chunks[i] {
            return Some(sequence.as_slice());
        }
        i += 1;
    }
    None
}

fn find_track_wave<'b, 'a>(chunks: &'b [PCMAudioTrackChunk<'a>], number: u8) -> (wave: Option<
    &'a [u8],
>)
    ensures
        match track_wave(chunks@.map_values(|chunk: PCMAudioTrackChunk<'a>| chunk@), number, 0) {
            None => wave is None,
            Some(data) => wave is Some && wave.unwrap()@ == data,
        },
{
    let ghost views = chunks@.map_values(|chunk: PCMAudioTrackChunk<'a>| chunk@);
    let mut i: usize = 0;
    while i < chunks.len()
        invariant
            i <= chunks.len(),
            views == chunks@.map_values(|chunk: PCMAudioTrackChunk<'a>| chunk@),
            track_wave(views, number, 0) == track_wave(views, number, i as int),
        decreases chunks.len() - i,
    {
        assert(views[i as int] == chunks@[i as int]@);
        if let PCMAudioTrackChunk::WaveData(entry, data) = &chunks[i] {
            if *entry == number {
                return Some(*data);
            }
        }
        i += 1;
    }
    None
}

fn decode_numbered(track: &PCMAudioTrack<'_>, number: u8) -> (samples: Option<Vec<i16>>)
    ensures
        samples is Some <==> playable_wave(track@, number) is Some,
        samples matches Some(decoded) ==> playable_wave(track@, number) == Some(decoded@),
{
    match find_track_wave(track.chunks.as_slice(), number) {
        Some(data) => decode_pcm_audio_track_wave(track, data),
        None => None,
    }
}

fn channel_index(channel: u8) -> (entry: usize)
    ensures
        entry == pcm_entry(channel),
        entry < 4,
{
    if channel < 3 {
        channel as usize
    } else {
        3
    }
}

fn bounded(value: u8) -> (number: u8)
    ensures
        number == least(value, 127),
{
    if value < 127 {
        value
    } else {
        127
    }
}

/// Plays a PCM audio track.
///
/// PCM Audio Track control messages are local to its four audio channels.
/// Unlike Mobile Standard note velocity, WaveMessage has no velocity field, so
/// it uses unity velocity and the authored Volume/Expression/Pan state.  Pitch
/// Bend for sampled audio would need resampling and is not applied.
pub fn parse_pcm_audio_track_events(track: &PCMAudioTrack<'_>) -> (events: Vec<(usize, SmafEvent)>)
    ensures
        timed(events@) == pcm_track_events(track@),
{
    let mut result: Vec<(usize, SmafEvent)> = Vec::new();
    assert(timed(result@) =~= Seq::empty());
    let sequence_data = match find_sequence(track.chunks.as_slice()) {
        Some(sequence_data) => sequence_data,
        None => return result,
    };
    let mut now: usize = 0;
    let mut playback_end: usize = 0;
    let mut volume = [127u8;4];
    let mut expression = [127u8;4];
    let mut pan = [64u8;4];
    let mut pan_explicit = [false;4];
    let mut i: usize = 0;
    assert(start_of_pcm() =~= (PcmProgress {
        volume: volume@,
        expression: expression@,
        pan: pan@,
        pan_explicit: pan_explicit@,
        now: 0,
        sounding: 0,
        events: timed(result@),
    }));
    while i < sequence_data.len()
        invariant
            i <= sequence_data.len(),
            pcm_progress(track@, sequence_data@, i as nat) =~= (PcmProgress {
                volume: volume@,
                expression: expression@,
                pan: pan@,
                pan_explicit: pan_explicit@,
                now: now as nat,
                sounding: playback_end as nat,
                events: timed(result@),
            }),
        decreases sequence_data.len() - i,
    {
        let entry = &sequence_data[i];
        now = now.saturating_add(
            capped_product(entry.duration as usize, track.timebase_d as usize),
        );
        if now > playback_end {
            playback_end = now;
        }
        match entry.event {
            PCMAudioSequenceEvent::WaveMessage { channel, wave_number, gate_time } => {
                if let Some(mut decoded) = decode_numbered(track, wave_number) {
                    let channels = channel_count(track.channel);
                    let rate = track.sampling_freq as u32;
                    trim_to_gate(&mut decoded, channels, rate, gate_time, track.timebase_g);
                    let wave_ms = decoded_duration_ms(decoded.len(), channels, rate);
                    let until = now.saturating_add(wave_ms);
                    if until > playback_end {
                        playback_end = until;
                    }
                    let index = channel_index(channel);
                    let dynamics = WaveDynamics {
                        velocity: 127,
                        volume: volume[index],
                        expression: expression[index],
                        pan: if pan_explicit[index] {
                            Some(pan[index])
                        } else {
                            None
                        },
                    };
                    let event = SmafEvent::Wave {
                        channels,
                        sampling_rate: rate,
                        data: decoded,
                        dynamics,
                    };
                    proof {
                        lemma_timed_push(result@, now, event);
                    }
                    result.push((now, event));
                }
            },
            PCMAudioSequenceEvent::Volume { channel, value } => {
                volume[channel_index(channel)] = bounded(value);
            },
            PCMAudioSequenceEvent::Expression { channel, value } => {
                expression[channel_index(channel)] = bounded(value);
            },
            PCMAudioSequenceEvent::Pan { channel, value } => {
                let index = channel_index(channel);
                pan[index] = bounded(value);
                pan_explicit[index] = true;
            },
            PCMAudioSequenceEvent::PitchBend { .. } | PCMAudioSequenceEvent::Nop
            | PCMAudioSequenceEvent::Exclusive => {},
        }
        i += 1;
    }
    let end: usize = if playback_end > now {
        playback_end
    } else {
        now
    };
    proof {
        lemma_timed_push(result@, end, SmafEvent::End);
        assert(timed(result@).push((end as nat, SmafEventView::End)) =~= timed(result@) + seq![
            (end as nat, SmafEventView::End),
        ]);
    }
    result.push((end, SmafEvent::End));
    result
}

proof fn lemma_pcm_progress(
    track: PCMAudioTrackView,
    sequence: Seq<PCMAudioSequenceData>,
    count: nat,
)
    ensures
        ({
            let progress = pcm_progress(track, sequence, count);
            &&& progress.volume.len() == 4 && data_bytes(progress.volume)
            &&& progress.expression.len() == 4 && data_bytes(progress.expression)
            &&& progress.pan.len() == 4 && data_bytes(progress.pan)
            &&& progress.pan_explicit.len() == 4
            &&& progress.now <= progress.sounding <= usize::MAX
            &&& sounds_within(progress.events, 0, progress.sounding)
            &&& in_written_order(progress.events, progress.now)
            &&& all_well_formed(progress.events)
            &&& only_waves(progress.events)
        }),
    decreases count,
{
    if count > 0 {
        let before = pcm_progress(track, sequence, (count - 1) as nat);
        let entry = sequence[count - 1];
        let time = advanced(before.now, entry.duration, track.timebase_d);
        lemma_pcm_progress(track, sequence, (count - 1) as nat);
        assert(before.now <= time) by (nonlinear_arith)
            requires
                time == capped((before.now + capped(entry.duration * track.timebase_d)) as int),
                before.now <= usize::MAX,
        ;
    }
}

/// Whether all events of a list are waves.
pub open spec fn only_waves(events: Seq<TimedEvent>) -> bool {
    forall|i: int| 0 <= i < events.len() ==> #[trigger] events[i].1 is Wave
}

proof fn lemma_waves_release_nothing(events: Seq<TimedEvent>, channel: u8, note: u8)
    requires
        only_waves(events),
    ensures
        left_sounding(events, channel, note) == 0,
    decreases events.len(),
{
    if events.len() > 0 {
        lemma_waves_release_nothing(events.drop_last(), channel, note);
        assert(events[events.len() - 1].1 is Wave);
    }
}

/// A PCM audio track plays nothing, or waves in the order in which they were
/// written, closed by one end marker at or behind the time of all of them.
pub proof fn law_pcm_tracks_are_sound(track: PCMAudioTrackView)
    ensures
        ({
            let events = pcm_track_events(track);
            &&& all_well_formed(events)
            &&& all_released(events)
            &&& events.len() == 0 || {
                &&& events.last().1 is End
                &&& only_waves(events.drop_last())
                &&& sounds_within(events.drop_last(), 0, events.last().0)
                &&& in_written_order(events, events.last().0)
            }
        }),
{
    if let Some(sequence) = first_sequence(track.chunks, 0) {
        let done = pcm_progress(track, sequence, sequence.len());
        lemma_pcm_progress(track, sequence, sequence.len());
        let events = pcm_track_events(track);
        assert(events.drop_last() =~= done.events);
        assert forall|channel: u8, note: u8| #[trigger] left_sounding(
            events,
            channel,
            note,
        ) == 0 by {
            lemma_waves_release_nothing(done.events, channel, note);
        }
    }
}

/// Whether a chunk is a wave of this number.
pub open spec fn is_wave_numbered(chunk: PCMAudioTrackChunkView, number: u8) -> bool {
    chunk matches PCMAudioTrackChunkView::WaveData(entry, _) && entry == number
}

/// The wave that a number names is that of a chunk with the number before which no chunk
/// has it; there is none where no chunk has the number.
pub proof fn law_track_waves_are_found_by_number(
    chunks: Seq<PCMAudioTrackChunkView>,
    number: u8,
)
    ensures
        match track_wave(chunks, number, 0) {
            Some(data) => exists|i: int|
                0 <= i < chunks.len() && #[trigger] chunks[i] == PCMAudioTrackChunkView::WaveData(
                    number,
                    data,
                ) && forall|j: int| 0 <= j < i ==> !is_wave_numbered(#[trigger] chunks[j], number),
            None => forall|j: int|
                0 <= j < chunks.len() ==> !is_wave_numbered(#[trigger] chunks[j], number),
        },
{
    let _ = lemma_track_wave(chunks, number, 0);
}

proof fn lemma_track_wave(
    chunks: Seq<PCMAudioTrackChunkView>,
    number: u8,
    from: int,
) -> (at: int)
    requires
        0 <= from <= chunks.len(),
    ensures
        match track_wave(chunks, number, from) {
            Some(data) => from <= at < chunks.len() && chunks[at]
                == PCMAudioTrackChunkView::WaveData(number, data) && forall|j: int|
                from <= j < at ==> !is_wave_numbered(#[trigger] chunks[j], number),
            None => forall|j: int|
                from <= j < chunks.len() ==> !is_wave_numbered(#[trigger] chunks[j], number),
        },
    decreases chunks.len() - from,
{
    if from >= chunks.len() {
        from
    } else if is_wave_numbered(chunks[from], number) {
        from
    } else {
        lemma_track_wave(chunks, number, from + 1)
    }
}

/// The sequence that a track plays is that of its first sequence chunk; without one it
/// plays nothing at all, not even an end.
pub proof fn law_tracks_play_their_first_sequence(track: PCMAudioTrackView)
    ensures
        match first_sequence(track.chunks, 0) {
            Some(sequence) => pcm_track_events(track).len() > 0 && exists|i: int|
                0 <= i < track.chunks.len() && #[trigger] track.chunks[i]
                    == PCMAudioTrackChunkView::SequenceData(sequence) && forall|j: int|
                    0 <= j < i ==> !((#[trigger] track.chunks[j]) is SequenceData),
            None => pcm_track_events(track).len() == 0 && forall|j: int|
                0 <= j < track.chunks.len() ==> !((#[trigger] track.chunks[j]) is SequenceData),
        },
{
    let _ = lemma_first_sequence(track.chunks, 0);
}

proof fn lemma_first_sequence(chunks: Seq<PCMAudioTrackChunkView>, from: int) -> (at: int)
    requires
        0 <= from <= chunks.len(),
    ensures
        match first_sequence(chunks, from) {
            Some(sequence) => from <= at < chunks.len() && chunks[at]
                == PCMAudioTrackChunkView::SequenceData(sequence) && forall|j: int|
                from <= j < at ==> !((#[trigger] chunks[j]) is SequenceData),
            None => forall|j: int|
                from <= j < chunks.len() ==> !((#[trigger] chunks[j]) is SequenceData),
        },
    decreases chunks.len() - from,
{
    if from >= chunks.len() {
        from
    } else if chunks[from] is SequenceData {
        from
    } else {
        lemma_first_sequence(chunks, from + 1)
    }
}

/// The chunk that a wave message plays: the first one with the message's number, at the
/// index that `at` gives.
pub open spec fn plays_chunk(chunks: Seq<PCMAudioTrackChunkView>, number: u8, at: int) -> bool {
    &&& 0 <= at < chunks.len()
    &&& is_wave_numbered(chunks[at], number)
    &&& forall|j: int| 0 <= j < at ==> !is_wave_numbered(#[trigger] chunks[j], number)
}

/// A wave message plays one wave, now: the start of what the first chunk with its number
/// decodes to, in the layout and at the rate of the track, at full velocity, with the
/// volume and expression of its channel and with a pan only where one was set.  Where no
/// chunk has the number, or the chunk cannot be decoded, it plays nothing.
pub proof fn law_wave_messages_play_their_wave(
    track: PCMAudioTrackView,
    before: PcmProgress,
    channel: u8,
    wave_number: u8,
    gate_time: u32,
    at: int,
)
    requires
        channel < 4,
    ensures
        ({
            let after = after_pcm_event(
                track,
                before,
                PCMAudioSequenceEvent::WaveMessage { channel, wave_number, gate_time },
            );
            let c = channel as int;
            &&& (forall|j: int|
                0 <= j < track.chunks.len() ==> !is_wave_numbered(
                    #[trigger] track.chunks[j],
                    wave_number,
                )) ==> after == before
            &&& plays_chunk(track.chunks, wave_number, at) ==> match decoded_track_wave(
                track,
                track.chunks[at]->WaveData_1,
            ) {
                None => after == before,
                Some(samples) => {
                    &&& after.events.len() == before.events.len() + 1
                    &&& after.events.drop_last() == before.events
                    &&& after.events.last().0 == before.now
                    &&& after.events.last().1 matches SmafEventView::Wave {
                        channels,
                        sampling_rate,
                        data,
                        dynamics,
                    } && {
                        &&& channels == 1 <==> track.channel is Mono
                        &&& channels == 2 <==> track.channel is Stereo
                        &&& sampling_rate == track.sampling_freq
                        &&& data == gated(
                            samples,
                            channels,
                            sampling_rate,
                            gate_time,
                            track.timebase_g,
                        )
                        &&& dynamics.velocity == 127
                        &&& dynamics.volume == before.volume[c]
                        &&& dynamics.expression == before.expression[c]
                        &&& dynamics.pan is Some <==> before.pan_explicit[c]
                        &&& dynamics.pan matches Some(pan) ==> pan == before.pan[c]
                        &&& after.sounding >= before.sounding
                        &&& ({
                            let end = before.now + duration_ms(
                                data.len() as int,
                                channels,
                                sampling_rate,
                            );
                            &&& end <= usize::MAX ==> after.sounding >= end
                            &&& after.sounding == before.sounding || after.sounding <= end
                        })
                    }
                    &&& after.now == before.now
                    &&& after.volume == before.volume
                    &&& after.expression == before.expression
                    &&& after.pan == before.pan
                    &&& after.pan_explicit == before.pan_explicit
                },
            }
        }),
{
    let found = lemma_track_wave(track.chunks, wave_number, 0);
    if plays_chunk(track.chunks, wave_number, at) {
        assert(!is_wave_numbered(track.chunks[at], wave_number) || found <= at);
        if found < at {
            assert(!is_wave_numbered(track.chunks[found], wave_number));
        }
        let after = after_pcm_event(
            track,
            before,
            PCMAudioSequenceEvent::WaveMessage { channel, wave_number, gate_time },
        );
        if playable_wave(track, wave_number) is Some {
            assert(after.events.drop_last() =~= before.events);
        }
    }
}

/// Volume, expression and pan of an audio channel are set to the number that is written,
/// 127 at most, on that channel alone, and nothing is played; pitch bends, exclusive
/// messages and empty events change nothing.
pub proof fn law_settings_stay_on_their_channel(
    track: PCMAudioTrackView,
    before: PcmProgress,
    channel: u8,
    value: u8,
    other: int,
)
    requires
        channel < 4,
        0 <= other < 4,
        before.volume.len() == 4,
        before.expression.len() == 4,
        before.pan.len() == 4,
        before.pan_explicit.len() == 4,
    ensures
        ({
            let bounded: u8 = if value <= 127 {
                value
            } else {
                127
            };
            let louder = after_pcm_event(
                track,
                before,
                PCMAudioSequenceEvent::Volume { channel, value },
            );
            let pressed = after_pcm_event(
                track,
                before,
                PCMAudioSequenceEvent::Expression { channel, value },
            );
            let moved = after_pcm_event(
                track,
                before,
                PCMAudioSequenceEvent::Pan { channel, value },
            );
            &&& louder.volume[other] == (if other == channel {
                bounded
            } else {
                before.volume[other]
            })
            &&& louder == (PcmProgress { volume: louder.volume, ..before })
            &&& pressed.expression[other] == (if other == channel {
                bounded
            } else {
                before.expression[other]
            })
            &&& pressed == (PcmProgress { expression: pressed.expression, ..before })
            &&& moved.pan[other] == (if other == channel {
                bounded
            } else {
                before.pan[other]
            })
            &&& moved.pan_explicit[other] == (other == channel || before.pan_explicit[other])
            &&& moved == (PcmProgress {
                pan: moved.pan,
                pan_explicit: moved.pan_explicit,
                ..before
            })
            &&& after_pcm_event(
                track,
                before,
                PCMAudioSequenceEvent::PitchBend { channel, value },
            ) == before
            &&& after_pcm_event(track, before, PCMAudioSequenceEvent::Exclusive) == before
            &&& after_pcm_event(track, before, PCMAudioSequenceEvent::Nop) == before
        }),
{
}

/// A sequence starts at time zero, in full volume and expression and without a pan; each
/// entry comes its duration in units of the time base behind the one before, and plays
/// at that time.
pub proof fn law_pcm_entries_follow_their_durations(
    track: PCMAudioTrackView,
    sequence: Seq<PCMAudioSequenceData>,
    count: nat,
    channel: int,
)
    requires
        0 <= channel < 4,
        count < sequence.len(),
        pcm_progress(track, sequence, count).now + sequence[count as int].duration
            * track.timebase_d <= usize::MAX,
    ensures
        pcm_progress(track, sequence, 0).now == 0,
        pcm_progress(track, sequence, 0).events.len() == 0,
        pcm_progress(track, sequence, 0).volume[channel] == 127,
        pcm_progress(track, sequence, 0).expression[channel] == 127,
        !pcm_progress(track, sequence, 0).pan_explicit[channel],
        pcm_progress(track, sequence, count + 1).now == pcm_progress(track, sequence, count).now
            + sequence[count as int].duration * track.timebase_d,
        ({
            let before = pcm_progress(track, sequence, count);
            let after = pcm_progress(track, sequence, count + 1);
            &&& after.events == before.events || after.events.len() == before.events.len() + 1
                && after.events.last().0 == after.now && after.events.drop_last() == before.events
            &&& after.events != before.events ==> sequence[count as int].event is WaveMessage
        }),
{
    let before = pcm_progress(track, sequence, count);
    let after = pcm_progress(track, sequence, count + 1);
    assert(sequence[count as int].duration * track.timebase_d >= 0) by (nonlinear_arith);
    assert(after.events == before.events || after.events.drop_last() =~= before.events);
}

/// The end marker of a track comes when its last entry is past and its last wave has
/// ended, whichever is later.
pub proof fn law_pcm_tracks_end_behind_their_last_wave(
    track: PCMAudioTrackView,
    sequence: Seq<PCMAudioSequenceData>,
)
    requires
        first_sequence(track.chunks, 0) == Some(sequence),
    ensures
        ({
            let done = pcm_progress(track, sequence, sequence.len());
            let end = pcm_track_events(track).last();
            &&& end.1 is End
            &&& end.0 >= done.now && end.0 >= done.sounding
            &&& end.0 == done.now || end.0 == done.sounding
            &&& pcm_track_events(track).drop_last() == done.events
        }),
{
    let done = pcm_progress(track, sequence, sequence.len());
    assert(pcm_track_events(track).drop_last() =~= done.events);
}

/// An audio channel past the fourth counts as the fourth.
pub proof fn law_later_channels_count_as_the_fourth(
    track: PCMAudioTrackView,
    before: PcmProgress,
    channel: u8,
    number: u8,
    gate_time: u32,
)
    requires
        channel >= 3,
    ensures
        after_pcm_event(track, before, PCMAudioSequenceEvent::Volume { channel, value: number })
            == after_pcm_event(
            track,
            before,
            PCMAudioSequenceEvent::Volume { channel: 3, value: number },
        ),
        after_pcm_event(track, before, PCMAudioSequenceEvent::Expression { channel, value: number })
            == after_pcm_event(
            track,
            before,
            PCMAudioSequenceEvent::Expression { channel: 3, value: number },
        ),
        after_pcm_event(track, before, PCMAudioSequenceEvent::Pan { channel, value: number })
            == after_pcm_event(
            track,
            before,
            PCMAudioSequenceEvent::Pan { channel: 3, value: number },
        ),
        after_pcm_event(
            track,
            before,
            PCMAudioSequenceEvent::WaveMessage { channel, wave_number: number, gate_time },
        ) == after_pcm_event(
            track,
            before,
            PCMAudioSequenceEvent::WaveMessage { channel: 3, wave_number: number, gate_time },
        ),
{
}

} // verus!
