//! From a file's chunks to its playback events.
use crate::container::{
    chunk_views, score_entries, wave_entries, ChannelStatus, FormatType, PCMDataChunk,
    ScoreTrackChunkView, ScoreTrackSequenceEventView, ScoreTrackView, SequenceData,
    SequenceDataView, SmafChunk, SmafChunkView,
};
use crate::events::{
    left_sounding, lemma_timed_append, timed, SmafEvent, SmafEventView, TimedEvent,
};
use crate::order::{
    all_sounded, finish_events, finished, latest, law_finished_lists_add_nothing,
    law_finished_lists_drop_nothing, law_finished_lists_end_once, law_finished_lists_keep_notes,
    law_order_follows_time_and_class, law_order_is_a_stable_permutation,
    lemma_closed_list_has_sounded, without_ends,
};
use crate::pcm_track::{law_pcm_tracks_are_sound, parse_pcm_audio_track_events, pcm_track_events};
use crate::readable::{file_reading, read_through, Reading};
use crate::reader::{parsed_chunks, read_chunks};
use crate::score::{
    law_score_tracks_are_sound, law_score_tracks_can_be_played, law_single_sequences_are_tracks,
    lemma_closed_lists_have_sounded, lemma_lists_joined, score_result, track_fits,
    try_parse_score_track_events,
};
use crate::sequence::{
    all_released, all_well_formed, event_channel, law_sequences_are_sound,
    law_sequences_can_be_played, next_offset, on_low_channel, sequence_fits, sequence_result,
    sounded_by, try_parse_sequence_events, well_formed, Setting,
};
use crate::tone_map::{law_tracks_start_valid, ToneMap, ToneMapView};
use vstd::prelude::*;

verus! {

/// How far a file has come: the channel state that its Handy Phone tracks share,
/// the channel offset of the next one, and the events so far.
#[verifier::ext_equal]
pub struct FileProgress {
    pub tone: ToneMapView,
    pub offset: u8,
    pub events: Seq<TimedEvent>,
}

/// What a Softbank sequence is played with.
pub open spec fn softbank_setting(offset: u8) -> Setting {
    Setting {
        timebase_g: 20,
        channel_offset: offset,
        use_channel_offset: true,
        waves: Seq::empty(),
    }
}

/// What a Softbank sequence plays: as the sequence of a Handy Phone track with
/// melody channels only and a time base of 20 ms.
pub open spec fn softbank_result(sequence: Seq<SequenceDataView>, offset: u8) -> Option<
    Seq<TimedEvent>,
> {
    let tone = ToneMapView::fresh().init_track(
        FormatType::HandyPhoneStandard,
        Seq::empty(),
        offset,
    );
    match sequence_result(softbank_setting(offset), 20, tone, sequence) {
        None => None,
        Some((_, events)) => Some(events),
    }
}

/// The progress after one more chunk.
pub open spec fn after_chunk(before: FileProgress, chunk: SmafChunkView) -> Option<FileProgress> {
    match chunk {
        SmafChunkView::ScoreTrack(track) => match score_result(before.tone, track, before.offset) {
            None => None,
            Some((tone, events)) => Some(
                FileProgress {
                    tone,
                    offset: next_offset(
                        before.offset,
                        track.format_type == FormatType::HandyPhoneStandard,
                    ),
                    events: before.events + events,
                },
            ),
        },
        SmafChunkView::PCMAudioTrack(track) => Some(
            FileProgress { events: before.events + pcm_track_events(track), ..before },
        ),
        SmafChunkView::SoftbankSequenceData(sequence) => match softbank_result(
            sequence,
            before.offset,
        ) {
            None => None,
            Some(events) => Some(
                FileProgress {
                    offset: next_offset(before.offset, true),
                    events: before.events + events,
                    ..before
                },
            ),
        },
        SmafChunkView::Other => Some(before),
    }
}

/// The progress after the first `count` chunks of a file.
pub open spec fn file_progress(chunks: Seq<SmafChunkView>, count: nat) -> Option<FileProgress>
    decreases count,
{
    if count == 0 {
        Some(FileProgress { tone: ToneMapView::fresh(), offset: 0, events: Seq::empty() })
    } else {
        match file_progress(chunks, (count - 1) as nat) {
            None => None,
            Some(before) => after_chunk(before, chunks[count - 1]),
        }
    }
}

/// What a file plays.  None where a track cannot be played to its end.
pub open spec fn file_events(chunks: Seq<SmafChunkView>) -> Option<Seq<TimedEvent>> {
    match file_progress(chunks, chunks.len()) {
        None => None,
        Some(done) => Some(finished(done.events)),
    }
}

fn play_softbank(sequence: &Vec<SequenceData>, offset: u8) -> (events: Option<
    Vec<(usize, SmafEvent)>,
>)
    ensures
        match softbank_result(score_entries(sequence@), offset) {
            None => events is None,
            Some(played) => events is Some && timed(events.unwrap()@) == played,
        },
{
    let statuses: &[ChannelStatus] = &[];
    let waves: &[PCMDataChunk<'_>] = &[];
    assert(statuses@ =~= Seq::empty());
    assert(wave_entries(waves@) =~= Seq::empty());
    let mut tone_map = ToneMap::new();
    tone_map.init_track(FormatType::HandyPhoneStandard, statuses, offset);
    let sequence = sequence.as_slice();
    match try_parse_sequence_events(sequence, 20, 20, offset, true, waves, &mut tone_map) {
        Some((events, _)) => Some(events),
        None => None,
    }
}

/// Plays one more chunk of a file; false where it cannot be played to its end.
fn play_chunk(
    chunk: &SmafChunk<'_>,
    tone_map: &mut ToneMap,
    offset: &mut u8,
    result: &mut Vec<(usize, SmafEvent)>,
) -> (played: bool)
    ensures
        match after_chunk(
            FileProgress {
                tone: old(tone_map)@,
                offset: *old(offset),
                events: timed(old(result)@),
            },
            chunk@,
        ) {
            None => !played,
            Some(after) => played && after == (FileProgress {
                tone: final(tone_map)@,
                offset: *final(offset),
                events: timed(final(result)@),
            }),
        },
{
    match chunk {
        SmafChunk::ScoreTrack(track) => {
            match try_parse_score_track_events(track, *offset, tone_map) {
                Some((mut events, next)) => {
                    proof {
                        lemma_timed_append(result@, events@);
                    }
                    result.append(&mut events);
                    *offset = next;
                    true
                },
                None => false,
            }
        },
        SmafChunk::PCMAudioTrack(track) => {
            let mut events = parse_pcm_audio_track_events(track);
            proof {
                lemma_timed_append(result@, events@);
            }
            result.append(&mut events);
            true
        },
        SmafChunk::SoftbankSequenceData(sequence) => {
            match play_softbank(sequence, *offset) {
                Some(mut events) => {
                    proof {
                        lemma_timed_append(result@, events@);
                    }
                    result.append(&mut events);
                    *offset = offset.saturating_add(4);
                    true
                },
                None => false,
            }
        },
        SmafChunk::Other => true,
    }
}

/// Once a file has stopped, it stays stopped.
proof fn lemma_file_stops(chunks: Seq<SmafChunkView>, at: nat, count: nat)
    requires
        at <= count,
        file_progress(chunks, at) is None,
    ensures
        file_progress(chunks, count) is None,
    decreases count,
{
    if at < count {
        lemma_file_stops(chunks, at, (count - 1) as nat);
    }
}

/// Plays a file: the events of its tracks in playing order, closed by one end
/// marker.  None where a track cannot be played to its end.
pub fn try_play_file(chunks: &[SmafChunk<'_>]) -> (events: Option<Vec<(usize, SmafEvent)>>)
    ensures
        match file_events(chunk_views(chunks@)) {
            None => events is None,
            Some(played) => events is Some && timed(events.unwrap()@) == played,
        },
{
    let ghost views = chunk_views(chunks@);
    let mut result: Vec<(usize, SmafEvent)> = Vec::new();
    let mut handy_channel_offset: u8 = 0;
    let mut handy_tone_map = ToneMap::new();
    let mut i: usize = 0;
    assert(timed(result@) =~= Seq::empty());
    while i < chunks.len()
        invariant
            i <= chunks.len(),
            views == chunk_views(chunks@),
            file_progress(views, i as nat) == Some(
                FileProgress {
                    tone: handy_tone_map@,
                    offset: handy_channel_offset,
                    events: timed(result@),
                },
            ),
        decreases chunks.len() - i,
    {
        assert(views[i as int] == chunks@[i as int]@);
        if !play_chunk(&chunks[i], &mut handy_tone_map, &mut handy_channel_offset, &mut result) {
            proof {
                lemma_file_stops(views, (i + 1) as nat, views.len());
            }
            return None;
        }
        i += 1;
    }
    Some(finish_events(result))
}

/// What the bytes of a file play: nothing where they are no SMAF file.  None
/// where a track cannot be played to its end.
pub open spec fn smaf_events(raw: Seq<u8>) -> Option<Seq<TimedEvent>> {
    if file_reading(raw) == Reading::Whole {
        file_events(parsed_chunks(raw))
    } else {
        Some(Seq::empty())
    }
}

/// Plays a file: the events of its tracks in playing order, closed by one end
/// marker; no events at all where the bytes are no SMAF file.
///
/// The bytes must be such that the reader comes to an end on them, and every
/// track must be one that can be played to its end; [`parse_smaf_checked`] plays
/// a file of which neither is known.
pub fn parse_smaf(raw: &[u8]) -> (events: Vec<(usize, SmafEvent)>)
    requires
        file_reading(raw@) != Reading::Stuck,
        smaf_events(raw@) is Some,
    ensures
        smaf_events(raw@) == Some(timed(events@)),
{
    match read_chunks(raw) {
        Some(chunks) => try_play_file(chunks.as_slice()).unwrap(),
        None => {
            let events: Vec<(usize, SmafEvent)> = Vec::new();
            assert(timed(events@) =~= Seq::empty());
            events
        },
    }
}

/// Plays a file of unknown bytes.  None where the reader does not come to an end
/// on them, and where a track cannot be played to its end.
///
/// The short pitch bends 0x14 to 0x1e of Handy Phone sequences count among the
/// former: a 16-bit product overflows in the reader there, which panics where
/// overflow is checked and wraps where it is not.
pub fn parse_smaf_checked(raw: &[u8]) -> (events: Option<Vec<(usize, SmafEvent)>>)
    ensures
        events is Some <==> file_reading(raw@) != Reading::Stuck && smaf_events(raw@) is Some,
        events matches Some(list) ==> smaf_events(raw@) == Some(timed(list@)),
{
    if let Reading::Stuck = read_through(raw) {
        return None;
    }
    if let Some(chunks) = read_chunks(raw) {
        if try_play_file(chunks.as_slice()).is_none() {
            return None;
        }
    }
    Some(parse_smaf(raw))
}

proof fn lemma_file_progress(chunks: Seq<SmafChunkView>, count: nat)
    ensures
        file_progress(chunks, count) matches Some(progress) ==> {
            &&& progress.tone.valid()
            &&& all_well_formed(progress.events)
            &&& all_released(progress.events)
            &&& all_sounded(progress.events)
        },
    decreases count,
{
    law_tracks_start_valid(
        ToneMapView::fresh(),
        FormatType::HandyPhoneStandard,
        Seq::empty(),
        0,
    );
    if count > 0 {
        lemma_file_progress(chunks, (count - 1) as nat);
        if let Some(before) = file_progress(chunks, (count - 1) as nat) {
            match chunks[count - 1] {
                SmafChunkView::ScoreTrack(track) => {
                    law_score_tracks_are_sound(before.tone, track, before.offset);
                    if let Some((_, events)) = score_result(before.tone, track, before.offset) {
                        lemma_lists_joined(before.events, events);
                    }
                },
                SmafChunkView::PCMAudioTrack(track) => {
                    law_pcm_tracks_are_sound(track);
                    if pcm_track_events(track).len() > 0 {
                        lemma_closed_list_has_sounded(pcm_track_events(track));
                    }
                    lemma_lists_joined(before.events, pcm_track_events(track));
                },
                SmafChunkView::SoftbankSequenceData(sequence) => {
                    let tone = ToneMapView::fresh().init_track(
                        FormatType::HandyPhoneStandard,
                        Seq::empty(),
                        before.offset,
                    );
                    let setting = softbank_setting(before.offset);
                    law_tracks_start_valid(
                        ToneMapView::fresh(),
                        FormatType::HandyPhoneStandard,
                        Seq::empty(),
                        before.offset,
                    );
                    law_sequences_are_sound(setting, 20, tone, sequence);
                    lemma_closed_lists_have_sounded(setting, 20, tone, sequence);
                    if let Some(events) = softbank_result(sequence, before.offset) {
                        lemma_lists_joined(before.events, events);
                    }
                },
                SmafChunkView::Other => {},
            }
        }
    } else {
        assert(all_released(Seq::empty()));
    }
}

/// What a file plays ends with its only end marker, when all else has sounded; no
/// event comes before an earlier one; every note that is switched on is switched
/// off; and all numbers are well formed.
pub proof fn law_files_are_sound(chunks: Seq<SmafChunkView>)
    ensures
        file_events(chunks) matches Some(events) ==> {
            &&& events.len() > 0
            &&& events.last().1 is End
            &&& forall|i: int|
                0 <= i < events.len() - 1 ==> !(#[trigger] events[i].1 is End)
            &&& forall|i: int|
                0 <= i < events.len() ==> sounded_by(#[trigger] events[i]) <= events.last().0
            &&& forall|i: int, j: int|
                0 <= i <= j < events.len() ==> #[trigger] events[i].0 <= #[trigger] events[j].0
            &&& all_released(events)
            &&& all_well_formed(events)
        },
{
    lemma_file_progress(chunks, chunks.len());
    if let Some(done) = file_progress(chunks, chunks.len()) {
        let events = finished(done.events);
        let list = without_ends(done.events).push((latest(done.events), SmafEventView::End));
        law_finished_lists_end_once(done.events);
        assert forall|i: int, j: int| 0 <= i <= j < events.len() implies #[trigger] events[i].0
            <= #[trigger] events[j].0 by {
            let _ = law_order_is_a_stable_permutation(list);
            law_order_follows_time_and_class(list, i, j);
        }
        assert forall|i: int| 0 <= i < events.len() implies sounded_by(#[trigger] events[i])
            <= events.last().0 by {
            if i < events.len() - 1 {
                law_finished_lists_add_nothing(done.events, i);
            }
        }
        assert forall|channel: u8, note: u8| #[trigger] left_sounding(
            events,
            channel,
            note,
        ) == 0 by {
            law_finished_lists_keep_notes(done.events, channel, note);
        }
        assert forall|i: int| 0 <= i < events.len() implies well_formed(
            #[trigger] events[i].1,
        ) by {
            if i < events.len() - 1 {
                law_finished_lists_add_nothing(done.events, i);
            }
        }
    }
}

/// Handy Phone tracks and Softbank sequences take four channels each, and other
/// chunks none: behind `count` chunks the next one starts at four times as many
/// channels as there were such, as far as channels count.
pub proof fn law_offsets_count_handy_tracks(chunks: Seq<SmafChunkView>, count: nat)
    requires
        file_progress(chunks, count) is Some,
    ensures
        file_progress(chunks, count).unwrap().offset == offset_behind(chunks, count),
    decreases count,
{
    if count > 0 {
        law_offsets_count_handy_tracks(chunks, (count - 1) as nat);
    }
}

/// How many of the first `count` chunks take channels of their own.
pub open spec fn handy_tracks(chunks: Seq<SmafChunkView>, count: nat) -> nat
    decreases count,
{
    if count == 0 {
        0
    } else {
        handy_tracks(chunks, (count - 1) as nat) + match chunks[count - 1] {
            SmafChunkView::ScoreTrack(track) => if track.format_type
                == FormatType::HandyPhoneStandard {
                1nat
            } else {
                0
            },
            SmafChunkView::SoftbankSequenceData(_) => 1,
            _ => 0,
        }
    }
}

/// The offset of the channels behind the first `count` chunks.
pub open spec fn offset_behind(chunks: Seq<SmafChunkView>, count: nat) -> u8 {
    if 4 * handy_tracks(chunks, count) > 255 {
        255
    } else {
        (4 * handy_tracks(chunks, count)) as u8
    }
}

/// Whether the notes and setup messages of a chunk whose channels start at an
/// offset end where that can be counted and, on Handy Phone channels, its events
/// are within the first sixteen channels of the file.
pub open spec fn chunk_fits(chunk: SmafChunkView, offset: u8) -> bool {
    match chunk {
        SmafChunkView::ScoreTrack(track) => track_fits(track, offset),
        SmafChunkView::SoftbankSequenceData(sequence) => sequence_fits(
            softbank_setting(offset),
            20,
            true,
            sequence,
        ),
        _ => true,
    }
}

/// Whether every chunk of a file fits behind the channels of those before it.
pub open spec fn file_fits(chunks: Seq<SmafChunkView>) -> bool {
    forall|i: int|
        0 <= i < chunks.len() ==> chunk_fits(
            #[trigger] chunks[i],
            offset_behind(chunks, i as nat),
        )
}

/// The first four Handy Phone tracks of a file, with four channels each, are within
/// its first sixteen channels.
pub proof fn law_four_tracks_have_low_channels(
    chunks: Seq<SmafChunkView>,
    count: nat,
    setting: Setting,
    event: ScoreTrackSequenceEventView,
)
    requires
        handy_tracks(chunks, count) < 4,
        setting.channel_offset == offset_behind(chunks, count),
        event_channel(event) matches Some(channel) ==> channel < 4,
    ensures
        on_low_channel(setting, event),
{
}

proof fn lemma_file_is_played(chunks: Seq<SmafChunkView>, count: nat)
    requires
        count <= chunks.len(),
        file_fits(chunks),
    ensures
        file_progress(chunks, count) matches Some(progress) && progress.tone.assignable(),
    decreases count,
{
    if count > 0 {
        let fewer = (count - 1) as nat;
        lemma_file_is_played(chunks, fewer);
        lemma_file_progress(chunks, fewer);
        law_offsets_count_handy_tracks(chunks, fewer);
        let before = file_progress(chunks, fewer).unwrap();
        assert(chunk_fits(chunks[count - 1], before.offset));
        match chunks[count - 1] {
            SmafChunkView::ScoreTrack(track) => {
                law_score_tracks_can_be_played(before.tone, track, before.offset);
            },
            SmafChunkView::SoftbankSequenceData(sequence) => {
                law_tracks_start_valid(
                    ToneMapView::fresh(),
                    FormatType::HandyPhoneStandard,
                    Seq::empty(),
                    before.offset,
                );
                law_sequences_can_be_played(
                    softbank_setting(before.offset),
                    20,
                    ToneMapView::fresh().init_track(
                        FormatType::HandyPhoneStandard,
                        Seq::empty(),
                        before.offset,
                    ),
                    sequence,
                );
            },
            _ => {},
        }
    }
}

/// A file can be played to its end as long as the ends of its notes and setup
/// messages can be counted and the events of its Handy Phone tracks and Softbank
/// sequences are within its first sixteen channels.
pub proof fn law_files_can_be_played(chunks: Seq<SmafChunkView>)
    requires
        file_fits(chunks),
    ensures
        file_events(chunks) is Some,
{
    lemma_file_is_played(chunks, chunks.len());
}

/// Bytes can be played where they are no SMAF file, and where all chunks of the
/// file fit.
pub proof fn law_bytes_can_be_played(raw: Seq<u8>)
    ensures
        file_reading(raw) != Reading::Whole || file_fits(parsed_chunks(raw)) ==> smaf_events(
            raw,
        ) is Some,
{
    if file_reading(raw) == Reading::Whole && file_fits(parsed_chunks(raw)) {
        law_files_can_be_played(parsed_chunks(raw));
    }
}

/// The bytes of a file play nothing exactly where they are no SMAF file.
pub proof fn law_only_other_files_play_nothing(raw: Seq<u8>)
    ensures
        smaf_events(raw) matches Some(events) ==> (events.len() == 0 <==> file_reading(raw)
            != Reading::Whole),
{
    law_files_are_sound(parsed_chunks(raw));
}

/// Bytes that do not start as a SMAF file play nothing.
pub proof fn law_other_files_play_nothing(raw: Seq<u8>)
    requires
        raw.len() < 8 || raw.take(4) != seq![0x4du8, 0x4d, 0x4d, 0x44],
    ensures
        smaf_events(raw) == Some(Seq::<TimedEvent>::empty()),
{
    if raw.len() >= 8 && file_reading(raw) != Reading::Refused {
        assert(raw.take(4) =~= seq![0x4du8, 0x4d, 0x4d, 0x44]);
    }
}

/// A Softbank sequence plays as a Handy Phone track does that has it for its only chunk, no
/// rhythm channels and time bases of 20 ms, on a state of its own.
pub proof fn law_softbank_sequences_are_handy_tracks(
    sequence: Seq<SequenceDataView>,
    track: ScoreTrackView,
    offset: u8,
)
    requires
        track.format_type is HandyPhoneStandard,
        track.timebase_d == 20,
        track.timebase_g == 20,
        track.channel_status.len() == 0,
        track.chunks == seq![ScoreTrackChunkView::SequenceData(sequence)],
    ensures
        match score_result(ToneMapView::fresh(), track, offset) {
            None => softbank_result(sequence, offset) is None,
            Some((_, events)) => softbank_result(sequence, offset) == Some(events),
        },
{
    law_single_sequences_are_tracks(ToneMapView::fresh(), track, sequence, offset);
    assert(track.channel_status =~= Seq::empty());
}

/// The chunks of a file are played in order, from a state before any track: a score track
/// on the state and the channels that the Handy Phone tracks before have left, a PCM audio
/// track and a Softbank sequence without touching that state, and other chunks not at all.
/// Handy Phone tracks and Softbank sequences take four channels.
pub proof fn law_chunks_are_played_in_order(chunks: Seq<SmafChunkView>, count: nat)
    requires
        count < chunks.len(),
    ensures
        file_progress(chunks, 0) matches Some(start) && start.tone == ToneMapView::fresh()
            && start.offset == 0 && start.events.len() == 0,
        file_progress(chunks, count) is None ==> file_progress(chunks, count + 1) is None,
        file_progress(chunks, count) matches Some(before) ==> {
            let after = file_progress(chunks, count + 1);
            match chunks[count as int] {
                SmafChunkView::Other => after == Some(before),
                SmafChunkView::PCMAudioTrack(track) => after matches Some(done) && done.tone
                    == before.tone && done.offset == before.offset && done.events == before.events
                    + pcm_track_events(track),
                SmafChunkView::ScoreTrack(track) => match score_result(
                    before.tone,
                    track,
                    before.offset,
                ) {
                    None => after is None,
                    Some((left, played)) => after matches Some(done) && done.tone == left
                        && done.events == before.events + played && (
                    track.format_type is HandyPhoneStandard && before.offset <= 251 ==> done.offset
                        == before.offset + 4) && (!(track.format_type is HandyPhoneStandard)
                        ==> done.offset == before.offset),
                },
                SmafChunkView::SoftbankSequenceData(sequence) => match softbank_result(
                    sequence,
                    before.offset,
                ) {
                    None => after is None,
                    Some(played) => after matches Some(done) && done.tone == before.tone
                        && done.events == before.events + played && (before.offset <= 251
                        ==> done.offset == before.offset + 4),
                },
            }
        },
{
}

/// A file plays every event of its tracks but for their end markers, no other but its own
/// end marker, and as many.
pub proof fn law_files_play_every_event(chunks: Seq<SmafChunkView>, place: int)
    ensures
        match file_progress(chunks, chunks.len()) {
            None => file_events(chunks) is None,
            Some(done) => file_events(chunks) matches Some(events) && {
                &&& events.len() == done.events.filter(
                    |event: TimedEvent| !(event.1 is End),
                ).len() + 1
                &&& 0 <= place < done.events.len() && !(done.events[place].1 is End)
                    ==> events.contains(done.events[place])
                &&& 0 <= place < events.len() - 1 ==> done.events.contains(events[place])
            },
        },
{
    if let Some(done) = file_progress(chunks, chunks.len()) {
        let events = finished(done.events);
        law_finished_lists_drop_nothing(done.events, place);
        if 0 <= place < done.events.len() && !(done.events[place].1 is End) {
            let i = choose|i: int|
                0 <= i < events.len() - 1 && #[trigger] events[i] == done.events[place];
            assert(events.contains(done.events[place]));
        }
        if 0 <= place < events.len() - 1 {
            law_finished_lists_add_nothing(done.events, place);
            assert(done.events.contains(events[place]));
        }
    }
}

/// The bytes of a file play what all its chunks play.
pub proof fn law_files_play_all_their_chunks(raw: Seq<u8>)
    ensures
        file_reading(raw) == Reading::Whole ==> match file_progress(
            parsed_chunks(raw),
            parsed_chunks(raw).len(),
        ) {
            None => smaf_events(raw) is None,
            Some(done) => smaf_events(raw) == Some(finished(done.events)),
        },
        file_reading(raw) != Reading::Whole ==> smaf_events(raw) == Some(
            Seq::<TimedEvent>::empty(),
        ),
{
}

} // verus!
