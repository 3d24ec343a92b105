//! From the sequence of a score to timed playback events.
use crate::adpcm::clamped;
use crate::container::{
    channel_count, layout_channels, score_entries, wave_entries, FormatType, PCMDataChunk,
    PCMDataChunkView, ScoreTrackSequenceEvent, ScoreTrackSequenceEventView, SequenceData,
    SequenceDataView, WaveData, WaveDataView,
};
use crate::events::{
    framed, law_framed_messages, left_sounding, lemma_left_sounding, lemma_timed_push,
    make_sysex_message, timed, SmafEvent, SmafEventView, TimedEvent,
};
use crate::ma_voice::{
    exclusive_voice, parse_ma_voice_exclusive, MaCustomVoice, MaFmPatch, MaVoiceKey,
};
use crate::tone_map::{
    law_assignment_is_stable, law_bends_and_expressions_are_kept, law_channels_have_entries,
    law_controls_keep_their_value, law_controls_set_one_thing, law_dynamics_are_data_bytes,
    law_folded_volumes, law_low_channels_find_a_midi_channel, law_notes_are_data_bytes,
    law_notes_find_their_number, law_notes_select_waves, law_notes_sound_with_their_velocity,
    law_programs_ask_for_the_channel, law_programs_find_a_midi_channel, law_programs_keep_validity,
    law_programs_reach_their_channel, law_settings_keep_validity, law_voices_are_chosen_by_key,
    midi_number, ToneMap, ToneMapView, MIDI_DRUM_CHANNEL,
};
use crate::waves::{
    capped, capped_product, decode_stream_wave, decoded_duration_ms, decoded_stream_wave,
    duration_ms, find_wave, gated, trim_to_gate, wave_numbered,
};
use vstd::prelude::*;

verus! {

/// What one event of a sequence does: the channel state and the octave shifts
/// that it leaves, the events that it emits, and the time until which it sounds.
#[verifier::ext_equal]
pub struct Effect {
    pub tone: ToneMapView,
    pub octaves: Seq<i8>,
    pub emitted: Seq<TimedEvent>,
    pub until: nat,
}

/// What holds throughout a sequence: the unit of gate times in milliseconds, the
/// channel offset of the track and the waves that notes can select.
pub struct Setting {
    pub timebase_g: u8,
    pub channel_offset: u8,
    pub use_channel_offset: bool,
    pub waves: Seq<PCMDataChunkView>,
}

/// A channel of the file: the track's channel behind the offset, where the
/// track's channels are offset at all.
pub open spec fn shifted_channel(channel: u8, offset: u8, use_offset: bool) -> u8 {
    if !use_offset {
        channel
    } else if channel + offset > 255 {
        255
    } else {
        (channel + offset) as u8
    }
}

/// The entry of a channel among the octave shifts.
pub open spec fn octave_entry(channel: u8) -> int {
    if channel < 63 {
        channel as int
    } else {
        63
    }
}

/// The octaves that an octave shift event stands for; none where it stands for
/// no shift.
pub open spec fn octaves_of(value: u8) -> Option<i8> {
    if value <= 4 {
        Some(value as i8)
    } else if 0x81 <= value <= 0x84 {
        Some((0x80 - value) as i8)
    } else {
        None
    }
}

/// Reads the value of an octave shift event.
pub fn parse_octave_shift(value: u8) -> (octaves: Option<i8>)
    ensures
        octaves == octaves_of(value),
{
    if value <= 4 {
        Some(value as i8)
    } else if 0x81 <= value && value <= 0x84 {
        Some(-((value - 0x80) as i8))
    } else {
        None
    }
}

/// Gate time in milliseconds, capped at the largest `u32`.
pub open spec fn gate_milliseconds(gate_time: u32, timebase_g: u8) -> u32 {
    if gate_time * timebase_g > u32::MAX {
        u32::MAX
    } else {
        (gate_time * timebase_g) as u32
    }
}

fn gate_length(gate_time: u32, timebase_g: u8) -> (milliseconds: u32)
    ensures
        milliseconds == gate_milliseconds(gate_time, timebase_g),
{
    match gate_time.checked_mul(timebase_g as u32) {
        Some(milliseconds) => milliseconds,
        None => u32::MAX,
    }
}

/// An event that changes the channel state only.
pub open spec fn silent(tone: ToneMapView, octaves: Seq<i8>, time: nat) -> Effect {
    Effect { tone, octaves, emitted: Seq::empty(), until: time }
}

/// An event that emits one playback event.
pub open spec fn emitting(
    tone: ToneMapView,
    octaves: Seq<i8>,
    time: nat,
    event: SmafEventView,
) -> Effect {
    Effect { tone, octaves, emitted: seq![(time, event)], until: time }
}

/// A note that selects a wave: the decoded wave, cut at the note's gate time.  A
/// wave that cannot be decoded stays silent.
pub open spec fn wave_effect(
    timebase_g: u8,
    tone: ToneMapView,
    octaves: Seq<i8>,
    time: nat,
    channel: u8,
    velocity: Option<u8>,
    gate_time: u32,
    wave: WaveDataView,
) -> Effect {
    match decoded_stream_wave(wave) {
        None => silent(tone, octaves, time),
        Some(samples) => {
            let channels = layout_channels(wave.channel);
            let rate = wave.sampling_freq as u32;
            let data = gated(samples, channels, rate, gate_time, timebase_g);
            let (remembered, dynamics) = tone.wave_dynamics(channel, velocity);
            Effect {
                tone: remembered,
                octaves,
                emitted: seq![
                    (time, SmafEventView::Wave { channels, sampling_rate: rate, data, dynamics }),
                ],
                until: capped((time + duration_ms(data.len() as int, channels, rate)) as int),
            }
        },
    }
}

/// A note that a file-defined FM voice plays.
pub open spec fn fm_effect(
    timebase_g: u8,
    tone: ToneMapView,
    octaves: Seq<i8>,
    time: nat,
    channel: u8,
    note: u8,
    velocity: Option<u8>,
    gate_time: u32,
    patch: MaFmPatch,
) -> Effect {
    let gate_ms = gate_milliseconds(gate_time, timebase_g);
    let source_note = clamped(note + octaves[octave_entry(channel)] * 12, 0, 127) as u8;
    let (remembered, fm_note) = tone.fm_note(channel, source_note, velocity, gate_ms, patch);
    Effect {
        tone: remembered,
        octaves,
        emitted: seq![(time, SmafEventView::MaFmNote(fm_note))],
        until: capped(time + gate_ms),
    }
}

/// A note that a MIDI port plays: a note-on, and a note-off behind its gate
/// time.  None where no MIDI channel can be assigned, or where the note-off is
/// past the largest time.
pub open spec fn midi_effect(
    timebase_g: u8,
    tone: ToneMapView,
    octaves: Seq<i8>,
    time: nat,
    channel: u8,
    note: u8,
    velocity: Option<u8>,
    gate_time: u32,
) -> Option<Effect> {
    let duration = gate_milliseconds(gate_time, timebase_g);
    let shifted = tone.map_note(channel, note + octaves[octave_entry(channel)] * 12);
    let (remembered, velocity) = tone.note_velocity(channel, velocity);
    match remembered.real_channel(channel) {
        None => None,
        Some((assigned, midi_channel)) => if time + duration > usize::MAX {
            None
        } else {
            Some(
                Effect {
                    tone: assigned,
                    octaves,
                    emitted: seq![
                        (
                            time,
                            SmafEventView::MidiNoteOn {
                                channel: midi_channel,
                                note: shifted,
                                velocity,
                            },
                        ),
                        (
                            time + duration as nat,
                            SmafEventView::MidiNoteOff {
                                channel: midi_channel,
                                note: shifted,
                                velocity: 0,
                            },
                        ),
                    ],
                    until: time + duration as nat,
                },
            )
        },
    }
}

/// A note: a wave where it selects one that the track holds, else an FM voice
/// where the file defines one, else a MIDI note.
pub open spec fn note_effect(
    timebase_g: u8,
    waves: Seq<PCMDataChunkView>,
    tone: ToneMapView,
    octaves: Seq<i8>,
    time: nat,
    channel: u8,
    note: u8,
    velocity: Option<u8>,
    gate_time: u32,
) -> Option<Effect> {
    let wave = match tone.stream_wave_id(channel, note) {
        Some(number) => wave_numbered(waves, number, 0),
        None => None,
    };
    match wave {
        Some(wave) => Some(
            wave_effect(timebase_g, tone, octaves, time, channel, velocity, gate_time, wave),
        ),
        None => match tone.custom_voice(channel, note) {
            Some(MaCustomVoice::Fm { key: _, patch }) => Some(
                fm_effect(
                    timebase_g,
                    tone,
                    octaves,
                    time,
                    channel,
                    note,
                    velocity,
                    gate_time,
                    patch,
                ),
            ),
            _ => midi_effect(timebase_g, tone, octaves, time, channel, note, velocity, gate_time),
        },
    }
}

/// A control change on a channel's MIDI channel, with the state in which that
/// is assigned.
pub open spec fn control_effect(
    tone: ToneMapView,
    octaves: Seq<i8>,
    time: nat,
    channel: u8,
    control: u8,
    value: u8,
) -> Option<Effect> {
    match tone.real_channel(channel) {
        None => None,
        Some((assigned, midi_channel)) => Some(
            emitting(
                assigned,
                octaves,
                time,
                SmafEventView::MidiControlChange { channel: midi_channel, control, value },
            ),
        ),
    }
}

/// A volume event.  A Handy Phone melody channel gets volume and expression
/// folded into one; its percussion plays at a fixed volume.
pub open spec fn volume_effect(
    tone: ToneMapView,
    octaves: Seq<i8>,
    time: nat,
    channel: u8,
    value: u8,
) -> Option<Effect> {
    let noted = tone.update_control(channel, 7, value);
    if !noted.handy() {
        control_effect(noted, octaves, time, channel, 7, value)
    } else if noted.rhythm(channel) {
        Some(
            emitting(
                noted,
                octaves,
                time,
                SmafEventView::MidiControlChange {
                    channel: MIDI_DRUM_CHANNEL,
                    control: 7,
                    value: 100,
                },
            ),
        )
    } else {
        control_effect(noted, octaves, time, channel, 7, noted.effective_volume(channel))
    }
}

/// An expression event.  On a Handy Phone track it changes the folded volume of
/// a melody channel, and for percussion only later velocities.
pub open spec fn expression_effect(
    tone: ToneMapView,
    octaves: Seq<i8>,
    time: nat,
    channel: u8,
    value: u8,
) -> Option<Effect> {
    if tone.handy() {
        let noted = tone.set_expression(channel, value);
        if noted.rhythm(channel) {
            Some(silent(noted, octaves, time))
        } else {
            control_effect(noted, octaves, time, channel, 7, noted.effective_volume(channel))
        }
    } else {
        control_effect(tone.update_control(channel, 11, value), octaves, time, channel, 11, value)
    }
}

/// What an event does at `time`.  None where it is a MIDI event for which no
/// MIDI channel can be assigned, or a MIDI note that ends past the largest time.
#[verifier::opaque]
pub open spec fn effect_of(
    setting: Setting,
    tone: ToneMapView,
    octaves: Seq<i8>,
    time: nat,
    event: ScoreTrackSequenceEventView,
) -> Option<Effect> {
    let offset = setting.channel_offset;
    let use_offset = setting.use_channel_offset;
    match event {
        ScoreTrackSequenceEventView::NoteMessage {
            channel,
            note,
            velocity,
            gate_time,
        } => note_effect(
            setting.timebase_g,
            setting.waves,
            tone,
            octaves,
            time,
            shifted_channel(channel, offset, use_offset),
            note,
            velocity,
            gate_time,
        ),
        ScoreTrackSequenceEventView::ControlChange { channel, control, value } => {
            let channel = shifted_channel(channel, offset, use_offset);
            let noted = tone.update_control(channel, control, value);
            control_effect(
                noted,
                octaves,
                time,
                channel,
                control,
                noted.midi_control_value(control, value),
            )
        },
        ScoreTrackSequenceEventView::ProgramChange { channel, program } => match tone.set_program(
            shifted_channel(channel, offset, use_offset),
            program,
        ) {
            None => None,
            Some((assigned, midi_channel, midi_program)) => Some(
                emitting(
                    assigned,
                    octaves,
                    time,
                    SmafEventView::MidiProgramChange {
                        channel: midi_channel,
                        program: midi_program,
                    },
                ),
            ),
        },
        ScoreTrackSequenceEventView::Exclusive(data) => match exclusive_voice(data) {
            Some(voice) => Some(
                silent(
                    ToneMapView { custom_voices: tone.custom_voices.push(voice), ..tone },
                    octaves,
                    time,
                ),
            ),
            None => Some(
                emitting(tone, octaves, time, SmafEventView::MidiSysEx(framed(data))),
            ),
        },
        ScoreTrackSequenceEventView::Nop => Some(silent(tone, octaves, time)),
        ScoreTrackSequenceEventView::PitchBend { channel, value } => {
            let channel = shifted_channel(channel, offset, use_offset);
            match tone.set_pitch_bend(channel, value).real_channel(channel) {
                None => None,
                Some((assigned, midi_channel)) => Some(
                    emitting(
                        assigned,
                        octaves,
                        time,
                        SmafEventView::MidiPitchBend {
                            channel: midi_channel,
                            value: if value > 0x3fff {
                                0x3fff
                            } else {
                                value
                            },
                        },
                    ),
                ),
            }
        },
        ScoreTrackSequenceEventView::Volume { channel, value } => volume_effect(
            tone,
            octaves,
            time,
            shifted_channel(channel, offset, use_offset),
            value,
        ),
        ScoreTrackSequenceEventView::Pan { channel, value } => {
            let channel = shifted_channel(channel, offset, use_offset);
            control_effect(
                tone.update_control(channel, 10, value),
                octaves,
                time,
                channel,
                10,
                value,
            )
        },
        ScoreTrackSequenceEventView::Expression { channel, value } => expression_effect(
            tone,
            octaves,
            time,
            shifted_channel(channel, offset, use_offset),
            value,
        ),
        ScoreTrackSequenceEventView::OctaveShift { channel, value } => Some(
            silent(
                tone,
                match octaves_of(value) {
                    Some(shift) => octaves.update(
                        octave_entry(shifted_channel(channel, offset, use_offset)),
                        shift,
                    ),
                    None => octaves,
                },
                time,
            ),
        ),
        ScoreTrackSequenceEventView::Modulation { channel, value } => control_effect(
            tone,
            octaves,
            time,
            shifted_channel(channel, offset, use_offset),
            1,
            value,
        ),
        ScoreTrackSequenceEventView::BankSelect { channel, value } => {
            let channel = shifted_channel(channel, offset, use_offset);
            let noted = tone.update_bank_select(channel, value);
            control_effect(
                noted,
                octaves,
                time,
                channel,
                0,
                noted.midi_control_value(0, value),
            )
        },
    }
}

/// How far a sequence has come: the channel state, the octave shifts, the time,
/// the time until which something sounds, and the events so far.
#[verifier::ext_equal]
pub struct Progress {
    pub tone: ToneMapView,
    pub octaves: Seq<i8>,
    pub now: nat,
    pub sounding: nat,
    pub events: Seq<TimedEvent>,
}

/// The larger of two times.
pub open spec fn later(a: nat, b: nat) -> nat {
    if a > b {
        a
    } else {
        b
    }
}

/// The start of a sequence.
pub open spec fn start_of_sequence(tone: ToneMapView) -> Progress {
    Progress {
        tone,
        octaves: Seq::new(64, |i: int| 0i8),
        now: 0,
        sounding: 0,
        events: Seq::empty(),
    }
}

/// The time of an entry whose predecessor was at `now`.
pub open spec fn advanced(now: nat, duration: u32, timebase_d: u8) -> nat {
    capped((now + capped(duration * timebase_d)) as int)
}

/// The progress after the first `count` entries of a sequence.
pub open spec fn progress_after(
    setting: Setting,
    timebase_d: u8,
    tone: ToneMapView,
    sequence: Seq<SequenceDataView>,
    count: nat,
) -> Option<Progress>
    decreases count,
{
    if count == 0 {
        Some(start_of_sequence(tone))
    } else {
        match progress_after(setting, timebase_d, tone, sequence, (count - 1) as nat) {
            None => None,
            Some(before) => {
                let entry = sequence[count - 1];
                let time = advanced(before.now, entry.duration, timebase_d);
                match effect_of(setting, before.tone, before.octaves, time, entry.event) {
                    None => None,
                    Some(effect) => Some(
                        Progress {
                            tone: effect.tone,
                            octaves: effect.octaves,
                            now: time,
                            sounding: later(later(before.sounding, time), effect.until),
                            events: before.events + effect.emitted,
                        },
                    ),
                }
            },
        }
    }
}

/// The offset for the channels of the next track.
pub open spec fn next_offset(offset: u8, use_offset: bool) -> u8 {
    if !use_offset {
        offset
    } else if offset > 251 {
        255
    } else {
        (offset + 4) as u8
    }
}

/// What a whole sequence plays, closed by an end marker when the last sound has
/// ended, and the channel state that it leaves.
pub open spec fn sequence_result(
    setting: Setting,
    timebase_d: u8,
    tone: ToneMapView,
    sequence: Seq<SequenceDataView>,
) -> Option<(ToneMapView, Seq<TimedEvent>)> {
    match progress_after(setting, timebase_d, tone, sequence, sequence.len()) {
        None => None,
        Some(done) => Some(
            (
                done.tone,
                done.events.push((later(done.sounding, done.now), SmafEventView::End)),
            ),
        ),
    }
}

fn map_channel(channel: u8, offset: u8, use_offset: bool) -> (shifted: u8)
    ensures
        shifted == shifted_channel(channel, offset, use_offset),
{
    if use_offset {
        channel.saturating_add(offset)
    } else {
        channel
    }
}

fn octave_index(channel: u8) -> (entry: usize)
    ensures
        entry == octave_entry(channel),
        entry < 64,
{
    if channel < 63 {
        channel as usize
    } else {
        63
    }
}

/// Plays a note that selects a wave.
fn play_wave(
    timebase_g: u8,
    tone_map: &mut ToneMap,
    octaves: &[i8; 64],
    time: usize,
    channel: u8,
    velocity: Option<u8>,
    gate_time: u32,
    wave: &WaveData<'_>,
    result: &mut Vec<(usize, SmafEvent)>,
) -> (until: usize)
    ensures
        ({
            let effect = wave_effect(
                timebase_g,
                old(tone_map)@,
                octaves@,
                time as nat,
                channel,
                velocity,
                gate_time,
                wave@,
            );
            &&& until == effect.until
            &&& final(tone_map)@ == effect.tone
            &&& effect.octaves == octaves@
            &&& timed(final(result)@) == timed(old(result)@) + effect.emitted
        }),
{
    let channels = channel_count(wave.channel);
    let mut decoded = match decode_stream_wave(wave) {
        Some(decoded) => decoded,
        None => {
            assert(timed(result@) =~= timed(result@) + Seq::<TimedEvent>::empty());
            return time;
        },
    };
    let rate = wave.sampling_freq as u32;
    trim_to_gate(&mut decoded, channels, rate, gate_time, timebase_g);
    let wave_ms = decoded_duration_ms(decoded.len(), channels, rate);
    // Stream PCM is a note-driven MA voice. Its authored note velocity and
    // channel dynamics apply even though the sample data itself bypasses the
    // external MIDI/SF2 synth.
    let dynamics = tone_map.wave_dynamics(channel, velocity);
    let event = SmafEvent::Wave { channels, sampling_rate: rate, data: decoded, dynamics };
    proof {
        lemma_timed_push(result@, time, event);
    }
    result.push((time, event));
    time.saturating_add(wave_ms)
}

/// Plays a note through a file-defined FM voice.
///
/// File-defined Yamaha MA custom FM voices are authoritative.  Routing them
/// through GM/SF2 would discard the authored operator ratios, envelopes,
/// algorithms and pan.
fn play_fm(
    timebase_g: u8,
    tone_map: &mut ToneMap,
    octaves: &[i8; 64],
    time: usize,
    channel: u8,
    note: u8,
    velocity: Option<u8>,
    gate_time: u32,
    patch: MaFmPatch,
    result: &mut Vec<(usize, SmafEvent)>,
) -> (until: usize)
    ensures
        ({
            let effect = fm_effect(
                timebase_g,
                old(tone_map)@,
                octaves@,
                time as nat,
                channel,
                note,
                velocity,
                gate_time,
                patch,
            );
            &&& until == effect.until
            &&& final(tone_map)@ == effect.tone
            &&& timed(final(result)@) == timed(old(result)@) + effect.emitted
        }),
{
    let gate_ms = gate_length(gate_time, timebase_g);
    let shift = octaves[octave_index(channel)];
    let source_note = midi_number(note as i16 + shift as i16 * 12);
    let fm_note = tone_map.fm_note(channel, source_note, velocity, gate_ms, patch);
    let event = SmafEvent::MaFmNote(fm_note);
    proof {
        lemma_timed_push(result@, time, event);
    }
    result.push((time, event));
    time.saturating_add(gate_ms as usize)
}

/// Plays a note through a MIDI port.
fn play_midi(
    timebase_g: u8,
    tone_map: &mut ToneMap,
    octaves: &[i8; 64],
    time: usize,
    channel: u8,
    note: u8,
    velocity: Option<u8>,
    gate_time: u32,
    result: &mut Vec<(usize, SmafEvent)>,
) -> (until: Option<usize>)
    ensures
        match midi_effect(
            timebase_g,
            old(tone_map)@,
            octaves@,
            time as nat,
            channel,
            note,
            velocity,
            gate_time,
        ) {
            None => until is None,
            Some(effect) => {
                &&& until is Some
                &&& until.unwrap() == effect.until
                &&& final(tone_map)@ == effect.tone
                &&& timed(final(result)@) == timed(old(result)@) + effect.emitted
            },
        },
{
    let duration = gate_length(gate_time, timebase_g) as usize;
    let shift = octaves[octave_index(channel)];
    let shifted_note = tone_map.map_note(channel, note as i16 + shift as i16 * 12);
    let velocity = tone_map.note_velocity(channel, velocity);
    if !tone_map.can_route(channel) {
        return None;
    }
    let midi_channel = tone_map.real_channel(channel);
    let end = match time.checked_add(duration) {
        Some(end) => end,
        None => return None,
    };
    let on = SmafEvent::MidiNoteOn { channel: midi_channel, note: shifted_note, velocity };
    let off = SmafEvent::MidiNoteOff { channel: midi_channel, note: shifted_note, velocity: 0 };
    proof {
        lemma_timed_push(result@, time, on);
        lemma_timed_push(result@.push((time, on)), end, off);
        assert(seq![(time as nat, on@)] + seq![(end as nat, off@)] =~= seq![
            (time as nat, on@),
            (end as nat, off@),
        ]);
        let before = timed(result@);
        assert(before + seq![(time as nat, on@)] + seq![(end as nat, off@)] =~= before + seq![
            (time as nat, on@),
            (end as nat, off@),
        ]);
    }
    result.push((time, on));
    result.push((end, off));
    Some(end)
}

/// Plays a note.
fn play_note(
    timebase_g: u8,
    waves: &[PCMDataChunk<'_>],
    tone_map: &mut ToneMap,
    octaves: &[i8; 64],
    time: usize,
    channel: u8,
    note: u8,
    velocity: Option<u8>,
    gate_time: u32,
    result: &mut Vec<(usize, SmafEvent)>,
) -> (until: Option<usize>)
    ensures
        match note_effect(
            timebase_g,
            wave_entries(waves@),
            old(tone_map)@,
            octaves@,
            time as nat,
            channel,
            note,
            velocity,
            gate_time,
        ) {
            None => until is None,
            Some(effect) => {
                &&& until is Some
                &&& until.unwrap() == effect.until
                &&& final(tone_map)@ == effect.tone
                &&& effect.octaves == octaves@
                &&& timed(final(result)@) == timed(old(result)@) + effect.emitted
            },
        },
{
    // Mobile Standard Stream PCM is selected by Bank MSB 125.  Its Note Number
    // maps to a WaveID; the MIDI source channel is not part of the Mwa resource
    // identity.  Notes outside the Stream-PCM ranges remain ordinary
    // rhythm/melodic notes.
    let wave = match tone_map.stream_wave_id(channel, note) {
        Some(number) => find_wave(waves, number),
        None => None,
    };
    if let Some(wave) = wave {
        return Some(
            play_wave(
                timebase_g,
                tone_map,
                octaves,
                time,
                channel,
                velocity,
                gate_time,
                &wave,
                result,
            ),
        );
    }
    match tone_map.custom_voice(channel, note) {
        Some(MaCustomVoice::Fm { patch, .. }) => Some(
            play_fm(
                timebase_g,
                tone_map,
                octaves,
                time,
                channel,
                note,
                velocity,
                gate_time,
                patch,
                result,
            ),
        ),
        // A Bank-125 note whose referenced Mwa is absent is not silently
        // discarded: it may be a file-defined PCM-ROM voice or a device-ROM
        // preset. Those are intentionally left on the MIDI/SF2 approximation
        // boundary because the Yamaha handset ROM is not present in the MMF.
        _ => play_midi(
            timebase_g,
            tone_map,
            octaves,
            time,
            channel,
            note,
            velocity,
            gate_time,
            result,
        ),
    }
}

/// Sends a control change on a channel's MIDI channel; false where none can be
/// assigned.
fn send_control(
    tone_map: &mut ToneMap,
    time: usize,
    channel: u8,
    control: u8,
    value: u8,
    result: &mut Vec<(usize, SmafEvent)>,
) -> (sent: bool)
    ensures
        forall|octaves: Seq<i8>| #![trigger
            control_effect(old(tone_map)@, octaves, time as nat, channel, control, value)]
            match control_effect(old(tone_map)@, octaves, time as nat, channel, control, value) {
                None => !sent,
                Some(effect) => {
                    &&& sent
                    &&& final(tone_map)@ == effect.tone
                    &&& effect.octaves == octaves
                    &&& effect.until == time
                    &&& timed(final(result)@) == timed(old(result)@) + effect.emitted
                },
            },
{
    if !tone_map.can_route(channel) {
        return false;
    }
    let midi_channel = tone_map.real_channel(channel);
    let event = SmafEvent::MidiControlChange { channel: midi_channel, control, value };
    proof {
        lemma_timed_push(result@, time, event);
    }
    result.push((time, event));
    true
}

/// Plays one event of a sequence and returns the time until which it sounds.
fn play_event(
    timebase_g: u8,
    channel_offset: u8,
    use_channel_offset: bool,
    waves: &[PCMDataChunk<'_>],
    tone_map: &mut ToneMap,
    octaves: &mut [i8; 64],
    time: usize,
    event: &ScoreTrackSequenceEvent,
    result: &mut Vec<(usize, SmafEvent)>,
) -> (until: Option<usize>)
    ensures
        match effect_of(
            Setting { timebase_g, channel_offset, use_channel_offset, waves: wave_entries(waves@) },
            old(tone_map)@,
            old(octaves)@,
            time as nat,
            event@,
        ) {
            None => until is None,
            Some(effect) => {
                &&& until is Some
                &&& until.unwrap() == effect.until
                &&& final(tone_map)@ == effect.tone
                &&& final(octaves)@ == effect.octaves
                &&& timed(final(result)@) == timed(old(result)@) + effect.emitted
            },
        },
{
    reveal(effect_of);
    let ghost unchanged = timed(result@);
    assert(unchanged + Seq::<TimedEvent>::empty() =~= unchanged);
    match event {
        ScoreTrackSequenceEvent::NoteMessage { channel, note, velocity, gate_time } => {
            let channel = map_channel(*channel, channel_offset, use_channel_offset);
            return play_note(
                timebase_g,
                waves,
                tone_map,
                octaves,
                time,
                channel,
                *note,
                *velocity,
                *gate_time,
                result,
            );
        },
        ScoreTrackSequenceEvent::ControlChange { channel, control, value } => {
            let channel = map_channel(*channel, channel_offset, use_channel_offset);
            tone_map.update_control(channel, *control, *value);
            let value = tone_map.midi_control_value(*control, *value);
            if !send_control(tone_map, time, channel, *control, value, result) {
                return None;
            }
        },
        ScoreTrackSequenceEvent::ProgramChange { channel, program } => {
            let source_channel = map_channel(*channel, channel_offset, use_channel_offset);
            if !tone_map.can_set_program(source_channel, *program) {
                return None;
            }
            let (channel, mapped_program) = tone_map.set_program(source_channel, *program);
            let event = SmafEvent::MidiProgramChange { channel, program: mapped_program };
            proof {
                lemma_timed_push(result@, time, event);
            }
            result.push((time, event));
        },
        ScoreTrackSequenceEvent::Exclusive(data) => {
            match parse_ma_voice_exclusive(data.as_slice()) {
                Some(voice) => {
                    // Inline VM35 definitions update the same authored voice
                    // table as Mtsu. They are not generic MIDI SysEx.
                    tone_map.add_custom_voice(voice);
                },
                None => {
                    let event = SmafEvent::MidiSysEx(make_sysex_message(data.as_slice()));
                    proof {
                        lemma_timed_push(result@, time, event);
                    }
                    result.push((time, event));
                },
            }
        },
        ScoreTrackSequenceEvent::Nop => {},
        ScoreTrackSequenceEvent::PitchBend { channel, value } => {
            let channel = map_channel(*channel, channel_offset, use_channel_offset);
            tone_map.set_pitch_bend(channel, *value);
            if !tone_map.can_route(channel) {
                return None;
            }
            let midi_channel = tone_map.real_channel(channel);
            let event = SmafEvent::MidiPitchBend {
                channel: midi_channel,
                value: if *value > 0x3fff {
                    0x3fff
                } else {
                    *value
                },
            };
            proof {
                lemma_timed_push(result@, time, event);
            }
            result.push((time, event));
        },
        ScoreTrackSequenceEvent::Volume { channel, value } => {
            let channel = map_channel(*channel, channel_offset, use_channel_offset);
            tone_map.update_control(channel, 7, *value);
            if tone_map.format_type() == FormatType::HandyPhoneStandard {
                if tone_map.is_rhythm(channel) {
                    let event = SmafEvent::MidiControlChange {
                        channel: MIDI_DRUM_CHANNEL,
                        control: 7,
                        value: 100,
                    };
                    proof {
                        lemma_timed_push(result@, time, event);
                    }
                    result.push((time, event));
                } else {
                    let value = tone_map.effective_volume(channel);
                    if !send_control(tone_map, time, channel, 7, value, result) {
                        return None;
                    }
                }
            } else if !send_control(tone_map, time, channel, 7, *value, result) {
                return None;
            }
        },
        ScoreTrackSequenceEvent::Pan { channel, value } => {
            let channel = map_channel(*channel, channel_offset, use_channel_offset);
            tone_map.update_control(channel, 10, *value);
            if !send_control(tone_map, time, channel, 10, *value, result) {
                return None;
            }
        },
        ScoreTrackSequenceEvent::Expression { channel, value } => {
            let channel = map_channel(*channel, channel_offset, use_channel_offset);
            if tone_map.format_type() == FormatType::HandyPhoneStandard {
                let value = tone_map.set_expression(channel, *value);
                if !tone_map.is_rhythm(channel) {
                    if !send_control(tone_map, time, channel, 7, value, result) {
                        return None;
                    }
                }
            } else {
                tone_map.update_control(channel, 11, *value);
                if !send_control(tone_map, time, channel, 11, *value, result) {
                    return None;
                }
            }
        },
        ScoreTrackSequenceEvent::OctaveShift { channel, value } => {
            let channel = map_channel(*channel, channel_offset, use_channel_offset);
            if let Some(shift) = parse_octave_shift(*value) {
                octaves[octave_index(channel)] = shift;
            }
        },
        ScoreTrackSequenceEvent::Modulation { channel, value } => {
            let channel = map_channel(*channel, channel_offset, use_channel_offset);
            if !send_control(tone_map, time, channel, 1, *value, result) {
                return None;
            }
        },
        ScoreTrackSequenceEvent::BankSelect { channel, value } => {
            let channel = map_channel(*channel, channel_offset, use_channel_offset);
            tone_map.update_bank_select(channel, *value);
            let value = tone_map.midi_control_value(0, *value);
            if !send_control(tone_map, time, channel, 0, value, result) {
                return None;
            }
        },
    }
    Some(time)
}

/// Once a sequence has stopped, it stays stopped.
proof fn lemma_progress_stops(
    setting: Setting,
    timebase_d: u8,
    tone: ToneMapView,
    sequence: Seq<SequenceDataView>,
    at: nat,
    count: nat,
)
    requires
        at <= count,
        progress_after(setting, timebase_d, tone, sequence, at) is None,
    ensures
        progress_after(setting, timebase_d, tone, sequence, count) is None,
    decreases count,
{
    if at < count {
        lemma_progress_stops(setting, timebase_d, tone, sequence, at, (count - 1) as nat);
    }
}

/// Plays a sequence: its events, closed by an end marker, and the channel offset
/// for the next track.  None where an event needs a MIDI channel that cannot be
/// assigned, or where a MIDI note ends past the largest time.
pub fn try_parse_sequence_events(
    sequence_data: &[SequenceData],
    timebase_d: u8,
    timebase_g: u8,
    channel_offset: u8,
    use_channel_offset: bool,
    pcm_chunks: &[PCMDataChunk<'_>],
    tone_map: &mut ToneMap,
) -> (played: Option<(Vec<(usize, SmafEvent)>, u8)>)
    ensures
        match sequence_result(
            Setting {
                timebase_g,
                channel_offset,
                use_channel_offset,
                waves: wave_entries(pcm_chunks@),
            },
            timebase_d,
            old(tone_map)@,
            score_entries(sequence_data@),
        ) {
            None => played is None,
            Some((tone, events)) => {
                &&& played is Some
                &&& final(tone_map)@ == tone
                &&& timed(played.unwrap().0@) == events
                &&& played.unwrap().1 == next_offset(channel_offset, use_channel_offset)
            },
        },
{
    let ghost setting = Setting {
        timebase_g,
        channel_offset,
        use_channel_offset,
        waves: wave_entries(pcm_chunks@),
    };
    let ghost entries = score_entries(sequence_data@);
    let ghost tone = tone_map@;
    let mut result: Vec<(usize, SmafEvent)> = Vec::new();
    let mut now: usize = 0;
    let mut playback_end: usize = 0;
    let mut octave_shift = [0i8;64];
    let mut i: usize = 0;
    assert(timed(result@) =~= Seq::empty());
    assert(octave_shift@ =~= start_of_sequence(tone).octaves);
    while i < sequence_data.len()
        invariant
            i <= sequence_data.len(),
            entries == score_entries(sequence_data@),
            tone == old(tone_map)@,
            setting == (Setting {
                timebase_g,
                channel_offset,
                use_channel_offset,
                waves: wave_entries(pcm_chunks@),
            }),
            progress_after(setting, timebase_d, tone, entries, i as nat) == Some(
                Progress {
                    tone: tone_map@,
                    octaves: octave_shift@,
                    now: now as nat,
                    sounding: playback_end as nat,
                    events: timed(result@),
                },
            ),
        decreases sequence_data.len() - i,
    {
        assert(entries[i as int] == sequence_data@[i as int]@);
        let entry = &sequence_data[i];
        now = now.saturating_add(capped_product(entry.duration as usize, timebase_d as usize));
        if now > playback_end {
            playback_end = now;
        }
        let until = match play_event(
            timebase_g,
            channel_offset,
            use_channel_offset,
            pcm_chunks,
            tone_map,
            &mut octave_shift,
            now,
            &entry.event,
            &mut result,
        ) {
            Some(until) => until,
            None => {
                proof {
                    lemma_progress_stops(
                        setting,
                        timebase_d,
                        tone,
                        entries,
                        (i + 1) as nat,
                        entries.len(),
                    );
                }
                return None;
            },
        };
        if until > playback_end {
            playback_end = until;
        }
        i += 1;
    }
    let end: usize = if playback_end > now {
        playback_end
    } else {
        now
    };
    proof {
        lemma_timed_push(result@, end, SmafEvent::End);
        assert(timed(result@).push((end as nat, SmafEventView::End)) =~= timed(result@) + seq![
            (end as nat, SmafEventView::End),
        ]);
    }
    result.push((end, SmafEvent::End));
    let next: u8 = if use_channel_offset {
        channel_offset.saturating_add(4)
    } else {
        channel_offset
    };
    Some((result, next))
}

/// Plays a sequence: its events, closed by an end marker, and the channel offset
/// for the next track.
///
/// Every event that goes to a MIDI port must find a MIDI channel, and every MIDI
/// note must end within the largest time; [`try_parse_sequence_events`] tells
/// whether they do.
pub fn parse_sequence_events(
    sequence_data: &[SequenceData],
    timebase_d: u8,
    timebase_g: u8,
    channel_offset: u8,
    use_channel_offset: bool,
    pcm_chunks: &[PCMDataChunk<'_>],
    tone_map: &mut ToneMap,
) -> (played: (Vec<(usize, SmafEvent)>, u8))
    requires
        sequence_result(
            Setting {
                timebase_g,
                channel_offset,
                use_channel_offset,
                waves: wave_entries(pcm_chunks@),
            },
            timebase_d,
            old(tone_map)@,
            score_entries(sequence_data@),
        ) is Some,
    ensures
        sequence_result(
            Setting {
                timebase_g,
                channel_offset,
                use_channel_offset,
                waves: wave_entries(pcm_chunks@),
            },
            timebase_d,
            old(tone_map)@,
            score_entries(sequence_data@),
        ) == Some((final(tone_map)@, timed(played.0@))),
        played.1 == next_offset(channel_offset, use_channel_offset),
{
    try_parse_sequence_events(
        sequence_data,
        timebase_d,
        timebase_g,
        channel_offset,
        use_channel_offset,
        pcm_chunks,
        tone_map,
    ).unwrap()
}

/// Whether every note-on is followed by the note-off of the same note, no
/// earlier.
pub open spec fn notes_released(events: Seq<TimedEvent>) -> bool {
    forall|i: int|
        0 <= i < events.len() ==> (#[trigger] events[i].1 matches SmafEventView::MidiNoteOn {
            channel,
            note,
            velocity,
        } ==> {
            &&& i + 1 < events.len()
            &&& events[i].0 <= events[i + 1].0
            &&& events[i + 1].1 == SmafEventView::MidiNoteOff { channel, note, velocity: 0 }
        })
}

/// The time by which an event has sounded: waves and FM notes last, the others
/// do not.
pub open spec fn sounded_by(event: TimedEvent) -> nat {
    match event.1 {
        SmafEventView::Wave { channels, sampling_rate, data, .. } => capped(
            (event.0 + duration_ms(data.len() as int, channels, sampling_rate)) as int,
        ),
        SmafEventView::MaFmNote(note) => capped(event.0 + note.gate_ms),
        _ => event.0,
    }
}

/// Whether every event is due no earlier than `from` and has sounded by `until`,
/// and none is an end marker.
pub open spec fn sounds_within(events: Seq<TimedEvent>, from: nat, until: nat) -> bool {
    forall|i: int|
        0 <= i < events.len() ==> from <= #[trigger] events[i].0 <= until && sounded_by(events[i])
            <= until && !(events[i].1 is End)
}

/// Whether a list leaves no note sounding.
pub open spec fn all_released(events: Seq<TimedEvent>) -> bool {
    forall|channel: u8, note: u8| #[trigger] left_sounding(events, channel, note) == 0
}

/// Whether every event but the note-offs is due at `time`.
pub open spec fn starts_at(events: Seq<TimedEvent>, time: nat) -> bool {
    forall|i: int|
        0 <= i < events.len() && !(events[i].1 is MidiNoteOff) ==> #[trigger] events[i].0 == time
}

/// Whether the events but the note-offs are in the order of their times, none of
/// them past `now`.
pub open spec fn in_written_order(events: Seq<TimedEvent>, now: nat) -> bool {
    &&& forall|i: int|
        0 <= i < events.len() && !(events[i].1 is MidiNoteOff) ==> #[trigger] events[i].0 <= now
    &&& forall|i: int, j: int|
        0 <= i < j < events.len() && !(events[i].1 is MidiNoteOff) && !(events[j].1 is MidiNoteOff)
            ==> #[trigger] events[i].0 <= #[trigger] events[j].0
}

/// Whether the numbers of an event are what a MIDI port or a synthesizer takes.
pub open spec fn well_formed(event: SmafEventView) -> bool {
    match event {
        SmafEventView::Wave { channels, sampling_rate, data, dynamics } => {
            &&& channels == 1 || channels == 2
            &&& dynamics.velocity <= 0x7f
            &&& dynamics.volume <= 0x7f
            &&& dynamics.expression <= 0x7f
            &&& dynamics.pan matches Some(pan) ==> pan <= 0x7f
        },
        SmafEventView::MaFmNote(note) => {
            &&& note.note <= 0x7f
            &&& note.velocity <= 0x7f
            &&& note.volume <= 0x7f
            &&& note.expression <= 0x7f
            &&& note.pan matches Some(pan) ==> pan <= 0x7f
            &&& note.pitch_bend <= 0x3fff
        },
        SmafEventView::MidiNoteOn { channel, note, velocity } => note <= 0x7f && velocity <= 0x7f,
        SmafEventView::MidiNoteOff { channel, note, velocity } => note <= 0x7f && velocity <= 0x7f,
        SmafEventView::MidiProgramChange { channel, program } => program <= 0x7f,
        SmafEventView::MidiControlChange { channel, control, value } => true,
        SmafEventView::MidiPitchBend { channel, value } => value <= 0x3fff,
        SmafEventView::MidiSysEx(data) => data.len() >= 2 && data[0] == 0xf0 && data.last() == 0xf7,
        SmafEventView::End => true,
    }
}

/// Whether all events of a list are well formed.
pub open spec fn all_well_formed(events: Seq<TimedEvent>) -> bool {
    forall|i: int| 0 <= i < events.len() ==> well_formed(#[trigger] events[i].1)
}

/// Whether an effect at `time` is sound: its note-ons are released, its events
/// are due no earlier than it and no later than it sounds, their numbers are well
/// formed, and it keeps the state valid.
pub open spec fn sound(effect: Effect, time: nat) -> bool {
    &&& effect.tone.valid()
    &&& effect.octaves.len() == 64
    &&& time <= effect.until <= usize::MAX
    &&& notes_released(effect.emitted)
    &&& all_released(effect.emitted)
    &&& sounds_within(effect.emitted, time, effect.until)
    &&& starts_at(effect.emitted, time)
    &&& all_well_formed(effect.emitted)
}

proof fn lemma_one_released(time: nat, event: SmafEventView)
    requires
        !(event is MidiNoteOn),
        !(event is MidiNoteOff),
    ensures
        all_released(seq![(time, event)]),
{
    reveal_with_fuel(left_sounding, 2);
}

proof fn lemma_silent_is_sound(tone: ToneMapView, octaves: Seq<i8>, time: nat)
    requires
        tone.valid(),
        octaves.len() == 64,
        time <= usize::MAX,
    ensures
        sound(silent(tone, octaves, time), time),
{
    reveal_with_fuel(left_sounding, 2);
}

proof fn lemma_emitting_is_sound(
    tone: ToneMapView,
    octaves: Seq<i8>,
    time: nat,
    event: SmafEventView,
)
    requires
        tone.valid(),
        octaves.len() == 64,
        time <= usize::MAX,
        well_formed(event),
        !(event is MidiNoteOn),
        !(event is MidiNoteOff),
        !(event is Wave),
        !(event is MaFmNote),
        !(event is End),
    ensures
        sound(emitting(tone, octaves, time, event), time),
{
    lemma_one_released(time, event);
}

proof fn lemma_control_is_sound(
    tone: ToneMapView,
    octaves: Seq<i8>,
    time: nat,
    channel: u8,
    control: u8,
    value: u8,
)
    requires
        tone.valid(),
        octaves.len() == 64,
        time <= usize::MAX,
    ensures
        control_effect(tone, octaves, time, channel, control, value) matches Some(effect) ==> sound(
            effect,
            time,
        ),
{
    law_assignment_is_stable(tone, channel);
    if let Some((assigned, midi)) = tone.real_channel(channel) {
        lemma_emitting_is_sound(
            assigned,
            octaves,
            time,
            SmafEventView::MidiControlChange { channel: midi, control, value },
        );
    }
}

proof fn lemma_wave_is_sound(
    timebase_g: u8,
    tone: ToneMapView,
    octaves: Seq<i8>,
    time: nat,
    channel: u8,
    velocity: Option<u8>,
    gate_time: u32,
    wave: WaveDataView,
)
    requires
        tone.valid(),
        octaves.len() == 64,
        time <= usize::MAX,
    ensures
        sound(
            wave_effect(timebase_g, tone, octaves, time, channel, velocity, gate_time, wave),
            time,
        ),
{
    law_settings_keep_validity(tone, channel, 0, 0, 0, velocity);
    law_dynamics_are_data_bytes(tone, channel, 0, velocity, 0, arbitrary());
    lemma_silent_is_sound(tone, octaves, time);
    let effect = wave_effect(timebase_g, tone, octaves, time, channel, velocity, gate_time, wave);
    if decoded_stream_wave(wave) is Some {
        lemma_one_released(time, effect.emitted[0].1);
        assert(effect.emitted =~= seq![(time, effect.emitted[0].1)]);
    }
}

proof fn lemma_fm_is_sound(
    timebase_g: u8,
    tone: ToneMapView,
    octaves: Seq<i8>,
    time: nat,
    channel: u8,
    note: u8,
    velocity: Option<u8>,
    gate_time: u32,
    patch: MaFmPatch,
)
    requires
        tone.valid(),
        octaves.len() == 64,
        time <= usize::MAX,
    ensures
        sound(
            fm_effect(timebase_g, tone, octaves, time, channel, note, velocity, gate_time, patch),
            time,
        ),
{
    let gate_ms = gate_milliseconds(gate_time, timebase_g);
    let source_note = clamped(note + octaves[octave_entry(channel)] * 12, 0, 127) as u8;
    law_settings_keep_validity(tone, channel, 0, 0, 0, velocity);
    law_dynamics_are_data_bytes(tone, channel, source_note, velocity, gate_ms, patch);
    let fm_note = tone.fm_note(channel, source_note, velocity, gate_ms, patch).1;
    lemma_one_released(time, SmafEventView::MaFmNote(fm_note));
}

proof fn lemma_midi_is_sound(
    timebase_g: u8,
    tone: ToneMapView,
    octaves: Seq<i8>,
    time: nat,
    channel: u8,
    note: u8,
    velocity: Option<u8>,
    gate_time: u32,
)
    requires
        tone.valid(),
        octaves.len() == 64,
        time <= usize::MAX,
    ensures
        midi_effect(
            timebase_g,
            tone,
            octaves,
            time,
            channel,
            note,
            velocity,
            gate_time,
        ) matches Some(effect) ==> sound(effect, time),
{
    law_settings_keep_validity(tone, channel, 0, 0, 0, velocity);
    law_notes_are_data_bytes(tone, channel, note + octaves[octave_entry(channel)] * 12);
    law_assignment_is_stable(tone.note_velocity(channel, velocity).0, channel);
    if let Some(effect) = midi_effect(
        timebase_g,
        tone,
        octaves,
        time,
        channel,
        note,
        velocity,
        gate_time,
    ) {
        let emitted = effect.emitted;
        reveal_with_fuel(left_sounding, 3);
        assert(emitted.drop_last() =~= seq![emitted[0]]);
        assert(emitted.drop_last().drop_last() =~= Seq::empty());
    }
}

/// Every event of a sequence has a sound effect.
pub proof fn law_effects_are_sound(
    setting: Setting,
    tone: ToneMapView,
    octaves: Seq<i8>,
    time: nat,
    event: ScoreTrackSequenceEventView,
)
    requires
        tone.valid(),
        octaves.len() == 64,
        time <= usize::MAX,
    ensures
        effect_of(setting, tone, octaves, time, event) matches Some(effect) ==> sound(effect, time),
{
    reveal(effect_of);
    let offset = setting.channel_offset;
    let use_offset = setting.use_channel_offset;
    match event {
        ScoreTrackSequenceEventView::NoteMessage { channel, note, velocity, gate_time } => {
            let channel = shifted_channel(channel, offset, use_offset);
            let timebase_g = setting.timebase_g;
            let wave = match tone.stream_wave_id(channel, note) {
                Some(number) => wave_numbered(setting.waves, number, 0),
                None => None,
            };
            if let Some(wave) = wave {
                lemma_wave_is_sound(
                    timebase_g,
                    tone,
                    octaves,
                    time,
                    channel,
                    velocity,
                    gate_time,
                    wave,
                );
            } else if let Some(MaCustomVoice::Fm { key: _, patch }) = tone.custom_voice(
                channel,
                note,
            ) {
                lemma_fm_is_sound(
                    timebase_g,
                    tone,
                    octaves,
                    time,
                    channel,
                    note,
                    velocity,
                    gate_time,
                    patch,
                );
            } else {
                lemma_midi_is_sound(
                    timebase_g,
                    tone,
                    octaves,
                    time,
                    channel,
                    note,
                    velocity,
                    gate_time,
                );
            }
        },
        ScoreTrackSequenceEventView::ControlChange { channel, control, value } => {
            let channel = shifted_channel(channel, offset, use_offset);
            let noted = tone.update_control(channel, control, value);
            law_settings_keep_validity(tone, channel, control, value, 0, None);
            lemma_control_is_sound(
                noted,
                octaves,
                time,
                channel,
                control,
                noted.midi_control_value(control, value),
            );
        },
        ScoreTrackSequenceEventView::ProgramChange { channel, program } => {
            let channel = shifted_channel(channel, offset, use_offset);
            law_programs_keep_validity(tone, channel, program);
            if let Some((assigned, midi, midi_program)) = tone.set_program(channel, program) {
                lemma_emitting_is_sound(
                    assigned,
                    octaves,
                    time,
                    SmafEventView::MidiProgramChange { channel: midi, program: midi_program },
                );
            }
        },
        ScoreTrackSequenceEventView::Exclusive(data) => {
            law_framed_messages(data);
            if let Some(voice) = exclusive_voice(data) {
                lemma_silent_is_sound(
                    ToneMapView { custom_voices: tone.custom_voices.push(voice), ..tone },
                    octaves,
                    time,
                );
            } else {
                lemma_emitting_is_sound(
                    tone,
                    octaves,
                    time,
                    SmafEventView::MidiSysEx(framed(data)),
                );
            }
        },
        ScoreTrackSequenceEventView::Nop => {
            lemma_silent_is_sound(tone, octaves, time);
        },
        ScoreTrackSequenceEventView::PitchBend { channel, value } => {
            let channel = shifted_channel(channel, offset, use_offset);
            let noted = tone.set_pitch_bend(channel, value);
            law_settings_keep_validity(tone, channel, 0, 0, value, None);
            law_assignment_is_stable(noted, channel);
            if let Some((assigned, midi)) = noted.real_channel(channel) {
                lemma_emitting_is_sound(
                    assigned,
                    octaves,
                    time,
                    SmafEventView::MidiPitchBend {
                        channel: midi,
                        value: if value > 0x3fff {
                            0x3fff
                        } else {
                            value
                        },
                    },
                );
            }
        },
        ScoreTrackSequenceEventView::Volume { channel, value } => {
            let channel = shifted_channel(channel, offset, use_offset);
            let noted = tone.update_control(channel, 7, value);
            law_settings_keep_validity(tone, channel, 7, value, 0, None);
            lemma_control_is_sound(noted, octaves, time, channel, 7, value);
            lemma_control_is_sound(
                noted,
                octaves,
                time,
                channel,
                7,
                noted.effective_volume(channel),
            );
            lemma_emitting_is_sound(
                noted,
                octaves,
                time,
                SmafEventView::MidiControlChange {
                    channel: MIDI_DRUM_CHANNEL,
                    control: 7,
                    value: 100,
                },
            );
        },
        ScoreTrackSequenceEventView::Pan { channel, value } => {
            let channel = shifted_channel(channel, offset, use_offset);
            law_settings_keep_validity(tone, channel, 10, value, 0, None);
            lemma_control_is_sound(
                tone.update_control(channel, 10, value),
                octaves,
                time,
                channel,
                10,
                value,
            );
        },
        ScoreTrackSequenceEventView::Expression { channel, value } => {
            let channel = shifted_channel(channel, offset, use_offset);
            let noted = tone.set_expression(channel, value);
            law_settings_keep_validity(tone, channel, 11, value, 0, None);
            lemma_control_is_sound(
                noted,
                octaves,
                time,
                channel,
                7,
                noted.effective_volume(channel),
            );
            lemma_silent_is_sound(noted, octaves, time);
            lemma_control_is_sound(
                tone.update_control(channel, 11, value),
                octaves,
                time,
                channel,
                11,
                value,
            );
        },
        ScoreTrackSequenceEventView::OctaveShift { channel, value } => {
            let channel = shifted_channel(channel, offset, use_offset);
            if let Some(shift) = octaves_of(value) {
                lemma_silent_is_sound(tone, octaves.update(octave_entry(channel), shift), time);
            } else {
                lemma_silent_is_sound(tone, octaves, time);
            }
        },
        ScoreTrackSequenceEventView::Modulation { channel, value } => {
            let channel = shifted_channel(channel, offset, use_offset);
            lemma_control_is_sound(tone, octaves, time, channel, 1, value);
        },
        ScoreTrackSequenceEventView::BankSelect { channel, value } => {
            let channel = shifted_channel(channel, offset, use_offset);
            let noted = tone.update_bank_select(channel, value);
            law_settings_keep_validity(tone, channel, 0, value, 0, None);
            lemma_control_is_sound(
                noted,
                octaves,
                time,
                channel,
                0,
                noted.midi_control_value(0, value),
            );
        },
    }
}

/// How far a sequence has come is sound too.
proof fn lemma_progress_is_sound(
    setting: Setting,
    timebase_d: u8,
    tone: ToneMapView,
    sequence: Seq<SequenceDataView>,
    count: nat,
)
    requires
        tone.valid(),
    ensures
        progress_after(setting, timebase_d, tone, sequence, count) matches Some(progress) ==> {
            &&& progress.tone.valid()
            &&& progress.octaves.len() == 64
            &&& progress.now <= progress.sounding <= usize::MAX
            &&& notes_released(progress.events)
            &&& all_released(progress.events)
            &&& sounds_within(progress.events, 0, progress.sounding)
            &&& in_written_order(progress.events, progress.now)
            &&& all_well_formed(progress.events)
        },
    decreases count,
{
    if count > 0 {
        lemma_progress_is_sound(setting, timebase_d, tone, sequence, (count - 1) as nat);
        if let Some(before) = progress_after(
            setting,
            timebase_d,
            tone,
            sequence,
            (count - 1) as nat,
        ) {
            let entry = sequence[count - 1];
            let time = advanced(before.now, entry.duration, timebase_d);
            assert(before.now <= time) by (nonlinear_arith)
                requires
                    time == capped((before.now + capped(entry.duration * timebase_d)) as int),
                    before.now <= usize::MAX,
            ;
            law_effects_are_sound(setting, before.tone, before.octaves, time, entry.event);
            if let Some(effect) = effect_of(
                setting,
                before.tone,
                before.octaves,
                time,
                entry.event,
            ) {
                lemma_joined(before.events, effect.emitted, before.now, time);
            }
        }
    }
}

/// Sound lists, one behind the other, are sound.
proof fn lemma_joined(first: Seq<TimedEvent>, second: Seq<TimedEvent>, now: nat, time: nat)
    requires
        now <= time,
        notes_released(first),
        notes_released(second),
        all_released(first),
        all_released(second),
        in_written_order(first, now),
        starts_at(second, time),
        all_well_formed(first),
        all_well_formed(second),
    ensures
        notes_released(first + second),
        all_released(first + second),
        in_written_order(first + second, time),
        all_well_formed(first + second),
{
    let both = first + second;
    assert forall|channel: u8, note: u8| #[trigger] left_sounding(both, channel, note) == 0 by {
        lemma_left_sounding(first, second, channel, note);
    }
    assert forall|i: int| 0 <= i < both.len() implies (#[trigger] both[i].1 matches
        SmafEventView::MidiNoteOn { channel, note, velocity } ==> {
        &&& i + 1 < both.len()
        &&& both[i].0 <= both[i + 1].0
        &&& both[i + 1].1 == SmafEventView::MidiNoteOff { channel, note, velocity: 0 }
    }) by {
        if i < first.len() {
            assert(both[i] == first[i]);
            if first[i].1 is MidiNoteOn {
                assert(both[i + 1] == first[i + 1]);
            }
        } else {
            assert(both[i] == second[i - first.len()]);
            if second[i - first.len()].1 is MidiNoteOn {
                assert(both[i + 1] == second[i - first.len() + 1]);
            }
        }
    }
}

/// What a sequence plays is closed by one end marker, at or behind the time of
/// all its events; every note-on is followed by its note-off; the other events
/// are in the order in which they were written; and all numbers are well formed.
pub proof fn law_sequences_are_sound(
    setting: Setting,
    timebase_d: u8,
    tone: ToneMapView,
    sequence: Seq<SequenceDataView>,
)
    requires
        tone.valid(),
    ensures
        sequence_result(setting, timebase_d, tone, sequence) matches Some((after, events)) ==> {
            &&& after.valid()
            &&& events.len() > 0
            &&& events.last().1 is End
            &&& events.last().0 <= usize::MAX
            &&& sounds_within(events.drop_last(), 0, events.last().0)
            &&& notes_released(events.drop_last())
            &&& all_released(events)
            &&& in_written_order(events, events.last().0)
            &&& all_well_formed(events)
        },
{
    lemma_progress_is_sound(setting, timebase_d, tone, sequence, sequence.len());
    if let Some(done) = progress_after(setting, timebase_d, tone, sequence, sequence.len()) {
        let end = (later(done.sounding, done.now), SmafEventView::End);
        let events = done.events.push(end);
        assert(events.drop_last() =~= done.events);
        assert forall|channel: u8, note: u8| #[trigger] left_sounding(
            events,
            channel,
            note,
        ) == 0 by {
            assert(left_sounding(done.events, channel, note) == 0);
        }
    }
}

/// A voice definition inside a sequence adds to the voices and sends nothing to a
/// MIDI port; any other exclusive message goes there, framed.
pub proof fn law_voice_definitions_stay_inside(
    setting: Setting,
    tone: ToneMapView,
    octaves: Seq<i8>,
    time: nat,
    data: Seq<u8>,
)
    ensures
        effect_of(
            setting,
            tone,
            octaves,
            time,
            ScoreTrackSequenceEventView::Exclusive(data),
        ) matches Some(effect) && match exclusive_voice(data) {
            Some(voice) => effect.emitted.len() == 0 && effect.octaves == octaves && effect.tone
                == (ToneMapView { custom_voices: tone.custom_voices.push(voice), ..tone }),
            None => effect.emitted == seq![(time, SmafEventView::MidiSysEx(framed(data)))]
                && effect.tone == tone && effect.octaves == octaves,
        },
{
    reveal(effect_of);
}

/// A note for which the file defines an FM voice, and which selects no wave,
/// sounds through that voice and sends nothing to a MIDI port.
pub proof fn law_fm_voices_bypass_midi(
    setting: Setting,
    tone: ToneMapView,
    octaves: Seq<i8>,
    time: nat,
    channel: u8,
    note: u8,
    velocity: Option<u8>,
    gate_time: u32,
)
    requires
        tone.stream_wave_id(
            shifted_channel(channel, setting.channel_offset, setting.use_channel_offset),
            note,
        ) is None,
        tone.custom_voice(
            shifted_channel(channel, setting.channel_offset, setting.use_channel_offset),
            note,
        ) matches Some(MaCustomVoice::Fm { .. }),
    ensures
        effect_of(
            setting,
            tone,
            octaves,
            time,
            ScoreTrackSequenceEventView::NoteMessage { channel, note, velocity, gate_time },
        ) matches Some(effect) && effect.emitted.len() == 1 && effect.emitted[0].0 == time
            && effect.emitted[0].1 is MaFmNote && effect.tone.real_map == tone.real_map,
{
    reveal(effect_of);
}

/// A note that selects a wave which the track lacks is not dropped: it sounds
/// through an FM voice that the file defines, or else, also where the file only
/// names a voice of the handset's ROM, as a MIDI note.
pub proof fn law_notes_without_a_wave_still_sound(
    setting: Setting,
    tone: ToneMapView,
    octaves: Seq<i8>,
    time: nat,
    channel: u8,
    note: u8,
    velocity: Option<u8>,
    gate_time: u32,
)
    requires
        ({
            let shifted = shifted_channel(
                channel,
                setting.channel_offset,
                setting.use_channel_offset,
            );
            tone.stream_wave_id(shifted, note) matches Some(number) && wave_numbered(
                setting.waves,
                number,
                0,
            ) is None
        }),
    ensures
        ({
            let shifted = shifted_channel(
                channel,
                setting.channel_offset,
                setting.use_channel_offset,
            );
            effect_of(
                setting,
                tone,
                octaves,
                time,
                ScoreTrackSequenceEventView::NoteMessage { channel, note, velocity, gate_time },
            ) matches Some(effect) ==> if tone.custom_voice(shifted, note) matches Some(
                MaCustomVoice::Fm { .. },
            ) {
                effect.emitted.len() == 1 && effect.emitted[0].1 is MaFmNote
            } else {
                effect.emitted.len() == 2 && effect.emitted[0].1 is MidiNoteOn
            }
        }),
{
    reveal(effect_of);
}

/// Milliseconds that the first `count` entries of a sequence take.
pub open spec fn written_length(sequence: Seq<SequenceDataView>, timebase_d: u8, count: nat) -> nat
    decreases count,
{
    if count == 0 {
        0
    } else {
        written_length(sequence, timebase_d, (count - 1) as nat) + (sequence[count - 1].duration
            * timebase_d) as nat
    }
}

/// The channel that an event is on.
pub open spec fn event_channel(event: ScoreTrackSequenceEventView) -> Option<u8> {
    match event {
        ScoreTrackSequenceEventView::NoteMessage { channel, .. } => Some(channel),
        ScoreTrackSequenceEventView::ControlChange { channel, .. } => Some(channel),
        ScoreTrackSequenceEventView::ProgramChange { channel, .. } => Some(channel),
        ScoreTrackSequenceEventView::BankSelect { channel, .. } => Some(channel),
        ScoreTrackSequenceEventView::OctaveShift { channel, .. } => Some(channel),
        ScoreTrackSequenceEventView::Modulation { channel, .. } => Some(channel),
        ScoreTrackSequenceEventView::PitchBend { channel, .. } => Some(channel),
        ScoreTrackSequenceEventView::Volume { channel, .. } => Some(channel),
        ScoreTrackSequenceEventView::Pan { channel, .. } => Some(channel),
        ScoreTrackSequenceEventView::Expression { channel, .. } => Some(channel),
        ScoreTrackSequenceEventView::Exclusive(_) => None,
        ScoreTrackSequenceEventView::Nop => None,
    }
}

/// Whether an event stays within the first sixteen channels of the file.
pub open spec fn on_low_channel(setting: Setting, event: ScoreTrackSequenceEventView) -> bool {
    event_channel(event) matches Some(channel) ==> shifted_channel(
        channel,
        setting.channel_offset,
        setting.use_channel_offset,
    ) < 16
}

/// Whether a note that an event starts at some time ends at a time that can be
/// counted.
pub open spec fn ends_in_time(
    event: ScoreTrackSequenceEventView,
    timebase_g: u8,
    time: nat,
) -> bool {
    event matches ScoreTrackSequenceEventView::NoteMessage { gate_time, .. } ==> time
        + gate_milliseconds(gate_time, timebase_g) <= usize::MAX
}

/// Whether every note of a sequence ends at a time that can be counted and, on a
/// Handy Phone track, every event is within the first sixteen channels of the file.
pub open spec fn sequence_fits(
    setting: Setting,
    timebase_d: u8,
    handy: bool,
    sequence: Seq<SequenceDataView>,
) -> bool {
    forall|i: int|
        0 <= i < sequence.len() ==> {
            &&& ends_in_time(
                #[trigger] sequence[i].event,
                setting.timebase_g,
                written_length(sequence, timebase_d, (i + 1) as nat),
            )
            &&& handy ==> on_low_channel(setting, sequence[i].event)
        }
}

/// Whether an effect comes about, and keeps what later ones need.
spec fn takes_effect(effect: Option<Effect>, handy: bool) -> bool {
    &&& effect matches Some(done)
    &&& done.tone.assignable()
    &&& done.tone.handy() == handy
}

proof fn lemma_control_takes_effect(
    tone: ToneMapView,
    octaves: Seq<i8>,
    time: nat,
    channel: u8,
    control: u8,
    value: u8,
)
    requires
        tone.valid(),
        tone.assignable(),
        !tone.handy() || channel < 16,
    ensures
        takes_effect(
            control_effect(tone, octaves, time, channel, control, value),
            tone.handy(),
        ),
{
    law_low_channels_find_a_midi_channel(tone, channel);
}

proof fn lemma_note_takes_effect(
    setting: Setting,
    tone: ToneMapView,
    octaves: Seq<i8>,
    time: nat,
    channel: u8,
    note: u8,
    velocity: Option<u8>,
    gate_time: u32,
)
    requires
        tone.valid(),
        tone.assignable(),
        !tone.handy() || channel < 16,
        time + gate_milliseconds(gate_time, setting.timebase_g) <= usize::MAX,
    ensures
        takes_effect(
            note_effect(
                setting.timebase_g,
                setting.waves,
                tone,
                octaves,
                time,
                channel,
                note,
                velocity,
                gate_time,
            ),
            tone.handy(),
        ),
{
    law_settings_keep_validity(tone, channel, 0, 0, 0, velocity);
    law_low_channels_find_a_midi_channel(tone.note_velocity(channel, velocity).0, channel);
}

/// An event of a Mobile Standard track, or on one of the first sixteen channels of
/// Handy Phone tracks, takes effect where the end of its note can be counted; MIDI
/// channels stay within those that exist.
pub proof fn law_events_take_effect(
    setting: Setting,
    tone: ToneMapView,
    octaves: Seq<i8>,
    time: nat,
    event: ScoreTrackSequenceEventView,
)
    requires
        tone.valid(),
        tone.assignable(),
        !tone.handy() || on_low_channel(setting, event),
        ends_in_time(event, setting.timebase_g, time),
    ensures
        effect_of(setting, tone, octaves, time, event) matches Some(effect)
            && effect.tone.assignable() && effect.tone.handy() == tone.handy(),
{
    reveal(effect_of);
    let offset = setting.channel_offset;
    let use_offset = setting.use_channel_offset;
    match event {
        ScoreTrackSequenceEventView::NoteMessage { channel, note, velocity, gate_time } => {
            let channel = shifted_channel(channel, offset, use_offset);
            lemma_note_takes_effect(
                setting,
                tone,
                octaves,
                time,
                channel,
                note,
                velocity,
                gate_time,
            );
        },
        ScoreTrackSequenceEventView::ControlChange { channel, control, value } => {
            let channel = shifted_channel(channel, offset, use_offset);
            let noted = tone.update_control(channel, control, value);
            law_settings_keep_validity(tone, channel, control, value, 0, None);
            let sent = noted.midi_control_value(control, value);
            lemma_control_takes_effect(noted, octaves, time, channel, control, sent);
        },
        ScoreTrackSequenceEventView::ProgramChange { channel, program } => {
            let channel = shifted_channel(channel, offset, use_offset);
            law_programs_find_a_midi_channel(tone, channel, program);
        },
        ScoreTrackSequenceEventView::Exclusive(data) => {},
        ScoreTrackSequenceEventView::Nop => {},
        ScoreTrackSequenceEventView::PitchBend { channel, value } => {
            let channel = shifted_channel(channel, offset, use_offset);
            law_settings_keep_validity(tone, channel, 0, 0, value, None);
            law_low_channels_find_a_midi_channel(tone.set_pitch_bend(channel, value), channel);
        },
        ScoreTrackSequenceEventView::Volume { channel, value } => {
            let channel = shifted_channel(channel, offset, use_offset);
            let noted = tone.update_control(channel, 7, value);
            law_settings_keep_validity(tone, channel, 7, value, 0, None);
            lemma_control_takes_effect(noted, octaves, time, channel, 7, value);
            let folded = noted.effective_volume(channel);
            lemma_control_takes_effect(noted, octaves, time, channel, 7, folded);
        },
        ScoreTrackSequenceEventView::Pan { channel, value } => {
            let channel = shifted_channel(channel, offset, use_offset);
            let noted = tone.update_control(channel, 10, value);
            law_settings_keep_validity(tone, channel, 10, value, 0, None);
            lemma_control_takes_effect(noted, octaves, time, channel, 10, value);
        },
        ScoreTrackSequenceEventView::Expression { channel, value } => {
            let channel = shifted_channel(channel, offset, use_offset);
            law_settings_keep_validity(tone, channel, 11, value, 0, None);
            let noted = tone.update_control(channel, 11, value);
            lemma_control_takes_effect(noted, octaves, time, channel, 11, value);
            let folded = tone.set_expression(channel, value);
            let volume = folded.effective_volume(channel);
            lemma_control_takes_effect(folded, octaves, time, channel, 7, volume);
        },
        ScoreTrackSequenceEventView::OctaveShift { channel, value } => {},
        ScoreTrackSequenceEventView::Modulation { channel, value } => {
            let channel = shifted_channel(channel, offset, use_offset);
            lemma_control_takes_effect(tone, octaves, time, channel, 1, value);
        },
        ScoreTrackSequenceEventView::BankSelect { channel, value } => {
            let channel = shifted_channel(channel, offset, use_offset);
            let noted = tone.update_bank_select(channel, value);
            law_settings_keep_validity(tone, channel, 0, value, 0, None);
            let sent = noted.midi_control_value(0, value);
            lemma_control_takes_effect(noted, octaves, time, channel, 0, sent);
        },
    }
}

proof fn lemma_playable_progress(
    setting: Setting,
    timebase_d: u8,
    tone: ToneMapView,
    sequence: Seq<SequenceDataView>,
    count: nat,
)
    requires
        tone.valid(),
        tone.assignable(),
        sequence_fits(setting, timebase_d, tone.handy(), sequence),
        count <= sequence.len(),
    ensures
        progress_after(setting, timebase_d, tone, sequence, count) matches Some(progress)
            && progress.tone.assignable() && progress.tone.handy() == tone.handy() && progress.now
            == capped(written_length(sequence, timebase_d, count) as int),
    decreases count,
{
    if count > 0 {
        let fewer = (count - 1) as nat;
        lemma_playable_progress(setting, timebase_d, tone, sequence, fewer);
        lemma_progress_is_sound(setting, timebase_d, tone, sequence, fewer);
        let before = progress_after(setting, timebase_d, tone, sequence, fewer).unwrap();
        let entry = sequence[count - 1];
        let time = advanced(before.now, entry.duration, timebase_d);
        assert(entry.duration * timebase_d >= 0) by (nonlinear_arith);
        assert(time == capped(written_length(sequence, timebase_d, count) as int));
        assert(ends_in_time(
            sequence[count - 1].event,
            setting.timebase_g,
            written_length(sequence, timebase_d, count),
        ));
        law_events_take_effect(setting, before.tone, before.octaves, time, entry.event);
    }
}

/// The sequence of a Mobile Standard track, and that of a Handy Phone track within
/// the first sixteen channels, can be played to its end, as long as the ends of its
/// notes can be counted; MIDI channels stay within those that exist.
pub proof fn law_sequences_can_be_played(
    setting: Setting,
    timebase_d: u8,
    tone: ToneMapView,
    sequence: Seq<SequenceDataView>,
)
    requires
        tone.valid(),
        tone.assignable(),
        sequence_fits(setting, timebase_d, tone.handy(), sequence),
    ensures
        sequence_result(setting, timebase_d, tone, sequence) matches Some((after, _))
            && after.assignable() && after.handy() == tone.handy(),
{
    lemma_playable_progress(setting, timebase_d, tone, sequence, sequence.len());
}

/// The channels of Handy Phone tracks are counted on from the offset of the track, up to
/// 255; those of other tracks are left as they are.  Behind such a track the offset is
/// four more, up to 255.
pub proof fn law_channels_are_counted_on(channel: u8, offset: u8)
    ensures
        shifted_channel(channel, offset, false) == channel,
        channel + offset <= 255 ==> shifted_channel(channel, offset, true) == channel + offset,
        channel + offset > 255 ==> shifted_channel(channel, offset, true) == 255,
        next_offset(offset, false) == offset,
        offset <= 251 ==> next_offset(offset, true) == offset + 4,
        offset > 251 ==> next_offset(offset, true) == 255,
{
}

/// Octave shifts 0 to 4 go up that many octaves, 0x81 to 0x84 go down one to four, and no
/// other value is a shift.
pub proof fn law_octave_shifts_go_both_ways(value: u8)
    ensures
        octaves_of(value) is Some <==> value <= 4 || 0x81 <= value <= 0x84,
        value <= 4 ==> octaves_of(value) == Some(value as i8),
        0x81 <= value <= 0x84 ==> octaves_of(value).unwrap() == -(value - 0x80),
{
}

/// A gate time lasts as many units of the time base, as far as 32 bits count, and an entry
/// comes as many units of its time base behind the one before, as far as times count.
pub proof fn law_units_are_milliseconds(now: nat, ticks: u32, timebase: u8)
    ensures
        ticks * timebase <= u32::MAX ==> gate_milliseconds(ticks, timebase) == ticks * timebase,
        ticks * timebase > u32::MAX ==> gate_milliseconds(ticks, timebase) == u32::MAX,
        now + ticks * timebase <= usize::MAX ==> advanced(now, ticks, timebase) == now + ticks
            * timebase,
        now <= usize::MAX && now + ticks * timebase > usize::MAX ==> advanced(now, ticks, timebase)
            == usize::MAX,
{
    assert(ticks * timebase >= 0) by (nonlinear_arith);
}

/// Whether an effect is one MIDI control change, now, on the MIDI channel of a channel, and
/// leaves the state in which that is assigned.
pub open spec fn sends_control(
    effect: Option<Effect>,
    routed: Option<(ToneMapView, u8)>,
    octaves: Seq<i8>,
    time: nat,
    control: u8,
    value: u8,
) -> bool {
    match (effect, routed) {
        (Some(done), Some((assigned, midi))) => {
            &&& done.emitted.len() == 1
            &&& done.emitted[0].0 == time
            &&& done.emitted[0].1 == (SmafEventView::MidiControlChange {
                channel: midi,
                control,
                value,
            })
            &&& done.tone == assigned && done.octaves == octaves && done.until == time
        },
        (None, None) => true,
        _ => false,
    }
}

/// A control change goes to the port as the one event, under its own number and with its
/// own value, on Mobile Standard and Handy Phone tracks alike; the bank selects 0 and 32
/// of a Mobile Standard track go there with value 0.
pub proof fn law_control_changes_keep_their_numbers(
    setting: Setting,
    tone: ToneMapView,
    octaves: Seq<i8>,
    time: nat,
    channel: u8,
    control: u8,
    value: u8,
)
    requires
        tone.valid(),
        value < 128,
    ensures
        ({
            let effect = effect_of(
                setting,
                tone,
                octaves,
                time,
                ScoreTrackSequenceEventView::ControlChange { channel, control, value },
            );
            let shifted = shifted_channel(
                channel,
                setting.channel_offset,
                setting.use_channel_offset,
            );
            let noted = tone.update_control(shifted, control, value);
            let routed = noted.real_channel(shifted);
            &&& control != 0 && control != 32 || tone.handy() ==> sends_control(
                effect,
                routed,
                octaves, time,
                control,
                value,
            )
            &&& !tone.handy() && (control == 0 || control == 32) ==> sends_control(
                effect,
                routed,
                octaves, time,
                control,
                0,
            )
        }),
{
    reveal(effect_of);
    let shifted = shifted_channel(channel, setting.channel_offset, setting.use_channel_offset);
    law_controls_keep_their_value(tone.update_control(shifted, control, value), control, value);
}

/// Pan and modulation go to the port as controls 10 and 1 with the value that is written,
/// and a bank select as control 0, with value 0 from a Mobile Standard track and seven
/// bits of its own from a Handy Phone track.  The pan and the bank are kept.
pub proof fn law_short_controls_have_their_numbers(
    setting: Setting,
    tone: ToneMapView,
    octaves: Seq<i8>,
    time: nat,
    channel: u8,
    value: u8,
)
    requires
        tone.valid(),
    ensures
        ({
            let shifted = shifted_channel(
                channel,
                setting.channel_offset,
                setting.use_channel_offset,
            );
            let pan = effect_of(
                setting,
                tone,
                octaves,
                time,
                ScoreTrackSequenceEventView::Pan { channel, value },
            );
            let modulation = effect_of(
                setting,
                tone,
                octaves,
                time,
                ScoreTrackSequenceEventView::Modulation { channel, value },
            );
            let bank = effect_of(
                setting,
                tone,
                octaves,
                time,
                ScoreTrackSequenceEventView::BankSelect { channel, value },
            );
            let panned = tone.update_control(shifted, 10, value);
            let banked = tone.update_bank_select(shifted, value);
            let sent: u8 = if tone.handy() {
                value % 128
            } else {
                0
            };
            &&& sends_control(pan, panned.real_channel(shifted), octaves, time, 10, value)
            &&& sends_control(modulation, tone.real_channel(shifted), octaves, time, 1, value)
            &&& sends_control(bank, banked.real_channel(shifted), octaves, time, 0, sent)
        }),
{
    reveal(effect_of);
    let shifted = shifted_channel(channel, setting.channel_offset, setting.use_channel_offset);
    let banked = tone.update_bank_select(shifted, value);
    law_controls_keep_their_value(banked, 0, value);
}

/// A volume goes to the port of a Mobile Standard track as control 7 with its own value.
/// On a melody channel of a Handy Phone track it goes there times the expression, over
/// 127; its percussion is told volume 100 on channel 9.  The volume is kept.
pub proof fn law_volumes_reach_the_port(
    setting: Setting,
    tone: ToneMapView,
    octaves: Seq<i8>,
    time: nat,
    channel: u8,
    value: u8,
    folded: u8,
)
    requires
        tone.valid(),
        value < 128,
    ensures
        ({
            let shifted = shifted_channel(
                channel,
                setting.channel_offset,
                setting.use_channel_offset,
            );
            let e = tone.entry(shifted);
            let effect = effect_of(
                setting,
                tone,
                octaves,
                time,
                ScoreTrackSequenceEventView::Volume { channel, value },
            );
            let noted = tone.update_control(shifted, 7, value);
            let routed = noted.real_channel(shifted);
            &&& !tone.handy() ==> sends_control(effect, routed, octaves, time, 7, value)
            &&& tone.handy() && tone.rhythm(shifted) ==> sends_control(
                effect,
                Some((noted, 9u8)),
                octaves, time,
                7,
                100,
            )
            &&& tone.handy() && !tone.rhythm(shifted) && folded * 127 <= value
                * tone.expressions[e] < (folded + 1) * 127 ==> sends_control(
                effect,
                routed,
                octaves, time,
                7,
                folded,
            )
        }),
{
    reveal(effect_of);
    let shifted = shifted_channel(channel, setting.channel_offset, setting.use_channel_offset);
    let noted = tone.update_control(shifted, 7, value);
    law_settings_keep_validity(tone, shifted, 7, value, 0, None);
    law_channels_have_entries(tone, shifted);
    law_controls_set_one_thing(tone, shifted, 7, value, tone.entry(shifted));
    law_folded_volumes(noted, shifted);
}

/// An expression goes to the port of a Mobile Standard track as control 11 with its own
/// value.  On a melody channel of a Handy Phone track it goes there as control 7, the
/// volume times it, over 127; on percussion nothing is sent.  The expression is kept.
pub proof fn law_expressions_reach_the_port(
    setting: Setting,
    tone: ToneMapView,
    octaves: Seq<i8>,
    time: nat,
    channel: u8,
    value: u8,
    folded: u8,
)
    requires
        tone.valid(),
        value < 128,
    ensures
        ({
            let shifted = shifted_channel(
                channel,
                setting.channel_offset,
                setting.use_channel_offset,
            );
            let e = tone.entry(shifted);
            let effect = effect_of(
                setting,
                tone,
                octaves,
                time,
                ScoreTrackSequenceEventView::Expression { channel, value },
            );
            let noted = tone.set_expression(shifted, value);
            &&& !tone.handy() ==> sends_control(
                effect,
                tone.update_control(shifted, 11, value).real_channel(shifted),
                octaves, time,
                11,
                value,
            )
            &&& tone.handy() && tone.rhythm(shifted) ==> (effect matches Some(done)
                && done.emitted.len() == 0 && done.tone == noted && done.octaves == octaves)
            &&& tone.handy() && !tone.rhythm(shifted) && folded * 127 <= tone.channel_volumes[e]
                * value < (folded + 1) * 127 ==> sends_control(
                effect,
                noted.real_channel(shifted),
                octaves, time,
                7,
                folded,
            )
            &&& effect matches Some(done) ==> done.tone.expressions[e] == value
        }),
{
    reveal(effect_of);
    let shifted = shifted_channel(channel, setting.channel_offset, setting.use_channel_offset);
    let noted = tone.set_expression(shifted, value);
    law_settings_keep_validity(tone, shifted, 11, value, 0, None);
    law_channels_have_entries(tone, shifted);
    law_controls_set_one_thing(tone, shifted, 11, value, tone.entry(shifted));
    law_bends_and_expressions_are_kept(tone, shifted, 0, value, tone.entry(shifted));
    law_folded_volumes(noted, shifted);
}

/// A pitch bend goes to the port with its own value, 16383 at most, and is kept for FM
/// notes; a program change goes there with its own number on a melody channel and as
/// program 0 on percussion.
pub proof fn law_bends_and_programs_reach_the_port(
    setting: Setting,
    tone: ToneMapView,
    octaves: Seq<i8>,
    time: nat,
    channel: u8,
    bend: u16,
    program: u8,
)
    requires
        tone.valid(),
        bend < 16384,
        program < 128,
    ensures
        ({
            let shifted = shifted_channel(
                channel,
                setting.channel_offset,
                setting.use_channel_offset,
            );
            let bent = effect_of(
                setting,
                tone,
                octaves,
                time,
                ScoreTrackSequenceEventView::PitchBend { channel, value: bend },
            );
            let changed = effect_of(
                setting,
                tone,
                octaves,
                time,
                ScoreTrackSequenceEventView::ProgramChange { channel, program },
            );
            &&& bent matches Some(done) ==> {
                &&& done.emitted.len() == 1 && done.emitted[0].0 == time
                &&& done.octaves == octaves
                &&& done.emitted[0].1 matches SmafEventView::MidiPitchBend { channel: midi, value }
                    && value == bend && tone.set_pitch_bend(shifted, bend).real_channel(shifted)
                    == Some((done.tone, midi))
                &&& done.tone.pitch_bend[tone.entry(shifted)] == bend
            }
            &&& changed matches Some(done) ==> {
                &&& done.emitted.len() == 1 && done.emitted[0].0 == time
                &&& done.octaves == octaves
                &&& tone.set_program(shifted, program) matches Some((assigned, _, _)) && done.tone
                    == assigned
                &&& done.emitted[0].1 matches SmafEventView::MidiProgramChange {
                    channel: midi,
                    program: sent,
                } && (tone.rhythm(shifted) ==> sent == 0 && midi == 9) && (!tone.rhythm(shifted)
                    ==> sent == program && tone.real_channel(shifted) is Some && midi
                    == tone.real_channel(shifted).unwrap().1)
                &&& done.tone.source_programs[tone.entry(shifted)] == program
            }
        }),
{
    reveal(effect_of);
    let shifted = shifted_channel(channel, setting.channel_offset, setting.use_channel_offset);
    law_channels_have_entries(tone, shifted);
    law_bends_and_expressions_are_kept(tone, shifted, bend, 0, tone.entry(shifted));
    law_programs_reach_their_channel(tone, shifted, program, tone.entry(shifted));
    law_programs_ask_for_the_channel(tone, shifted, program);
}

/// An octave shift sends nothing and sets the octaves of its channel alone, where it is
/// one; an empty event does nothing at all.
pub proof fn law_octave_shifts_are_kept(
    setting: Setting,
    tone: ToneMapView,
    octaves: Seq<i8>,
    time: nat,
    channel: u8,
    value: u8,
    other: int,
)
    requires
        octaves.len() == 64,
        0 <= other < 64,
    ensures
        ({
            let shifted = shifted_channel(
                channel,
                setting.channel_offset,
                setting.use_channel_offset,
            );
            let here = other == shifted || other == 63 && shifted > 63;
            &&& effect_of(
                setting,
                tone,
                octaves,
                time,
                ScoreTrackSequenceEventView::OctaveShift { channel, value },
            ) matches Some(done) && {
                &&& done.emitted.len() == 0 && done.tone == tone
                &&& here && value <= 4 ==> done.octaves[other] == value
                &&& here && 0x81 <= value <= 0x84 ==> done.octaves[other] == 0x80 - value
                &&& !here || 4 < value <= 0x80 || value > 0x84 ==> done.octaves[other]
                    == octaves[other]
            }
            &&& effect_of(
                setting,
                tone,
                octaves,
                time,
                ScoreTrackSequenceEventView::Nop,
            ) matches Some(done) && done.emitted.len() == 0 && done.tone == tone && done.octaves
                == octaves && done.until == time
        }),
{
    reveal(effect_of);
}

/// The octaves that a channel was shifted by.
pub open spec fn octaves_at(octaves: Seq<i8>, channel: u8) -> i8 {
    octaves[if channel < 64 {
        channel as int
    } else {
        63
    }]
}

/// A note that neither selects a wave of the track nor has an FM voice is switched on on
/// the MIDI channel of its channel, with the number that its own and the octave shift
/// make and with its velocity, and off again when its gate time is over.
pub proof fn law_midi_notes_last_their_gate_time(
    setting: Setting,
    tone: ToneMapView,
    octaves: Seq<i8>,
    time: nat,
    channel: u8,
    note: u8,
    velocity: Option<u8>,
    gate_time: u32,
)
    requires
        ({
            let shifted = shifted_channel(
                channel,
                setting.channel_offset,
                setting.use_channel_offset,
            );
            &&& tone.stream_wave_id(shifted, note) matches Some(number) ==> wave_numbered(
                setting.waves,
                number,
                0,
            ) is None
            &&& !(tone.custom_voice(shifted, note) matches Some(MaCustomVoice::Fm { .. }))
        }),
        gate_time * setting.timebase_g <= u32::MAX,
    ensures
        ({
            let shifted = shifted_channel(
                channel,
                setting.channel_offset,
                setting.use_channel_offset,
            );
            let number = tone.map_note(shifted, note + 12 * octaves_at(octaves, shifted));
            let (heard, sounds) = tone.note_velocity(shifted, velocity);
            effect_of(
                setting,
                tone,
                octaves,
                time,
                ScoreTrackSequenceEventView::NoteMessage { channel, note, velocity, gate_time },
            ) matches Some(done) ==> {
                &&& done.emitted.len() == 2
                &&& done.octaves == octaves
                &&& done.emitted[0].0 == time
                &&& done.emitted[1].0 == time + gate_time * setting.timebase_g
                &&& done.until == time + gate_time * setting.timebase_g
                &&& done.emitted[0].1 matches SmafEventView::MidiNoteOn {
                    channel: midi,
                    note: on,
                    velocity: loud,
                } && on == number && loud == sounds && heard.real_channel(shifted) == Some(
                    (done.tone, midi),
                ) && done.emitted[1].1 == (SmafEventView::MidiNoteOff {
                    channel: midi,
                    note: number,
                    velocity: 0,
                })
            }
        }),
{
    reveal(effect_of);
    assert(gate_time * setting.timebase_g >= 0) by (nonlinear_arith);
}

/// On a Mobile Standard melody channel without an octave shift a note keeps its number;
/// an octave up is twelve more.
pub proof fn law_melody_keeps_its_notes(
    setting: Setting,
    tone: ToneMapView,
    octaves: Seq<i8>,
    time: nat,
    channel: u8,
    note: u8,
    velocity: u8,
    gate_time: u32,
)
    requires
        tone.valid(),
        !tone.handy(),
        !setting.use_channel_offset,
        channel < 16,
        !tone.rhythm(channel),
        tone.custom_voices.len() == 0,
        velocity < 128,
        gate_time * setting.timebase_g <= u32::MAX,
        0 <= note + 12 * octaves_at(octaves, channel) <= 127,
    ensures
        effect_of(
            setting,
            tone,
            octaves,
            time,
            ScoreTrackSequenceEventView::NoteMessage {
                channel,
                note,
                velocity: Some(velocity),
                gate_time,
            },
        ) matches Some(done) ==> done.emitted.len() == 2 && (
        done.emitted[0].1 matches SmafEventView::MidiNoteOn { note: on, velocity: loud, .. } && on
            == note + 12 * octaves_at(octaves, channel) && loud == velocity),
{
    law_channels_have_entries(tone, channel);
    law_notes_select_waves(tone, channel, note);
    law_voices_are_chosen_by_key(tone, channel, note);
    law_notes_find_their_number(tone, channel, note + 12 * octaves_at(octaves, channel));
    law_notes_sound_with_their_velocity(tone, channel, Some(velocity), tone.entry(channel));
    law_midi_notes_last_their_gate_time(
        setting,
        tone,
        octaves,
        time,
        channel,
        note,
        Some(velocity),
        gate_time,
    );
}

/// A note that selects a wave of the track plays that wave, now: its decoded samples cut
/// at its gate time, in its layout and at its rate, with the dynamics of the channel.  It
/// sends nothing else, and nothing at all where the wave cannot be decoded.
pub proof fn law_wave_notes_play_their_wave(
    setting: Setting,
    tone: ToneMapView,
    octaves: Seq<i8>,
    time: nat,
    channel: u8,
    note: u8,
    velocity: Option<u8>,
    gate_time: u32,
    wave: WaveDataView,
)
    requires
        ({
            let shifted = shifted_channel(
                channel,
                setting.channel_offset,
                setting.use_channel_offset,
            );
            tone.stream_wave_id(shifted, note) matches Some(number) && wave_numbered(
                setting.waves,
                number,
                0,
            ) == Some(wave)
        }),
    ensures
        ({
            let shifted = shifted_channel(
                channel,
                setting.channel_offset,
                setting.use_channel_offset,
            );
            let (heard, loud) = tone.wave_dynamics(shifted, velocity);
            effect_of(
                setting,
                tone,
                octaves,
                time,
                ScoreTrackSequenceEventView::NoteMessage { channel, note, velocity, gate_time },
            ) matches Some(done) && done.octaves == octaves && match decoded_stream_wave(wave) {
                None => done.emitted.len() == 0 && done.tone == tone,
                Some(samples) => {
                    &&& done.emitted.len() == 1 && done.emitted[0].0 == time
                    &&& done.tone == heard
                    &&& done.emitted[0].1 matches SmafEventView::Wave {
                        channels,
                        sampling_rate,
                        data,
                        dynamics,
                    } && {
                        &&& channels == 1 <==> wave.channel is Mono
                        &&& channels == 2 <==> wave.channel is Stereo
                        &&& sampling_rate == wave.sampling_freq
                        &&& data == gated(
                            samples,
                            channels,
                            sampling_rate,
                            gate_time,
                            setting.timebase_g,
                        )
                        &&& dynamics == loud
                        &&& done.until <= time + duration_ms(
                            data.len() as int,
                            channels,
                            sampling_rate,
                        )
                        &&& time + duration_ms(data.len() as int, channels, sampling_rate)
                            <= usize::MAX ==> done.until == time + duration_ms(
                            data.len() as int,
                            channels,
                            sampling_rate,
                        )
                    }
                },
            }
        }),
{
    reveal(effect_of);
}

/// A note with an FM voice plays it, now and for its gate time, with the number that its
/// own and the octave shift make within 0 and 127, and with the state of its channel.
pub proof fn law_fm_notes_play_their_voice(
    setting: Setting,
    tone: ToneMapView,
    octaves: Seq<i8>,
    time: nat,
    channel: u8,
    note: u8,
    velocity: Option<u8>,
    gate_time: u32,
    key: MaVoiceKey,
    patch: MaFmPatch,
)
    requires
        ({
            let shifted = shifted_channel(
                channel,
                setting.channel_offset,
                setting.use_channel_offset,
            );
            &&& tone.stream_wave_id(shifted, note) matches Some(number) ==> wave_numbered(
                setting.waves,
                number,
                0,
            ) is None
            &&& tone.custom_voice(shifted, note) == Some(MaCustomVoice::Fm { key, patch })
        }),
        gate_time * setting.timebase_g <= u32::MAX,
    ensures
        ({
            let shifted = shifted_channel(
                channel,
                setting.channel_offset,
                setting.use_channel_offset,
            );
            let number = note + 12 * octaves_at(octaves, shifted);
            let (heard, sounds) = tone.note_velocity(shifted, velocity);
            effect_of(
                setting,
                tone,
                octaves,
                time,
                ScoreTrackSequenceEventView::NoteMessage { channel, note, velocity, gate_time },
            ) matches Some(done) && done.emitted.len() == 1 && done.emitted[0].0 == time
                && done.tone == heard && done.octaves == octaves && (
            done.emitted[0].1 matches SmafEventView::MaFmNote(fm) && {
                &&& fm.channel == shifted && fm.patch == patch && fm.velocity == sounds
                &&& fm.gate_ms == gate_time * setting.timebase_g
                &&& 0 <= number <= 127 ==> fm.note == number
                &&& number < 0 ==> fm.note == 0
                &&& number > 127 ==> fm.note == 127
                &&& fm.volume == tone.channel_volumes[tone.entry(shifted)]
                &&& fm.expression == tone.expressions[tone.entry(shifted)]
                &&& fm.pitch_bend == tone.pitch_bend[tone.entry(shifted)]
            })
        }),
{
    reveal(effect_of);
    assert(gate_time * setting.timebase_g >= 0) by (nonlinear_arith);
}

/// A sequence starts at time zero without octave shifts and events; each entry comes its
/// duration in units of the time base behind the one before and takes effect then, on the
/// state that the entries before have left, and its events follow theirs.
pub proof fn law_entries_follow_each_other(
    setting: Setting,
    timebase_d: u8,
    tone: ToneMapView,
    sequence: Seq<SequenceDataView>,
    count: nat,
    channel: int,
)
    requires
        0 <= channel < 64,
        count < sequence.len(),
    ensures
        progress_after(setting, timebase_d, tone, sequence, 0) matches Some(start) && start.tone
            == tone && start.now == 0 && start.sounding == 0 && start.events.len() == 0
            && start.octaves.len() == 64 && start.octaves[channel] == 0,
        match progress_after(setting, timebase_d, tone, sequence, count) {
            None => progress_after(setting, timebase_d, tone, sequence, count + 1) is None,
            Some(before) => before.now + sequence[count as int].duration * timebase_d
                <= usize::MAX ==> {
                let time = (before.now + sequence[count as int].duration * timebase_d) as nat;
                match effect_of(
                    setting,
                    before.tone,
                    before.octaves,
                    time,
                    sequence[count as int].event,
                ) {
                    None => progress_after(setting, timebase_d, tone, sequence, count + 1) is None,
                    Some(effect) => progress_after(
                        setting,
                        timebase_d,
                        tone,
                        sequence,
                        count + 1,
                    ) matches Some(after) && {
                        &&& after.tone == effect.tone && after.octaves == effect.octaves
                        &&& after.now == time
                        &&& after.events == before.events + effect.emitted
                        &&& after.sounding >= before.sounding && after.sounding >= time
                        &&& after.sounding >= effect.until
                        &&& after.sounding == before.sounding || after.sounding == time
                            || after.sounding == effect.until
                    },
                }
            },
        },
{
    assert(sequence[count as int].duration * timebase_d >= 0) by (nonlinear_arith);
}

/// A sequence ends with one end marker behind all its events, when its last entry is past
/// and its last note has ended, whichever is later.
pub proof fn law_sequences_end_behind_their_last_note(
    setting: Setting,
    timebase_d: u8,
    tone: ToneMapView,
    sequence: Seq<SequenceDataView>,
)
    ensures
        match progress_after(setting, timebase_d, tone, sequence, sequence.len()) {
            None => sequence_result(setting, timebase_d, tone, sequence) is None,
            Some(done) => sequence_result(setting, timebase_d, tone, sequence) matches Some(
                (after, events),
            ) && {
                &&& after == done.tone
                &&& events.len() == done.events.len() + 1
                &&& events.drop_last() == done.events
                &&& events.last().1 is End
                &&& events.last().0 >= done.now && events.last().0 >= done.sounding
                &&& events.last().0 == done.now || events.last().0 == done.sounding
            },
        },
{
    if let Some(done) = progress_after(setting, timebase_d, tone, sequence, sequence.len()) {
        let events = sequence_result(setting, timebase_d, tone, sequence).unwrap().1;
        assert(events.drop_last() =~= done.events);
    }
}

} // verus!
