use smaf_player::adpcm::decode_yamaha_adpcm;
use smaf_player::container::{
    BaseBit, ChannelStatus, ChannelType, FormatType, ScoreTrack, ScoreTrackChunk,
    ScoreTrackSequenceEvent, SequenceData, SmafChunk,
};
use smaf_player::events::{delay_ms, event_sort_key, make_sysex_message, midi_message, SmafEvent};
use smaf_player::huffman::decode_text;
use smaf_player::ma_voice::{parse_setup_custom_voices, parse_vm35_body, read_vlq, MaCustomVoice};
use smaf_player::order::{finish_events, sort_events};
use smaf_player::pcm::{decode_pcm, PcmEncoding};
use smaf_player::player::try_play_file;
use smaf_player::score::{parse_setup_sysex_events, read_midi_vlq, try_parse_setup_sysex_events};
use smaf_player::sequence::{parse_octave_shift, parse_sequence_events, try_parse_sequence_events};
use smaf_player::tone_map::ToneMap;
use smaf_player::waves::{decoded_duration_ms, trim_to_gate};

fn program(number: u8) -> SmafEvent {
    SmafEvent::MidiProgramChange { channel: 0, program: number }
}

#[test]
fn longer_adpcm_blocks_extend_shorter_ones() {
    let data: Vec<u8> = (0..200u32).map(|i| (i * 37 % 256) as u8).collect();
    for channels in [1, 2] {
        let long = decode_yamaha_adpcm(&data, channels).unwrap();
        let short = decode_yamaha_adpcm(&data[..77], channels).unwrap();
        assert_eq!(long.len(), 400);
        assert_eq!(short[..], long[..154]);
    }
}

#[test]
fn adpcm_samples_are_bounded() {
    assert_eq!(decode_yamaha_adpcm(&[0x77; 40], 1).unwrap()[79], i16::MAX);
    assert_eq!(decode_yamaha_adpcm(&[0xff; 40], 1).unwrap()[79], i16::MIN);
}

#[test]
fn right_nibbles_do_not_touch_the_left_channel() {
    let one = decode_yamaha_adpcm(&[0x12, 0x34, 0x56], 2).unwrap();
    let other = decode_yamaha_adpcm(&[0xf2, 0x04, 0x96], 2).unwrap();
    for frame in 0..3 {
        assert_eq!(one[2 * frame], other[2 * frame]);
    }
    assert_ne!(one, other);
}

#[test]
fn pcm_widths_fill_sixteen_bits() {
    let four = decode_pcm(&[0x87, 0x0f], BaseBit::Bit4, PcmEncoding::TwosComplement, 1).unwrap();
    assert_eq!(four, [i16::MIN, 7 * 4096, 0, -4096]);
    let twelve =
        decode_pcm(&[0x00, 0x0f, 0xff], BaseBit::Bit12, PcmEncoding::OffsetBinary, 2).unwrap();
    assert_eq!(twelve, [i16::MIN, 0x7ff * 16]);
    assert!(decode_pcm(&[1], BaseBit::Bit8, PcmEncoding::TwosComplement, 3).is_none());
}

#[test]
fn encodings_differ_in_the_top_bit() {
    for byte in 0..=255u8 {
        assert_eq!(
            decode_pcm(&[byte], BaseBit::Bit8, PcmEncoding::TwosComplement, 1),
            decode_pcm(&[byte ^ 0x80], BaseBit::Bit8, PcmEncoding::OffsetBinary, 1)
        );
    }
}

#[test]
fn gated_waves_keep_their_start_and_last_no_longer() {
    let samples: Vec<i16> = (0..1000).collect();
    for (channels, rate, gate_time, timebase_g) in
        [(1, 8000, 3, 4), (2, 11025, 7, 5), (1, 8000, 500, 50), (1, 44100, 0, 4)]
    {
        let mut kept = samples.clone();
        trim_to_gate(&mut kept, channels, rate, gate_time, timebase_g);
        assert_eq!(kept[..], samples[..kept.len()]);
        let duration = decoded_duration_ms(kept.len(), channels, rate);
        assert!(duration <= gate_time as usize * timebase_g as usize);
    }
    assert_eq!(decoded_duration_ms(8001, 1, 8000), 1001);
    assert_eq!(decoded_duration_ms(8001, 1, 0), 0);
    assert_eq!(decoded_duration_ms(5, 0, 8000), 0);
}

#[test]
fn framed_messages_stay_framed() {
    assert_eq!(make_sysex_message(&[]), [0xf0, 0xf7]);
    assert_eq!(make_sysex_message(&[1, 2]), [0xf0, 1, 2, 0xf7]);
    assert_eq!(make_sysex_message(&[0xf0]), [0xf0, 0xf7]);
    assert_eq!(make_sysex_message(&[0xf0, 1]), [0xf0, 1, 0xf7]);
    assert_eq!(make_sysex_message(&[1, 0xf7]), [0xf0, 1, 0xf7]);
    let framed = make_sysex_message(&[1, 2]);
    assert_eq!(make_sysex_message(&framed), framed);
}

#[test]
fn midi_events_have_messages() {
    assert_eq!(
        midi_message(&SmafEvent::MidiNoteOn { channel: 2, note: 60, velocity: 9 }),
        Some(vec![0x92, 60, 9])
    );
    assert_eq!(
        midi_message(&SmafEvent::MidiNoteOff { channel: 2, note: 60, velocity: 0 }),
        Some(vec![0x82, 60, 0])
    );
    assert_eq!(midi_message(&program(7)), Some(vec![0xc0, 7]));
    assert_eq!(
        midi_message(&SmafEvent::MidiControlChange { channel: 1, control: 7, value: 5 }),
        Some(vec![0xb1, 7, 5])
    );
    assert_eq!(
        midi_message(&SmafEvent::MidiPitchBend { channel: 3, value: 0x2081 }),
        Some(vec![0xe3, 1, 0x41])
    );
    assert_eq!(midi_message(&SmafEvent::MidiSysEx(vec![0xf0, 0xf7])), Some(vec![0xf0, 0xf7]));
    assert_eq!(midi_message(&SmafEvent::End), None);
    assert_eq!((delay_ms(5, 8), delay_ms(8, 5)), (3, 0));
}

#[test]
fn sort_keys_put_classes_in_order() {
    assert_eq!(event_sort_key(&SmafEvent::MidiSysEx(vec![])), (4, [0xf0, 0, 0]));
    assert_eq!(event_sort_key(&SmafEvent::MidiSysEx(vec![0x43])), (4, [0x43, 0, 0]));
    assert_eq!(
        event_sort_key(&SmafEvent::MidiPitchBend { channel: 1, value: 0x2081 }),
        (5, [0xe1, 1, 0x41])
    );
    assert_eq!(event_sort_key(&program(9)), (6, [0xc0, 9, 0]));
    assert_eq!(event_sort_key(&SmafEvent::End), (99, [0xff, 0x2f, 0]));
}

#[test]
fn sorting_is_stable() {
    // Both messages have the same key, so they keep their order.
    let first = SmafEvent::MidiSysEx(vec![0xf0, 2, 0xf7]);
    let second = SmafEvent::MidiSysEx(vec![0xf0, 1, 0xf7]);
    let sorted = sort_events(vec![
        (5, program(3)),
        (5, first.clone()),
        (3, program(2)),
        (5, second.clone()),
        (3, program(1)),
    ]);
    assert_eq!(
        sorted,
        [(3, program(1)), (3, program(2)), (5, first), (5, second), (5, program(3))]
    );
}

#[test]
fn sorting_agrees_with_an_ordinary_stable_sort() {
    let mut state = 7u32;
    let events: Vec<(usize, SmafEvent)> = (0..500)
        .map(|i: usize| {
            state = state.wrapping_mul(1664525).wrapping_add(1013904223);
            let kind = (state >> 16) % 4;
            let time = (state >> 24) as usize % 20;
            let event = match kind {
                0 => SmafEvent::MidiSysEx(vec![0xf0, i as u8, 0xf7]),
                1 => program((state >> 8) as u8 % 3),
                2 => SmafEvent::MidiNoteOn { channel: 0, note: (i % 3) as u8, velocity: 1 },
                _ => SmafEvent::MidiNoteOff { channel: 0, note: (i % 3) as u8, velocity: 0 },
            };
            (time, event)
        })
        .collect();
    let mut expected = events.clone();
    expected.sort_by_key(|(time, event)| (*time, event_sort_key(event)));
    assert_eq!(sort_events(events), expected);
}

#[test]
fn finished_lists_end_once_at_the_latest_time() {
    assert_eq!(finish_events(Vec::new()), [(0, SmafEvent::End)]);
    let closed = finish_events(vec![
        (4, SmafEvent::End),
        (1, program(1)),
        (9, SmafEvent::End),
        (2, program(2)),
        (9, program(3)),
        (2, SmafEvent::End),
    ]);
    assert_eq!(closed, [(1, program(1)), (2, program(2)), (9, program(3)), (9, SmafEvent::End)]);
}

#[test]
fn melody_channels_get_midi_channels_of_their_own() {
    let mut tone_map = ToneMap::new();
    let mut seen: Vec<u8> = (0..15).map(|channel| tone_map.real_channel(channel)).collect();
    assert_eq!(seen, [0, 1, 2, 3, 4, 5, 6, 7, 8, 10, 11, 12, 13, 14, 15]);
    let again: Vec<u8> = (0..15).map(|channel| tone_map.real_channel(channel)).collect();
    assert_eq!(seen, again);
    seen.dedup();
    assert_eq!(seen.len(), 15);
    // The last one finds all taken and keeps its own number.
    assert_eq!(tone_map.real_channel(15), 15);
}

#[test]
fn percussion_takes_no_melody_channel() {
    let mut tone_map = ToneMap::new();
    tone_map.update_bank_select(3, 0x80);
    assert!(tone_map.is_rhythm(3));
    assert_eq!(tone_map.real_channel(3), 9);
    assert_eq!(tone_map.real_channel(4), 0);
}

#[test]
fn fifteen_melody_channels_keep_their_own_between_other_requests() {
    let status = |channel: u8| ChannelStatus {
        kcs: 0,
        vs: 0,
        led: 0,
        channel_type: if channel == 5 { ChannelType::Rhythm } else { ChannelType::Melody },
    };
    let statuses: Vec<ChannelStatus> = (0..16).map(status).collect();
    let mut tone_map = ToneMap::new();
    tone_map.real_channel(12);
    tone_map.init_track(FormatType::MobileStandardNoCompress, &statuses, 0);
    let melody: Vec<u8> = (0..16).rev().filter(|channel| *channel != 5).collect();
    let mut numbers: Vec<u8> = Vec::new();
    for channel in &melody {
        assert_eq!(tone_map.real_channel(5), 9);
        tone_map.update_control(*channel, 7, 80);
        let number = tone_map.set_program(*channel, 40).0;
        assert_eq!(tone_map.real_channel(*channel), number);
        assert_eq!(tone_map.real_channel(melody[0]), 0);
        numbers.push(number);
    }
    assert_eq!(numbers, [0, 1, 2, 3, 4, 5, 6, 7, 8, 10, 11, 12, 13, 14, 15]);
    let again: Vec<u8> = melody.iter().map(|channel| tone_map.real_channel(*channel)).collect();
    assert_eq!(numbers, again);
}

#[test]
fn four_handy_tracks_can_be_played() {
    let track = || {
        let note = |channel: u8| SequenceData {
            duration: 1,
            event: ScoreTrackSequenceEvent::NoteMessage {
                channel,
                note: 60,
                velocity: None,
                gate_time: 2,
            },
        };
        SmafChunk::ScoreTrack(ScoreTrack {
            format_type: FormatType::HandyPhoneStandard,
            timebase_d: 10,
            timebase_g: 10,
            channel_status: Vec::new(),
            chunks: vec![
                ScoreTrackChunk::SetupData(&[0xf0, 0xff, 0xff, 0xff, 0x7f, 1]),
                ScoreTrackChunk::SequenceData((0..4).map(note).collect()),
            ],
        })
    };
    let mut chunks: Vec<SmafChunk<'static>> = (0..4).map(|_| track()).collect();
    let events = try_play_file(&chunks).unwrap();
    let starts = events.iter().filter(|event| matches!(event.1, SmafEvent::MidiNoteOn { .. }));
    assert_eq!(starts.count(), 16);
    assert_eq!(events.last(), Some(&(60, SmafEvent::End)));
    // A fifth one asks for channels past those that exist.
    chunks.push(track());
    assert!(try_play_file(&chunks).is_none());
}

#[test]
fn setup_lengths_of_four_bytes_can_be_counted() {
    let longest = [0xf0, 0xff, 0xff, 0xff, 0x7f, 1];
    assert_eq!(try_parse_setup_sysex_events(&longest), Some(Vec::new()));
    let endless = [0xf0, 0xff, 0xff, 0xff, 0xff, 0xff, 0xff, 0xff, 0xff, 0xff, 0x7f, 1];
    assert!(try_parse_setup_sysex_events(&endless).is_none());
}

#[test]
fn handy_tracks_leave_other_channels_alone() {
    let mut tone_map = ToneMap::new();
    let rhythm =
        [ChannelStatus { kcs: 0, vs: 0, led: 0, channel_type: ChannelType::Rhythm }];
    tone_map.init_track(FormatType::HandyPhoneStandard, &rhythm, 0);
    tone_map.update_control(1, 7, 50);
    assert_eq!(tone_map.real_channel(1), 0);
    tone_map.init_track(FormatType::HandyPhoneStandard, &[], 4);
    assert!(tone_map.is_rhythm(0) && !tone_map.is_rhythm(4));
    assert_eq!(tone_map.effective_volume(1), 50);
    assert_eq!(tone_map.real_channel(4), 1);
    assert_eq!(tone_map.real_channel(1), 0);
}

#[test]
fn channel_numbers_past_the_midi_channels_are_told() {
    let mut tone_map = ToneMap::new();
    tone_map.init_track(FormatType::HandyPhoneStandard, &[], 0);
    for channel in 0..16 {
        assert!(tone_map.can_route(channel));
        tone_map.real_channel(channel);
    }
    assert_eq!(tone_map.real_channel(16), 16);
    assert!(!tone_map.can_route(17) && tone_map.can_route(16));
    assert!(!tone_map.can_set_program(17, 0));
}

#[test]
fn octave_shifts_are_signed() {
    assert_eq!(parse_octave_shift(4), Some(4));
    assert_eq!(parse_octave_shift(0x83), Some(-3));
    assert_eq!(parse_octave_shift(0x80), None);
    assert_eq!(parse_octave_shift(5), None);
}

#[test]
fn every_note_is_released_and_within_the_end() {
    let note = |note: u8, gate_time: u32| SequenceData {
        duration: 3,
        event: ScoreTrackSequenceEvent::NoteMessage { channel: 1, note, velocity: None, gate_time },
    };
    let shift = SequenceData {
        duration: 0,
        event: ScoreTrackSequenceEvent::OctaveShift { channel: 1, value: 0x81 },
    };
    let sequence = [note(60, 100), shift, note(60, 2), note(127, 0)];
    let mut tone_map = ToneMap::new();
    let (events, next) = parse_sequence_events(&sequence, 10, 5, 7, false, &[], &mut tone_map);
    assert_eq!(next, 7);
    assert_eq!(
        events,
        [
            (30, SmafEvent::MidiNoteOn { channel: 0, note: 60, velocity: 64 }),
            (530, SmafEvent::MidiNoteOff { channel: 0, note: 60, velocity: 0 }),
            (60, SmafEvent::MidiNoteOn { channel: 0, note: 48, velocity: 64 }),
            (70, SmafEvent::MidiNoteOff { channel: 0, note: 48, velocity: 0 }),
            (90, SmafEvent::MidiNoteOn { channel: 0, note: 115, velocity: 64 }),
            (90, SmafEvent::MidiNoteOff { channel: 0, note: 115, velocity: 0 }),
            (530, SmafEvent::End),
        ]
    );
}

#[test]
fn times_that_cannot_be_counted_are_told() {
    let rest = |duration: u32| SequenceData { duration, event: ScoreTrackSequenceEvent::Nop };
    let mut sequence: Vec<SequenceData> = Vec::new();
    let mut tone_map = ToneMap::new();
    for _ in 0..3 {
        sequence.push(rest(u32::MAX));
    }
    let (events, _) = parse_sequence_events(&sequence, 255, 1, 0, true, &[], &mut tone_map);
    assert_eq!(events, [(3 * 255 * u32::MAX as usize, SmafEvent::End)]);
    let fits = try_parse_sequence_events(&sequence, 255, 255, 252, true, &[], &mut tone_map);
    assert_eq!(fits.unwrap().1, 255);
}

#[test]
fn numbers_of_variable_length() {
    assert_eq!(read_midi_vlq(&[0x81, 0x00, 9], 0), Some((128, 2)));
    assert_eq!(read_midi_vlq(&[0xff, 0x7f], 0), Some((16383, 2)));
    assert_eq!(read_midi_vlq(&[0x80, 0x80], 0), None);
    assert_eq!(read_midi_vlq(&[1], 5), None);
    assert_eq!(read_vlq(&[0x80, 0x80, 0x80, 0x80, 0x01], 0), Some((1, 5)));
    assert_eq!(read_vlq(&[0x80, 0x80, 0x80, 0x80, 0x80, 0x01], 0), None);
}

#[test]
fn setup_messages_part_voices_from_the_rest() {
    let mut voice = vec![0x43, 0x79, 0x06, 0x7f, 0x01, 1, 2, 3, 0x24, 1];
    voice.extend_from_slice(&[0x1f, 0x40, 0, 0, 0x50, 0x67, 0x89, 0xfc, 0, 0, 0, 1, 2, 3, 4, 0x85]);
    let mut setup = vec![0xf0, 3, 0x7e, 0x7f, 0xf7, 0xf0, voice.len() as u8];
    setup.extend_from_slice(&voice);
    let voices = parse_setup_custom_voices(&setup);
    assert_eq!(voices.len(), 1);
    let MaCustomVoice::PcmRom { key, params } = voices[0] else { panic!("no ROM voice") };
    assert_eq!((key.bank_msb, key.bank_lsb, key.program, key.drum_note), (1, 2, 3, 0x24));
    assert_eq!(voices[0].key(), key);
    assert_eq!((params.sampling_rate, params.total_level), (8000, 63));
    assert_eq!((params.sr, params.rr, params.dr, params.ar, params.sl), (5, 6, 7, 8, 9));
    assert_eq!((params.loop_point, params.end_point), (0x0102, 0x0304));
    assert_eq!((params.looping, params.wave_id), (true, 5));
    assert_eq!(
        parse_setup_sysex_events(&setup),
        [(0, SmafEvent::MidiSysEx(vec![0xf0, 0x7e, 0x7f, 0xf7]))]
    );
    // Reading stops where a message is cut off or none starts.
    assert!(parse_setup_sysex_events(&[0xf0, 9, 1]).is_empty());
    assert!(parse_setup_sysex_events(&[0x00, 0xf0, 1, 1]).is_empty());
    // A message that would end past all addresses.
    let mut endless = vec![0xf0];
    endless.extend_from_slice(&[0xff; 9]);
    endless.push(0x7f);
    assert!(try_parse_setup_sysex_events(&endless).is_none());
}

#[test]
fn voices_need_all_their_operators() {
    assert!(parse_vm35_body(&[0; 23], 3).is_none());
    let patch = parse_vm35_body(&[0; 24], 3).unwrap();
    assert_eq!((patch.operator_count, patch.note_shift), (3, 12));
    assert_eq!(parse_vm35_body(&[0xff; 40], 9).unwrap().operator_count, 4);
    assert_eq!(parse_vm35_body(&[0xff; 40], 0).unwrap().operator_count, 1);
    // Full left and full right.
    let pan = |byte: u8| parse_vm35_body(&[[0, byte, 0x20].to_vec(), vec![0; 7]].concat(), 1);
    let left = pan(0x00).unwrap().default_pan;
    assert_eq!((left.numerator, left.denominator), (-15, 15));
    let right = pan(0xf8).unwrap().default_pan;
    assert_eq!((right.numerator, right.denominator), (16, 16));
}

#[test]
fn longer_texts_extend_shorter_ones() {
    // Two leaves, then the paths 0 1 1 0.
    let code = [0x80, 0x00, 0x4c];
    let long = decode_text(&code, 4).unwrap();
    for count in 0..4 {
        assert_eq!(decode_text(&code, count).unwrap()[..], long[..count]);
    }
}

#[test]
fn numbers_are_bounded_to_data_bytes() {
    let mut tone_map = ToneMap::new();
    tone_map.update_control(0, 7, 200);
    tone_map.update_control(0, 11, 255);
    tone_map.update_control(0, 10, 130);
    tone_map.set_pitch_bend(0, 0xffff);
    let dynamics = tone_map.wave_dynamics(0, Some(255));
    assert_eq!((dynamics.velocity, dynamics.volume, dynamics.expression), (127, 127, 127));
    assert_eq!(dynamics.pan, Some(127));
    assert_eq!(tone_map.set_program(0, 200), (0, 127));
    assert_eq!(tone_map.map_note(0, 200), 127);
    assert_eq!(tone_map.map_note(0, -5), 0);
    assert_eq!(tone_map.effective_volume(0), 127);
}

#[test]
fn the_same_note_selects_the_same_wave_on_every_channel() {
    let mut tone_map = ToneMap::new();
    tone_map.update_control(2, 0, 0x7d);
    tone_map.update_control(7, 0, 0x7d);
    for note in 0..=127 {
        assert_eq!(tone_map.stream_wave_id(2, note), tone_map.stream_wave_id(7, note));
    }
}

#[test]
fn drum_notes_go_before_melodic_voices() {
    let definition = |drum_note: u8, multi: u8| {
        let mut message =
            vec![0x43, 0x79, 0x07, 0x7f, 0x01, 0x00, 0x00, 0x00, drum_note, 0x00, 0, 0, 0];
        for _ in 0..2 {
            message.extend_from_slice(&[0, 0, 0, 0, 0, multi << 4, 0]);
        }
        message
    };
    let mut setup = Vec::new();
    for message in [definition(0, 1), definition(38, 2), definition(38, 3), definition(0, 4)] {
        setup.extend_from_slice(&[0xf0, message.len() as u8]);
        setup.extend_from_slice(&message);
    }
    let mut tone_map = ToneMap::new();
    tone_map.load_custom_voices(&setup);
    let multi = |voice: Option<MaCustomVoice>| match voice {
        Some(MaCustomVoice::Fm { patch, .. }) => Some(patch.operators[0].multi),
        _ => None,
    };
    assert_eq!(multi(tone_map.custom_voice(0, 38)), Some(2));
    assert_eq!(multi(tone_map.custom_voice(0, 40)), Some(1));
    tone_map.set_program(0, 1);
    assert_eq!(multi(tone_map.custom_voice(0, 38)), None);
}
