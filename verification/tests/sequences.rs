use smaf_player::container::{
    BaseBit, Channel, ChannelStatus, ChannelType, FormatType, PCMAudioSequenceData,
    PCMAudioSequenceEvent, PCMAudioTrack, PCMAudioTrackChunk, PcmWaveFormat,
    ScoreTrackSequenceEvent, SequenceData,
};
use smaf_player::events::SmafEvent;
use smaf_player::pcm_track::parse_pcm_audio_track_events;
use smaf_player::sequence::parse_sequence_events;
use smaf_player::tone_map::ToneMap;

fn channel_status(channel_type: ChannelType) -> ChannelStatus {
    ChannelStatus {
        kcs: 0,
        vs: 0,
        led: 0,
        channel_type,
    }
}

#[test]
fn preserves_yamaha_program_number_for_generic_gm_fallback() {
    let mut tone_map = ToneMap::new();
    tone_map.update_control(1, 0, 0x7c);
    tone_map.update_control(1, 32, 0x01);
    assert_eq!(tone_map.set_program(1, 0x22), (0, 0x22));
    assert_eq!(tone_map.midi_control_value(0, 0x7c), 0);
    assert_eq!(tone_map.midi_control_value(32, 0x01), 0);
}

#[test]
fn maps_yamaha_rhythm_bank_to_midi_drum_channel() {
    let mut tone_map = ToneMap::new();
    tone_map.update_control(9, 0, 0x7d);
    tone_map.update_control(9, 32, 0x00);
    assert_eq!(tone_map.set_program(9, 0x02), (9, 0));
    assert_eq!(tone_map.map_note(9, 0x1a), 41);
}

#[test]
fn maps_mobile_stream_pcm_notes_to_wave_ids_only_in_bank_125() {
    let mut tone_map = ToneMap::new();
    tone_map.init_track(FormatType::MobileStandardNoCompress, &[], 0);
    tone_map.update_control(9, 0, 0x7d);

    assert_eq!(tone_map.stream_wave_id(9, 0), Some(1));
    assert_eq!(tone_map.stream_wave_id(9, 12), Some(13));
    assert_eq!(tone_map.stream_wave_id(9, 92), Some(14));
    assert_eq!(tone_map.stream_wave_id(9, 110), Some(32));
    assert_eq!(tone_map.stream_wave_id(9, 13), None);
    assert_eq!(tone_map.stream_wave_id(9, 91), None);
    assert_eq!(tone_map.stream_wave_id(9, 111), None);

    tone_map.update_control(9, 0, 0x7c);
    assert_eq!(tone_map.stream_wave_id(9, 0), None);
}

#[test]
fn compacts_melody_channels_around_midi_drum_channel() {
    let mut tone_map = ToneMap::new();
    assert_eq!(tone_map.real_channel(1), 0);
    assert_eq!(tone_map.real_channel(2), 1);
    assert_eq!(tone_map.real_channel(9), 2);
    tone_map.update_control(10, 0, 0x7d);
    assert_eq!(tone_map.real_channel(10), 9);
    assert_eq!(tone_map.real_channel(11), 3);
}

#[test]
fn reuses_previous_velocity_for_mobile_notes_without_velocity() {
    let mut tone_map = ToneMap::new();
    tone_map.init_track(FormatType::MobileStandardNoCompress, &[], 0);
    let sequence = [
        SequenceData {
            duration: 0,
            event: ScoreTrackSequenceEvent::NoteMessage {
                channel: 0,
                note: 60,
                velocity: Some(96),
                gate_time: 10,
            },
        },
        SequenceData {
            duration: 0,
            event: ScoreTrackSequenceEvent::NoteMessage {
                channel: 0,
                note: 62,
                velocity: None,
                gate_time: 10,
            },
        },
    ];

    let (events, _) = parse_sequence_events(&sequence, 1, 1, 0, false, &[], &mut tone_map);
    assert!(events
        .iter()
        .any(|(_, event)| matches!(event, SmafEvent::MidiNoteOn { note: 62, velocity: 96, .. })));
}

#[test]
fn applies_sequence_duration_before_event() {
    let mut tone_map = ToneMap::new();
    tone_map.init_track(FormatType::MobileStandardNoCompress, &[], 0);
    let sequence = [SequenceData {
        duration: 5,
        event: ScoreTrackSequenceEvent::NoteMessage {
            channel: 0,
            note: 60,
            velocity: Some(64),
            gate_time: 2,
        },
    }];

    let (events, _) = parse_sequence_events(&sequence, 4, 4, 0, false, &[], &mut tone_map);
    assert!(events
        .iter()
        .any(|(time, event)| *time == 20 && matches!(event, SmafEvent::MidiNoteOn { note: 60, .. })));
    assert!(events
        .iter()
        .any(|(time, event)| *time == 28 && matches!(event, SmafEvent::MidiNoteOff { note: 60, .. })));
}

#[test]
fn applies_pcm_sequence_duration_before_event() {
    let track = PCMAudioTrack {
        channel: Channel::Mono,
        format: PcmWaveFormat::Adpcm,
        sampling_freq: 8000,
        base_bit: BaseBit::Bit4,
        timebase_d: 4,
        timebase_g: 4,
        chunks: vec![PCMAudioTrackChunk::SequenceData(vec![PCMAudioSequenceData {
            duration: 5,
            event: PCMAudioSequenceEvent::Nop,
        }])],
    };

    let events = parse_pcm_audio_track_events(&track);
    assert!(events.iter().any(|(time, event)| *time == 20 && matches!(event, SmafEvent::End)));
}

#[test]
fn pcm_wave_gate_time_truncates_decoded_audio() {
    let wave_data = [0u8; 100];
    let track = PCMAudioTrack {
        channel: Channel::Mono,
        format: PcmWaveFormat::Adpcm,
        sampling_freq: 1000,
        base_bit: BaseBit::Bit4,
        timebase_d: 1,
        timebase_g: 1,
        chunks: vec![
            PCMAudioTrackChunk::SequenceData(vec![PCMAudioSequenceData {
                duration: 0,
                event: PCMAudioSequenceEvent::WaveMessage {
                    channel: 0,
                    wave_number: 1,
                    gate_time: 10,
                },
            }]),
            PCMAudioTrackChunk::WaveData(1, &wave_data),
        ],
    };

    let events = parse_pcm_audio_track_events(&track);
    let wave = events.iter().find_map(|(_, event)| {
        if let SmafEvent::Wave { data, .. } = event {
            Some(data)
        } else {
            None
        }
    });
    assert_eq!(wave.unwrap().len(), 10);
    assert!(events.iter().any(|(time, event)| *time == 10 && matches!(event, SmafEvent::End)));
}

#[test]
fn pcm_audio_track_preserves_authored_wave_dynamics() {
    let wave_data = [0u8; 16];
    let track = PCMAudioTrack {
        channel: Channel::Mono,
        format: PcmWaveFormat::Adpcm,
        sampling_freq: 8000,
        base_bit: BaseBit::Bit4,
        timebase_d: 1,
        timebase_g: 1,
        chunks: vec![
            PCMAudioTrackChunk::SequenceData(vec![
                PCMAudioSequenceData { duration: 0, event: PCMAudioSequenceEvent::Volume { channel: 0, value: 96 } },
                PCMAudioSequenceData { duration: 0, event: PCMAudioSequenceEvent::Expression { channel: 0, value: 80 } },
                PCMAudioSequenceData { duration: 0, event: PCMAudioSequenceEvent::Pan { channel: 0, value: 127 } },
                PCMAudioSequenceData {
                    duration: 0,
                    event: PCMAudioSequenceEvent::WaveMessage { channel: 0, wave_number: 1, gate_time: 2 },
                },
            ]),
            PCMAudioTrackChunk::WaveData(1, &wave_data),
        ],
    };

    let events = parse_pcm_audio_track_events(&track);
    let dynamics = events.iter().find_map(|(_, event)| match event {
        SmafEvent::Wave { dynamics, .. } => Some(*dynamics),
        _ => None,
    }).unwrap();
    assert_eq!(dynamics.velocity, 127);
    assert_eq!(dynamics.volume, 96);
    assert_eq!(dynamics.expression, 80);
    assert_eq!(dynamics.pan, Some(127));
}

#[test]
fn hps_tracks_keep_independent_midi_channel_allocations() {
    let mut tone_map = ToneMap::new();
    let first_track = [channel_status(ChannelType::Melody)];
    tone_map.init_track(FormatType::HandyPhoneStandard, &first_track, 0);
    let first_sequence = [SequenceData {
        duration: 0,
        event: ScoreTrackSequenceEvent::ProgramChange { channel: 0, program: 40 },
    }];

    let (events, _) = parse_sequence_events(&first_sequence, 1, 1, 0, true, &[], &mut tone_map);
    assert!(events
        .iter()
        .any(|(_, event)| matches!(event, SmafEvent::MidiProgramChange { channel: 0, program: 40 })));

    let second_track = [channel_status(ChannelType::Melody)];
    tone_map.init_track(FormatType::HandyPhoneStandard, &second_track, 4);
    let second_sequence = [SequenceData {
        duration: 0,
        event: ScoreTrackSequenceEvent::ProgramChange { channel: 0, program: 41 },
    }];

    let (events, _) = parse_sequence_events(&second_sequence, 1, 1, 4, true, &[], &mut tone_map);
    assert!(events
        .iter()
        .any(|(_, event)| matches!(event, SmafEvent::MidiProgramChange { channel: 1, program: 41 })));
}

#[test]
fn hps_rhythm_uses_program_as_drum_key_and_expression_velocity() {
    let mut tone_map = ToneMap::new();
    let statuses = [channel_status(ChannelType::Rhythm)];
    tone_map.init_track(FormatType::HandyPhoneStandard, &statuses, 0);
    let sequence = [
        SequenceData {
            duration: 0,
            event: ScoreTrackSequenceEvent::ProgramChange { channel: 0, program: 35 },
        },
        SequenceData {
            duration: 0,
            event: ScoreTrackSequenceEvent::Expression { channel: 0, value: 92 },
        },
        SequenceData {
            duration: 0,
            event: ScoreTrackSequenceEvent::NoteMessage {
                channel: 0,
                note: 1,
                velocity: None,
                gate_time: 10,
            },
        },
    ];

    let (events, _) = parse_sequence_events(&sequence, 1, 1, 0, true, &[], &mut tone_map);
    assert!(events
        .iter()
        .any(|(_, event)| matches!(event, SmafEvent::MidiProgramChange { channel: 9, program: 0 })));
    assert!(events.iter().any(|(_, event)| {
        matches!(
            event,
            SmafEvent::MidiNoteOn {
                channel: 9,
                note: 35,
                velocity: 92
            }
        )
    }));
    assert!(!events
        .iter()
        .any(|(_, event)| matches!(event, SmafEvent::MidiControlChange { channel: 9, control: 11, .. })));
}

#[test]
fn hps_melody_expression_is_folded_into_volume() {
    let mut tone_map = ToneMap::new();
    let statuses = [channel_status(ChannelType::Melody)];
    tone_map.init_track(FormatType::HandyPhoneStandard, &statuses, 0);
    let sequence = [
        SequenceData {
            duration: 0,
            event: ScoreTrackSequenceEvent::Volume { channel: 0, value: 100 },
        },
        SequenceData {
            duration: 0,
            event: ScoreTrackSequenceEvent::Expression { channel: 0, value: 92 },
        },
    ];

    let (events, _) = parse_sequence_events(&sequence, 1, 1, 0, true, &[], &mut tone_map);
    assert!(events.iter().any(|(_, event)| matches!(
        event,
        SmafEvent::MidiControlChange {
            channel: 0,
            control: 7,
            value: 72
        }
    )));
    assert!(!events
        .iter()
        .any(|(_, event)| matches!(event, SmafEvent::MidiControlChange { channel: 0, control: 11, .. })));
}

#[test]
fn hps_melody_pitch_adds_base_offset_but_rhythm_does_not() {
    let mut melody_map = ToneMap::new();
    let melody = [channel_status(ChannelType::Melody)];
    melody_map.init_track(FormatType::HandyPhoneStandard, &melody, 0);
    assert_eq!(melody_map.map_note(0, 24), 60);

    let mut rhythm_map = ToneMap::new();
    let rhythm = [channel_status(ChannelType::Rhythm)];
    rhythm_map.init_track(FormatType::HandyPhoneStandard, &rhythm, 0);
    assert_eq!(rhythm_map.set_program(0, 38), (9, 0));
    assert_eq!(rhythm_map.map_note(0, 24), 38);
}
