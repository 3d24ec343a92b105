use smaf_player::{parse_smaf, parse_smaf_checked, MaFmOperatorPatch, SmafEvent, WaveDynamics};

fn chunk(tag: &[u8; 4], content: &[u8]) -> Vec<u8> {
    let mut bytes = tag.to_vec();
    bytes.extend_from_slice(&(content.len() as u32).to_be_bytes());
    bytes.extend_from_slice(content);
    bytes
}

fn file(chunks: &[Vec<u8>]) -> Vec<u8> {
    let mut body: Vec<u8> = chunks.concat();
    body.extend_from_slice(&[0, 0]);
    chunk(b"MMMD", &body)
}

/// A Mobile Standard track with time bases of 4 ms and melody channels.
fn mobile_track(chunks: &[Vec<u8>]) -> Vec<u8> {
    let mut content = vec![2, 0, 2, 2];
    content.extend_from_slice(&[1; 16]);
    content.extend_from_slice(&chunks.concat());
    chunk(b"MTR\x05", &content)
}

/// A Handy Phone track with time bases of 20 ms.
fn handy_track(types: [u8; 2], sequence: &[u8]) -> Vec<u8> {
    let mut content = vec![0, 0, 0x11, 0x11, types[0], types[1]];
    content.extend_from_slice(&chunk(b"Mtsq", sequence));
    chunk(b"MTR\x00", &content)
}

fn note_on(channel: u8, note: u8, velocity: u8) -> SmafEvent {
    SmafEvent::MidiNoteOn { channel, note, velocity }
}

fn note_off(channel: u8, note: u8) -> SmafEvent {
    SmafEvent::MidiNoteOff { channel, note, velocity: 0 }
}

fn control_change(channel: u8, control: u8, value: u8) -> SmafEvent {
    SmafEvent::MidiControlChange { channel, control, value }
}

#[test]
fn what_is_no_file_plays_nothing() {
    assert!(parse_smaf(b"").is_empty());
    assert!(parse_smaf(b"RIFF\0\0\0\x02\0\0").is_empty());
    assert_eq!(parse_smaf_checked(b"MMMD\0\0\0\x05\0\0"), Some(Vec::new()));
}

#[test]
fn a_file_without_tracks_is_an_end_marker() {
    assert_eq!(parse_smaf(&file(&[])), [(0, SmafEvent::End)]);
    assert_eq!(parse_smaf(&file(&[chunk(b"CNTI", &[0; 6])])), [(0, SmafEvent::End)]);
}

#[test]
fn plays_a_mobile_score() {
    let sequence = [
        0x02, 0x93, 0x3c, 0x40, 0x05, // after 8 ms a note of 20 ms on channel 3
        0x00, 0x84, 0x3e, 0x03, // with it one of 12 ms on channel 4
        0x05, 0xc3, 0x11, // after 20 ms program 17 on channel 3
        0x00, 0xff, 0x2f, 0x00,
    ];
    let raw = file(&[mobile_track(&[chunk(b"Mtsq", &sequence)])]);
    assert_eq!(
        parse_smaf(&raw),
        [
            (8, note_on(0, 60, 64)),
            (8, note_on(1, 62, 64)),
            (20, note_off(1, 62)),
            (28, SmafEvent::MidiProgramChange { channel: 0, program: 17 }),
            (28, note_off(0, 60)),
            (28, SmafEvent::End),
        ]
    );
}

#[test]
fn within_a_millisecond_notes_end_before_others_start() {
    let sequence = [
        0x00, 0x90, 0x3c, 0x40, 0x02, // a note until 8 ms
        0x02, 0x90, 0x3c, 0x41, 0x02, // the same note again at 8 ms
        0x00, 0xf0, 0x02, 0x7e, 0xf7, // a message at 8 ms
        0x00, 0xe0, 0x00, 0x40, // a pitch bend at 8 ms
        0x00, 0xff, 0x2f, 0x00,
    ];
    let raw = file(&[mobile_track(&[chunk(b"Mtsq", &sequence)])]);
    assert_eq!(
        parse_smaf(&raw),
        [
            (0, note_on(0, 60, 64)),
            (8, SmafEvent::MidiSysEx(vec![0xf0, 0x7e, 0xf7])),
            (8, SmafEvent::MidiPitchBend { channel: 0, value: 0x2000 }),
            (8, note_off(0, 60)),
            (8, note_on(0, 60, 65)),
            (16, note_off(0, 60)),
            (16, SmafEvent::End),
        ]
    );
}

#[test]
fn several_tracks_share_one_end_marker() {
    let short = [0x00, 0x90, 0x3c, 0x40, 0x01, 0x00, 0xff, 0x2f, 0x00];
    let long = [0x64, 0xc0, 0x01, 0x00, 0xff, 0x2f, 0x00];
    let raw = file(&[
        mobile_track(&[chunk(b"Mtsq", &long)]),
        mobile_track(&[chunk(b"Mtsq", &short)]),
    ]);
    assert_eq!(
        parse_smaf(&raw),
        [
            (0, note_on(0, 60, 64)),
            (4, note_off(0, 60)),
            (400, SmafEvent::MidiProgramChange { channel: 0, program: 1 }),
            (400, SmafEvent::End),
        ]
    );
}

#[test]
fn handy_tracks_take_four_channels_each() {
    // The first track has a melody, the second percussion on its first channel.
    let melody = [0x00, 0x01, 0x02, 0x00, 0x00, 0x00, 0x00];
    let drums = [0x00, 0x00, 0x30, 0x26, 0x01, 0x05, 0x02, 0x00, 0x41, 0x01];
    let raw = file(&[handy_track([0x10, 0x00], &melody), handy_track([0x30, 0x00], &drums)]);
    assert_eq!(
        parse_smaf(&raw),
        [
            (0, SmafEvent::MidiProgramChange { channel: 9, program: 0 }),
            (0, note_on(0, 37, 127)),
            (20, note_on(1, 37, 127)),
            (20, note_on(9, 38, 127)),
            (40, note_off(0, 37)),
            (40, note_off(1, 37)),
            (60, note_off(9, 38)),
            (60, SmafEvent::End),
        ]
    );
}

#[test]
fn plays_a_softbank_sequence() {
    let raw = file(&[chunk(b"SEQU", &[0x01, 0x01, 0x02, 0x00, 0x00, 0x77, 0x40])]);
    assert_eq!(
        parse_smaf(&raw),
        [
            (20, control_change(1, 7, 64)),
            (20, note_on(0, 37, 127)),
            (60, note_off(0, 37)),
            (60, SmafEvent::End),
        ]
    );
}

#[test]
fn notes_of_bank_125_play_waves() {
    let sequence = [
        0x00, 0xb9, 0x00, 0x7d, // bank 125 on channel 9
        0x00, 0x99, 0x00, 0x50, 0x01, // wave 1 for 4 ms
        0x00, 0x99, 0x01, 0x50, 0x01, // wave 2, which the track lacks
        0x00, 0xff, 0x2f, 0x00,
    ];
    // ADPCM, mono, 500 Hz.
    let wave = [0x20, 0x01, 0xf4, 0x10, 0x10];
    let raw = file(&[mobile_track(&[
        chunk(b"Mtsq", &sequence),
        chunk(b"Mtsp", &chunk(b"Mwa\x01", &wave)),
    ])]);
    assert_eq!(
        parse_smaf(&raw),
        [
            (0, control_change(9, 0, 0)),
            (0, note_on(9, 1, 80)),
            (
                0,
                SmafEvent::Wave {
                    channels: 1,
                    sampling_rate: 500,
                    data: vec![15, 62],
                    dynamics: WaveDynamics { velocity: 80, volume: 100, expression: 127, pan: None },
                }
            ),
            (4, note_off(9, 1)),
            (4, SmafEvent::End),
        ]
    );
}

/// An MA-5 definition of a voice with two operators.
fn voice_message() -> Vec<u8> {
    let mut message = vec![0x43, 0x79, 0x07, 0x7f, 0x01, 0x7c, 0x02, 0x05, 0x00, 0x00];
    message.extend_from_slice(&[0x00, 0x7a, 0xa1]); // two octaves down, panned, connection 1
    message.extend_from_slice(&[0x59, 0x67, 0xf8, 0xfd, 0x73, 0x15, 0x9d]);
    message.extend_from_slice(&[0x00, 0x00, 0xf0, 0x00, 0x00, 0x10, 0x00]);
    message.push(0xf7);
    message
}

#[test]
fn notes_of_defined_voices_bypass_midi() {
    let message = voice_message();
    let mut setup = vec![0xf0, message.len() as u8];
    setup.extend_from_slice(&message);
    setup.extend_from_slice(&[0xf0, 0x03, 0x43, 0x01, 0xf7]);
    let sequence = [
        0x00, 0xb2, 0x00, 0x7c, // the voice's bank and program on channel 2
        0x00, 0xb2, 0x20, 0x02, //
        0x00, 0xc2, 0x05, //
        0x00, 0x92, 0x45, 0x64, 0x0a, // a note of 40 ms
        0x00, 0xff, 0x2f, 0x00,
    ];
    let raw = file(&[mobile_track(&[chunk(b"Mtsu", &setup), chunk(b"Mtsq", &sequence)])]);
    let events = parse_smaf(&raw);
    assert_eq!(events[0], (0, SmafEvent::MidiSysEx(vec![0xf0, 0x43, 0x01, 0xf7])));
    assert_eq!(events[1], (0, control_change(0, 0, 0)));
    assert_eq!(events[2], (0, control_change(0, 32, 0)));
    assert_eq!(events[3], (0, SmafEvent::MidiProgramChange { channel: 0, program: 5 }));
    let (0, SmafEvent::MaFmNote(note)) = &events[4] else { panic!("{:?}", events[4]) };
    assert_eq!((note.channel, note.note, note.velocity, note.gate_ms), (2, 69, 100, 40));
    assert_eq!((note.volume, note.expression, note.pan, note.pitch_bend), (100, 127, None, 8192));
    let patch = note.patch;
    assert_eq!((patch.algorithm, patch.operator_count, patch.note_shift), (1, 2, -12));
    assert_eq!(patch.lfo, 2);
    assert_eq!((patch.default_pan.numerator, patch.default_pan.denominator), (0, 1));
    assert_eq!(
        patch.operators[0],
        MaFmOperatorPatch {
            sr: 5,
            ksr: true,
            xof: true,
            rr: 6,
            dr: 7,
            ar: 15,
            sl: 8,
            tl: 63,
            ksl: 1,
            am: true,
            dam: 3,
            vib: true,
            dvb: 1,
            multi: 1,
            dt: 5,
            wave: 19,
            feedback: 5,
        }
    );
    assert_eq!(patch.operators[1].tl, 0);
    assert_eq!(patch.operators[2], MaFmOperatorPatch::default());
    assert_eq!(events[5..], [(40, SmafEvent::End)]);
}

#[test]
fn voices_defined_inside_a_sequence_take_effect() {
    let message = voice_message();
    let mut sequence = vec![0x00, 0xf0, message.len() as u8];
    sequence.extend_from_slice(&message);
    sequence.extend_from_slice(&[0x00, 0xb0, 0x00, 0x7c, 0x00, 0xb0, 0x20, 0x02, 0x00, 0xc0, 0x05]);
    sequence.extend_from_slice(&[0x00, 0x80, 0x3c, 0x01, 0x00, 0xff, 0x2f, 0x00]);
    let raw = file(&[mobile_track(&[chunk(b"Mtsq", &sequence)])]);
    let events = parse_smaf(&raw);
    assert!(events.iter().any(|(_, event)| matches!(event, SmafEvent::MaFmNote(_))));
    assert!(!events
        .iter()
        .any(|(_, event)| matches!(event, SmafEvent::MidiSysEx(_) | SmafEvent::MidiNoteOn { .. })));
}

#[test]
fn plays_a_pcm_audio_track() {
    let sequence = [0x01, 0x01, 0x02, 0x00, 0x00, 0x00, 0x00];
    let mut content = vec![0, 0, 0x01, 0x10, 2, 2];
    content.extend_from_slice(&chunk(b"Atsq", &sequence));
    content.extend_from_slice(&chunk(b"Awa\x01", &[0x80, 0x00, 0x7f]));
    let raw = file(&[chunk(b"ATR\x00", &content)]);
    assert_eq!(
        parse_smaf(&raw),
        [
            (
                4,
                SmafEvent::Wave {
                    channels: 1,
                    sampling_rate: 8000,
                    data: vec![i16::MIN, 0, 32512],
                    dynamics: WaveDynamics::unity(),
                }
            ),
            (5, SmafEvent::End),
        ]
    );
}

#[test]
fn files_that_cannot_be_played_to_their_end_are_told() {
    // The reader never gets past this status byte.
    let stuck = file(&[mobile_track(&[chunk(b"Mtsq", &[0x00, 0x12])])]);
    assert_eq!(parse_smaf_checked(&stuck), None);
    // Five tracks with four melody channels each need more MIDI channels than
    // there are, and the first number past them cannot be followed by another.
    let melody = [0x00, 0x01, 0x01, 0x00, 0x41, 0x01, 0x00, 0x81, 0x01, 0x00, 0xc1, 0x01];
    let tracks: Vec<Vec<u8>> = (0..5).map(|_| handy_track([0x11, 0x11], &melody)).collect();
    assert_eq!(parse_smaf_checked(&file(&tracks)), None);
    let fewer = parse_smaf_checked(&file(&tracks[..4])).unwrap();
    assert!(fewer
        .iter()
        .any(|(_, event)| matches!(event, SmafEvent::MidiNoteOn { channel: 15, .. })));
}

#[test]
fn the_end_marker_waits_for_waves_of_other_tracks() {
    // A score of 8 ms beside a wave of 100 ms that starts after 4 ms.
    let score = [0x00, 0x90, 0x3c, 0x40, 0x02, 0x00, 0xff, 0x2f, 0x00];
    let mut content = vec![0, 0, 0x01, 0x10, 2, 2];
    content.extend_from_slice(&chunk(b"Atsq", &[0x01, 0x01, 0x7f, 0x00, 0x00, 0x00, 0x00]));
    content.extend_from_slice(&chunk(b"Awa\x01", &[0; 800]));
    let raw = file(&[mobile_track(&[chunk(b"Mtsq", &score)]), chunk(b"ATR\x00", &content)]);
    let events = parse_smaf(&raw);
    assert_eq!(events.last(), Some(&(104, SmafEvent::End)));
    assert_eq!(events.iter().filter(|(_, event)| *event == SmafEvent::End).count(), 1);
    assert!(events.windows(2).all(|pair| pair[0].0 <= pair[1].0));
}
