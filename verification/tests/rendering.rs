use smaf_player::events::{SmafEvent, WaveDynamics};
use smaf_player::fm_voice::{
    carrier_indices, doubled_multiple, modulator_indices, output_gain_per_mille, output_indices,
    running_count, waveform_family, EnvelopeStage, NoteGate, VoiceStages, WaveFamily,
};
use smaf_player::resample::WavePlan;
use smaf_player::timeline::{is_embedded_audio, output_rate, Timeline};

#[test]
fn multiples_are_linear() {
    assert_eq!(doubled_multiple(0), 1);
    assert_eq!(doubled_multiple(1), 2);
    assert_eq!(doubled_multiple(15), 30);
}

#[test]
fn wave_selectors_name_their_families() {
    assert_eq!(waveform_family(5), WaveFamily::Opl(5));
    assert_eq!(waveform_family(9), WaveFamily::Clipped(1));
    assert_eq!(waveform_family(16), WaveFamily::Triangle(0));
    assert_eq!(waveform_family(26), WaveFamily::Saw(2));
    for selector in [14, 22, 30] {
        assert_eq!(waveform_family(selector), WaveFamily::Square);
    }
    for selector in [15, 23, 31] {
        assert_eq!(waveform_family(selector), WaveFamily::Silent);
    }
}

#[test]
fn connections_feed_forward_into_their_carriers() {
    for algorithm in 0..8u8 {
        let heard = output_indices(algorithm);
        for operator in 0..running_count(algorithm) {
            assert!(modulator_indices(algorithm, operator).iter().all(|index| *index < operator));
            let modulates = (0..running_count(algorithm))
                .any(|other| modulator_indices(algorithm, other).contains(&operator));
            assert_ne!(heard.contains(&operator), modulates);
        }
        let operators = if algorithm < 2 { 2 } else { 4 };
        assert_eq!(carrier_indices(algorithm, operators), heard);
    }
    assert_eq!(carrier_indices(7, 4), [0, 2, 3]);
    assert_eq!(modulator_indices(3, 2), [0, 1]);
    assert_eq!(output_gain_per_mille(2), 350);
    assert_eq!(output_gain_per_mille(4), 1000);
}

#[test]
fn running_modulators_do_not_hold_a_note() {
    let mut voice = VoiceStages::new(0, 2, [true, false, false, false]);
    for _ in 0..3 {
        voice.advance(1);
    }
    assert_eq!(voice.stages[0], EnvelopeStage::Attack);
    assert!(voice.finished());
    let mut voice = VoiceStages::new(1, 2, [true, false, false, false]);
    voice.key_off();
    assert_eq!(voice.stages[0], EnvelopeStage::Attack);
    assert_eq!(voice.stages[1], EnvelopeStage::Release);
    assert_eq!(voice.stages[2], EnvelopeStage::Attack);
    voice.advance(1);
    assert_eq!(voice.stages[1], EnvelopeStage::Done);
    assert!(!voice.finished());
}

#[test]
fn notes_last_their_gate_time_and_a_bounded_tail() {
    // 20 ms of gate time and a voice that never comes to its end.
    let mut gate = NoteGate::new(20, 44_100);
    let (mut frames, mut key_offs) = (0, 0);
    loop {
        if gate.key_goes_up() {
            key_offs += 1;
            assert_eq!(frames, 882);
        }
        if !gate.next_frame(false) {
            break;
        }
        frames += 1;
    }
    assert_eq!((frames, key_offs), (882 + 220_500, 1));
    // One that is at its end when the key goes up.
    let mut gate = NoteGate::new(20, 44_100);
    let mut frames = 0;
    while {
        gate.key_goes_up();
        gate.next_frame(true)
    } {
        frames += 1;
    }
    assert_eq!(frames, 882);
}

#[test]
fn waves_resample_within_their_samples() {
    let plan = WavePlan::new(1, 8_000, 4, 16_000).unwrap();
    assert_eq!(plan.output_frames, 8);
    let frames: Vec<(usize, usize, u64)> = (0..8)
        .map(|frame| plan.frame(frame))
        .map(|frame| (frame.left_index, frame.right_index, frame.numerator))
        .collect();
    assert_eq!(
        frames,
        [
            (0, 1, 0),
            (0, 1, 8000),
            (1, 2, 0),
            (1, 2, 8000),
            (2, 3, 0),
            (2, 3, 8000),
            (3, 3, 0),
            (3, 3, 8000)
        ]
    );
    let plan = WavePlan::new(2, 11_025, 7, 8_000).unwrap();
    assert_eq!((plan.source_frames, plan.output_frames), (3, 3));
    assert_eq!((plan.sample_index(2, 0), plan.sample_index(2, 1)), (4, 5));
    assert!(WavePlan::new(3, 8_000, 9, 8_000).is_none());
    assert!(WavePlan::new(1, 0, 9, 8_000).is_none());
    assert!(WavePlan::new(1, 0, usize::MAX, u32::MAX).is_none());
    assert!(WavePlan::new(2, 8_000, 1, 8_000).is_none());
}

#[test]
fn waves_at_their_own_rate_stay_as_they_are() {
    let plan = WavePlan::new(1, 8_000, 5, 8_000).unwrap();
    assert_eq!(plan.output_frames, 5);
    for frame in 0..5 {
        assert_eq!((plan.frame(frame).left_index as u64, plan.frame(frame).numerator), (frame, 0));
    }
}

#[test]
fn due_events_start_once_per_cycle() {
    let program = SmafEvent::MidiProgramChange { channel: 0, program: 1 };
    let events = [
        (0, program.clone()),
        (0, program.clone()),
        (1, program.clone()),
        (500, SmafEvent::End),
    ];
    let mut timeline = Timeline::new(100);
    assert_eq!(timeline.sample_rate, 8_000);
    assert_eq!((timeline.start_due(&events), timeline.next_event), (0, 2));
    assert_eq!((timeline.start_due(&events), timeline.next_event), (2, 2));
    for _ in 0..8 {
        timeline.advance();
    }
    assert_eq!((timeline.start_due(&events), timeline.next_event), (2, 3));
    assert!(!timeline.is_over(4, 0));
    timeline.frame = 4_000;
    timeline.start_due(&events);
    assert!(timeline.is_over(4, 0) && !timeline.is_over(4, 1));
    timeline.restart_cycle();
    assert_eq!((timeline.start_due(&events), timeline.next_event), (0, 2));
    assert_eq!(output_rate(44_100), 44_100);
}

#[test]
fn only_waves_and_fm_notes_are_embedded_audio() {
    let wave = SmafEvent::Wave {
        channels: 1,
        sampling_rate: 8_000,
        data: vec![0],
        dynamics: WaveDynamics::unity(),
    };
    assert!(is_embedded_audio(&wave));
    assert!(!is_embedded_audio(&SmafEvent::MidiNoteOn { channel: 0, note: 60, velocity: 127 }));
    assert!(!is_embedded_audio(&SmafEvent::End));
}
