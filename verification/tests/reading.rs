use smaf_player::container::{
    BaseBit, Channel, ChannelType, FormatType, PCMAudioSequenceEvent, PCMAudioTrackChunk,
    PCMDataChunk, PcmWaveFormat, ScoreTrackChunk, ScoreTrackSequenceEvent, SmafChunk,
    StreamWaveFormat,
};
use smaf_player::huffman::{decode_text, lone_byte};
use smaf_player::parse_smaf_checked;
use smaf_player::readable::{read_through, Reading};
use smaf_player::reader::read_chunks;
use smaf_player::SmafEvent;

fn chunk(tag: &[u8; 4], content: &[u8]) -> Vec<u8> {
    let mut bytes = tag.to_vec();
    bytes.extend_from_slice(&(content.len() as u32).to_be_bytes());
    bytes.extend_from_slice(content);
    bytes
}

fn file(chunks: &[Vec<u8>]) -> Vec<u8> {
    let mut body: Vec<u8> = chunks.concat();
    body.extend_from_slice(&[0, 0]);
    chunk(b"MMMD", &body)
}

fn mobile_track(format: u8, chunks: &[Vec<u8>]) -> Vec<u8> {
    let mut content = vec![format, 0, 2, 2];
    content.extend_from_slice(&[1; 16]);
    content.extend_from_slice(&chunks.concat());
    chunk(b"MTR\x05", &content)
}

fn handy_track(chunks: &[Vec<u8>]) -> Vec<u8> {
    let mut content = vec![0, 0, 3, 0x13, 0x1b, 0x05];
    content.extend_from_slice(&chunks.concat());
    chunk(b"MTR\x00", &content)
}

fn pcm_track(wave_type: [u8; 2], chunks: &[Vec<u8>]) -> Vec<u8> {
    let mut content = vec![0, 0, wave_type[0], wave_type[1], 2, 2];
    content.extend_from_slice(&chunks.concat());
    chunk(b"ATR\x00", &content)
}

/// A text whose bytes are all at depth eight of a full tree, or in which a
/// single byte repeats.
fn compressed(text: &[u8]) -> Vec<u8> {
    let mut bits: Vec<bool> = Vec::new();
    fn tree(bits: &mut Vec<bool>, prefix: u32, depth: u32) {
        if depth == 8 {
            bits.push(false);
            for i in (0..8).rev() {
                bits.push((prefix >> i) & 1 == 1);
            }
        } else {
            bits.push(true);
            tree(bits, prefix << 1, depth + 1);
            tree(bits, (prefix << 1) | 1, depth + 1);
        }
    }
    tree(&mut bits, 0, 0);
    for byte in text {
        for i in (0..8).rev() {
            bits.push((byte >> i) & 1 == 1);
        }
    }
    let mut bytes = (text.len() as u32).to_be_bytes().to_vec();
    for group in bits.chunks(8) {
        let mut byte = 0u8;
        for (i, bit) in group.iter().enumerate() {
            if *bit {
                byte |= 0x80 >> i;
            }
        }
        bytes.push(byte);
    }
    bytes
}

#[test]
fn reads_every_event_of_a_mobile_score() {
    let sequence = [
        0x00, 0x81, 0x3c, 0x81, 0x00, // a note without velocity, gate time 128
        0x83, 0x60, 0x92, 0x40, 0x50, 0x07, // after 480 ticks a note with velocity
        0x01, 0xb3, 0x07, 0x64, // a control change
        0x02, 0xc4, 0x11, // a program change
        0x03, 0xe5, 0x01, 0x40, // a pitch bend
        0x04, 0xa0, 0x01, 0x02, // nothing
        0x05, 0xf0, 0x03, 0x43, 0x79, 0xf7, // an exclusive message
        0x06, 0xff, 0x2f, 0x00,
    ];
    let raw = file(&[mobile_track(2, &[chunk(b"Mtsq", &sequence)])]);
    assert_eq!(read_through(&raw), Reading::Whole);
    let chunks = read_chunks(&raw).unwrap();
    assert_eq!(chunks.len(), 1);
    let SmafChunk::ScoreTrack(track) = &chunks[0] else { panic!("no score track") };
    assert_eq!(track.format_type, FormatType::MobileStandardNoCompress);
    assert_eq!((track.timebase_d, track.timebase_g), (4, 4));
    assert_eq!(track.channel_status.len(), 16);
    let ScoreTrackChunk::SequenceData(entries) = &track.chunks[0] else { panic!("no sequence") };
    let durations: Vec<u32> = entries.iter().map(|entry| entry.duration).collect();
    assert_eq!(durations, [0, 480, 1, 2, 3, 4, 5, 6]);
    assert!(matches!(
        entries[0].event,
        ScoreTrackSequenceEvent::NoteMessage { channel: 1, note: 60, velocity: None, gate_time: 128 }
    ));
    assert!(matches!(
        entries[1].event,
        ScoreTrackSequenceEvent::NoteMessage {
            channel: 2,
            note: 64,
            velocity: Some(80),
            gate_time: 7
        }
    ));
    assert!(matches!(
        entries[2].event,
        ScoreTrackSequenceEvent::ControlChange { channel: 3, control: 7, value: 100 }
    ));
    assert!(matches!(
        entries[3].event,
        ScoreTrackSequenceEvent::ProgramChange { channel: 4, program: 17 }
    ));
    assert!(matches!(
        entries[4].event,
        ScoreTrackSequenceEvent::PitchBend { channel: 5, value: 0x2001 }
    ));
    assert!(matches!(entries[5].event, ScoreTrackSequenceEvent::Nop));
    assert!(matches!(
        &entries[6].event,
        ScoreTrackSequenceEvent::Exclusive(data) if data[..] == [0x43, 0x79, 0xf7]
    ));
    assert!(matches!(entries[7].event, ScoreTrackSequenceEvent::Nop));
}

#[test]
fn reads_every_event_of_a_handy_score() {
    let sequence = [
        0x00, 0x51, 0x05, // a note on channel 1
        0x81, 0x02, 0x00, 0x30, 0x22, // after 258 ticks a program change
        0x01, 0x00, 0x71, 0x7d, // a bank select
        0x02, 0x00, 0xb2, 0x81, // an octave shift
        0x03, 0x00, 0xf3, 0x40, // a modulation
        0x04, 0x00, 0x34, 0x90, // a pitch bend
        0x05, 0x00, 0x36, 0x5c, // an expression
        0x06, 0x00, 0x77, 0x64, // a volume
        0x07, 0x00, 0xba, 0x20, // a pan
        0x08, 0xff, 0xf0, 0x01, 0x02, 0xf7, // an exclusive message
        0x00, 0x00, 0x00, 0x00,
    ];
    let raw = file(&[handy_track(&[chunk(b"Mtsu", &[1, 2, 3]), chunk(b"Mtsq", &sequence)])]);
    assert_eq!(read_through(&raw), Reading::Whole);
    let chunks = read_chunks(&raw).unwrap();
    let SmafChunk::ScoreTrack(track) = &chunks[0] else { panic!("no score track") };
    assert_eq!(track.format_type, FormatType::HandyPhoneStandard);
    assert_eq!((track.timebase_d, track.timebase_g), (5, 50));
    let types: Vec<ChannelType> =
        track.channel_status.iter().map(|status| status.channel_type).collect();
    assert_eq!(
        types,
        [ChannelType::Melody, ChannelType::Rhythm, ChannelType::NoCare, ChannelType::Melody]
    );
    assert_eq!((track.channel_status[1].kcs, track.channel_status[1].vs), (1, 0));
    assert!(matches!(track.chunks[0], ScoreTrackChunk::SetupData(data) if data == [1, 2, 3]));
    let ScoreTrackChunk::SequenceData(entries) = &track.chunks[1] else { panic!("no sequence") };
    let durations: Vec<u32> = entries.iter().map(|entry| entry.duration).collect();
    assert_eq!(durations, [0, 258, 1, 2, 3, 4, 5, 6, 7, 8]);
    assert!(matches!(
        entries[0].event,
        ScoreTrackSequenceEvent::NoteMessage { channel: 1, note: 13, velocity: None, gate_time: 5 }
    ));
    assert!(matches!(
        entries[1].event,
        ScoreTrackSequenceEvent::ProgramChange { channel: 0, program: 0x22 }
    ));
    assert!(matches!(
        entries[2].event,
        ScoreTrackSequenceEvent::BankSelect { channel: 1, value: 0x7d }
    ));
    assert!(matches!(
        entries[3].event,
        ScoreTrackSequenceEvent::OctaveShift { channel: 2, value: 0x81 }
    ));
    assert!(matches!(
        entries[4].event,
        ScoreTrackSequenceEvent::Modulation { channel: 3, value: 0x40 }
    ));
    assert!(matches!(
        entries[5].event,
        ScoreTrackSequenceEvent::PitchBend { channel: 0, value: 9216 }
    ));
    assert!(matches!(
        entries[6].event,
        ScoreTrackSequenceEvent::Expression { channel: 0, value: 0x5c }
    ));
    assert!(matches!(
        entries[7].event,
        ScoreTrackSequenceEvent::Volume { channel: 1, value: 0x64 }
    ));
    assert!(matches!(entries[8].event, ScoreTrackSequenceEvent::Pan { channel: 2, value: 0x20 }));
    assert!(matches!(
        &entries[9].event,
        ScoreTrackSequenceEvent::Exclusive(data) if data[..] == [1, 2]
    ));
}

#[test]
fn reads_the_waves_of_a_score() {
    let table = [
        chunk(b"Mwa\x01", &[0x20, 0x1f, 0x40, 9, 8]),
        chunk(b"Mwa\x02", &[0x93, 0x2e, 0xe0, 7]),
        chunk(b"Mwa\x03", &[0x02, 0x0f, 0xa0]),
    ]
    .concat();
    let raw = file(&[mobile_track(2, &[chunk(b"MspI", &[1]), chunk(b"Mtsp", &table)])]);
    let chunks = read_chunks(&raw).unwrap();
    let SmafChunk::ScoreTrack(track) = &chunks[0] else { panic!("no score track") };
    assert!(matches!(track.chunks[0], ScoreTrackChunk::Other));
    let ScoreTrackChunk::PCMData(waves) = &track.chunks[1] else { panic!("no waves") };
    let PCMDataChunk::WaveData(number, wave) = waves[0];
    assert_eq!((number, wave.channel, wave.format), (1, Channel::Mono, StreamWaveFormat::YamahaADPCM));
    assert_eq!((wave.base_bit, wave.sampling_freq), (BaseBit::Bit4, 8000));
    assert_eq!(wave.wave_data, [9, 8]);
    let PCMDataChunk::WaveData(number, wave) = waves[1];
    assert_eq!(
        (number, wave.channel, wave.format),
        (2, Channel::Stereo, StreamWaveFormat::OffsetBinaryPCM)
    );
    assert_eq!((wave.base_bit, wave.sampling_freq), (BaseBit::Bit16, 12000));
    let PCMDataChunk::WaveData(number, wave) = waves[2];
    assert_eq!(
        (number, wave.channel, wave.format),
        (3, Channel::Mono, StreamWaveFormat::TwosComplementPCM)
    );
    assert_eq!((wave.base_bit, wave.sampling_freq), (BaseBit::Bit12, 4000));
}

#[test]
fn reads_every_event_of_a_pcm_audio_track() {
    let sequence = [
        0x00, 0x41, 0x0a, // a wave on channel 1
        0x01, 0x00, 0x37, 0x60, // a volume
        0x02, 0x00, 0x7a, 0x10, // a pan
        0x03, 0x00, 0xbb, 0x50, // an expression
        0x04, 0x00, 0x34, 0x21, // a pitch bend
        0x05, 0xff, 0xf0, 0x02, 0x01, 0x02, // an exclusive message
        0x06, 0xff, 0x00, // nothing
        0x00, 0x00, 0x00, 0x00,
    ];
    let raw = file(&[pcm_track(
        [0x91, 0x10],
        &[chunk(b"Atsu", &[1]), chunk(b"Atsq", &sequence), chunk(b"Awa\x01", &[5, 6])],
    )]);
    assert_eq!(read_through(&raw), Reading::Whole);
    let chunks = read_chunks(&raw).unwrap();
    let SmafChunk::PCMAudioTrack(track) = &chunks[0] else { panic!("no audio track") };
    assert_eq!((track.channel, track.format), (Channel::Stereo, PcmWaveFormat::Adpcm));
    assert_eq!((track.sampling_freq, track.base_bit), (8000, BaseBit::Bit8));
    assert_eq!((track.timebase_d, track.timebase_g), (4, 4));
    assert!(matches!(track.chunks[0], PCMAudioTrackChunk::Other));
    assert!(matches!(track.chunks[2], PCMAudioTrackChunk::WaveData(1, data) if data == [5, 6]));
    let PCMAudioTrackChunk::SequenceData(entries) = &track.chunks[1] else {
        panic!("no sequence")
    };
    let durations: Vec<u32> = entries.iter().map(|entry| entry.duration).collect();
    assert_eq!(durations, [0, 1, 2, 3, 4, 5, 6, 0]);
    assert!(matches!(
        entries[0].event,
        PCMAudioSequenceEvent::WaveMessage { channel: 1, wave_number: 1, gate_time: 10 }
    ));
    assert!(matches!(
        entries[1].event,
        PCMAudioSequenceEvent::Volume { channel: 0, value: 0x60 }
    ));
    assert!(matches!(entries[2].event, PCMAudioSequenceEvent::Pan { channel: 1, value: 0x10 }));
    assert!(matches!(
        entries[3].event,
        PCMAudioSequenceEvent::Expression { channel: 2, value: 0x50 }
    ));
    assert!(matches!(
        entries[4].event,
        PCMAudioSequenceEvent::PitchBend { channel: 0, value: 0x21 }
    ));
    assert!(matches!(entries[5].event, PCMAudioSequenceEvent::Exclusive));
    assert!(matches!(entries[6].event, PCMAudioSequenceEvent::Nop));
    assert!(matches!(entries[7].event, PCMAudioSequenceEvent::Nop));
}

#[test]
fn reads_the_other_encodings_of_pcm_audio_tracks() {
    for (wave_type, format, rate, width) in [
        ([0x00, 0x00], PcmWaveFormat::TwosComplementPCM, 4000, BaseBit::Bit4),
        ([0x22, 0x20], PcmWaveFormat::TwinVQ, 11000, BaseBit::Bit12),
        ([0x33, 0x30], PcmWaveFormat::MP3, 22050, BaseBit::Bit16),
        ([0x14, 0x10], PcmWaveFormat::Adpcm, 44100, BaseBit::Bit8),
    ] {
        let raw = file(&[pcm_track(wave_type, &[])]);
        let chunks = read_chunks(&raw).unwrap();
        let SmafChunk::PCMAudioTrack(track) = &chunks[0] else { panic!("no audio track") };
        assert_eq!(track.channel, Channel::Mono);
        assert_eq!((track.format, track.sampling_freq, track.base_bit), (format, rate, width));
    }
}

#[test]
fn keeps_chunks_that_do_not_sound_apart() {
    let raw = file(&[
        chunk(b"CNTI", &[0, 0, 1, 0, 0, 9]),
        chunk(b"OPDA", &[1, 2]),
        chunk(b"XXXX", &[]),
        chunk(b"SEQU", &[0x00, 0x41, 0x05]),
    ]);
    let chunks = read_chunks(&raw).unwrap();
    assert!(matches!(chunks[0], SmafChunk::Other));
    assert!(matches!(chunks[1], SmafChunk::Other));
    assert!(matches!(chunks[2], SmafChunk::Other));
    let SmafChunk::SoftbankSequenceData(entries) = &chunks[3] else { panic!("no sequence") };
    assert_eq!(entries.len(), 1);
}

#[test]
fn reads_a_compressed_score() {
    let sequence = [0x00, 0x90, 0x3c, 0x40, 0x05, 0x00, 0xff, 0x2f, 0x00];
    let raw = file(&[mobile_track(1, &[chunk(b"Mtsq", &compressed(&sequence))])]);
    assert_eq!(read_through(&raw), Reading::Whole);
    let chunks = read_chunks(&raw).unwrap();
    let SmafChunk::ScoreTrack(track) = &chunks[0] else { panic!("no score track") };
    assert_eq!(track.format_type, FormatType::MobileStandardCompress);
    let ScoreTrackChunk::SequenceData(entries) = &track.chunks[0] else { panic!("no sequence") };
    assert!(matches!(
        entries[0].event,
        ScoreTrackSequenceEvent::NoteMessage {
            channel: 0,
            note: 60,
            velocity: Some(64),
            gate_time: 5
        }
    ));
}

#[test]
fn decodes_huffman_text() {
    let text = [1, 2, 3, 0xff, 0, 0x80];
    assert_eq!(decode_text(&compressed(&text)[4..], text.len()).unwrap(), text);
    // A tree of a single leaf spells its byte without any further bits.
    assert_eq!(decode_text(&[0x20, 0x80], 3).unwrap(), [0x41, 0x41, 0x41]);
    assert!(decode_text(&[0x20], 1).is_none());
    assert_eq!(lone_byte(&[0x20, 0x80]), Some(0x41));
    assert_eq!(lone_byte(&[0x80, 0x00, 0x4c]), None);
    assert_eq!(lone_byte(&[0x20]), None);
    // With two leaves, there are no more bytes than bits.
    assert!(decode_text(&[0x80, 0x00, 0x4c], 25).is_none());
    // 1 0aaaaaaaa 0bbbbbbbb, then the paths 0 1 1 and no more.
    assert_eq!(decode_text(&[0x80, 0x00, 0x4c], 3).unwrap(), [0, 2, 2]);
    assert!(decode_text(&[0xff; 64], 1).is_none());
}

#[test]
fn refuses_what_is_no_file() {
    for raw in [&b""[..], b"MMM", b"MMMX\0\0\0\x02\0\0", b"MMMD\0\0\0\x03\0\0", b"MMMD\0\0\0\x01\0"] {
        assert_eq!(read_through(raw), Reading::Refused);
        assert!(read_chunks(raw).is_none());
    }
    assert_eq!(read_through(b"MMMD\0\0\0\x02\0\0"), Reading::Whole);
    assert!(read_chunks(b"MMMD\0\0\0\x02\0\0").unwrap().is_empty());
}

#[test]
fn refuses_texts_that_their_code_does_not_spell() {
    // Two leaves and some bits, but not enough for the text.
    let raw = file(&[mobile_track(1, &[chunk(b"Mtsq", &[0, 0, 0, 100, 0x80, 0x00, 0x4c])])]);
    assert_eq!(read_through(&raw), Reading::Refused);
    assert!(read_chunks(&raw).is_none());
    assert_eq!(parse_smaf_checked(&raw), Some(Vec::new()));
    // One high byte over and over is a number without an end.
    for length in [0, 1, 2, 100] {
        let raw = file(&[mobile_track(1, &[chunk(b"Mtsq", &[0, 0, 0, length, 0x60, 0x80])])]);
        assert_eq!(read_through(&raw), Reading::Refused);
        assert_eq!(parse_smaf_checked(&raw), Some(Vec::new()));
    }
    // One low byte alone is the start of an event that does not go on.
    for length in [0, 1] {
        let raw = file(&[mobile_track(1, &[chunk(b"Mtsq", &[0, 0, 0, length, 0x20, 0x80])])]);
        assert_eq!(read_through(&raw), Reading::Refused);
        assert_eq!(parse_smaf_checked(&raw), Some(Vec::new()));
    }
}

#[test]
fn tells_files_on_which_the_reader_gets_stuck() {
    // A status byte that the reader never gets past.
    let raw = file(&[mobile_track(2, &[chunk(b"Mtsq", &[0x00, 0x12, 0x00, 0xff, 0x2f, 0x00])])]);
    assert_eq!(read_through(&raw), Reading::Stuck);
    let raw = file(&[mobile_track(1, &[chunk(b"Mtsq", &compressed(&[0x00, 0xf1, 0x00]))])]);
    assert_eq!(read_through(&raw), Reading::Stuck);
    // The same for a text of one low byte over and over.
    let raw = file(&[mobile_track(1, &[chunk(b"Mtsq", &[0xff, 0, 0, 0, 0x20, 0x80])])]);
    assert_eq!(read_through(&raw), Reading::Stuck);
    // Unknown events of the other notations, and a short pitch bend.
    let raw = file(&[handy_track(&[chunk(b"Mtsq", &[0x00, 0xff, 0x01])])]);
    assert_eq!(read_through(&raw), Reading::Stuck);
    let raw = file(&[handy_track(&[chunk(b"Mtsq", &[0x00, 0x00, 0x14])])]);
    assert_eq!(read_through(&raw), Reading::Stuck);
    let raw = file(&[chunk(b"SEQU", &[0x00, 0xff, 0x02])]);
    assert_eq!(read_through(&raw), Reading::Stuck);
    let raw = file(&[pcm_track([0x11, 0x00], &[chunk(b"Atsq", &[0x00, 0x00, 0x20])])]);
    assert_eq!(read_through(&raw), Reading::Stuck);
    // Headers with values that the reader does not know.
    let raw = file(&[chunk(b"MTR\x00", &[0, 0, 4, 0, 0, 0])]);
    assert_eq!(read_through(&raw), Reading::Stuck);
    let raw = file(&[pcm_track([0x15, 0x00], &[])]);
    assert_eq!(read_through(&raw), Reading::Stuck);
    let raw = file(&[mobile_track(2, &[chunk(b"Mtsp", &chunk(b"Mwa\x01", &[0x30, 0, 0]))])]);
    assert_eq!(read_through(&raw), Reading::Stuck);
    // Behind a chunk that it refuses, the reader sees nothing.
    let raw = file(&[chunk(b"CNTI", &[]), chunk(b"MTR\x00", &[0, 0, 4, 0, 0, 0])]);
    assert_eq!(read_through(&raw), Reading::Refused);
    assert!(read_chunks(&raw).is_none());
}

struct Dice(u64);

impl Dice {
    fn roll(&mut self, sides: u64) -> u64 {
        self.0 ^= self.0 << 13;
        self.0 ^= self.0 >> 7;
        self.0 ^= self.0 << 17;
        (self.0 >> 11) % sides
    }

    fn byte(&mut self) -> u8 {
        const USUAL: [u8; 24] = [
            0, 0, 0, 0, 1, 2, 5, 0x13, 0x2f, 0x30, 0x34, 0x3a, 0x3f, 0x7f, 0x80, 0x81, 0x90, 0xb0,
            0xc0, 0xe0, 0xf0, 0xf7, 0xff, 0xff,
        ];
        if self.roll(4) == 0 {
            self.roll(256) as u8
        } else {
            USUAL[self.roll(24) as usize]
        }
    }

    fn bytes(&mut self, most: u64) -> Vec<u8> {
        (0..self.roll(most + 1)).map(|_| self.byte()).collect()
    }

    fn mobile(&mut self) -> Vec<u8> {
        let mut bytes = Vec::new();
        for _ in 0..self.roll(6) {
            bytes.push(self.roll(128) as u8);
            let status = 0x80 + self.roll(112) as u8;
            bytes.push(status);
            bytes.push(self.roll(128) as u8);
            if !(0xc0..=0xdf).contains(&status) {
                bytes.push(self.roll(128) as u8);
            }
            if (0x90..=0x9f).contains(&status) {
                bytes.push(self.roll(128) as u8);
            }
        }
        if self.roll(3) == 0 {
            let message = self.bytes(6);
            bytes.extend_from_slice(&[0, 0xf0, message.len() as u8]);
            bytes.extend_from_slice(&message);
        }
        bytes.extend_from_slice(&[0, 0xff, 0x2f, 0]);
        bytes
    }

    fn handy(&mut self, softbank: bool) -> Vec<u8> {
        let mut bytes = Vec::new();
        for _ in 0..self.roll(6) {
            bytes.push(self.roll(128) as u8);
            match self.roll(4) {
                0 => bytes.extend_from_slice(&[0, self.byte(), self.byte()]),
                1 if softbank => bytes.extend_from_slice(&[0xff, 0xf0, 2, 7, 7]),
                1 => bytes.extend_from_slice(&[0xff, 0xf0, 1, 2, 0xf7]),
                2 => bytes.extend_from_slice(&[0xff, 0]),
                _ => bytes.extend_from_slice(&[1 + self.roll(254) as u8, self.roll(128) as u8]),
            }
        }
        if self.roll(2) == 0 {
            bytes.extend_from_slice(&[0, 0, 0, 0]);
        }
        bytes
    }

    fn pcm(&mut self) -> Vec<u8> {
        let mut bytes = Vec::new();
        for _ in 0..self.roll(6) {
            bytes.push(self.roll(128) as u8);
            match self.roll(5) {
                0 => bytes.extend_from_slice(&[0, [0x37, 0x3a, 0x3b, 0x34][self.roll(4) as usize], 9]),
                1 => bytes.extend_from_slice(&[0xff, 0xf0, 2, 7, 7]),
                2 => bytes.extend_from_slice(&[0xff, 0]),
                3 => bytes.extend_from_slice(&[0, self.roll(31) as u8]),
                _ => bytes.extend_from_slice(&[1 + self.roll(254) as u8, self.roll(128) as u8]),
            }
        }
        bytes.extend_from_slice(&[0, 0, 0, 0]);
        bytes
    }

    fn score(&mut self) -> Vec<u8> {
        let format = self.roll(3) as u8;
        let mut chunks = Vec::new();
        for _ in 0..self.roll(4) {
            chunks.push(match self.roll(6) {
                0 => chunk(b"Mtsu", &self.bytes(9)),
                1 => {
                    let wave = [vec![(self.roll(3) << 4 | self.roll(4)) as u8], self.bytes(5)].concat();
                    chunk(b"Mtsp", &chunk(b"Mwa\x01", &wave))
                },
                2 => {
                    let sequence = self.handy(true);
                    chunk(b"SEQU", &sequence)
                },
                3 => chunk(b"MspI", &self.bytes(3)),
                _ => {
                    let sequence = match format {
                        0 => self.handy(false),
                        1 => {
                            let text = self.mobile();
                            compressed(&text)
                        },
                        _ => self.mobile(),
                    };
                    chunk(b"Mtsq", &sequence)
                },
            });
        }
        let mut content = vec![format, 0, self.roll(4) as u8, 0x10 + self.roll(4) as u8];
        content.extend((0..if format == 0 { 2 } else { 16 }).map(|_| self.byte()));
        content.extend_from_slice(&chunks.concat());
        chunk(b"MTR\x01", &content)
    }

    fn audio(&mut self) -> Vec<u8> {
        let mut chunks = Vec::new();
        for _ in 0..self.roll(4) {
            chunks.push(match self.roll(3) {
                0 => chunk(b"Awa\x01", &self.bytes(9)),
                1 => chunk(b"AspI", &self.bytes(3)),
                _ => {
                    let sequence = self.pcm();
                    chunk(b"Atsq", &sequence)
                },
            });
        }
        let kind = [(self.roll(4) << 4 | self.roll(5)) as u8, (self.roll(4) << 4) as u8];
        pcm_track(kind, &chunks)
    }

    fn any_file(&mut self) -> Vec<u8> {
        let mut chunks = Vec::new();
        for _ in 0..1 + self.roll(3) {
            chunks.push(match self.roll(5) {
                0 => self.audio(),
                1 => chunk(b"CNTI", &self.bytes(9)),
                2 => {
                    let sequence = self.handy(true);
                    chunk(b"SEQU", &sequence)
                },
                _ => self.score(),
            });
        }
        let mut raw = file(&chunks);
        for _ in 0..self.roll(4) {
            let place = self.roll(raw.len() as u64) as usize;
            raw[place] = self.byte();
        }
        if self.roll(8) == 0 {
            raw.truncate(self.roll(raw.len() as u64 + 1) as usize);
        }
        raw
    }
}

#[test]
fn agrees_with_the_reader_on_many_files() {
    let mut dice = Dice(0x9e37_79b9_7f4a_7c15);
    let (mut whole, mut refused, mut stuck) = (0, 0, 0);
    for _ in 0..60_000 {
        let raw = dice.any_file();
        match read_through(&raw) {
            Reading::Whole => {
                whole += 1;
                assert!(smaf::Smaf::parse(&raw).is_ok(), "{raw:02x?}");
            },
            Reading::Refused => {
                refused += 1;
                assert!(smaf::Smaf::parse(&raw).is_err(), "{raw:02x?}");
            },
            Reading::Stuck => stuck += 1,
        }
    }
    assert!(whole > 5000 && refused > 5000 && stuck > 1000, "{whole} {refused} {stuck}");
}

#[test]
fn many_files_play_in_order_and_release_their_notes() {
    let mut dice = Dice(0x2545_f491_4f6c_dd1d);
    let mut played = 0;
    for _ in 0..20_000 {
        let raw = dice.any_file();
        let Some(events) = parse_smaf_checked(&raw) else { continue };
        assert_eq!(events.is_empty(), read_through(&raw) == Reading::Refused);
        let ends = events.iter().filter(|(_, event)| *event == SmafEvent::End).count();
        assert_eq!(ends, usize::from(!events.is_empty()));
        assert!(events.is_empty() || events[events.len() - 1].1 == SmafEvent::End);
        assert!(events.windows(2).all(|pair| pair[0].0 <= pair[1].0));
        let on = events
            .iter()
            .filter(|(_, event)| matches!(event, SmafEvent::MidiNoteOn { .. }))
            .count();
        let off = events
            .iter()
            .filter(|(_, event)| matches!(event, SmafEvent::MidiNoteOff { .. }))
            .count();
        assert_eq!(on, off);
        played += usize::from(events.len() > 1);
    }
    assert!(played > 1000, "{played}");
}
