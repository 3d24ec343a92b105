//! The parts of a SMAF file that playback reads.
//!
//! A file is a list of chunks.  Score tracks hold sequences of note and control
//! events, together with setup messages and sampled waves; PCM audio tracks hold
//! sequences of wave messages and the waves they name.
use vstd::prelude::*;

verus! {

/// Sequence format of a score track.
#[derive(Clone, Copy, Debug, PartialEq, Eq, Structural)]
pub enum FormatType {
    HandyPhoneStandard,
    MobileStandardCompress,
    MobileStandardNoCompress,
}

/// Channel layout of sampled audio.
#[derive(Clone, Copy, Debug, PartialEq, Eq, Structural)]
pub enum Channel {
    Mono,
    Stereo,
}

/// Sample width of sampled audio.
#[derive(Clone, Copy, Debug, PartialEq, Eq, Structural)]
pub enum BaseBit {
    Bit4,
    Bit8,
    Bit12,
    Bit16,
}

/// Encoding of a wave inside a score track.
#[derive(Clone, Copy, Debug, PartialEq, Eq, Structural)]
pub enum StreamWaveFormat {
    TwosComplementPCM,
    OffsetBinaryPCM,
    YamahaADPCM,
}

/// Encoding of the waves of a PCM audio track.
#[derive(Clone, Copy, Debug, PartialEq, Eq, Structural)]
pub enum PcmWaveFormat {
    TwosComplementPCM,
    Adpcm,
    TwinVQ,
    MP3,
}

/// Role that a track's header gives to a channel.
#[derive(Clone, Copy, Debug, PartialEq, Eq, Structural)]
pub enum ChannelType {
    NoCare,
    Melody,
    NoMelody,
    Rhythm,
}

/// Header entry of one channel: key control, vibration, LED and role.
#[derive(Clone, Copy, Debug, PartialEq, Eq, Structural)]
pub struct ChannelStatus {
    pub kcs: u8,
    pub vs: u8,
    pub led: u8,
    pub channel_type: ChannelType,
}

/// One event of a score sequence.
#[derive(Debug)]
#[allow(inconsistent_fields)]
pub enum ScoreTrackSequenceEvent {
    NoteMessage { channel: u8, note: u8, velocity: Option<u8>, gate_time: u32 },
    ControlChange { channel: u8, control: u8, value: u8 },
    ProgramChange { channel: u8, program: u8 },
    BankSelect { channel: u8, value: u8 },
    OctaveShift { channel: u8, value: u8 },
    Modulation { channel: u8, value: u8 },
    PitchBend { channel: u8, value: u16 },
    Volume { channel: u8, value: u8 },
    Pan { channel: u8, value: u8 },
    Expression { channel: u8, value: u8 },
    Exclusive(Vec<u8>),
    Nop,
}

/// A score event with the ticks that pass before it.
#[derive(Debug)]
pub struct SequenceData {
    pub duration: u32,
    pub event: ScoreTrackSequenceEvent,
}

/// A wave that notes of a score track can select.
#[derive(Clone, Copy, Debug)]
pub struct WaveData<'a> {
    pub channel: Channel,
    pub format: StreamWaveFormat,
    pub base_bit: BaseBit,
    /// In Hz.
    pub sampling_freq: u16,
    pub wave_data: &'a [u8],
}

/// An entry of a score track's wave table: the wave's number and the wave.
#[derive(Clone, Copy, Debug)]
pub enum PCMDataChunk<'a> {
    WaveData(u8, WaveData<'a>),
}

/// One chunk of a score track; `Other` stands for those that do not sound.
#[derive(Debug)]
pub enum ScoreTrackChunk<'a> {
    SetupData(&'a [u8]),
    SequenceData(Vec<SequenceData>),
    PCMData(Vec<PCMDataChunk<'a>>),
    Other,
}

/// A score track.  Durations count units of `timebase_d` milliseconds, gate
/// times units of `timebase_g` milliseconds.
#[derive(Debug)]
pub struct ScoreTrack<'a> {
    pub format_type: FormatType,
    pub timebase_d: u8,
    pub timebase_g: u8,
    pub channel_status: Vec<ChannelStatus>,
    pub chunks: Vec<ScoreTrackChunk<'a>>,
}

/// One event of a PCM audio sequence.
#[derive(Clone, Copy, Debug)]
pub enum PCMAudioSequenceEvent {
    WaveMessage { channel: u8, wave_number: u8, gate_time: u32 },
    PitchBend { channel: u8, value: u8 },
    Volume { channel: u8, value: u8 },
    Pan { channel: u8, value: u8 },
    Expression { channel: u8, value: u8 },
    Exclusive,
    Nop,
}

/// A PCM audio event with the ticks that pass before it.
#[derive(Clone, Copy, Debug)]
pub struct PCMAudioSequenceData {
    pub duration: u32,
    pub event: PCMAudioSequenceEvent,
}

/// One chunk of a PCM audio track; `Other` stands for those that do not sound.
#[derive(Debug)]
pub enum PCMAudioTrackChunk<'a> {
    SequenceData(Vec<PCMAudioSequenceData>),
    WaveData(u8, &'a [u8]),
    Other,
}

/// A PCM audio track, with its time bases as in a score track.
#[derive(Debug)]
pub struct PCMAudioTrack<'a> {
    pub channel: Channel,
    pub format: PcmWaveFormat,
    /// In Hz.
    pub sampling_freq: u16,
    pub base_bit: BaseBit,
    pub timebase_d: u8,
    pub timebase_g: u8,
    pub chunks: Vec<PCMAudioTrackChunk<'a>>,
}

/// One chunk of a file; `Other` stands for those that do not sound.
#[derive(Debug)]
pub enum SmafChunk<'a> {
    ScoreTrack(ScoreTrack<'a>),
    PCMAudioTrack(PCMAudioTrack<'a>),
    SoftbankSequenceData(Vec<SequenceData>),
    Other,
}

/// A score event with its bytes as a sequence.
#[allow(inconsistent_fields)]
pub enum ScoreTrackSequenceEventView {
    NoteMessage { channel: u8, note: u8, velocity: Option<u8>, gate_time: u32 },
    ControlChange { channel: u8, control: u8, value: u8 },
    ProgramChange { channel: u8, program: u8 },
    BankSelect { channel: u8, value: u8 },
    OctaveShift { channel: u8, value: u8 },
    Modulation { channel: u8, value: u8 },
    PitchBend { channel: u8, value: u16 },
    Volume { channel: u8, value: u8 },
    Pan { channel: u8, value: u8 },
    Expression { channel: u8, value: u8 },
    Exclusive(Seq<u8>),
    Nop,
}

/// A score event with the ticks that pass before it and its bytes as a sequence.
pub struct SequenceDataView {
    pub duration: u32,
    pub event: ScoreTrackSequenceEventView,
}

/// A wave with its bytes as a sequence.
pub struct WaveDataView {
    pub channel: Channel,
    pub format: StreamWaveFormat,
    pub base_bit: BaseBit,
    pub sampling_freq: u16,
    pub wave_data: Seq<u8>,
}

/// An entry of a wave table with its bytes as a sequence.
pub enum PCMDataChunkView {
    WaveData(u8, WaveDataView),
}

/// A score track chunk with its lists as sequences.
pub enum ScoreTrackChunkView {
    SetupData(Seq<u8>),
    SequenceData(Seq<SequenceDataView>),
    PCMData(Seq<PCMDataChunkView>),
    Other,
}

/// A score track with its lists as sequences.
pub struct ScoreTrackView {
    pub format_type: FormatType,
    pub timebase_d: u8,
    pub timebase_g: u8,
    pub channel_status: Seq<ChannelStatus>,
    pub chunks: Seq<ScoreTrackChunkView>,
}

/// A PCM audio track chunk with its lists as sequences.
pub enum PCMAudioTrackChunkView {
    SequenceData(Seq<PCMAudioSequenceData>),
    WaveData(u8, Seq<u8>),
    Other,
}

/// A PCM audio track with its lists as sequences.
pub struct PCMAudioTrackView {
    pub channel: Channel,
    pub format: PcmWaveFormat,
    pub sampling_freq: u16,
    pub base_bit: BaseBit,
    pub timebase_d: u8,
    pub timebase_g: u8,
    pub chunks: Seq<PCMAudioTrackChunkView>,
}

/// A file's chunk with its lists as sequences.
pub enum SmafChunkView {
    ScoreTrack(ScoreTrackView),
    PCMAudioTrack(PCMAudioTrackView),
    SoftbankSequenceData(Seq<SequenceDataView>),
    Other,
}

impl View for ScoreTrackSequenceEvent {
    type V = ScoreTrackSequenceEventView;

    open spec fn view(&self) -> ScoreTrackSequenceEventView {
        match *self {
            ScoreTrackSequenceEvent::NoteMessage {
                channel,
                note,
                velocity,
                gate_time,
            } => ScoreTrackSequenceEventView::NoteMessage { channel, note, velocity, gate_time },
            ScoreTrackSequenceEvent::ControlChange {
                channel,
                control,
                value,
            } => ScoreTrackSequenceEventView::ControlChange { channel, control, value },
            ScoreTrackSequenceEvent::ProgramChange {
                channel,
                program,
            } => ScoreTrackSequenceEventView::ProgramChange { channel, program },
            ScoreTrackSequenceEvent::BankSelect {
                channel,
                value,
            } => ScoreTrackSequenceEventView::BankSelect { channel, value },
            ScoreTrackSequenceEvent::OctaveShift {
                channel,
                value,
            } => ScoreTrackSequenceEventView::OctaveShift { channel, value },
            ScoreTrackSequenceEvent::Modulation {
                channel,
                value,
            } => ScoreTrackSequenceEventView::Modulation { channel, value },
            ScoreTrackSequenceEvent::PitchBend {
                channel,
                value,
            } => ScoreTrackSequenceEventView::PitchBend { channel, value },
            ScoreTrackSequenceEvent::Volume {
                channel,
                value,
            } => ScoreTrackSequenceEventView::Volume { channel, value },
            ScoreTrackSequenceEvent::Pan { channel, value } => ScoreTrackSequenceEventView::Pan {
                channel,
                value,
            },
            ScoreTrackSequenceEvent::Expression {
                channel,
                value,
            } => ScoreTrackSequenceEventView::Expression { channel, value },
            ScoreTrackSequenceEvent::Exclusive(data) => ScoreTrackSequenceEventView::Exclusive(
                data@,
            ),
            ScoreTrackSequenceEvent::Nop => ScoreTrackSequenceEventView::Nop,
        }
    }
}

impl View for SequenceData {
    type V = SequenceDataView;

    open spec fn view(&self) -> SequenceDataView {
        SequenceDataView { duration: self.duration, event: self.event@ }
    }
}

impl<'a> View for WaveData<'a> {
    type V = WaveDataView;

    open spec fn view(&self) -> WaveDataView {
        WaveDataView {
            channel: self.channel,
            format: self.format,
            base_bit: self.base_bit,
            sampling_freq: self.sampling_freq,
            wave_data: self.wave_data@,
        }
    }
}

impl<'a> View for PCMDataChunk<'a> {
    type V = PCMDataChunkView;

    open spec fn view(&self) -> PCMDataChunkView {
        match *self {
            PCMDataChunk::WaveData(number, wave) => PCMDataChunkView::WaveData(number, wave@),
        }
    }
}

/// The entries of a score sequence.
pub open spec fn score_entries(sequence: Seq<SequenceData>) -> Seq<SequenceDataView> {
    sequence.map_values(|entry: SequenceData| entry@)
}

/// The entries of a wave table.
pub open spec fn wave_entries<'a>(waves: Seq<PCMDataChunk<'a>>) -> Seq<PCMDataChunkView> {
    waves.map_values(|entry: PCMDataChunk<'a>| entry@)
}

impl<'a> View for ScoreTrackChunk<'a> {
    type V = ScoreTrackChunkView;

    open spec fn view(&self) -> ScoreTrackChunkView {
        match *self {
            ScoreTrackChunk::SetupData(data) => ScoreTrackChunkView::SetupData(data@),
            ScoreTrackChunk::SequenceData(data) => ScoreTrackChunkView::SequenceData(
                score_entries(data@),
            ),
            ScoreTrackChunk::PCMData(data) => ScoreTrackChunkView::PCMData(wave_entries(data@)),
            ScoreTrackChunk::Other => ScoreTrackChunkView::Other,
        }
    }
}

impl<'a> View for ScoreTrack<'a> {
    type V = ScoreTrackView;

    open spec fn view(&self) -> ScoreTrackView {
        ScoreTrackView {
            format_type: self.format_type,
            timebase_d: self.timebase_d,
            timebase_g: self.timebase_g,
            channel_status: self.channel_status@,
            chunks: self.chunks@.map_values(|chunk: ScoreTrackChunk<'a>| chunk@),
        }
    }
}

impl<'a> View for PCMAudioTrackChunk<'a> {
    type V = PCMAudioTrackChunkView;

    open spec fn view(&self) -> PCMAudioTrackChunkView {
        match *self {
            PCMAudioTrackChunk::SequenceData(data) => PCMAudioTrackChunkView::SequenceData(data@),
            PCMAudioTrackChunk::WaveData(number, data) => PCMAudioTrackChunkView::WaveData(
                number,
                data@,
            ),
            PCMAudioTrackChunk::Other => PCMAudioTrackChunkView::Other,
        }
    }
}

impl<'a> View for PCMAudioTrack<'a> {
    type V = PCMAudioTrackView;

    open spec fn view(&self) -> PCMAudioTrackView {
        PCMAudioTrackView {
            channel: self.channel,
            format: self.format,
            sampling_freq: self.sampling_freq,
            base_bit: self.base_bit,
            timebase_d: self.timebase_d,
            timebase_g: self.timebase_g,
            chunks: self.chunks@.map_values(|chunk: PCMAudioTrackChunk<'a>| chunk@),
        }
    }
}

impl<'a> View for SmafChunk<'a> {
    type V = SmafChunkView;

    open spec fn view(&self) -> SmafChunkView {
        match *self {
            SmafChunk::ScoreTrack(track) => SmafChunkView::ScoreTrack(track@),
            SmafChunk::PCMAudioTrack(track) => SmafChunkView::PCMAudioTrack(track@),
            SmafChunk::SoftbankSequenceData(data) => SmafChunkView::SoftbankSequenceData(
                score_entries(data@),
            ),
            SmafChunk::Other => SmafChunkView::Other,
        }
    }
}

/// A file's chunks with their lists as sequences.
pub open spec fn chunk_views<'a>(chunks: Seq<SmafChunk<'a>>) -> Seq<SmafChunkView> {
    chunks.map_values(|chunk: SmafChunk<'a>| chunk@)
}

/// The number of interleaved channels of a layout.
pub open spec fn layout_channels(channel: Channel) -> u8 {
    match channel {
        Channel::Mono => 1,
        Channel::Stereo => 2,
    }
}

/// The number of interleaved channels of a layout.
pub fn channel_count(channel: Channel) -> (count: u8)
    ensures
        count == layout_channels(channel),
{
    match channel {
        Channel::Mono => 1,
        Channel::Stereo => 2,
    }
}

/// A mono layout has one channel, a stereo layout two.
pub proof fn law_layouts_count_their_channels(channel: Channel)
    ensures
        layout_channels(channel) == 1 <==> channel is Mono,
        layout_channels(channel) == 2 <==> channel is Stereo,
{
}

} // verus!
