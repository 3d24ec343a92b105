//! Reading a file: from its bytes, through the `smaf` crate, to the chunks that
//! playback works on.
//!
//! What `smaf` hands back is taken apart one level at a time.  A value of one of
//! its types has *contents*: the same value in the terms of
//! [`container`](crate::container).  The functions that take such a value apart
//! only move its fields; what they claim is that the parts they give are those of
//! the contents.
use crate::container::{
    chunk_views, score_entries, wave_entries, BaseBit, Channel, ChannelStatus, ChannelType,
    FormatType, PCMAudioSequenceData, PCMAudioSequenceEvent as PcmEvent, PCMAudioTrack,
    PCMAudioTrackChunk, PCMAudioTrackChunkView, PCMAudioTrackView, PCMDataChunk, PCMDataChunkView,
    PcmWaveFormat, ScoreTrack, ScoreTrackChunk, ScoreTrackChunkView, ScoreTrackSequenceEvent as Event,
    ScoreTrackSequenceEventView as EventView, ScoreTrackView, SequenceData, SequenceDataView,
    SmafChunk, SmafChunkView, StreamWaveFormat, WaveData, WaveDataView,
};
use crate::readable::{file_reading, Reading};
use smaf::{
    BaseBit as ParsedWidth, Channel as ParsedChannel, ChannelStatus as ParsedStatus,
    PCMAudioSequenceData as ParsedPcmEntry, PCMAudioSequenceEvent as ParsedPcmEvent,
    PCMAudioTrack as ParsedPcm, PCMAudioTrackChunk as ParsedPcmChunk, PCMDataChunk as ParsedWave,
    ScoreTrack as ParsedScore, ScoreTrackChunk as ParsedScoreChunk,
    ScoreTrackSequenceEvent as ParsedEvent, SequenceData as ParsedEntry, SmafChunk as ParsedChunk,
    StreamWaveFormat as ParsedWaveFormat,
};
use vstd::prelude::*;

verus! {

/// `smaf::SmafChunk`, a chunk of a file.
#[verifier::external_type_specification]
#[verifier::external_body]
pub struct ExParsedChunk<'a>(ParsedChunk<'a>);

/// `smaf::ScoreTrack`, a score track.
#[verifier::external_type_specification]
#[verifier::external_body]
pub struct ExParsedScore<'a>(ParsedScore<'a>);

/// `smaf::ChannelStatus`, a channel's entry in the header of a score track.
#[verifier::external_type_specification]
#[verifier::external_body]
pub struct ExParsedStatus(ParsedStatus);

/// `smaf::ScoreTrackChunk`, a chunk of a score track.
#[verifier::external_type_specification]
#[verifier::external_body]
pub struct ExParsedScoreChunk<'a>(ParsedScoreChunk<'a>);

/// `smaf::SequenceData`, an entry of a score sequence.
#[verifier::external_type_specification]
#[verifier::external_body]
pub struct ExParsedEntry(ParsedEntry);

/// `smaf::PCMDataChunk`, an entry of a wave table.
#[verifier::external_type_specification]
#[verifier::external_body]
pub struct ExParsedWave<'a>(ParsedWave<'a>);

/// `smaf::PCMAudioTrack`, a PCM audio track.
#[verifier::external_type_specification]
#[verifier::external_body]
pub struct ExParsedPcm<'a>(ParsedPcm<'a>);

/// `smaf::PCMAudioTrackChunk`, a chunk of a PCM audio track.
#[verifier::external_type_specification]
#[verifier::external_body]
pub struct ExParsedPcmChunk<'a>(ParsedPcmChunk<'a>);

/// `smaf::PCMAudioSequenceData`, an entry of a PCM audio sequence.
#[verifier::external_type_specification]
#[verifier::external_body]
pub struct ExParsedPcmEntry(ParsedPcmEntry);

/// `smaf::Channel`, a channel layout.
#[verifier::external_type_specification]
#[verifier::external_body]
pub struct ExParsedChannel(ParsedChannel);

/// `smaf::BaseBit`, a sample width.
#[verifier::external_type_specification]
#[verifier::external_body]
pub struct ExParsedWidth(ParsedWidth);

/// The contents of a file's chunk.
pub uninterp spec fn chunk_contents(chunk: ParsedChunk<'_>) -> SmafChunkView;

/// The contents of a score track.
pub uninterp spec fn score_contents(track: ParsedScore<'_>) -> ScoreTrackView;

/// The contents of a channel's header entry.
pub uninterp spec fn status_contents(status: ParsedStatus) -> ChannelStatus;

/// The contents of a score track's chunk.
pub uninterp spec fn score_chunk_contents(chunk: ParsedScoreChunk<'_>) -> ScoreTrackChunkView;

/// The contents of a score sequence's entry.
pub uninterp spec fn entry_contents(entry: ParsedEntry) -> SequenceDataView;

/// The contents of a wave table's entry.
pub uninterp spec fn wave_contents(entry: ParsedWave<'_>) -> PCMDataChunkView;

/// The contents of a PCM audio track.
pub uninterp spec fn pcm_contents(track: ParsedPcm<'_>) -> PCMAudioTrackView;

/// The contents of a PCM audio track's chunk.
pub uninterp spec fn pcm_chunk_contents(chunk: ParsedPcmChunk<'_>) -> PCMAudioTrackChunkView;

/// The contents of a PCM audio sequence's entry.
pub uninterp spec fn pcm_entry_contents(entry: ParsedPcmEntry) -> PCMAudioSequenceData;

/// The contents of a channel layout.
pub uninterp spec fn channel_contents(channel: ParsedChannel) -> Channel;

/// The contents of a sample width.
pub uninterp spec fn base_bit_contents(base_bit: ParsedWidth) -> BaseBit;

/// The chunks that `smaf::Smaf::parse` finds in a file that it reads.
pub uninterp spec fn parsed_chunks(raw: Seq<u8>) -> Seq<SmafChunkView>;

/// The contents of a list of chunks.
pub open spec fn chunk_list<'a>(chunks: Seq<ParsedChunk<'a>>) -> Seq<SmafChunkView> {
    chunks.map_values(|chunk: ParsedChunk<'a>| chunk_contents(chunk))
}

/// The contents of the header entries of a score track.
pub open spec fn status_list(statuses: Seq<ParsedStatus>) -> Seq<ChannelStatus> {
    statuses.map_values(|status: ParsedStatus| status_contents(status))
}

/// The contents of the chunks of a score track.
pub open spec fn score_chunk_list<'a>(chunks: Seq<ParsedScoreChunk<'a>>) -> Seq<
    ScoreTrackChunkView,
> {
    chunks.map_values(|chunk: ParsedScoreChunk<'a>| score_chunk_contents(chunk))
}

/// The contents of a score sequence.
pub open spec fn entry_list(entries: Seq<ParsedEntry>) -> Seq<SequenceDataView> {
    entries.map_values(|entry: ParsedEntry| entry_contents(entry))
}

/// The contents of a wave table.
pub open spec fn wave_list<'a>(entries: Seq<ParsedWave<'a>>) -> Seq<PCMDataChunkView> {
    entries.map_values(|entry: ParsedWave<'a>| wave_contents(entry))
}

/// The contents of the chunks of a PCM audio track.
pub open spec fn pcm_chunk_list<'a>(chunks: Seq<ParsedPcmChunk<'a>>) -> Seq<
    PCMAudioTrackChunkView,
> {
    chunks.map_values(|chunk: ParsedPcmChunk<'a>| pcm_chunk_contents(chunk))
}

/// The contents of a PCM audio sequence.
pub open spec fn pcm_entry_list(entries: Seq<ParsedPcmEntry>) -> Seq<
    PCMAudioSequenceData,
> {
    entries.map_values(|entry: ParsedPcmEntry| pcm_entry_contents(entry))
}

/// A file's chunk, one level taken apart.
enum ChunkParts<'b, 'a> {
    ScoreTrack(&'b ParsedScore<'a>),
    PCMAudioTrack(&'b ParsedPcm<'a>),
    SoftbankSequenceData(&'b [ParsedEntry]),
    Other,
}

/// A score track, one level taken apart.
struct ScoreParts<'b, 'a> {
    format_type: FormatType,
    timebase_d: u8,
    timebase_g: u8,
    channel_status: &'b [ParsedStatus],
    chunks: &'b [ParsedScoreChunk<'a>],
}

/// A score track's chunk, one level taken apart.
enum ScoreChunkParts<'b, 'a> {
    SetupData(&'a [u8]),
    SequenceData(&'b [ParsedEntry]),
    PCMData(&'b [ParsedWave<'a>]),
    Other,
}

/// A wave table's entry, one level taken apart.
struct WaveParts<'a> {
    number: u8,
    channel: ParsedChannel,
    format: StreamWaveFormat,
    base_bit: ParsedWidth,
    sampling_freq: u16,
    wave_data: &'a [u8],
}

/// A PCM audio track, one level taken apart.
struct PcmParts<'b, 'a> {
    channel: ParsedChannel,
    format: PcmWaveFormat,
    sampling_freq: u16,
    base_bit: ParsedWidth,
    timebase_d: u8,
    timebase_g: u8,
    chunks: &'b [ParsedPcmChunk<'a>],
}

/// A PCM audio track's chunk, one level taken apart.
enum PcmChunkParts<'b, 'a> {
    SequenceData(&'b [ParsedPcmEntry]),
    WaveData(u8, &'a [u8]),
    Other,
}

/// Calls `smaf::Smaf::parse` and hands its chunks on.
///
/// Claimed: on a file that it reads to an end, it succeeds exactly where the
/// walk of [`readable`](crate::readable) takes the whole file, and the chunks
/// depend on the bytes alone.
#[verifier::external_body]
fn parse_chunks<'a>(raw: &'a [u8]) -> (chunks: Option<Vec<ParsedChunk<'a>>>)
    requires
        file_reading(raw@) != Reading::Stuck,
    ensures
        chunks is Some <==> file_reading(raw@) == Reading::Whole,
        chunks matches Some(list) ==> chunk_list(list@) == parsed_chunks(raw@),
{
    match smaf::Smaf::parse(raw) {
        Ok(file) => Some(file.chunks),
        Err(_) => None,
    }
}

/// Takes a `smaf::SmafChunk` apart.
///
/// Claimed: a score track, a PCM audio track and a Softbank sequence come out as
/// what the variant holds; content information, optional data and unknown chunks
/// are the others.
#[verifier::external_body]
fn open_chunk<'b, 'a>(chunk: &'b ParsedChunk<'a>) -> (parts: ChunkParts<'b, 'a>)
    ensures
        chunk_contents(*chunk) == match parts {
            ChunkParts::ScoreTrack(track) => SmafChunkView::ScoreTrack(score_contents(*track)),
            ChunkParts::PCMAudioTrack(track) => SmafChunkView::PCMAudioTrack(pcm_contents(*track)),
            ChunkParts::SoftbankSequenceData(entries) => SmafChunkView::SoftbankSequenceData(
                entry_list(entries@),
            ),
            ChunkParts::Other => SmafChunkView::Other,
        },
{
    match chunk {
        ParsedChunk::ScoreTrack(_, track) => ChunkParts::ScoreTrack(track),
        ParsedChunk::PCMAudioTrack(_, track) => ChunkParts::PCMAudioTrack(track),
        ParsedChunk::SoftbankSequenceData(entries) => ChunkParts::SoftbankSequenceData(entries),
        ParsedChunk::ContentsInfo(_) => ChunkParts::Other,
        ParsedChunk::OptionalData(_) => ChunkParts::Other,
        ParsedChunk::Unknown(_, _) => ChunkParts::Other,
    }
}

/// Takes a `smaf::ScoreTrack` apart.
///
/// Claimed: the parts are its fields of the same names.
#[verifier::external_body]
fn open_score_track<'b, 'a>(track: &'b ParsedScore<'a>) -> (parts: ScoreParts<'b, 'a>)
    ensures
        score_contents(*track) == (ScoreTrackView {
            format_type: parts.format_type,
            timebase_d: parts.timebase_d,
            timebase_g: parts.timebase_g,
            channel_status: status_list(parts.channel_status@),
            chunks: score_chunk_list(parts.chunks@),
        }),
{
    ScoreParts {
        format_type: match track.format_type {
            smaf::FormatType::HandyPhoneStandard => FormatType::HandyPhoneStandard,
            smaf::FormatType::MobileStandardCompress => FormatType::MobileStandardCompress,
            smaf::FormatType::MobileStandardNoCompress => FormatType::MobileStandardNoCompress,
        },
        timebase_d: track.timebase_d,
        timebase_g: track.timebase_g,
        channel_status: &track.channel_status,
        chunks: &track.chunks,
    }
}

/// Takes a `smaf::ChannelStatus` apart.
///
/// Claimed: the result has its fields of the same names.
#[verifier::external_body]
fn open_status(status: &ParsedStatus) -> (contents: ChannelStatus)
    ensures
        contents == status_contents(*status),
{
    ChannelStatus {
        kcs: status.kcs,
        vs: status.vs,
        led: status.led,
        channel_type: match status.channel_type {
            smaf::ChannelType::NoCare => ChannelType::NoCare,
            smaf::ChannelType::Melody => ChannelType::Melody,
            smaf::ChannelType::NoMelody => ChannelType::NoMelody,
            smaf::ChannelType::Rhythm => ChannelType::Rhythm,
        },
    }
}

/// Takes a `smaf::ScoreTrackChunk` apart.
///
/// Claimed: setup data, sequence data and PCM data come out as what the variant
/// holds; seek and phrase information and unknown chunks are the others.
#[verifier::external_body]
fn open_score_chunk<'b, 'a>(chunk: &'b ParsedScoreChunk<'a>) -> (parts: ScoreChunkParts<
    'b,
    'a,
>)
    ensures
        score_chunk_contents(*chunk) == match parts {
            ScoreChunkParts::SetupData(data) => ScoreTrackChunkView::SetupData(data@),
            ScoreChunkParts::SequenceData(entries) => ScoreTrackChunkView::SequenceData(
                entry_list(entries@),
            ),
            ScoreChunkParts::PCMData(entries) => ScoreTrackChunkView::PCMData(wave_list(entries@)),
            ScoreChunkParts::Other => ScoreTrackChunkView::Other,
        },
{
    match chunk {
        ParsedScoreChunk::SetupData(data) => ScoreChunkParts::SetupData(data),
        ParsedScoreChunk::SequenceData(entries) => ScoreChunkParts::SequenceData(entries),
        ParsedScoreChunk::PCMData(entries) => ScoreChunkParts::PCMData(entries),
        ParsedScoreChunk::SeekAndPhraseInfo(_) => ScoreChunkParts::Other,
        ParsedScoreChunk::Unknown(_, _) => ScoreChunkParts::Other,
    }
}

/// The events that set one value of a channel.
pub open spec fn sets_channel(event: EventView) -> bool {
    event is BankSelect || event is OctaveShift || event is Modulation || event is PitchBend
        || event is Volume || event is Pan || event is Expression
}

/// Takes a `smaf::SequenceData` apart whose event sets one value of a channel.
///
/// Claimed: such an entry comes out with its fields of the same names; None
/// stands for the others.
#[verifier::external_body]
fn open_channel_entry(entry: &ParsedEntry) -> (contents: Option<SequenceData>)
    ensures
        contents is Some <==> sets_channel(entry_contents(*entry).event),
        contents matches Some(data) ==> data@ == entry_contents(*entry),
{
    let event = match entry.event {
        ParsedEvent::BankSelect { channel, value } => Event::BankSelect { channel, value },
        ParsedEvent::OctaveShift { channel, value } => Event::OctaveShift { channel, value },
        ParsedEvent::Modulation { channel, value } => Event::Modulation { channel, value },
        ParsedEvent::PitchBend { channel, value } => Event::PitchBend { channel, value },
        ParsedEvent::Volume { channel, value } => Event::Volume { channel, value },
        ParsedEvent::Pan { channel, value } => Event::Pan { channel, value },
        ParsedEvent::Expression { channel, value } => Event::Expression { channel, value },
        _ => return None,
    };
    Some(SequenceData { duration: entry.duration, event })
}

/// Takes any other `smaf::SequenceData` apart.
///
/// Claimed: an entry whose event is a note, a control or program change, an
/// exclusive message or nothing comes out with its fields of the same names; None
/// stands for those that set one value of a channel.
#[verifier::external_body]
fn open_other_entry(entry: &ParsedEntry) -> (contents: Option<SequenceData>)
    ensures
        contents is None <==> sets_channel(entry_contents(*entry).event),
        contents matches Some(data) ==> data@ == entry_contents(*entry),
{
    let event = match entry.event {
        ParsedEvent::NoteMessage { channel, note, velocity, gate_time } => {
            Event::NoteMessage { channel, note, velocity, gate_time }
        },
        ParsedEvent::ControlChange { channel, control, value } => {
            Event::ControlChange { channel, control, value }
        },
        ParsedEvent::ProgramChange { channel, program } => {
            Event::ProgramChange { channel, program }
        },
        ParsedEvent::Exclusive(ref data) => Event::Exclusive(data.clone()),
        ParsedEvent::Nop => Event::Nop,
        _ => return None,
    };
    Some(SequenceData { duration: entry.duration, event })
}

/// Takes a `smaf::PCMDataChunk` apart, with the `smaf::WaveData` in it.
///
/// Claimed: the parts are the entry's number and the wave's fields of the same
/// names.
#[verifier::external_body]
fn open_wave<'a>(entry: &ParsedWave<'a>) -> (parts: WaveParts<'a>)
    ensures
        wave_contents(*entry) == PCMDataChunkView::WaveData(
            parts.number,
            WaveDataView {
                channel: channel_contents(parts.channel),
                format: parts.format,
                base_bit: base_bit_contents(parts.base_bit),
                sampling_freq: parts.sampling_freq,
                wave_data: parts.wave_data@,
            },
        ),
{
    let ParsedWave::WaveData(number, wave) = entry;
    WaveParts {
        number: *number,
        channel: wave.channel,
        format: match wave.format {
            ParsedWaveFormat::TwosComplementPCM => StreamWaveFormat::TwosComplementPCM,
            ParsedWaveFormat::OffsetBinaryPCM => StreamWaveFormat::OffsetBinaryPCM,
            ParsedWaveFormat::YamahaADPCM => StreamWaveFormat::YamahaADPCM,
        },
        base_bit: wave.base_bit,
        sampling_freq: wave.sampling_freq,
        wave_data: wave.wave_data,
    }
}

/// Takes a `smaf::PCMAudioTrack` apart.
///
/// Claimed: the parts are its fields of the same names.
#[verifier::external_body]
fn open_pcm_track<'b, 'a>(track: &'b ParsedPcm<'a>) -> (parts: PcmParts<'b, 'a>)
    ensures
        pcm_contents(*track) == (PCMAudioTrackView {
            channel: channel_contents(parts.channel),
            format: parts.format,
            sampling_freq: parts.sampling_freq,
            base_bit: base_bit_contents(parts.base_bit),
            timebase_d: parts.timebase_d,
            timebase_g: parts.timebase_g,
            chunks: pcm_chunk_list(parts.chunks@),
        }),
{
    let format = match track.format {
        smaf::PcmWaveFormat::TwosComplementPCM => PcmWaveFormat::TwosComplementPCM,
        smaf::PcmWaveFormat::Adpcm => PcmWaveFormat::Adpcm,
        smaf::PcmWaveFormat::TwinVQ => PcmWaveFormat::TwinVQ,
        smaf::PcmWaveFormat::MP3 => PcmWaveFormat::MP3,
    };
    let (channel, base_bit) = (track.channel, track.base_bit);
    let (timebase_d, timebase_g) = (track.timebase_d, track.timebase_g);
    let (sampling_freq, chunks) = (track.sampling_freq, &track.chunks);
    PcmParts { channel, format, sampling_freq, base_bit, timebase_d, timebase_g, chunks }
}

/// Takes a `smaf::PCMAudioTrackChunk` apart.
///
/// Claimed: sequence data and wave data come out as what the variant holds; seek
/// and phrase information, setup data and unknown chunks are the others.
#[verifier::external_body]
fn open_pcm_chunk<'b, 'a>(chunk: &'b ParsedPcmChunk<'a>) -> (parts: PcmChunkParts<
    'b,
    'a,
>)
    ensures
        pcm_chunk_contents(*chunk) == match parts {
            PcmChunkParts::SequenceData(entries) => PCMAudioTrackChunkView::SequenceData(
                pcm_entry_list(entries@),
            ),
            PcmChunkParts::WaveData(number, data) => PCMAudioTrackChunkView::WaveData(
                number,
                data@,
            ),
            PcmChunkParts::Other => PCMAudioTrackChunkView::Other,
        },
{
    match chunk {
        ParsedPcmChunk::SequenceData(entries) => PcmChunkParts::SequenceData(entries),
        ParsedPcmChunk::WaveData(number, data) => PcmChunkParts::WaveData(*number, data),
        ParsedPcmChunk::SeekAndPhraseInfo(_) => PcmChunkParts::Other,
        ParsedPcmChunk::SetupData(_) => PcmChunkParts::Other,
        ParsedPcmChunk::Unknown(_, _) => PcmChunkParts::Other,
    }
}

/// Takes a `smaf::PCMAudioSequenceData` apart.
///
/// Claimed: the result has its fields of the same names, but for the bytes of an
/// exclusive message, which playback does not read.
#[verifier::external_body]
fn open_pcm_entry(entry: &ParsedPcmEntry) -> (contents: PCMAudioSequenceData)
    ensures
        contents == pcm_entry_contents(*entry),
{
    let event = match entry.event {
        ParsedPcmEvent::WaveMessage { channel, wave_number, gate_time } => {
            PcmEvent::WaveMessage { channel, wave_number, gate_time }
        },
        ParsedPcmEvent::PitchBend { channel, value } => PcmEvent::PitchBend { channel, value },
        ParsedPcmEvent::Volume { channel, value } => PcmEvent::Volume { channel, value },
        ParsedPcmEvent::Pan { channel, value } => PcmEvent::Pan { channel, value },
        ParsedPcmEvent::Expression { channel, value } => PcmEvent::Expression { channel, value },
        ParsedPcmEvent::Exclusive(_) => PcmEvent::Exclusive,
        ParsedPcmEvent::Nop => PcmEvent::Nop,
    };
    PCMAudioSequenceData { duration: entry.duration, event }
}

/// Takes a `smaf::Channel` over.
///
/// Claimed: the result is the variant of the same name.
#[verifier::external_body]
fn open_channel(channel: ParsedChannel) -> (contents: Channel)
    ensures
        contents == channel_contents(channel),
{
    match channel {
        ParsedChannel::Mono => Channel::Mono,
        ParsedChannel::Stereo => Channel::Stereo,
    }
}

/// Takes a `smaf::BaseBit` over.
///
/// Claimed: the result is the variant of the same name.
#[verifier::external_body]
fn open_base_bit(base_bit: ParsedWidth) -> (contents: BaseBit)
    ensures
        contents == base_bit_contents(base_bit),
{
    match base_bit {
        ParsedWidth::Bit4 => BaseBit::Bit4,
        ParsedWidth::Bit8 => BaseBit::Bit8,
        ParsedWidth::Bit12 => BaseBit::Bit12,
        ParsedWidth::Bit16 => BaseBit::Bit16,
    }
}

fn convert_entry(entry: &ParsedEntry) -> (data: SequenceData)
    ensures
        data@ == entry_contents(*entry),
{
    match open_channel_entry(entry) {
        Some(data) => data,
        None => open_other_entry(entry).unwrap(),
    }
}

fn convert_entries(list: &[ParsedEntry]) -> (entries: Vec<SequenceData>)
    ensures
        score_entries(entries@) == entry_list(list@),
{
    let mut entries: Vec<SequenceData> = Vec::new();
    let mut i: usize = 0;
    while i < list.len()
        invariant
            i <= list.len(),
            entries.len() == i,
            forall|k: int| 0 <= k < i ==> #[trigger] entries@[k]@ == entry_contents(list@[k]),
        decreases list.len() - i,
    {
        entries.push(convert_entry(&list[i]));
        i += 1;
    }
    assert(score_entries(entries@) =~= entry_list(list@));
    entries
}

fn convert_statuses(list: &[ParsedStatus]) -> (statuses: Vec<ChannelStatus>)
    ensures
        statuses@ == status_list(list@),
{
    let mut statuses: Vec<ChannelStatus> = Vec::new();
    let mut i: usize = 0;
    while i < list.len()
        invariant
            i <= list.len(),
            statuses.len() == i,
            forall|k: int| 0 <= k < i ==> #[trigger] statuses@[k] == status_contents(list@[k]),
        decreases list.len() - i,
    {
        statuses.push(open_status(&list[i]));
        i += 1;
    }
    assert(statuses@ =~= status_list(list@));
    statuses
}

fn convert_wave<'a>(entry: &ParsedWave<'a>) -> (wave: PCMDataChunk<'a>)
    ensures
        wave@ == wave_contents(*entry),
{
    let parts = open_wave(entry);
    PCMDataChunk::WaveData(
        parts.number,
        WaveData {
            channel: open_channel(parts.channel),
            format: parts.format,
            base_bit: open_base_bit(parts.base_bit),
            sampling_freq: parts.sampling_freq,
            wave_data: parts.wave_data,
        },
    )
}

fn convert_waves<'a>(list: &[ParsedWave<'a>]) -> (waves: Vec<PCMDataChunk<'a>>)
    ensures
        wave_entries(waves@) == wave_list(list@),
{
    let mut waves: Vec<PCMDataChunk<'a>> = Vec::new();
    let mut i: usize = 0;
    while i < list.len()
        invariant
            i <= list.len(),
            waves.len() == i,
            forall|k: int| 0 <= k < i ==> #[trigger] waves@[k]@ == wave_contents(list@[k]),
        decreases list.len() - i,
    {
        waves.push(convert_wave(&list[i]));
        i += 1;
    }
    assert(wave_entries(waves@) =~= wave_list(list@));
    waves
}

fn convert_score_chunk<'a>(chunk: &ParsedScoreChunk<'a>) -> (converted: ScoreTrackChunk<'a>)
    ensures
        converted@ == score_chunk_contents(*chunk),
{
    match open_score_chunk(chunk) {
        ScoreChunkParts::SetupData(data) => ScoreTrackChunk::SetupData(data),
        ScoreChunkParts::SequenceData(entries) => ScoreTrackChunk::SequenceData(
            convert_entries(entries),
        ),
        ScoreChunkParts::PCMData(entries) => ScoreTrackChunk::PCMData(convert_waves(entries)),
        ScoreChunkParts::Other => ScoreTrackChunk::Other,
    }
}

fn convert_score_track<'a>(track: &ParsedScore<'a>) -> (converted: ScoreTrack<'a>)
    ensures
        converted@ == score_contents(*track),
{
    let parts = open_score_track(track);
    let mut chunks: Vec<ScoreTrackChunk<'a>> = Vec::new();
    let mut i: usize = 0;
    while i < parts.chunks.len()
        invariant
            i <= parts.chunks.len(),
            chunks.len() == i,
            forall|k: int|
                0 <= k < i ==> #[trigger] chunks@[k]@ == score_chunk_contents(parts.chunks@[k]),
        decreases parts.chunks.len() - i,
    {
        chunks.push(convert_score_chunk(&parts.chunks[i]));
        i += 1;
    }
    let converted = ScoreTrack {
        format_type: parts.format_type,
        timebase_d: parts.timebase_d,
        timebase_g: parts.timebase_g,
        channel_status: convert_statuses(parts.channel_status),
        chunks,
    };
    assert(converted@.chunks =~= score_chunk_list(parts.chunks@));
    converted
}

fn convert_pcm_entries(list: &[ParsedPcmEntry]) -> (entries: Vec<PCMAudioSequenceData>)
    ensures
        entries@ == pcm_entry_list(list@),
{
    let mut entries: Vec<PCMAudioSequenceData> = Vec::new();
    let mut i: usize = 0;
    while i < list.len()
        invariant
            i <= list.len(),
            entries.len() == i,
            forall|k: int| 0 <= k < i ==> #[trigger] entries@[k] == pcm_entry_contents(list@[k]),
        decreases list.len() - i,
    {
        entries.push(open_pcm_entry(&list[i]));
        i += 1;
    }
    assert(entries@ =~= pcm_entry_list(list@));
    entries
}

fn convert_pcm_chunk<'a>(chunk: &ParsedPcmChunk<'a>) -> (converted: PCMAudioTrackChunk<'a>)
    ensures
        converted@ == pcm_chunk_contents(*chunk),
{
    match open_pcm_chunk(chunk) {
        PcmChunkParts::SequenceData(entries) => PCMAudioTrackChunk::SequenceData(
            convert_pcm_entries(entries),
        ),
        PcmChunkParts::WaveData(number, data) => PCMAudioTrackChunk::WaveData(number, data),
        PcmChunkParts::Other => PCMAudioTrackChunk::Other,
    }
}

fn convert_pcm_track<'a>(track: &ParsedPcm<'a>) -> (converted: PCMAudioTrack<'a>)
    ensures
        converted@ == pcm_contents(*track),
{
    let parts = open_pcm_track(track);
    let mut chunks: Vec<PCMAudioTrackChunk<'a>> = Vec::new();
    let mut i: usize = 0;
    while i < parts.chunks.len()
        invariant
            i <= parts.chunks.len(),
            chunks.len() == i,
            forall|k: int|
                0 <= k < i ==> #[trigger] chunks@[k]@ == pcm_chunk_contents(parts.chunks@[k]),
        decreases parts.chunks.len() - i,
    {
        chunks.push(convert_pcm_chunk(&parts.chunks[i]));
        i += 1;
    }
    let converted = PCMAudioTrack {
        channel: open_channel(parts.channel),
        format: parts.format,
        sampling_freq: parts.sampling_freq,
        base_bit: open_base_bit(parts.base_bit),
        timebase_d: parts.timebase_d,
        timebase_g: parts.timebase_g,
        chunks,
    };
    assert(converted@.chunks =~= pcm_chunk_list(parts.chunks@));
    converted
}

fn convert_chunk<'a>(chunk: &ParsedChunk<'a>) -> (converted: SmafChunk<'a>)
    ensures
        converted@ == chunk_contents(*chunk),
{
    match open_chunk(chunk) {
        ChunkParts::ScoreTrack(track) => SmafChunk::ScoreTrack(convert_score_track(track)),
        ChunkParts::PCMAudioTrack(track) => SmafChunk::PCMAudioTrack(convert_pcm_track(track)),
        ChunkParts::SoftbankSequenceData(entries) => SmafChunk::SoftbankSequenceData(
            convert_entries(entries),
        ),
        ChunkParts::Other => SmafChunk::Other,
    }
}

/// Reads a file's chunks; none where the bytes are no SMAF file.
///
/// The bytes must be such that the reader comes to an end on them, which
/// [`read_through`](crate::readable::read_through) tells.
pub fn read_chunks<'a>(raw: &'a [u8]) -> (chunks: Option<Vec<SmafChunk<'a>>>)
    requires
        file_reading(raw@) != Reading::Stuck,
    ensures
        chunks is Some <==> file_reading(raw@) == Reading::Whole,
        chunks matches Some(list) ==> chunk_views(list@) == parsed_chunks(raw@),
{
    let list = match parse_chunks(raw) {
        Some(list) => list,
        None => return None,
    };
    let mut chunks: Vec<SmafChunk<'a>> = Vec::new();
    let mut i: usize = 0;
    while i < list.len()
        invariant
            i <= list.len(),
            chunks.len() == i,
            forall|k: int| 0 <= k < i ==> #[trigger] chunks@[k]@ == chunk_contents(list@[k]),
        decreases list.len() - i,
    {
        chunks.push(convert_chunk(&list[i]));
        i += 1;
    }
    assert(chunk_views(chunks@) =~= chunk_list(list@));
    Some(chunks)
}

} // verus!
