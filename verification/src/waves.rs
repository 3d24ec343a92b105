//! Sampled waves: decoding, gating and duration.
use crate::adpcm::{
    decode_yamaha_adpcm, decoded_adpcm, law_longer_block_extends,
    law_mono_samples_follow_their_nibbles,
};
use crate::container::{
    channel_count, layout_channels, wave_entries, BaseBit, PCMAudioTrack, PCMAudioTrackView,
    PCMDataChunk, PCMDataChunkView, PcmWaveFormat, StreamWaveFormat, WaveData, WaveDataView,
};
use crate::pcm::{
    decode_pcm, decoded_pcm, law_eight_bit_samples_are_bytes, law_four_bit_samples_are_halves,
    law_sample_counts, law_sixteen_bit_samples_are_two_bytes, law_twelve_bit_samples_share_a_byte,
    PcmEncoding,
};
use vstd::prelude::*;

verus! {

/// A non-negative number, capped at the largest `usize`.
pub open spec fn capped(value: int) -> nat {
    if value > usize::MAX {
        usize::MAX as nat
    } else {
        value as nat
    }
}

/// A non-negative number, capped at the largest `u64`.
pub open spec fn capped_u64(value: int) -> int {
    if value > u64::MAX {
        u64::MAX as int
    } else {
        value
    }
}

/// The product, capped at the largest `usize`.
pub fn capped_product(a: usize, b: usize) -> (product: usize)
    ensures
        product == capped(a * b),
        a * b <= usize::MAX ==> product == a * b,
        a * b > usize::MAX ==> product == usize::MAX,
{
    match a.checked_mul(b) {
        Some(product) => product,
        None => usize::MAX,
    }
}

fn capped_product_u64(a: u64, b: u64) -> (product: u64)
    ensures
        product == capped_u64(a * b),
{
    match a.checked_mul(b) {
        Some(product) => product,
        None => u64::MAX,
    }
}

/// The number of samples that fit into `gate_time` units of
/// `timebase_g` milliseconds.
pub open spec fn gate_samples(
    channels: u8,
    sampling_rate: u32,
    gate_time: u32,
    timebase_g: u8,
) -> nat {
    if channels == 0 || gate_time == 0 {
        0
    } else {
        let frames = capped_u64(gate_time * timebase_g * sampling_rate) / 1000;
        capped(capped_u64(frames * channels))
    }
}

/// The samples of a wave that sound within its gate time.
pub open spec fn gated(
    samples: Seq<i16>,
    channels: u8,
    sampling_rate: u32,
    gate_time: u32,
    timebase_g: u8,
) -> Seq<i16> {
    let limit = gate_samples(channels, sampling_rate, gate_time, timebase_g);
    if samples.len() > limit {
        samples.take(limit as int)
    } else {
        samples
    }
}

/// Cuts decoded samples when its gate time ends.
pub fn trim_to_gate(
    data: &mut Vec<i16>,
    channels: u8,
    sampling_rate: u32,
    gate_time: u32,
    timebase_g: u8,
)
    ensures
        final(data)@ == gated(old(data)@, channels, sampling_rate, gate_time, timebase_g),
{
    if channels == 0 || gate_time == 0 {
        data.clear();
        assert(data@ =~= gated(old(data)@, channels, sampling_rate, gate_time, timebase_g));
        return;
    }
    assert(gate_time * timebase_g <= 0xffff_ffff * 0xff) by (nonlinear_arith)
        requires
            gate_time <= 0xffff_ffff,
            timebase_g <= 0xff,
    ;
    let gate_ms = gate_time as u64 * timebase_g as u64;
    let max_frames = capped_product_u64(gate_ms, sampling_rate as u64) / 1000;
    let product = capped_product_u64(max_frames, channels as u64);
    let max_samples: usize = if product > usize::MAX as u64 {
        usize::MAX
    } else {
        product as usize
    };
    if data.len() > max_samples {
        data.truncate(max_samples);
    }
}

/// Milliseconds that `samples` interleaved samples last, rounded up.
pub open spec fn duration_ms(samples: int, channels: u8, sampling_rate: u32) -> nat {
    if channels == 0 || sampling_rate == 0 {
        0
    } else {
        capped(capped((samples / channels as int) * 1000) + sampling_rate - 1)
            / sampling_rate as nat
    }
}

/// Milliseconds that decoded samples last, rounded up.
pub fn decoded_duration_ms(samples: usize, channels: u8, sampling_rate: u32) -> (duration: usize)
    ensures
        duration == duration_ms(samples as int, channels, sampling_rate),
{
    if channels == 0 || sampling_rate == 0 {
        return 0;
    }
    let frames = samples / channels as usize;
    let rate = sampling_rate as usize;
    capped_product(frames, 1000).saturating_add(rate - 1) / rate
}

/// What a wave of a score track decodes to.  None for an ADPCM wave whose
/// samples are not four bits wide.
pub open spec fn decoded_stream_wave(wave: WaveDataView) -> Option<Seq<i16>> {
    let channels = layout_channels(wave.channel);
    match wave.format {
        StreamWaveFormat::YamahaADPCM => if wave.base_bit != BaseBit::Bit4 {
            None
        } else {
            decoded_adpcm(wave.wave_data, channels)
        },
        StreamWaveFormat::TwosComplementPCM => decoded_pcm(
            wave.wave_data,
            wave.base_bit,
            PcmEncoding::TwosComplement,
            channels,
        ),
        StreamWaveFormat::OffsetBinaryPCM => decoded_pcm(
            wave.wave_data,
            wave.base_bit,
            PcmEncoding::OffsetBinary,
            channels,
        ),
    }
}

/// Decodes a wave of a score track.
pub fn decode_stream_wave(wave: &WaveData<'_>) -> (samples: Option<Vec<i16>>)
    ensures
        samples is Some <==> decoded_stream_wave(wave@) is Some,
        samples matches Some(decoded) ==> decoded_stream_wave(wave@) == Some(decoded@),
{
    let channels = channel_count(wave.channel);
    match wave.format {
        StreamWaveFormat::YamahaADPCM => {
            if wave.base_bit != BaseBit::Bit4 {
                return None;
            }
            decode_yamaha_adpcm(wave.wave_data, channels)
        },
        StreamWaveFormat::TwosComplementPCM => decode_pcm(
            wave.wave_data,
            wave.base_bit,
            PcmEncoding::TwosComplement,
            channels,
        ),
        StreamWaveFormat::OffsetBinaryPCM => decode_pcm(
            wave.wave_data,
            wave.base_bit,
            PcmEncoding::OffsetBinary,
            channels,
        ),
    }
}

/// What a wave of a PCM audio track decodes to.  None for ADPCM whose samples
/// are not four bits wide, and for TwinVQ and MP3.
pub open spec fn decoded_track_wave(track: PCMAudioTrackView, data: Seq<u8>) -> Option<Seq<i16>> {
    let channels = layout_channels(track.channel);
    match track.format {
        PcmWaveFormat::TwosComplementPCM => decoded_pcm(
            data,
            track.base_bit,
            PcmEncoding::TwosComplement,
            channels,
        ),
        PcmWaveFormat::Adpcm => if track.base_bit != BaseBit::Bit4 {
            None
        } else {
            decoded_adpcm(data, channels)
        },
        PcmWaveFormat::TwinVQ => None,
        PcmWaveFormat::MP3 => None,
    }
}

/// Decodes a wave of a PCM audio track.
pub fn decode_pcm_audio_track_wave(track: &PCMAudioTrack<'_>, data: &[u8]) -> (samples: Option<
    Vec<i16>,
>)
    ensures
        samples is Some <==> decoded_track_wave(track@, data@) is Some,
        samples matches Some(decoded) ==> decoded_track_wave(track@, data@) == Some(decoded@),
{
    let channels = channel_count(track.channel);
    match track.format {
        PcmWaveFormat::TwosComplementPCM => decode_pcm(
            data,
            track.base_bit,
            PcmEncoding::TwosComplement,
            channels,
        ),
        PcmWaveFormat::Adpcm => {
            if track.base_bit != BaseBit::Bit4 {
                return None;
            }
            decode_yamaha_adpcm(data, channels)
        },
        PcmWaveFormat::TwinVQ | PcmWaveFormat::MP3 => None,
    }
}

/// The first wave numbered `number` in a score track's wave table, looked for
/// from `from` on.
pub open spec fn wave_numbered(
    waves: Seq<PCMDataChunkView>,
    number: u8,
    from: int,
) -> Option<WaveDataView>
    decreases waves.len() - from,
{
    if from < 0 || from >= waves.len() {
        None
    } else {
        match waves[from] {
            PCMDataChunkView::WaveData(entry, wave) => if entry == number {
                Some(wave)
            } else {
                wave_numbered(waves, number, from + 1)
            },
        }
    }
}

/// Finds a wave in a score track's wave table.
pub fn find_wave<'a>(waves: &[PCMDataChunk<'a>], number: u8) -> (wave: Option<WaveData<'a>>)
    ensures
        match wave_numbered(wave_entries(waves@), number, 0) {
            None => wave is None,
            Some(found) => wave is Some && wave.unwrap()@ == found,
        },
{
    let ghost views = wave_entries(waves@);
    let mut i: usize = 0;
    while i < waves.len()
        invariant
            i <= waves.len(),
            views == wave_entries(waves@),
            wave_numbered(views, number, 0) == wave_numbered(views, number, i as int),
        decreases waves.len() - i,
    {
        assert(views[i as int] == waves@[i as int]@);
        match waves[i] {
            PCMDataChunk::WaveData(entry, wave) => {
                if entry == number {
                    return Some(wave);
                }
            },
        }
        i += 1;
    }
    None
}

/// Cutting a wave at its gate time leaves its start, all of it where it fits.
pub proof fn law_gated_waves_keep_their_start(
    samples: Seq<i16>,
    channels: u8,
    sampling_rate: u32,
    gate_time: u32,
    timebase_g: u8,
)
    ensures
        ({
            let kept = gated(samples, channels, sampling_rate, gate_time, timebase_g);
            let limit = gate_samples(channels, sampling_rate, gate_time, timebase_g);
            &&& kept.len() == (if samples.len() > limit { limit } else { samples.len() })
            &&& kept == samples.take(kept.len() as int)
        }),
{
    assert(samples =~= samples.take(samples.len() as int));
}

/// No wave outlasts its gate time.
pub proof fn law_no_wave_outlasts_its_gate_time(
    samples: Seq<i16>,
    channels: u8,
    sampling_rate: u32,
    gate_time: u32,
    timebase_g: u8,
)
    ensures
        duration_ms(
            gated(samples, channels, sampling_rate, gate_time, timebase_g).len() as int,
            channels,
            sampling_rate,
        ) <= gate_time * timebase_g,
{
    law_gated_waves_keep_their_start(samples, channels, sampling_rate, gate_time, timebase_g);
    let kept = gated(samples, channels, sampling_rate, gate_time, timebase_g).len() as int;
    let gate_ms = gate_time * timebase_g;
    let rate = sampling_rate as int;
    assert(gate_ms >= 0) by (nonlinear_arith)
        requires
            gate_ms == gate_time * timebase_g,
    ;
    if channels != 0 && rate != 0 && gate_time != 0 {
        let played = capped_u64(gate_time * timebase_g * sampling_rate);
        let max_frames = played / 1000;
        assert(0 <= played <= gate_ms * rate) by (nonlinear_arith)
            requires
                played == capped_u64(gate_time * timebase_g * sampling_rate),
                gate_ms == gate_time * timebase_g,
                rate == sampling_rate,
                gate_ms >= 0,
                rate > 0,
        ;
        assert(kept <= max_frames * channels);
        let frames = kept / channels as int;
        assert(frames <= max_frames) by (nonlinear_arith)
            requires
                kept <= max_frames * channels,
                channels > 0,
                frames == kept / channels as int,
        ;
        assert(0 <= frames) by (nonlinear_arith)
            requires
                kept >= 0,
                channels > 0,
                frames == kept / channels as int,
        ;
        let rounded = capped(capped(frames * 1000) + rate - 1) as int;
        assert(rounded <= gate_ms * rate + rate - 1);
        assert(rounded / rate <= gate_ms) by (nonlinear_arith)
            requires
                0 <= rounded <= gate_ms * rate + rate - 1,
                rate > 0,
        ;
    } else if channels != 0 && rate != 0 {
        assert(kept == 0);
        assert(0int / (channels as int) == 0) by (nonlinear_arith)
            requires
                channels > 0,
        ;
        assert((rate - 1) / rate == 0) by (nonlinear_arith)
            requires
                rate > 0,
        ;
    }
}

/// A wave is cut at its gate time and not before: it keeps whole frames, none where that
/// or the number of channels is zero, and where it loses any, one frame more would sound
/// past it.
pub proof fn law_waves_fill_their_gate_time(
    samples: Seq<i16>,
    channels: u8,
    sampling_rate: u32,
    gate_time: u32,
    timebase_g: u8,
)
    requires
        channels > 0,
        gate_time * timebase_g * sampling_rate * channels <= usize::MAX,
    ensures
        ({
            let kept = gated(samples, channels, sampling_rate, gate_time, timebase_g);
            let limit = gate_time * timebase_g * sampling_rate;
            &&& kept == samples.take(kept.len() as int)
            &&& kept.len() < samples.len() ==> {
                &&& kept.len() % channels as nat == 0
                &&& 1000 * (kept.len() / channels as nat) <= limit < 1000 * (kept.len()
                    / channels as nat + 1)
            }
            &&& gate_time == 0 ==> kept.len() == 0
        }),
{
    law_gated_waves_keep_their_start(samples, channels, sampling_rate, gate_time, timebase_g);
    let limit = gate_time * timebase_g * sampling_rate;
    assert(0 <= limit <= limit * channels) by (nonlinear_arith)
        requires
            channels > 0,
            limit == gate_time * timebase_g * sampling_rate,
    ;
    if gate_time > 0 {
        let frames = limit / 1000;
        assert(0 <= frames * channels <= limit * channels) by (nonlinear_arith)
            requires
                0 <= frames <= limit,
                channels > 0,
        ;
        assert((frames * channels) / channels as int == frames) by (nonlinear_arith)
            requires
                channels > 0,
        ;
        assert((frames * channels) % channels as int == 0) by (nonlinear_arith)
            requires
                channels > 0,
        ;
    } else {
        assert(limit == 0) by (nonlinear_arith)
            requires
                limit == gate_time * timebase_g * sampling_rate,
                gate_time == 0,
        ;
        assert(0nat / channels as nat == 0 && 0nat % channels as nat == 0) by (nonlinear_arith)
            requires
                channels > 0,
        ;
    }
}

/// A wave of a layout without channels or of gate time zero keeps nothing.
pub proof fn law_closed_gates_keep_nothing(
    samples: Seq<i16>,
    channels: u8,
    sampling_rate: u32,
    gate_time: u32,
    timebase_g: u8,
)
    requires
        channels == 0 || gate_time == 0,
    ensures
        gated(samples, channels, sampling_rate, gate_time, timebase_g) == Seq::<i16>::empty(),
{
    assert(samples.len() == 0 ==> samples =~= Seq::<i16>::empty());
    assert(samples.take(0) =~= Seq::<i16>::empty());
}

/// The milliseconds of a wave are the fewest in which its frames sound at its rate;
/// without channels or a rate it has none.
pub proof fn law_durations_are_rounded_up(samples: nat, channels: u8, sampling_rate: u32)
    requires
        samples * 1000 + sampling_rate <= usize::MAX,
    ensures
        channels == 0 || sampling_rate == 0 ==> duration_ms(
            samples as int,
            channels,
            sampling_rate,
        ) == 0,
        channels > 0 && sampling_rate > 0 ==> ({
            let frames = samples / channels as nat;
            let duration = duration_ms(samples as int, channels, sampling_rate);
            (duration - 1) * sampling_rate < 1000 * frames <= duration * sampling_rate
        }),
{
    if channels > 0 && sampling_rate > 0 {
        let rate = sampling_rate as int;
        let frames = samples as int / channels as int;
        assert(0 <= frames <= samples) by (nonlinear_arith)
            requires
                channels > 0,
                samples >= 0,
                frames == samples as int / channels as int,
        ;
        let rounded = frames * 1000 + rate - 1;
        let duration = rounded / rate;
        vstd::arithmetic::div_mod::lemma_fundamental_div_mod(rounded, rate);
        assert((duration - 1) * rate == rate * duration - rate) by (nonlinear_arith);
        assert(duration * rate == rate * duration) by (nonlinear_arith);
        assert(duration >= 0) by (nonlinear_arith)
            requires
                rounded >= 0,
                rate > 0,
                duration == rounded / rate,
        ;
    }
}

/// Whether a sample is what a byte stands for in two's complement.
pub open spec fn is_signed_byte(sample: i16, byte: u8) -> bool {
    sample == 256 * byte || sample == 256 * byte - 65536
}

/// A wave of a score track is decoded by its encoding: ADPCM of four bits to two
/// samples a byte, the low half first in mono, and not at all at another width; linear
/// samples of eight bits to the bytes themselves, in two's complement or with the top
/// bit the other way round.
pub proof fn law_stream_waves_follow_their_encoding(wave: WaveDataView, i: int)
    requires
        wave.wave_data.len() * 8 <= usize::MAX,
    ensures
        wave.format is YamahaADPCM && !(wave.base_bit is Bit4) ==> decoded_stream_wave(
            wave,
        ) is None,
        wave.format is YamahaADPCM && wave.base_bit is Bit4 ==> (decoded_stream_wave(
            wave,
        ) matches Some(samples) && samples.len() == 2 * wave.wave_data.len() && (
        wave.wave_data.len() > 0 && wave.channel is Mono ==> (wave.wave_data[0] % 16 < 8
            <==> samples[0] >= 0))),
        !(wave.format is YamahaADPCM) ==> decoded_stream_wave(wave) is Some,
        !(wave.format is YamahaADPCM) && wave.base_bit is Bit8 && 0 <= i
            < decoded_stream_wave(wave).unwrap().len() ==> ({
            let sample = decoded_stream_wave(wave).unwrap()[i];
            let byte = wave.wave_data[i];
            &&& wave.format is TwosComplementPCM ==> is_signed_byte(sample, byte)
            &&& wave.format is OffsetBinaryPCM ==> sample == 256 * (byte - 128)
        }),
        !(wave.format is YamahaADPCM) ==> ({
            let length = decoded_stream_wave(wave).unwrap().len();
            let bytes = wave.wave_data.len();
            &&& wave.channel is Mono && wave.base_bit is Bit8 ==> length == bytes
            &&& wave.channel is Stereo && wave.base_bit is Bit8 ==> length == bytes - bytes % 2
            &&& wave.base_bit is Bit4 ==> length == 2 * bytes
            &&& wave.channel is Mono && wave.base_bit is Bit16 ==> length == bytes / 2
        }),
{
    let data = wave.wave_data;
    let channels = layout_channels(wave.channel);
    law_longer_block_extends(data, Seq::empty(), channels);
    if data.len() > 0 {
        law_mono_samples_follow_their_nibbles(data, 0);
    }
    let encoding = if wave.format is OffsetBinaryPCM {
        PcmEncoding::OffsetBinary
    } else {
        PcmEncoding::TwosComplement
    };
    law_sample_counts(data, encoding, channels);
    if !(wave.format is YamahaADPCM) && wave.base_bit is Bit8 && 0 <= i < decoded_pcm(
        data,
        BaseBit::Bit8,
        encoding,
        channels,
    ).unwrap().len() {
        law_eight_bit_samples_are_bytes(data, encoding, channels, i);
    }
}

/// The two linear encodings of a score track's waves differ by half the range of a
/// sample, at any width.
pub proof fn law_linear_encodings_are_half_a_range_apart(
    signed: WaveDataView,
    offset: WaveDataView,
    i: int,
)
    requires
        signed.format is TwosComplementPCM,
        offset == (WaveDataView { format: StreamWaveFormat::OffsetBinaryPCM, ..signed }),
        0 <= i < decoded_stream_wave(signed).unwrap().len(),
    ensures
        decoded_stream_wave(offset).unwrap().len() == decoded_stream_wave(signed).unwrap().len(),
        decoded_stream_wave(signed).unwrap()[i] >= 0 <==> decoded_stream_wave(offset).unwrap()[i]
            < 0,
        decoded_stream_wave(signed).unwrap()[i] - decoded_stream_wave(offset).unwrap()[i] == 32768
            || decoded_stream_wave(offset).unwrap()[i] - decoded_stream_wave(signed).unwrap()[i]
            == 32768,
{
    let data = signed.wave_data;
    let channels = layout_channels(signed.channel);
    match signed.base_bit {
        BaseBit::Bit4 => {
            law_four_bit_samples_are_halves(data, PcmEncoding::TwosComplement, channels, i);
            law_four_bit_samples_are_halves(data, PcmEncoding::OffsetBinary, channels, i);
        },
        BaseBit::Bit8 => {
            law_eight_bit_samples_are_bytes(data, PcmEncoding::TwosComplement, channels, i);
            law_eight_bit_samples_are_bytes(data, PcmEncoding::OffsetBinary, channels, i);
        },
        BaseBit::Bit12 => {
            law_twelve_bit_samples_share_a_byte(data, PcmEncoding::TwosComplement, channels, i);
            law_twelve_bit_samples_share_a_byte(data, PcmEncoding::OffsetBinary, channels, i);
        },
        BaseBit::Bit16 => {
            law_sixteen_bit_samples_are_two_bytes(data, PcmEncoding::TwosComplement, channels, i);
            law_sixteen_bit_samples_are_two_bytes(data, PcmEncoding::OffsetBinary, channels, i);
        },
    }
}

/// A wave of a PCM audio track is decoded as a score track's wave of the same layout,
/// width and encoding is; TwinVQ and MP3 are not decoded.
pub proof fn law_track_waves_decode_as_stream_waves(
    track: PCMAudioTrackView,
    data: Seq<u8>,
    wave: WaveDataView,
)
    requires
        wave.wave_data == data,
        wave.channel == track.channel,
        wave.base_bit == track.base_bit,
    ensures
        track.format is TwosComplementPCM && wave.format is TwosComplementPCM
            ==> decoded_track_wave(track, data) == decoded_stream_wave(wave),
        track.format is Adpcm && wave.format is YamahaADPCM ==> decoded_track_wave(track, data)
            == decoded_stream_wave(wave),
        track.format is TwinVQ || track.format is MP3 ==> decoded_track_wave(track, data) is None,
{
}

/// The wave that a number selects is an entry of the table with that number before
/// which no entry has it; there is none where no entry has the number.
pub proof fn law_waves_are_found_by_number(waves: Seq<PCMDataChunkView>, number: u8)
    ensures
        match wave_numbered(waves, number, 0) {
            Some(wave) => exists|i: int|
                0 <= i < waves.len() && #[trigger] waves[i] == PCMDataChunkView::WaveData(
                    number,
                    wave,
                ) && forall|j: int| 0 <= j < i ==> (#[trigger] waves[j])->WaveData_0 != number,
            None => forall|j: int|
                0 <= j < waves.len() ==> (#[trigger] waves[j])->WaveData_0 != number,
        },
{
    let _ = lemma_wave_numbered(waves, number, 0);
}

proof fn lemma_wave_numbered(waves: Seq<PCMDataChunkView>, number: u8, from: int) -> (at: int)
    requires
        0 <= from <= waves.len(),
    ensures
        match wave_numbered(waves, number, from) {
            Some(wave) => from <= at < waves.len() && waves[at] == PCMDataChunkView::WaveData(
                number,
                wave,
            ) && forall|j: int| from <= j < at ==> (#[trigger] waves[j])->WaveData_0 != number,
            None => forall|j: int|
                from <= j < waves.len() ==> (#[trigger] waves[j])->WaveData_0 != number,
        },
    decreases waves.len() - from,
{
    if from >= waves.len() {
        from
    } else if waves[from]->WaveData_0 == number {
        from
    } else {
        lemma_wave_numbered(waves, number, from + 1)
    }
}

} // verus!
