//! Linear PCM as SMAF stores it.
use crate::container::BaseBit;
use vstd::arithmetic::power2::pow2;
use vstd::prelude::*;

verus! {

/// How a sample's bits stand for its value.
#[derive(Copy, Clone, Debug, Eq, PartialEq, Structural)]
pub enum PcmEncoding {
    TwosComplement,
    OffsetBinary,
}

/// Bits per sample of a width.
pub open spec fn sample_bits(base_bit: BaseBit) -> u8 {
    match base_bit {
        BaseBit::Bit4 => 4,
        BaseBit::Bit8 => 8,
        BaseBit::Bit12 => 12,
        BaseBit::Bit16 => 16,
    }
}

/// Bit `position` of a bitstream whose bytes are read from their highest bit
/// down.
pub open spec fn stream_bit(data: Seq<u8>, position: int) -> int {
    data[position / 8] as int / pow2((7 - position % 8) as nat) as int % 2
}

/// The number that `width` bits from `position` on write, highest bit first.
pub open spec fn stream_number(data: Seq<u8>, position: int, width: nat) -> int
    decreases width,
{
    if width == 0 {
        0
    } else {
        stream_number(data, position, (width - 1) as nat) * 2 + stream_bit(
            data,
            position + width - 1,
        )
    }
}

/// A sample of `width` bits as a signed 16-bit value: centred on zero, then
/// scaled to fill 16 bits.
pub open spec fn normalized(raw: int, width: nat, encoding: PcmEncoding) -> int {
    let centered = match encoding {
        PcmEncoding::TwosComplement => if raw >= pow2((width - 1) as nat) {
            raw - pow2(width)
        } else {
            raw
        },
        PcmEncoding::OffsetBinary => raw - pow2((width - 1) as nat),
    };
    centered * pow2((16 - width) as nat)
}

/// The number of whole samples in `bytes` bytes that make up whole frames.  The
/// bit count is capped at the largest `usize`.
pub open spec fn complete_samples(bytes: int, width: int, channels: int) -> int {
    let bits = if bytes * 8 > usize::MAX {
        usize::MAX as int
    } else {
        bytes * 8
    };
    let samples = bits / width;
    samples - samples % channels
}

/// What a block of linear PCM decodes to: its whole frames, sample by sample.
pub open spec fn decoded_pcm(
    data: Seq<u8>,
    base_bit: BaseBit,
    encoding: PcmEncoding,
    channels: u8,
) -> Option<Seq<i16>> {
    let width = sample_bits(base_bit);
    if channels == 1 || channels == 2 {
        Some(
            Seq::new(
                complete_samples(data.len() as int, width as int, channels as int) as nat,
                |i: int|
                    normalized(
                        stream_number(data, i * width, width as nat),
                        width as nat,
                        encoding,
                    ) as i16,
            ),
        )
    } else {
        None
    }
}

/// Bits per sample of a width.
pub fn bits_per_sample(base_bit: BaseBit) -> (bits: u8)
    ensures
        bits == sample_bits(base_bit),
{
    match base_bit {
        BaseBit::Bit4 => 4,
        BaseBit::Bit8 => 8,
        BaseBit::Bit12 => 12,
        BaseBit::Bit16 => 16,
    }
}

/// A number of `width` bits is below 2 to the `width`.
pub proof fn lemma_stream_number_bound(data: Seq<u8>, position: int, width: nat)
    ensures
        0 <= stream_number(data, position, width) < pow2(width),
    decreases width,
{
    if width == 0 {
        vstd::arithmetic::power2::lemma2_to64();
    } else {
        lemma_stream_number_bound(data, position, (width - 1) as nat);
        vstd::arithmetic::power2::lemma_pow2_unfold(width);
    }
}

/// Reads `width` bits from `bit_offset` on, highest bit first.
pub fn read_be_bits(data: &[u8], bit_offset: usize, width: u8) -> (value: u16)
    requires
        width <= 16,
        bit_offset + width <= data.len() * 8,
        bit_offset + width <= usize::MAX,
    ensures
        value == stream_number(data@, bit_offset as int, width as nat),
{
    let mut value: u16 = 0;
    let mut bit: u8 = 0;
    while bit < width
        invariant
            bit <= width <= 16,
            bit_offset + width <= data.len() * 8,
            bit_offset + width <= usize::MAX,
            value == stream_number(data@, bit_offset as int, bit as nat),
        decreases width - bit,
    {
        let absolute = bit_offset + bit as usize;
        let byte = data[absolute / 8];
        let shift = (7 - absolute % 8) as u8;
        let digit = (byte >> shift) & 1;
        proof {
            vstd::bits::lemma_u8_shr_is_div(byte, shift);
            let shifted = byte >> shift;
            assert(shifted & 1 == shifted % 2) by (bit_vector);
            lemma_stream_number_bound(data@, bit_offset as int, bit as nat);
            vstd::arithmetic::power2::lemma2_to64();
            vstd::arithmetic::power2::lemma_pow2_strictly_increases(bit as nat, 16);
            vstd::arithmetic::power2::lemma_pow2_unfold((bit + 1) as nat);
            if bit < 15 {
                vstd::arithmetic::power2::lemma_pow2_strictly_increases((bit + 1) as nat, 16);
            }
        }
        value = value * 2 + digit as u16;
        bit += 1;
    }
    value
}

/// Brings a sample of `width` bits to 16 signed bits.
pub fn normalize_sample(raw: u16, width: u8, encoding: PcmEncoding) -> (sample: i16)
    requires
        width == 4 || width == 8 || width == 12 || width == 16,
        raw < pow2(width as nat),
    ensures
        sample == normalized(raw as int, width as nat, encoding),
{
    proof {
        vstd::arithmetic::power2::lemma2_to64();
    }
    let (levels, scale): (i32, i32) = if width == 4 {
        (16, 4096)
    } else if width == 8 {
        (256, 256)
    } else if width == 12 {
        (4096, 16)
    } else {
        (65536, 1)
    };
    let centered = match encoding {
        PcmEncoding::TwosComplement => if raw as i32 >= levels / 2 {
            raw as i32 - levels
        } else {
            raw as i32
        },
        PcmEncoding::OffsetBinary => raw as i32 - levels / 2,
    };
    assert(-32768 <= centered * scale <= 32767);
    (centered * scale) as i16
}

/// Decode SMAF linear PCM into interleaved signed 16-bit PCM.
///
/// SMAF is a big-endian bitstream format.  Samples are consumed MSB-first and
/// channel samples are interleaved.  4/12-bit samples are packed without byte
/// padding; an incomplete trailing sample/frame is ignored rather than reading
/// past the chunk boundary.  Only one and two channels are accepted.
pub fn decode_pcm(data: &[u8], base_bit: BaseBit, encoding: PcmEncoding, channels: u8) -> (samples:
    Option<Vec<i16>>)
    ensures
        samples is Some <==> channels == 1 || channels == 2,
        samples matches Some(decoded) ==> decoded_pcm(data@, base_bit, encoding, channels) == Some(
            decoded@,
        ),
{
    if channels != 1 && channels != 2 {
        return None;
    }
    let width = bits_per_sample(base_bit);
    let bits: usize = match data.len().checked_mul(8) {
        Some(bits) => bits,
        None => usize::MAX,
    };
    let total_samples = bits / width as usize;
    proof {
        vstd::arithmetic::div_mod::lemma_mod_decreases(total_samples as nat, channels as nat);
    }
    let complete_samples = total_samples - total_samples % channels as usize;
    assert(complete_samples * width <= bits) by (nonlinear_arith)
        requires
            width > 0,
            complete_samples <= total_samples,
            total_samples == bits as int / width as int,
    ;
    let ghost expected = decoded_pcm(data@, base_bit, encoding, channels).unwrap();
    let mut result: Vec<i16> = Vec::new();
    let mut sample_index: usize = 0;
    while sample_index < complete_samples
        invariant
            sample_index <= complete_samples,
            complete_samples == expected.len(),
            complete_samples * width <= data.len() * 8,
            complete_samples * width <= usize::MAX,
            width == sample_bits(base_bit),
            decoded_pcm(data@, base_bit, encoding, channels) == Some(expected),
            result@ == expected.take(sample_index as int),
        decreases complete_samples - sample_index,
    {
        assert(sample_index * width + width <= complete_samples * width) by (nonlinear_arith)
            requires
                sample_index + 1 <= complete_samples,
        ;
        let raw = read_be_bits(data, sample_index * width as usize, width);
        proof {
            lemma_stream_number_bound(data@, sample_index * width, width as nat);
        }
        result.push(normalize_sample(raw, width, encoding));
        sample_index += 1;
        assert(result@ =~= expected.take(sample_index as int));
    }
    assert(expected.take(sample_index as int) =~= expected);
    Some(result)
}

/// A sample of any width fills 16 bits exactly: it lies between the smallest and
/// the largest 16-bit value, and its lowest bits are zero.
pub proof fn law_samples_fill_16_bits(raw: int, base_bit: BaseBit, encoding: PcmEncoding)
    requires
        0 <= raw < pow2(sample_bits(base_bit) as nat),
    ensures
        i16::MIN <= normalized(raw, sample_bits(base_bit) as nat, encoding) <= i16::MAX,
        normalized(raw, sample_bits(base_bit) as nat, encoding) % pow2(
            (16 - sample_bits(base_bit)) as nat,
        ) as int == 0,
{
    vstd::arithmetic::power2::lemma2_to64();
    let width = sample_bits(base_bit) as nat;
    let levels = pow2(width) as int;
    let centered = match encoding {
        PcmEncoding::TwosComplement => if raw >= levels / 2 {
            raw - levels
        } else {
            raw
        },
        PcmEncoding::OffsetBinary => raw - levels / 2,
    };
    match base_bit {
        BaseBit::Bit4 => {
            assert(pow2((16 - width) as nat) == 4096);
            assert(normalized(raw, width, encoding) == centered * 4096);
            assert((centered * 4096) % 4096 == 0);
        },
        BaseBit::Bit8 => {
            assert(pow2((16 - width) as nat) == 256);
            assert(normalized(raw, width, encoding) == centered * 256);
            assert((centered * 256) % 256 == 0);
        },
        BaseBit::Bit12 => {
            assert(pow2((16 - width) as nat) == 16);
            assert(normalized(raw, width, encoding) == centered * 16);
            assert((centered * 16) % 16 == 0);
        },
        BaseBit::Bit16 => {
            assert(pow2((16 - width) as nat) == 1);
            assert(normalized(raw, width, encoding) == centered * 1);
            assert((centered * 1) % 1 == 0);
        },
    }
}

/// Two's complement and offset binary differ in the top bit only.
pub proof fn law_encodings_differ_by_the_top_bit(raw: int, base_bit: BaseBit)
    requires
        0 <= raw < pow2(sample_bits(base_bit) as nat),
    ensures
        normalized(raw, sample_bits(base_bit) as nat, PcmEncoding::TwosComplement) == normalized(
            if raw >= pow2((sample_bits(base_bit) - 1) as nat) {
                raw - pow2((sample_bits(base_bit) - 1) as nat)
            } else {
                raw + pow2((sample_bits(base_bit) - 1) as nat)
            },
            sample_bits(base_bit) as nat,
            PcmEncoding::OffsetBinary,
        ),
{
    vstd::arithmetic::power2::lemma2_to64();
}

/// Only whole frames come out, and no more than the block holds.
pub proof fn law_only_whole_frames(
    data: Seq<u8>,
    base_bit: BaseBit,
    encoding: PcmEncoding,
    channels: u8,
)
    requires
        channels == 1 || channels == 2,
        data.len() * 8 <= usize::MAX,
    ensures
        decoded_pcm(data, base_bit, encoding, channels) is Some,
        ({
            let samples = decoded_pcm(data, base_bit, encoding, channels).unwrap().len();
            &&& samples % channels as nat == 0
            &&& samples * sample_bits(base_bit) <= data.len() * 8
            &&& (samples + channels) * sample_bits(base_bit) > data.len() * 8
        }),
{
    let bits = data.len() * 8;
    if channels == 1 {
        assert(complete_samples(data.len() as int, 4, 1) == bits / 4);
        assert(complete_samples(data.len() as int, 8, 1) == bits / 8);
        assert(complete_samples(data.len() as int, 12, 1) == bits / 12);
        assert(complete_samples(data.len() as int, 16, 1) == bits / 16);
    } else {
        assert(complete_samples(data.len() as int, 4, 2) == (bits / 4) - (bits / 4) % 2);
        assert(complete_samples(data.len() as int, 8, 2) == (bits / 8) - (bits / 8) % 2);
        assert(complete_samples(data.len() as int, 12, 2) == (bits / 12) - (bits / 12) % 2);
        assert(complete_samples(data.len() as int, 16, 2) == (bits / 16) - (bits / 16) % 2);
    }
}

/// A number of `width` bits, as two's complement or as an offset from the middle.
spec fn signed_number(raw: int, levels: int, encoding: PcmEncoding) -> int {
    if encoding == PcmEncoding::OffsetBinary {
        raw - levels / 2
    } else if raw < levels / 2 {
        raw
    } else {
        raw - levels
    }
}

proof fn lemma_bits_of_a_byte(data: Seq<u8>, at: int)
    ensures
        stream_number(data, 8 * at, 8) == data[at],
        stream_number(data, 8 * at, 4) == data[at] / 16,
        stream_number(data, 8 * at + 4, 4) == data[at] % 16,
{
    vstd::arithmetic::power2::lemma2_to64();
    lemma_half_of_a_byte(data, at, 0);
    lemma_half_of_a_byte(data, at, 4);
    lemma_bits_joined(data, 8 * at, 4, 4);
}

proof fn lemma_half_of_a_byte(data: Seq<u8>, at: int, k: int)
    requires
        k == 0 || k == 4,
    ensures
        stream_number(data, 8 * at + k, 4) == (if k == 0 {
            data[at] / 16
        } else {
            data[at] % 16
        }),
{
    reveal_with_fuel(stream_number, 5);
    let at_half = 8 * at + k;
    lemma_bit_of_a_byte(data, at, k);
    lemma_bit_of_a_byte(data, at, k + 1);
    lemma_bit_of_a_byte(data, at, k + 2);
    lemma_bit_of_a_byte(data, at, k + 3);
    assert(stream_number(data, at_half, 4) == stream_bit(data, at_half) * 8 + stream_bit(
        data,
        at_half + 1,
    ) * 4 + stream_bit(data, at_half + 2) * 2 + stream_bit(data, at_half + 3));
    lemma_digits(data[at]);
}

proof fn lemma_digits(byte: u8)
    by (bit_vector)
    ensures
        byte / 128 % 2 * 8 + byte / 64 % 2 * 4 + byte / 32 % 2 * 2 + byte / 16 % 2 == byte / 16,
        byte / 8 % 2 * 8 + byte / 4 % 2 * 4 + byte / 2 % 2 * 2 + byte / 1 % 2 == byte % 16,
{
}

proof fn lemma_bit_of_a_byte(data: Seq<u8>, at: int, k: int)
    requires
        0 <= k < 8,
    ensures
        stream_bit(data, 8 * at + k) == data[at] as int / seq![128int, 64, 32, 16, 8, 4, 2, 1][k]
            % 2,
{
    vstd::arithmetic::power2::lemma2_to64();
    assert((8 * at + k) / 8 == at && (8 * at + k) % 8 == k);
}

proof fn lemma_bits_joined(data: Seq<u8>, at: int, first: nat, second: nat)
    ensures
        stream_number(data, at, first + second) == stream_number(data, at, first) * pow2(second)
            + stream_number(data, at + first, second),
    decreases second,
{
    if second == 0 {
        vstd::arithmetic::power2::lemma2_to64();
    } else {
        let fewer = (second - 1) as nat;
        lemma_bits_joined(data, at, first, fewer);
        vstd::arithmetic::power2::lemma_pow2_unfold(second);
        let high = stream_number(data, at, first);
        assert(high * pow2(fewer) * 2 == high * pow2(second)) by (nonlinear_arith)
            requires
                pow2(second) == 2 * pow2(fewer),
        ;
        assert(((first + second) - 1) as nat == first + fewer);
    }
}

proof fn lemma_normalized(raw: int, encoding: PcmEncoding)
    ensures
        normalized(raw, 4, encoding) == signed_number(raw, 16, encoding) * 4096,
        normalized(raw, 8, encoding) == signed_number(raw, 256, encoding) * 256,
        normalized(raw, 12, encoding) == signed_number(raw, 4096, encoding) * 16,
        normalized(raw, 16, encoding) == signed_number(raw, 65536, encoding),
{
    vstd::arithmetic::power2::lemma2_to64();
    assert(normalized(raw, 16, encoding) == signed_number(raw, 65536, encoding) * pow2(0));
}

/// Samples of eight bits are the bytes in order, in the upper half of 16 bits.
pub proof fn law_eight_bit_samples_are_bytes(
    data: Seq<u8>,
    encoding: PcmEncoding,
    channels: u8,
    i: int,
)
    requires
        channels == 1 || channels == 2,
        0 <= i < decoded_pcm(data, BaseBit::Bit8, encoding, channels).unwrap().len(),
    ensures
        decoded_pcm(data, BaseBit::Bit8, encoding, channels).unwrap()[i] == 256 * (if encoding
            == PcmEncoding::OffsetBinary {
            data[i] - 128
        } else if data[i] < 128 {
            data[i] as int
        } else {
            data[i] - 256
        }),
{
    lemma_bits_of_a_byte(data, i);
    lemma_normalized(data[i] as int, encoding);
}

/// Samples of four bits are the halves of the bytes, the upper half first, in the
/// uppermost four of 16 bits.
pub proof fn law_four_bit_samples_are_halves(
    data: Seq<u8>,
    encoding: PcmEncoding,
    channels: u8,
    i: int,
)
    requires
        channels == 1 || channels == 2,
        0 <= i < decoded_pcm(data, BaseBit::Bit4, encoding, channels).unwrap().len(),
    ensures
        ({
            let raw = if i % 2 == 0 {
                data[i / 2] / 16
            } else {
                data[i / 2] % 16
            };
            decoded_pcm(data, BaseBit::Bit4, encoding, channels).unwrap()[i] == 4096 * (
            if encoding == PcmEncoding::OffsetBinary {
                raw - 8
            } else if raw < 8 {
                raw as int
            } else {
                raw - 16
            })
        }),
{
    lemma_bits_of_a_byte(data, i / 2);
    if i % 2 == 0 {
        assert(i * 4 == 8 * (i / 2));
        lemma_normalized((data[i / 2] / 16) as int, encoding);
    } else {
        assert(i * 4 == 8 * (i / 2) + 4);
        lemma_normalized((data[i / 2] % 16) as int, encoding);
    }
}

/// Samples of sixteen bits are two bytes each, the higher one first.
pub proof fn law_sixteen_bit_samples_are_two_bytes(
    data: Seq<u8>,
    encoding: PcmEncoding,
    channels: u8,
    i: int,
)
    requires
        channels == 1 || channels == 2,
        0 <= i < decoded_pcm(data, BaseBit::Bit16, encoding, channels).unwrap().len(),
    ensures
        ({
            let raw = 256 * data[2 * i] + data[2 * i + 1];
            decoded_pcm(data, BaseBit::Bit16, encoding, channels).unwrap()[i] == (if encoding
                == PcmEncoding::OffsetBinary {
                raw - 32768
            } else if raw < 32768 {
                raw
            } else {
                raw - 65536
            })
        }),
{
    vstd::arithmetic::power2::lemma2_to64();
    lemma_bits_joined(data, i * 16, 8, 8);
    lemma_bits_of_a_byte(data, 2 * i);
    lemma_bits_of_a_byte(data, 2 * i + 1);
    assert(i * 16 == 8 * (2 * i));
    assert(i * 16 + 8 == 8 * (2 * i + 1));
    lemma_normalized(256 * data[2 * i] + data[2 * i + 1], encoding);
}

/// Two samples of twelve bits are three bytes: the first byte and the upper half of the
/// second, then the lower half of the second and the third byte.
pub proof fn law_twelve_bit_samples_share_a_byte(
    data: Seq<u8>,
    encoding: PcmEncoding,
    channels: u8,
    i: int,
)
    requires
        channels == 1 || channels == 2,
        0 <= i < decoded_pcm(data, BaseBit::Bit12, encoding, channels).unwrap().len(),
    ensures
        ({
            let at = 3 * (i / 2);
            let raw = if i % 2 == 0 {
                16 * data[at] + data[at + 1] / 16
            } else {
                256 * (data[at + 1] % 16) + data[at + 2]
            };
            decoded_pcm(data, BaseBit::Bit12, encoding, channels).unwrap()[i] == 16 * (if encoding
                == PcmEncoding::OffsetBinary {
                raw - 2048
            } else if raw < 2048 {
                raw
            } else {
                raw - 4096
            })
        }),
{
    vstd::arithmetic::power2::lemma2_to64();
    let at = 3 * (i / 2);
    lemma_bits_of_a_byte(data, at);
    lemma_bits_of_a_byte(data, at + 1);
    lemma_bits_of_a_byte(data, at + 2);
    if i % 2 == 0 {
        assert(i * 12 == 8 * at);
        assert(i * 12 + 8 == 8 * (at + 1));
        lemma_bits_joined(data, i * 12, 8, 4);
        lemma_normalized(16 * data[at] + data[at + 1] / 16, encoding);
    } else {
        assert(i * 12 == 8 * (at + 1) + 4);
        assert(i * 12 + 4 == 8 * (at + 2));
        lemma_bits_joined(data, i * 12, 4, 8);
        lemma_normalized(256 * (data[at + 1] % 16) + data[at + 2], encoding);
    }
}

/// A block holds as many samples as its bits give for widths of 4, 8, 12 and 16, and
/// one less where that leaves half a frame of two channels.
pub proof fn law_sample_counts(data: Seq<u8>, encoding: PcmEncoding, channels: u8)
    requires
        channels == 1 || channels == 2,
        data.len() * 8 <= usize::MAX,
    ensures
        ({
            let four = decoded_pcm(data, BaseBit::Bit4, encoding, channels).unwrap().len();
            let eight = decoded_pcm(data, BaseBit::Bit8, encoding, channels).unwrap().len();
            let twelve = decoded_pcm(data, BaseBit::Bit12, encoding, channels).unwrap().len();
            let sixteen = decoded_pcm(data, BaseBit::Bit16, encoding, channels).unwrap().len();
            let n = data.len();
            &&& four == 2 * n
            &&& channels == 1 ==> eight == n && twelve == 2 * n / 3 && sixteen == n / 2
            &&& channels == 2 ==> eight == n - n % 2 && twelve == 2 * (n / 3) && sixteen == 2 * (n
                / 4)
        }),
{
    law_only_whole_frames(data, BaseBit::Bit4, encoding, channels);
    law_only_whole_frames(data, BaseBit::Bit8, encoding, channels);
    law_only_whole_frames(data, BaseBit::Bit12, encoding, channels);
    law_only_whole_frames(data, BaseBit::Bit16, encoding, channels);
}

} // verus!
