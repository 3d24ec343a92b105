//! Voices that a file defines for Yamaha's MA synthesizers.
use vstd::prelude::*;

verus! {

/// Bank, program and drum note that select a voice.
#[derive(Clone, Copy, Debug, PartialEq, Eq, Structural)]
pub struct MaVoiceKey {
    pub bank_msb: u8,
    pub bank_lsb: u8,
    pub program: u8,
    pub drum_note: u8,
}

/// Parameters of one FM operator.
#[derive(Clone, Copy, Debug, PartialEq, Eq, Structural)]
pub struct MaFmOperatorPatch {
    pub sr: u8,
    pub ksr: bool,
    pub xof: bool,
    pub rr: u8,
    pub dr: u8,
    pub ar: u8,
    pub sl: u8,
    pub tl: u8,
    pub ksl: u8,
    pub am: bool,
    pub dam: u8,
    pub vib: bool,
    pub dvb: u8,
    pub multi: u8,
    pub dt: u8,
    pub wave: u8,
    pub feedback: u8,
}

/// An operator that a voice leaves undefined: full attack, fully attenuated.
pub open spec fn default_operator() -> MaFmOperatorPatch {
    MaFmOperatorPatch {
        sr: 0,
        ksr: false,
        xof: false,
        rr: 0,
        dr: 0,
        ar: 15,
        sl: 0,
        tl: 63,
        ksl: 0,
        am: false,
        dam: 0,
        vib: false,
        dvb: 0,
        multi: 1,
        dt: 3,
        wave: 0,
        feedback: 0,
    }
}

impl Default for MaFmOperatorPatch {
    fn default() -> (patch: Self)
        ensures
            patch == default_operator(),
    {
        Self {
            sr: 0,
            ksr: false,
            xof: false,
            rr: 0,
            dr: 0,
            ar: 15,
            sl: 0,
            tl: 63,
            ksl: 0,
            am: false,
            dam: 0,
            vib: false,
            dvb: 0,
            multi: 1,
            dt: 3,
            wave: 0,
            feedback: 0,
        }
    }
}

/// A stereo position as the fraction `numerator / denominator`: -1 is left, 0
/// the centre, +1 right.
#[derive(Clone, Copy, Debug, PartialEq, Eq, Structural)]
pub struct StereoPosition {
    pub numerator: i8,
    pub denominator: u8,
}

/// An FM voice.
#[derive(Clone, Copy, Debug, PartialEq, Eq)]
pub struct MaFmPatch {
    pub algorithm: u8,
    pub operator_count: u8,
    pub note_shift: i8,
    pub default_pan: StereoPosition,
    pub lfo: u8,
    pub operators: [MaFmOperatorPatch; 4],
}

/// A voice that plays a sample of the handset's ROM.
#[derive(Clone, Copy, Debug, PartialEq, Eq, Structural)]
pub struct MaPcmRomVoice {
    pub sampling_rate: u16,
    pub total_level: u8,
    pub sr: u8,
    pub rr: u8,
    pub dr: u8,
    pub ar: u8,
    pub sl: u8,
    pub loop_point: u16,
    pub end_point: u16,
    pub looping: bool,
    pub wave_id: u8,
}

/// A note to be played by an FM voice.
#[derive(Clone, Copy, Debug, PartialEq, Eq)]
pub struct MaFmNote {
    pub channel: u8,
    pub note: u8,
    pub velocity: u8,
    pub gate_ms: u32,
    pub volume: u8,
    pub expression: u8,
    /// Explicit channel pan. None means use the custom voice's authored default pan.
    pub pan: Option<u8>,
    /// MIDI-compatible 14-bit bend value, centre = 8192, default range ±2 semitones.
    pub pitch_bend: u16,
    pub patch: MaFmPatch,
}

/// A voice definition with its key.
#[derive(Clone, Copy, Debug, PartialEq, Eq)]
pub enum MaCustomVoice {
    Fm { key: MaVoiceKey, patch: MaFmPatch },
    PcmRom { key: MaVoiceKey, params: MaPcmRomVoice },
}

/// The key of a voice definition.
pub open spec fn voice_key(voice: MaCustomVoice) -> MaVoiceKey {
    match voice {
        MaCustomVoice::Fm { key, .. } => key,
        MaCustomVoice::PcmRom { key, .. } => key,
    }
}

impl MaCustomVoice {
    /// The key of the definition.
    pub fn key(&self) -> (key: MaVoiceKey)
        ensures
            key == voice_key(*self),
    {
        match *self {
            Self::Fm { key, .. } => key,
            Self::PcmRom { key, .. } => key,
        }
    }
}

/// The transposition that a basic-octave field stands for.
pub open spec fn octave_semitones(value: u8) -> i8 {
    if value & 3 == 0 {
        12
    } else if value & 3 == 1 {
        0
    } else if value & 3 == 2 {
        (-12) as i8
    } else {
        (-24) as i8
    }
}

fn bo_to_semitones(value: u8) -> (semitones: i8)
    ensures
        semitones == octave_semitones(value),
{
    assert(value & 3 <= 3) by (bit_vector);
    match value & 3 {
        0 => 12,
        1 => 0,
        2 => -12,
        _ => -24,
    }
}

/// The stereo position that a five-bit panpot field stands for: 15 is the
/// centre, 0 full left, 31 full right.
pub open spec fn panpot_position(value: u8) -> StereoPosition {
    let value = value & 31;
    if value == 15 {
        StereoPosition { numerator: 0, denominator: 1 }
    } else if value < 15 {
        StereoPosition { numerator: (value - 15) as i8, denominator: 15 }
    } else {
        StereoPosition { numerator: (value - 15) as i8, denominator: 16 }
    }
}

fn panpot_to_pan(value: u8) -> (position: StereoPosition)
    ensures
        position == panpot_position(value),
{
    assert(value & 31 <= 31) by (bit_vector);
    let value = value & 31;
    if value == 15 {
        StereoPosition { numerator: 0, denominator: 1 }
    } else if value < 15 {
        StereoPosition { numerator: value as i8 - 15, denominator: 15 }
    } else {
        StereoPosition { numerator: value as i8 - 15, denominator: 16 }
    }
}

/// The operator that the seven bytes from `at` on define.
pub open spec fn operator_at(body: Seq<u8>, at: int) -> MaFmOperatorPatch {
    MaFmOperatorPatch {
        sr: (body[at] >> 4) & 15,
        ksr: body[at] & 1 != 0,
        xof: body[at] & 8 != 0,
        rr: (body[at + 1] >> 4) & 15,
        dr: body[at + 1] & 15,
        ar: (body[at + 2] >> 4) & 15,
        sl: body[at + 2] & 15,
        tl: (body[at + 3] >> 2) & 63,
        ksl: body[at + 3] & 3,
        am: body[at + 4] & 0x10 != 0,
        dam: (body[at + 4] >> 5) & 3,
        vib: body[at + 4] & 1 != 0,
        dvb: (body[at + 4] >> 1) & 3,
        multi: (body[at + 5] >> 4) & 15,
        dt: body[at + 5] & 7,
        wave: (body[at + 6] >> 3) & 31,
        feedback: body[at + 6] & 7,
    }
}

/// Operator `index` of a voice with `count` operators.
pub open spec fn operator_of(body: Seq<u8>, index: int, count: int) -> MaFmOperatorPatch {
    if index < count {
        operator_at(body, 3 + 7 * index)
    } else {
        default_operator()
    }
}

/// The FM voice that a VM35 body defines: a header of three bytes, then seven
/// bytes for each of `count` operators.  None where the body is too short.
pub open spec fn vm35_patch(body: Seq<u8>, count: int) -> Option<MaFmPatch> {
    if body.len() < 3 + 7 * count {
        None
    } else {
        Some(
            MaFmPatch {
                algorithm: body[2] & 7,
                operator_count: count as u8,
                note_shift: octave_semitones(body[1] & 3),
                default_pan: if body[2] & 0x20 != 0 {
                    panpot_position((body[1] >> 3) & 31)
                } else {
                    StereoPosition { numerator: 0, denominator: 1 }
                },
                lfo: (body[2] >> 6) & 3,
                operators: [
                    operator_of(body, 0, count),
                    operator_of(body, 1, count),
                    operator_of(body, 2, count),
                    operator_of(body, 3, count),
                ],
            },
        )
    }
}

/// An operator count brought into one to four.
pub open spec fn bounded_operators(count: int) -> int {
    if count < 1 {
        1
    } else if count > 4 {
        4
    } else {
        count
    }
}

/// The number of operators that an algorithm connects.
pub open spec fn algorithm_operators(algorithm: u8) -> int {
    if algorithm <= 1 {
        2
    } else {
        4
    }
}

fn parse_operator(body: &[u8], at: usize) -> (operator: MaFmOperatorPatch)
    requires
        at + 7 <= body.len(),
    ensures
        operator == operator_at(body@, at as int),
{
    MaFmOperatorPatch {
        sr: (body[at] >> 4) & 15,
        ksr: body[at] & 1 != 0,
        xof: body[at] & 8 != 0,
        rr: (body[at + 1] >> 4) & 15,
        dr: body[at + 1] & 15,
        ar: (body[at + 2] >> 4) & 15,
        sl: body[at + 2] & 15,
        tl: (body[at + 3] >> 2) & 63,
        ksl: body[at + 3] & 3,
        am: body[at + 4] & 0x10 != 0,
        dam: (body[at + 4] >> 5) & 3,
        vib: body[at + 4] & 1 != 0,
        dvb: (body[at + 4] >> 1) & 3,
        multi: (body[at + 5] >> 4) & 15,
        dt: body[at + 5] & 7,
        wave: (body[at + 6] >> 3) & 31,
        feedback: body[at + 6] & 7,
    }
}

/// Reads a VM35 body.  The operator count is brought into one to four.
pub fn parse_vm35_body(body: &[u8], operator_count: usize) -> (patch: Option<MaFmPatch>)
    ensures
        patch == vm35_patch(body@, bounded_operators(operator_count as int)),
{
    if body.len() < 3 {
        return None;
    }
    let count: usize = if operator_count < 1 {
        1
    } else if operator_count > 4 {
        4
    } else {
        operator_count
    };
    let mut operators = [MaFmOperatorPatch::default();4];
    let mut offset: usize = 3;
    let mut index: usize = 0;
    while index < count
        invariant
            index <= count <= 4,
            count == bounded_operators(operator_count as int),
            offset == 3 + 7 * index,
            offset <= body.len(),
            forall|i: int|
                0 <= i < 4 ==> operators[i] == operator_of(body@, i, index as int),
        decreases count - index,
    {
        if body.len() - offset < 7 {
            return None;
        }
        operators[index] = parse_operator(body, offset);
        offset += 7;
        index += 1;
    }
    let patch = MaFmPatch {
        algorithm: body[2] & 7,
        operator_count: count as u8,
        note_shift: bo_to_semitones(body[1] & 3),
        default_pan: if body[2] & 0x20 != 0 {
            panpot_to_pan((body[1] >> 3) & 31)
        } else {
            StereoPosition { numerator: 0, denominator: 1 }
        },
        lfo: (body[2] >> 6) & 3,
        operators,
    };
    assert(patch.operators =~= vm35_patch(body@, count as int).unwrap().operators);
    Some(patch)
}

/// Byte `index` of a packed MA-3 body; bytes past its end count as zero.
pub open spec fn packed_byte(body: Seq<u8>, index: int) -> u8 {
    if index < body.len() {
        body[index]
    } else {
        0
    }
}

/// Byte `index` of a packed MA-3 body with its top bit restored.  The bytes come
/// in groups of eight; the first of a group, the carrier, holds the top bits of
/// the third to the eighth.
pub open spec fn restored_byte(body: Seq<u8>, index: int) -> u8 {
    let place = index % 8;
    if place < 2 {
        packed_byte(body, index)
    } else {
        packed_byte(body, index) | ((packed_byte(body, index - place) << place as u8) & 0x80)
    }
}

/// The VM35 body inside a packed MA-3 body: 31 restored bytes, without the
/// carriers.
pub open spec fn unpacked_body(body: Seq<u8>) -> Seq<u8> {
    Seq::new(31, |i: int| restored_byte(body, i + 1 + i / 7))
}

/// The FM voice that a packed MA-3 body defines.
pub open spec fn packed_patch(body: Seq<u8>) -> Option<MaFmPatch> {
    if body.len() < 4 {
        None
    } else {
        vm35_patch(unpacked_body(body), algorithm_operators(body[3] & 7))
    }
}

/// Reads a packed MA-3 body.
///
/// MA-3 VM3Exclusive stores the MSBs of several VM35 fields in carrier
/// bits. They are restored before the carrier bytes are removed.
pub fn parse_ma3_packed_fm(body: &[u8]) -> (patch: Option<MaFmPatch>)
    ensures
        patch == packed_patch(body@),
{
    if body.len() < 4 {
        return None;
    }
    let algorithm = body[3] & 7;
    let operator_count: usize = if algorithm <= 1 {
        2
    } else {
        4
    };
    let mut fixed: Vec<u8> = Vec::with_capacity(31);
    let mut i: usize = 0;
    while i < 31
        invariant
            i <= 31,
            fixed@ == unpacked_body(body@).take(i as int),
        decreases 31 - i,
    {
        let index = i + 1 + i / 7;
        let place = index % 8;
        let byte: u8 = if index < body.len() {
            body[index]
        } else {
            0
        };
        let carrier: u8 = if index - place < body.len() {
            body[index - place]
        } else {
            0
        };
        fixed.push(
            if place < 2 {
                byte
            } else {
                byte | ((carrier << place as u8) & 0x80)
            },
        );
        i += 1;
        assert(fixed@ =~= unpacked_body(body@).take(i as int));
    }
    assert(unpacked_body(body@).take(31) =~= unpacked_body(body@));
    parse_vm35_body(fixed.as_slice(), operator_count)
}

/// A message without its closing end-of-exclusive byte.
pub open spec fn without_terminator(data: Seq<u8>) -> Seq<u8> {
    if data.len() > 0 && data.last() == 0xf7 {
        data.drop_last()
    } else {
        data
    }
}

/// Whether a message (without terminator) is an MA voice definition.
pub open spec fn is_voice_message(data: Seq<u8>) -> bool {
    &&& data.len() >= 11
    &&& data[0] == 0x43
    &&& data[1] == 0x79
    &&& data[2] == 0x06 || data[2] == 0x07
    &&& data[3] == 0x7f
    &&& data[4] == 0x01
}

/// Two bytes as a big-endian number.
pub open spec fn be_u16(high: u8, low: u8) -> u16 {
    (high * 256 + low) as u16
}

fn be_number(high: u8, low: u8) -> (number: u16)
    ensures
        number == be_u16(high, low),
{
    high as u16 * 256 + low as u16
}

/// The parameters that a PCM-ROM voice body of at least 16 bytes defines.
pub open spec fn rom_voice(body: Seq<u8>) -> MaPcmRomVoice {
    let sampling_rate = be_u16(body[0], body[1]);
    MaPcmRomVoice {
        sampling_rate: if 2000 <= sampling_rate <= 48000 {
            sampling_rate
        } else {
            8000
        },
        total_level: (body[7] >> 2) & 63,
        sr: (body[4] >> 4) & 15,
        rr: (body[5] >> 4) & 15,
        dr: body[5] & 15,
        ar: (body[6] >> 4) & 15,
        sl: body[6] & 15,
        loop_point: be_u16(body[11], body[12]),
        end_point: be_u16(body[13], body[14]),
        looping: body[15] & 0x80 != 0,
        wave_id: body[15] & 0x7f,
    }
}

/// The voice that an exclusive message defines, if it is a voice definition.
///
/// The message names the maker, the device (6 is MA-3, with packed FM bodies; 7
/// is MA-5), the key and the voice type; type zero is FM, any other PCM-ROM.
#[verifier::opaque]
pub open spec fn exclusive_voice(message: Seq<u8>) -> Option<MaCustomVoice> {
    let data = without_terminator(message);
    let body = data.skip(10);
    if !is_voice_message(data) {
        None
    } else {
        let key = MaVoiceKey {
            bank_msb: data[5] & 0x7f,
            bank_lsb: data[6] & 0x7f,
            program: data[7] & 0x7f,
            drum_note: data[8] & 0x7f,
        };
        if data[9] != 0 {
            if body.len() < 16 {
                None
            } else {
                Some(MaCustomVoice::PcmRom { key, params: rom_voice(body) })
            }
        } else {
            let patch = if data[2] == 0x06 {
                packed_patch(body)
            } else if body.len() < 3 {
                None
            } else {
                vm35_patch(body, algorithm_operators(body[2] & 7))
            };
            match patch {
                Some(patch) => Some(MaCustomVoice::Fm { key, patch }),
                None => None,
            }
        }
    }
}

/// Reads the voice definition in an exclusive message.
pub fn parse_ma_voice_exclusive(data: &[u8]) -> (voice: Option<MaCustomVoice>)
    ensures
        voice == exclusive_voice(data@),
{
    reveal(exclusive_voice);
    let ghost message = data@;
    let length: usize = if data.len() > 0 && data[data.len() - 1] == 0xf7 {
        data.len() - 1
    } else {
        data.len()
    };
    let data = vstd::slice::slice_subrange(data, 0, length);
    assert(data@ =~= without_terminator(message));
    if data.len() < 11 || data[0] != 0x43 || data[1] != 0x79 || !(data[2] == 0x06 || data[2]
        == 0x07) || data[3] != 0x7f || data[4] != 0x01 {
        return None;
    }
    let key = MaVoiceKey {
        bank_msb: data[5] & 0x7f,
        bank_lsb: data[6] & 0x7f,
        program: data[7] & 0x7f,
        drum_note: data[8] & 0x7f,
    };
    let voice_type = data[9];
    let body = vstd::slice::slice_subrange(data, 10, data.len());
    assert(body@ =~= data@.skip(10));
    if voice_type != 0 {
        if body.len() < 16 {
            return None;
        }
        let sampling_rate = be_number(body[0], body[1]);
        let params = MaPcmRomVoice {
            sampling_rate: if 2000 <= sampling_rate && sampling_rate <= 48000 {
                sampling_rate
            } else {
                8000
            },
            total_level: (body[7] >> 2) & 63,
            sr: (body[4] >> 4) & 15,
            rr: (body[5] >> 4) & 15,
            dr: body[5] & 15,
            ar: (body[6] >> 4) & 15,
            sl: body[6] & 15,
            loop_point: be_number(body[11], body[12]),
            end_point: be_number(body[13], body[14]),
            looping: body[15] & 0x80 != 0,
            wave_id: body[15] & 0x7f,
        };
        return Some(MaCustomVoice::PcmRom { key, params });
    }
    let patch = if data[2] == 0x06 {
        parse_ma3_packed_fm(body)
    } else if body.len() < 3 {
        None
    } else {
        let algorithm = body[2] & 7;
        parse_vm35_body(
            body,
            if algorithm <= 1 {
                2
            } else {
                4
            },
        )
    };
    match patch {
        Some(patch) => Some(MaCustomVoice::Fm { key, patch }),
        None => None,
    }
}

/// The variable-length number from `at` on, appended to the digits in `value`,
/// and the position behind it.  Seven bits come from each byte, highest first;
/// a clear top bit ends the number.  Bits beyond a `usize` are lost.  None where
/// the data or the `budget` of bytes ends first.
pub open spec fn vlq(data: Seq<u8>, at: int, value: usize, budget: nat) -> Option<(usize, int)>
    decreases budget,
{
    if budget == 0 || at >= data.len() {
        None
    } else {
        let next = (value << 7) | (data[at] & 0x7f) as usize;
        if data[at] & 0x80 == 0 {
            Some((next, at + 1))
        } else {
            vlq(data, at + 1, next, (budget - 1) as nat)
        }
    }
}

/// A variable-length number ends inside the data, behind its first byte.
pub proof fn lemma_vlq_end(data: Seq<u8>, at: int, value: usize, budget: nat)
    ensures
        vlq(data, at, value, budget) matches Some((_, end)) ==> at < end <= data.len(),
    decreases budget,
{
    if budget > 0 && at < data.len() && data[at] & 0x80 != 0 {
        lemma_vlq_end(
            data,
            at + 1,
            (value << 7) | (data[at] & 0x7f) as usize,
            (budget - 1) as nat,
        );
    }
}

/// Reads a variable-length number of at most five bytes.
pub fn read_vlq(data: &[u8], offset: usize) -> (number: Option<(usize, usize)>)
    ensures
        number is Some <==> vlq(data@, offset as int, 0, 5) is Some,
        number matches Some((value, end)) ==> vlq(data@, offset as int, 0, 5) == Some(
            (value, end as int),
        ),
{
    let mut value: usize = 0;
    let mut at = offset;
    let mut budget: usize = 5;
    while budget > 0
        invariant
            offset <= data.len() ==> at <= data.len(),
            vlq(data@, offset as int, 0, 5) == vlq(data@, at as int, value, budget as nat),
        decreases budget,
    {
        if at >= data.len() {
            return None;
        }
        let byte = data[at];
        at += 1;
        value = (value << 7) | (byte & 0x7f) as usize;
        if byte & 0x80 == 0 {
            return Some((value, at));
        }
        budget -= 1;
    }
    None
}

/// The voices that the setup messages from `at` on define, in order.
///
/// A message is 0xf0, its length and its bytes.  Reading stops at the first byte
/// that starts no message and at a message that is cut off.
pub open spec fn setup_voices(data: Seq<u8>, at: int) -> Seq<MaCustomVoice>
    decreases data.len() - at,
{
    if at < 0 || at >= data.len() || data[at] != 0xf0 {
        Seq::empty()
    } else {
        match vlq(data, at + 1, 0, 5) {
            None => Seq::empty(),
            Some((length, start)) => if start + length > data.len() {
                Seq::empty()
            } else {
                proof {
                    lemma_vlq_end(data, at + 1, 0, 5);
                }
                let rest = setup_voices(data, start + length);
                match exclusive_voice(data.subrange(start, start + length)) {
                    Some(voice) => seq![voice] + rest,
                    None => rest,
                }
            },
        }
    }
}

/// Reads the voice definitions among a track's setup messages.
pub fn parse_setup_custom_voices(data: &[u8]) -> (voices: Vec<MaCustomVoice>)
    ensures
        voices@ == setup_voices(data@, 0),
{
    let mut result: Vec<MaCustomVoice> = Vec::new();
    let mut offset: usize = 0;
    while offset < data.len()
        invariant
            offset <= data.len(),
            setup_voices(data@, 0) == result@ + setup_voices(data@, offset as int),
        decreases data.len() - offset,
    {
        let ghost rest = setup_voices(data@, offset as int);
        proof {
            lemma_vlq_end(data@, offset + 1, 0, 5);
        }
        if data[offset] != 0xf0 {
            assert(result@ + rest =~= result@);
            return result;
        }
        let (length, start) = match read_vlq(data, offset + 1) {
            Some(number) => number,
            None => {
                assert(result@ + rest =~= result@);
                return result;
            },
        };
        if length > data.len() - start {
            assert(result@ + rest =~= result@);
            return result;
        }
        let message = vstd::slice::slice_subrange(data, start, start + length);
        let ghost before = result@;
        let ghost behind = setup_voices(data@, start + length);
        match parse_ma_voice_exclusive(message) {
            Some(voice) => {
                result.push(voice);
                assert(before + (seq![voice] + behind) =~= result@ + behind);
            },
            None => {},
        }
        offset = start + length;
    }
    assert(result@ + setup_voices(data@, offset as int) =~= result@);
    result
}

/// Every field of an operator stays within its bits.
pub proof fn law_operator_fields_are_bounded(body: Seq<u8>, at: int)
    ensures
        ({
            let operator = operator_at(body, at);
            &&& operator.sr <= 15 && operator.rr <= 15 && operator.dr <= 15
            &&& operator.ar <= 15 && operator.sl <= 15 && operator.tl <= 63
            &&& operator.ksl <= 3 && operator.dam <= 3 && operator.dvb <= 3
            &&& operator.multi <= 15 && operator.dt <= 7 && operator.wave <= 31
            &&& operator.feedback <= 7
        }),
{
    assert(forall|byte: u8| #[trigger] (byte & 15) <= 15) by (bit_vector);
    assert(forall|byte: u8| #[trigger] (byte & 63) <= 63) by (bit_vector);
    assert(forall|byte: u8| #[trigger] (byte & 3) <= 3) by (bit_vector);
    assert(forall|byte: u8| #[trigger] (byte & 7) <= 7) by (bit_vector);
    assert(forall|byte: u8| #[trigger] (byte & 31) <= 31) by (bit_vector);
}

/// A voice has as many operators as asked for, within one to four, and a header
/// whose fields stay within their bits; its position lies between left and right.
pub proof fn law_voice_fields_are_bounded(body: Seq<u8>, count: int)
    requires
        1 <= count <= 4,
    ensures
        vm35_patch(body, count) matches Some(patch) ==> {
            &&& patch.operator_count == count
            &&& patch.algorithm <= 7
            &&& patch.lfo <= 3
            &&& -24 <= patch.note_shift <= 12
            &&& patch.default_pan.denominator > 0
            &&& -patch.default_pan.denominator <= patch.default_pan.numerator
                <= patch.default_pan.denominator
        },
{
    assert(forall|byte: u8| #[trigger] (byte & 3) <= 3) by (bit_vector);
    assert(forall|byte: u8| #[trigger] (byte & 7) <= 7) by (bit_vector);
    assert(forall|byte: u8| #[trigger] (byte & 31) <= 31) by (bit_vector);
}

proof fn lemma_fields(byte: u8)
    by (bit_vector)
    ensures
        (byte >> 4) & 15 == byte / 16,
        byte & 15 == byte % 16,
        (byte >> 2) & 63 == byte / 4,
        byte & 3 == byte % 4,
        (byte & 3) & 3 == byte % 4,
        (byte >> 3) & 31 == byte / 8,
        ((byte >> 3) & 31) & 31 == byte / 8,
        byte & 7 == byte % 8,
        (byte % 128) & 7 == byte % 8,
        (byte >> 5) & 3 == byte / 32 % 4,
        (byte >> 1) & 3 == byte / 2 % 4,
        (byte >> 6) & 3 == byte / 64,
        byte & 0x7f == byte % 128,
        byte & 1 != 0 <==> byte % 2 == 1,
        byte & 8 != 0 <==> byte / 8 % 2 == 1,
        byte & 0x10 != 0 <==> byte / 16 % 2 == 1,
        byte & 0x20 != 0 <==> byte / 32 % 2 == 1,
        byte & 0x80 != 0 <==> byte >= 128,
        byte & 0x80 == 0 <==> byte < 128,
{
}

/// One for a set switch, zero for a clear one.
pub open spec fn digit(set: bool) -> int {
    if set {
        1
    } else {
        0
    }
}

/// Whether the seven bytes from `at` on spell an operator: put together, its fields
/// give the bytes back, but for the bits that stand for nothing.
pub open spec fn spells_operator(bytes: Seq<u8>, at: int, operator: MaFmOperatorPatch) -> bool {
    &&& operator.sr <= 15 && operator.rr <= 15 && operator.dr <= 15 && operator.ar <= 15
    &&& operator.sl <= 15 && operator.tl <= 63 && operator.ksl <= 3 && operator.dam <= 3
    &&& operator.dvb <= 3 && operator.multi <= 15 && operator.dt <= 7 && operator.wave <= 31
    &&& operator.feedback <= 7
    &&& bytes[at] - (bytes[at] / 2 % 4) * 2 == operator.sr * 16 + digit(operator.xof) * 8 + digit(
        operator.ksr,
    )
    &&& bytes[at + 1] == operator.rr * 16 + operator.dr
    &&& bytes[at + 2] == operator.ar * 16 + operator.sl
    &&& bytes[at + 3] == operator.tl * 4 + operator.ksl
    &&& bytes[at + 4] - (bytes[at + 4] / 128) * 128 - (bytes[at + 4] / 8 % 2) * 8 == operator.dam
        * 32 + digit(operator.am) * 16 + operator.dvb * 2 + digit(operator.vib)
    &&& bytes[at + 5] - (bytes[at + 5] / 8 % 2) * 8 == operator.multi * 16 + operator.dt
    &&& bytes[at + 6] == operator.wave * 8 + operator.feedback
}

proof fn lemma_two_halves(byte: u8)
    ensures
        (byte >> 4) & 15 == byte / 16,
        (byte >> 4) & 15 <= 15,
        byte & 15 <= 15,
        byte == ((byte >> 4) & 15) * 16 + (byte & 15),
{
    lemma_fields(byte);
}

proof fn lemma_switches(byte: u8)
    ensures
        (byte >> 4) & 15 <= 15,
        byte - (byte / 2 % 4) * 2 == ((byte >> 4) & 15) * 16 + digit(byte & 8 != 0) * 8 + digit(
            byte & 1 != 0,
        ),
{
    lemma_fields(byte);
}

proof fn lemma_level(byte: u8)
    ensures
        (byte >> 2) & 63 == byte / 4,
        (byte >> 2) & 63 <= 63,
        byte & 3 <= 3,
        byte == ((byte >> 2) & 63) * 4 + (byte & 3),
{
    lemma_fields(byte);
}

proof fn lemma_modulations(byte: u8)
    ensures
        (byte >> 5) & 3 <= 3,
        (byte >> 1) & 3 <= 3,
        byte - (byte / 128) * 128 - (byte / 8 % 2) * 8 == ((byte >> 5) & 3) * 32 + digit(
            byte & 0x10 != 0,
        ) * 16 + ((byte >> 1) & 3) * 2 + digit(byte & 1 != 0),
{
    lemma_fields(byte);
}

proof fn lemma_multiple(byte: u8)
    ensures
        (byte >> 4) & 15 <= 15,
        byte & 7 <= 7,
        byte - (byte / 8 % 2) * 8 == ((byte >> 4) & 15) * 16 + (byte & 7),
{
    lemma_fields(byte);
}

proof fn lemma_wave(byte: u8)
    ensures
        (byte >> 3) & 31 <= 31,
        byte & 7 <= 7,
        byte == ((byte >> 3) & 31) * 8 + (byte & 7),
{
    lemma_fields(byte);
}

proof fn lemma_spelled_operator(body: Seq<u8>, at: int)
    ensures
        spells_operator(body, at, operator_at(body, at)),
{
    lemma_switches(body[at]);
    lemma_two_halves(body[at + 1]);
    lemma_two_halves(body[at + 2]);
    lemma_level(body[at + 3]);
    lemma_modulations(body[at + 4]);
    lemma_multiple(body[at + 5]);
    lemma_wave(body[at + 6]);
}

/// Whether an operator is the one that a voice leaves undefined: it attacks at once,
/// makes no sound, and runs at the frequency of the note.
pub open spec fn is_left_out(operator: MaFmOperatorPatch) -> bool {
    &&& operator.ar == 15 && operator.tl == 63 && operator.multi == 1 && operator.dt == 3
    &&& operator.sr == 0 && operator.rr == 0 && operator.dr == 0 && operator.sl == 0
    &&& operator.ksl == 0 && operator.dam == 0 && operator.dvb == 0 && operator.wave == 0
    &&& operator.feedback == 0
    &&& !operator.ksr && !operator.xof && !operator.am && !operator.vib
}

/// The bytes of a VM35 body spell its voice: the second byte has the octave in its two
/// lowest bits, from one octave up to two down, and the pan in its upper five; the third
/// has the LFO in its two highest bits, then the switch that lets the pan count, and the
/// algorithm in its lowest three; the operators follow, seven bytes each.  There is a
/// voice exactly where all its operators are there.
pub proof fn law_bytes_spell_the_voice(body: Seq<u8>, count: int, index: int)
    requires
        1 <= count <= 4,
        0 <= index < 4,
    ensures
        vm35_patch(body, count) is Some <==> body.len() >= 3 + 7 * count,
        vm35_patch(body, count) matches Some(patch) ==> {
            let pan = body[1] / 8;
            &&& patch.operator_count == count
            &&& patch.algorithm == body[2] % 8
            &&& patch.lfo == body[2] / 64
            &&& patch.note_shift == 12 - 12 * (body[1] % 4)
            &&& patch.default_pan.denominator > 0
            &&& body[2] / 32 % 2 == 0 || pan == 15 ==> patch.default_pan.numerator == 0
            &&& body[2] / 32 % 2 == 1 && pan < 15 ==> patch.default_pan.numerator == pan - 15
                && patch.default_pan.denominator == 15
            &&& body[2] / 32 % 2 == 1 && pan > 15 ==> patch.default_pan.numerator == pan - 15
                && patch.default_pan.denominator == 16
            &&& index < count ==> spells_operator(body, 3 + 7 * index, patch.operators@[index])
            &&& index >= count ==> is_left_out(patch.operators@[index])
        },
{
    lemma_fields(body[1]);
    lemma_fields(body[2]);
    lemma_spelled_operator(body, 3 + 7 * index);
}

/// A higher panpot lies further right: 0 is full left, 15 the centre, 31 full right.
pub proof fn law_panpots_go_from_left_to_right(lower: u8, higher: u8)
    requires
        lower < higher < 32,
    ensures
        panpot_position(lower).numerator * panpot_position(higher).denominator
            < panpot_position(higher).numerator * panpot_position(lower).denominator,
        panpot_position(0).numerator == -panpot_position(0).denominator,
        panpot_position(15).numerator == 0,
        panpot_position(31).numerator == panpot_position(31).denominator,
{
    assert(forall|value: u8| value < 32 ==> #[trigger] (value & 31) == value) by (bit_vector);
    assert(15u8 & 31 == 15 && 31u8 & 31 == 31 && 0u8 & 31 == 0);
    let (a, b) = (panpot_position(lower), panpot_position(higher));
    assert(a.numerator * b.denominator < b.numerator * a.denominator) by (nonlinear_arith)
        requires
            a.denominator == 1 || a.denominator == 15 || a.denominator == 16,
            b.denominator == 1 || b.denominator == 15 || b.denominator == 16,
            a.numerator < b.numerator,
            a.numerator < 0 ==> a.denominator == 15,
            a.numerator == 0 ==> a.denominator == 1,
            a.numerator > 0 ==> a.denominator == 16,
            b.numerator < 0 ==> b.denominator == 15,
            b.numerator == 0 ==> b.denominator == 1,
            b.numerator > 0 ==> b.denominator == 16,
    ;
}

proof fn lemma_carried(carrier: u8, low: u8)
    by (bit_vector)
    requires
        low < 128,
    ensures
        low | ((carrier << 2u8) & 0x80) == low + 128 * (carrier / 32 % 2),
        low | ((carrier << 3u8) & 0x80) == low + 128 * (carrier / 16 % 2),
        low | ((carrier << 4u8) & 0x80) == low + 128 * (carrier / 8 % 2),
        low | ((carrier << 5u8) & 0x80) == low + 128 * (carrier / 4 % 2),
        low | ((carrier << 6u8) & 0x80) == low + 128 * (carrier / 2 % 2),
        low | ((carrier << 7u8) & 0x80) == low + 128 * (carrier / 1 % 2),
{
}

/// The weight of the carrier's bit for the byte at a place of its group.
pub open spec fn carrier_weight(place: int) -> u8 {
    if place == 2 {
        32
    } else if place == 3 {
        16
    } else if place == 4 {
        8
    } else if place == 5 {
        4
    } else if place == 6 {
        2
    } else {
        1
    }
}

/// A packed byte of seven bits is unpacked with the bit of its group's carrier on top:
/// the carrier's bits from 32 down to 1 belong to the third to the eighth byte of the
/// group; the byte behind the carrier has none.
pub proof fn law_carriers_restore_top_bits(packed: Seq<u8>, i: int)
    requires
        packed.len() >= 36,
        0 <= i < 31,
        packed[i + 1 + i / 7] < 128,
    ensures
        unpacked_body(packed).len() == 31,
        i % 7 == 0 ==> unpacked_body(packed)[i] == packed[i + 1 + i / 7],
        i % 7 > 0 ==> unpacked_body(packed)[i] == packed[i + 1 + i / 7] + 128 * (packed[8 * (i / 7)]
            / carrier_weight(i % 7 + 1) % 2),
{
    let index = i + 1 + i / 7;
    assert(index % 8 == i % 7 + 1);
    assert(index - index % 8 == 8 * (i / 7));
    lemma_carried(packed[8 * (i / 7)], packed[index]);
}

/// Whether the bytes of a VM35 body lie in a packed body: in groups of seven behind a
/// carrier, each without its top bit, the top bits of the second to the seventh of them
/// in the carrier.  The first byte of a group has no top bit.
pub open spec fn packs(body: Seq<u8>, packed: Seq<u8>) -> bool {
    &&& body.len() == 31
    &&& packed.len() >= 36
    &&& forall|i: int|
        0 <= i < 31 ==> {
            &&& packed[i + 1 + i / 7] == #[trigger] body[i] % 128
            &&& i % 7 == 0 ==> body[i] < 128
            &&& i % 7 > 0 ==> packed[8 * (i / 7)] / carrier_weight(i % 7 + 1) % 2 == body[i] / 128
        }
}

/// Unpacking undoes packing: the body comes back byte for byte, and so does its voice.
pub proof fn law_unpacking_undoes_packing(body: Seq<u8>, packed: Seq<u8>)
    requires
        packs(body, packed),
    ensures
        unpacked_body(packed) == body,
        packed_patch(packed) == vm35_patch(
            body,
            if body[2] % 8 <= 1 {
                2
            } else {
                4
            },
        ),
{
    assert forall|i: int| 0 <= i < 31 implies unpacked_body(packed)[i] == body[i] by {
        lemma_unpacked_byte(body[i], packed, i);
    }
    assert(unpacked_body(packed) =~= body);
    assert(packed[3] == body[2] % 128);
    lemma_algorithm(body[2]);
}

proof fn lemma_unpacked_byte(byte: u8, packed: Seq<u8>, i: int)
    requires
        packed.len() >= 36,
        0 <= i < 31,
        packed[i + 1 + i / 7] == byte % 128,
        i % 7 == 0 ==> byte < 128,
        i % 7 > 0 ==> packed[8 * (i / 7)] / carrier_weight(i % 7 + 1) % 2 == byte / 128,
    ensures
        unpacked_body(packed)[i] == byte,
{
    law_carriers_restore_top_bits(packed, i);
}

proof fn lemma_algorithm(byte: u8)
    ensures
        byte & 7 == byte % 8,
        (byte % 128) & 7 == byte % 8,
{
    lemma_fields(byte);
}

/// The second lowest bit of the first carrier is the highest bit of the first operator's
/// attack rate.
pub proof fn law_the_first_carrier_raises_the_attack(plain: Seq<u8>, raised: Seq<u8>)
    requires
        plain.len() >= 36,
        plain[0] / 2 % 2 == 0,
        plain[6] < 128,
        raised == plain.update(0, (plain[0] + 2) as u8),
    ensures
        packed_patch(plain) matches Some(patch) && packed_patch(raised) matches Some(other)
            && other.operators@[0].ar == patch.operators@[0].ar + 8,
{
    let (body, other) = (unpacked_body(plain), unpacked_body(raised));
    assert(other[5] == body[5] + 128 && body[5] < 128) by {
        law_carriers_restore_top_bits(plain, 5);
        law_carriers_restore_top_bits(raised, 5);
    }
    lemma_two_halves(body[5]);
    lemma_two_halves(other[5]);
    let count = algorithm_operators(plain[3] & 7);
    assert(packed_patch(plain) == vm35_patch(body, count));
    assert(packed_patch(raised) == vm35_patch(other, count));
    assert(operator_of(body, 0, count) == operator_at(body, 3));
    assert(operator_of(other, 0, count) == operator_at(other, 3));
}

/// Algorithms 0 and 1 connect two operators, all others four; a count is brought into
/// one to four.
pub proof fn law_operator_counts(algorithm: u8, count: int)
    ensures
        algorithm_operators(algorithm) == 2 <==> algorithm < 2,
        algorithm_operators(algorithm) == 4 <==> algorithm >= 2,
        1 <= bounded_operators(count) <= 4,
        1 <= count <= 4 ==> bounded_operators(count) == count,
        count < 1 ==> bounded_operators(count) == 1,
        count > 4 ==> bounded_operators(count) == 4,
{
}

/// A closing end-of-exclusive byte makes no difference to a voice definition.
pub proof fn law_terminators_do_not_count(message: Seq<u8>)
    requires
        message.len() == 0 || message.last() != 0xf7,
    ensures
        exclusive_voice(message.push(0xf7)) == exclusive_voice(message),
{
    reveal(exclusive_voice);
    assert(message.push(0xf7).drop_last() =~= message);
}

/// A message defines a voice only if it starts with Yamaha's number 0x43, 0x79, the chip
/// 6 or 7, 0x7f and 1, and then under the key in its next four bytes, of which the top
/// bit does not count.
pub proof fn law_voice_messages_name_their_key(message: Seq<u8>)
    requires
        message.len() > 0,
        message.last() != 0xf7,
    ensures
        exclusive_voice(message) matches Some(voice) ==> {
            &&& message.len() >= 11
            &&& message[0] == 0x43 && message[1] == 0x79
            &&& message[2] == 6 || message[2] == 7
            &&& message[3] == 0x7f && message[4] == 1
            &&& voice_key(voice).bank_msb == message[5] % 128
            &&& voice_key(voice).bank_lsb == message[6] % 128
            &&& voice_key(voice).program == message[7] % 128
            &&& voice_key(voice).drum_note == message[8] % 128
            &&& voice is Fm <==> message[9] == 0
        },
{
    reveal(exclusive_voice);
    lemma_top_bit(message[5]);
    lemma_top_bit(message[6]);
    lemma_top_bit(message[7]);
    lemma_top_bit(message[8]);
}

/// The key of a voice is the one under which it is defined, whichever its kind.
pub proof fn law_keys_are_kept(key: MaVoiceKey, patch: MaFmPatch, params: MaPcmRomVoice)
    ensures
        voice_key(MaCustomVoice::Fm { key, patch }) == key,
        voice_key(MaCustomVoice::PcmRom { key, params }) == key,
{
}

/// Whether a message has the form of a voice definition for a chip, of an FM voice for
/// type zero.
pub open spec fn defines_voice(message: Seq<u8>, chip: u8, of_type: u8) -> bool {
    &&& message.len() >= 11 && message.last() != 0xf7
    &&& message[0] == 0x43 && message[1] == 0x79 && message[2] == chip && message[3] == 0x7f
    &&& message[4] == 1
    &&& message[9] == of_type
}

/// An FM voice for the MA-5 is the VM35 body behind the ten bytes of its header, with two
/// operators for algorithms 0 and 1 and four for the others; it is there where the body
/// has them all.
pub proof fn law_ma5_voices_are_plain(message: Seq<u8>, index: int)
    requires
        defines_voice(message, 7, 0),
        message.len() >= 13,
        0 <= index < 4,
    ensures
        ({
            let count: int = if message[12] % 8 < 2 {
                2
            } else {
                4
            };
            &&& exclusive_voice(message) is Some <==> message.len() >= 13 + 7 * count
            &&& exclusive_voice(message) matches Some(voice) ==> {
                &&& voice is Fm
                &&& voice->patch.operator_count == count
                &&& voice->patch.algorithm == message[12] % 8
                &&& voice->patch.lfo == message[12] / 64
                &&& voice->patch.note_shift == 12 - 12 * (message[11] % 4)
                &&& index < count ==> spells_operator(
                    message,
                    13 + 7 * index,
                    voice->patch.operators@[index],
                )
            }
        }),
{
    reveal(exclusive_voice);
    let body = message.skip(10);
    lemma_fields(message[12]);
    law_bytes_spell_the_voice(body, algorithm_operators(body[2] & 7), index);
}

/// An FM voice for the MA-3 is a packed body behind the header: the same voice that the
/// unpacked body gives the MA-5 under the same key.
pub proof fn law_ma3_voices_are_packed(message: Seq<u8>, plain: Seq<u8>)
    requires
        defines_voice(message, 6, 0),
        defines_voice(plain, 7, 0),
        message.subrange(5, 9) == plain.subrange(5, 9),
        packs(plain.skip(10), message.skip(10)),
    ensures
        exclusive_voice(message) is Some,
        exclusive_voice(message) == exclusive_voice(plain),
{
    let (key, other) = (message.subrange(5, 9), plain.subrange(5, 9));
    assert(key[0] == message[5] && other[0] == plain[5]);
    assert(key[1] == message[6] && other[1] == plain[6]);
    assert(key[2] == message[7] && other[2] == plain[7]);
    assert(key[3] == message[8] && other[3] == plain[8]);
    law_unpacking_undoes_packing(plain.skip(10), message.skip(10));
    lemma_algorithm(plain[12]);
    reveal(exclusive_voice);
}

/// A PCM-ROM voice needs sixteen bytes behind the header.  They spell it: a rate that is
/// taken where it lies between 2000 and 48000 Hz and is 8000 Hz elsewhere, the envelope,
/// the level, the loop and end points, and the wave with the switch that loops it.
pub proof fn law_bytes_spell_the_rom_voice(message: Seq<u8>, chip: u8, of_type: u8)
    requires
        chip == 6 || chip == 7,
        of_type != 0,
        defines_voice(message, chip, of_type),
    ensures
        exclusive_voice(message) is Some <==> message.len() >= 26,
        exclusive_voice(message) matches Some(voice) ==> {
            let rate = 256 * message[10] + message[11];
            &&& voice is PcmRom
            &&& 2000 <= rate <= 48000 ==> voice->params.sampling_rate == rate
            &&& !(2000 <= rate <= 48000) ==> voice->params.sampling_rate == 8000
            &&& voice->params.sr == message[14] / 16
            &&& message[15] == voice->params.rr * 16 + voice->params.dr && voice->params.dr < 16
            &&& message[16] == voice->params.ar * 16 + voice->params.sl && voice->params.sl < 16
            &&& voice->params.total_level == message[17] / 4
            &&& voice->params.loop_point == 256 * message[21] + message[22]
            &&& voice->params.end_point == 256 * message[23] + message[24]
            &&& message[25] == digit(voice->params.looping) * 128 + voice->params.wave_id
            &&& voice->params.wave_id < 128
        },
{
    reveal(exclusive_voice);
    if message.len() >= 26 {
        lemma_two_halves(message[14]);
        lemma_two_halves(message[15]);
        lemma_two_halves(message[16]);
        lemma_level(message[17]);
        lemma_top_bit(message[25]);
    }
}

proof fn lemma_top_bit(byte: u8)
    ensures
        byte & 0x7f == byte % 128,
        byte & 0x7f < 128,
        byte == digit(byte & 0x80 != 0) * 128 + (byte & 0x7f),
{
    lemma_fields(byte);
}

/// Appending seven bits to a number of up to 21 bits.
pub proof fn lemma_appended(value: usize, byte: u8)
    by (bit_vector)
    requires
        value < 0x20_0000,
    ensures
        ((value << 7) | ((byte & 0x7f) as usize)) == value * 128 + byte % 128,
        byte & 0x80 == 0 <==> byte < 128,
{
}

/// A variable-length number of up to four bytes is written to base 128, highest digit
/// first, with 128 added to every digit but the last.
pub proof fn law_numbers_have_base_128(data: Seq<u8>, at: int, budget: nat)
    requires
        0 <= at,
        at + 4 <= data.len(),
        budget >= 4,
    ensures
        ({
            let (a, b, c, d) = (data[at], data[at + 1], data[at + 2], data[at + 3]);
            let found = vlq(data, at, 0, budget);
            &&& a < 128 ==> found == Some((a as usize, at + 1))
            &&& a >= 128 && b < 128 ==> found == Some((((a - 128) * 128 + b) as usize, at + 2))
            &&& a >= 128 && b >= 128 && c < 128 ==> found == Some(
                ((((a - 128) * 128 + (b - 128)) * 128 + c) as usize, at + 3),
            )
            &&& a >= 128 && b >= 128 && c >= 128 && d < 128 ==> found == Some(
                (
                    ((((a - 128) * 128 + (b - 128)) * 128 + (c - 128)) * 128 + d) as usize,
                    at + 4,
                ),
            )
        }),
{
    reveal_with_fuel(vlq, 5);
    let first = (0usize << 7) | (data[at] & 0x7f) as usize;
    let second = (first << 7) | (data[at + 1] & 0x7f) as usize;
    let third = (second << 7) | (data[at + 2] & 0x7f) as usize;
    lemma_appended(0, data[at]);
    lemma_appended(first, data[at + 1]);
    lemma_appended(second, data[at + 2]);
    lemma_appended(third, data[at + 3]);
}

/// A variable-length number ends with its first byte below 128; there is none where no
/// such byte is found within the budget.
pub proof fn law_numbers_end_with_a_low_byte(data: Seq<u8>, at: int, value: usize, budget: nat)
    requires
        0 <= at,
    ensures
        match vlq(data, at, value, budget) {
            Some((_, end)) => {
                &&& at < end <= at + budget
                &&& end <= data.len()
                &&& data[end - 1] < 128
                &&& forall|i: int| at <= i < end - 1 ==> #[trigger] data[i] >= 128
            },
            None => forall|i: int|
                at <= i < at + budget && i < data.len() ==> #[trigger] data[i] >= 128,
        },
    decreases budget,
{
    if budget > 0 && at < data.len() {
        lemma_appended(0, data[at]);
        if data[at] >= 128 {
            law_numbers_end_with_a_low_byte(
                data,
                at + 1,
                (value << 7) | (data[at] & 0x7f) as usize,
                (budget - 1) as nat,
            );
        }
    }
}

/// A number does not depend on what stands before it.
pub proof fn lemma_number_behind(
    prefix: Seq<u8>,
    data: Seq<u8>,
    at: int,
    value: usize,
    budget: nat,
)
    requires
        0 <= at,
    ensures
        vlq(prefix + data, prefix.len() + at, value, budget) == match vlq(
            data,
            at,
            value,
            budget,
        ) {
            Some((number, end)) => Some((number, prefix.len() + end)),
            None => None,
        },
    decreases budget,
{
    if budget > 0 && at < data.len() {
        assert((prefix + data)[prefix.len() + at] == data[at]);
        lemma_number_behind(
            prefix,
            data,
            at + 1,
            (value << 7) | (data[at] & 0x7f) as usize,
            (budget - 1) as nat,
        );
    }
}

proof fn lemma_voices_behind(prefix: Seq<u8>, data: Seq<u8>, at: int)
    requires
        0 <= at,
    ensures
        setup_voices(prefix + data, prefix.len() + at) == setup_voices(data, at),
    decreases data.len() - at,
{
    let all = prefix + data;
    if at < data.len() {
        assert(all[prefix.len() + at] == data[at]);
        lemma_number_behind(prefix, data, at + 1, 0, 5);
        lemma_vlq_end(data, at + 1, 0, 5);
        if let Some((length, start)) = vlq(data, at + 1, 0, 5) {
            if start + length <= data.len() {
                lemma_voices_behind(prefix, data, start + length);
                assert(all.subrange(prefix.len() + start, prefix.len() + start + length)
                    =~= data.subrange(start, start + length));
            }
        }
    }
}

/// A setup message: 0xf0, its length below 128, and its bytes.
pub open spec fn setup_message(message: Seq<u8>) -> Seq<u8> {
    seq![0xf0u8, message.len() as u8] + message
}

/// The voices of setup data are those of its messages in order: a message that defines
/// one adds it in front of those behind, any other adds none.  Where no message starts,
/// no voice follows.
pub proof fn law_setup_voices_follow_each_other(message: Seq<u8>, rest: Seq<u8>)
    requires
        message.len() < 128,
    ensures
        setup_voices(setup_message(message) + rest, 0) == match exclusive_voice(message) {
            Some(voice) => seq![voice] + setup_voices(rest, 0),
            None => setup_voices(rest, 0),
        },
        rest.len() == 0 || rest[0] != 0xf0 ==> setup_voices(rest, 0) == Seq::<
            MaCustomVoice,
        >::empty(),
{
    let first = setup_message(message);
    let data = first + rest;
    assert(data[0] == 0xf0 && data[1] == message.len());
    lemma_appended(0, data[1]);
    assert(vlq(data, 1, 0, 5) == Some((message.len() as usize, 2int)));
    assert(data.subrange(2, 2 + message.len() as int) =~= message);
    lemma_voices_behind(first, rest, 0);
    assert(first.len() == 2 + message.len());
}

/// A setup message that is cut off defines no voice, nor does anything behind it.
pub proof fn law_cut_messages_define_nothing(message: Seq<u8>, length: u8)
    requires
        message.len() < length < 128,
    ensures
        setup_voices(seq![0xf0u8, length] + message, 0) == Seq::<MaCustomVoice>::empty(),
{
    let data = seq![0xf0u8, length] + message;
    assert(data[0] == 0xf0 && data[1] == length);
    lemma_appended(0, length);
    assert(vlq(data, 1, 0, 5) == Some((length as usize, 2int)));
}

/// A packed body of four bytes or more defines a voice, and what it lacks counts as zeros;
/// a shorter one defines none.
pub proof fn law_short_packed_bodies_are_filled_up(packed: Seq<u8>)
    ensures
        packed.len() < 4 ==> packed_patch(packed) is None,
        packed.len() >= 4 ==> packed_patch(packed) is Some,
        packed.len() >= 4 ==> packed_patch(packed.push(0)) == packed_patch(packed),
{
    let longer = packed.push(0);
    assert forall|i: int| 0 <= i < 31 implies unpacked_body(longer)[i] == unpacked_body(
        packed,
    )[i] by {
        let index = i + 1 + i / 7;
        let place = index % 8;
        assert(packed_byte(longer, index) == packed_byte(packed, index));
        assert(packed_byte(longer, index - place) == packed_byte(packed, index - place));
    }
    assert(unpacked_body(longer) =~= unpacked_body(packed));
}

} // verus!
