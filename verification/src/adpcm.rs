//! Yamaha 4-bit ADPCM (the codec FFmpeg exposes as ADPCM_YAMAHA).
//!
//! Each nibble carries a sign bit and a 3-bit magnitude.  The predictor starts
//! at zero and the adaptive step starts at 127.  The scale table is specified in
//! Q8; a /64 approximation would change the state after every nibble.
use vstd::prelude::*;

verus! {

/// Smallest adaptive step.
pub const STEP_MIN: u32 = 127;

/// Largest adaptive step.
pub const STEP_MAX: u32 = 24576;

/// The decoder's state as mathematical integers.
pub struct AdpcmState {
    pub predictor: int,
    pub step: int,
}

/// `value` brought into `low..=high`.
pub open spec fn clamped(value: int, low: int, high: int) -> int {
    if value < low {
        low
    } else if value > high {
        high
    } else {
        value
    }
}

/// The Q8 factor by which the step grows or shrinks after a nibble of this
/// magnitude.
pub open spec fn step_scale(magnitude: int) -> int {
    if magnitude < 4 {
        230
    } else if magnitude == 4 {
        307
    } else if magnitude == 5 {
        409
    } else if magnitude == 6 {
        512
    } else {
        614
    }
}

/// The state before the first nibble.
pub open spec fn initial_state() -> AdpcmState {
    AdpcmState { predictor: 0, step: 127 }
}

/// The state after one more nibble: bit 3 is the sign, bits 0 to 2 the
/// magnitude of the difference to the previous sample.
pub open spec fn after_nibble(state: AdpcmState, nibble: u8) -> AdpcmState {
    let magnitude = nibble as int % 8;
    let difference = ((magnitude * 2 + 1) * state.step) / 8;
    let moved = if nibble as int / 8 % 2 == 1 {
        state.predictor - difference
    } else {
        state.predictor + difference
    };
    AdpcmState {
        predictor: clamped(moved, i16::MIN as int, i16::MAX as int),
        step: clamped(
            (state.step * step_scale(magnitude)) / 256,
            STEP_MIN as int,
            STEP_MAX as int,
        ),
    }
}

/// The state after the first `count` nibbles.
pub open spec fn state_after(nibbles: Seq<u8>, count: nat) -> AdpcmState
    decreases count,
{
    if count == 0 {
        initial_state()
    } else {
        after_nibble(state_after(nibbles, (count - 1) as nat), nibbles[count - 1])
    }
}

/// The samples that a run of nibbles decodes to: one per nibble, each the
/// predictor after that nibble.
pub open spec fn decoded_nibbles(nibbles: Seq<u8>) -> Seq<i16> {
    Seq::new(nibbles.len(), |i: int| state_after(nibbles, (i + 1) as nat).predictor as i16)
}

/// The low nibbles of the bytes, in order.
pub open spec fn low_nibbles(data: Seq<u8>) -> Seq<u8> {
    Seq::new(data.len(), |i: int| data[i] & 0x0f)
}

/// The high nibbles of the bytes, in order.
pub open spec fn high_nibbles(data: Seq<u8>) -> Seq<u8> {
    Seq::new(data.len(), |i: int| data[i] >> 4)
}

/// `left` and `right` taken in turn.
pub open spec fn interleaved<T>(left: Seq<T>, right: Seq<T>) -> Seq<T> {
    Seq::new(
        2 * left.len(),
        |i: int|
            if i % 2 == 0 {
                left[i / 2]
            } else {
                right[i / 2]
            },
    )
}

/// What a block of ADPCM data decodes to: one state machine over the low and
/// the high nibble of each byte for mono, one per nibble position for stereo.
pub open spec fn decoded_adpcm(data: Seq<u8>, channels: u8) -> Option<Seq<i16>> {
    if channels == 1 {
        Some(decoded_nibbles(interleaved(low_nibbles(data), high_nibbles(data))))
    } else if channels == 2 {
        Some(
            interleaved(decoded_nibbles(low_nibbles(data)), decoded_nibbles(high_nibbles(data))),
        )
    } else {
        None
    }
}

/// A decoder between two nibbles.
#[derive(Copy, Clone)]
pub struct DecodeContext {
    predictor: i32,
    step: u32,
}

impl View for DecodeContext {
    type V = AdpcmState;

    closed spec fn view(&self) -> AdpcmState {
        AdpcmState { predictor: self.predictor as int, step: self.step as int }
    }
}

impl AdpcmState {
    /// The predictor is a 16-bit sample and the step lies in its range.
    pub open spec fn valid(self) -> bool {
        &&& i16::MIN <= self.predictor <= i16::MAX
        &&& STEP_MIN <= self.step <= STEP_MAX
    }
}

/// The scale table in executable form.
fn step_scale_q8(magnitude: u32) -> (scale: u32)
    requires
        magnitude < 8,
    ensures
        scale == step_scale(magnitude as int),
{
    match magnitude {
        0 | 1 | 2 | 3 => 230,
        4 => 307,
        5 => 409,
        6 => 512,
        _ => 614,
    }
}

impl DecodeContext {
    /// The state before the first nibble.
    pub fn new() -> (context: Self)
        ensures
            context@ == initial_state(),
    {
        Self { predictor: 0, step: STEP_MIN }
    }

    /// Decodes one nibble: moves the predictor and the step, and returns the new
    /// predictor.
    pub fn decode_nibble(&mut self, nibble: u8) -> (sample: i16)
        requires
            nibble < 16,
            old(self)@.valid(),
        ensures
            final(self)@ == after_nibble(old(self)@, nibble),
            final(self)@.valid(),
            sample == final(self)@.predictor,
    {
        assert(nibble & 0x07 == nibble % 8) by (bit_vector);
        assert(nibble < 16 ==> ((nibble & 0x08 != 0) <==> (nibble / 8) % 2 == 1)) by (bit_vector);
        let magnitude = (nibble & 0x07) as u32;
        let weight = magnitude * 2 + 1;
        let step = self.step;
        assert(weight * step <= 15 * 24576) by (nonlinear_arith)
            requires
                weight <= 15,
                step <= 24576,
        ;
        let difference = (weight * step) / 8;
        if nibble & 0x08 != 0 {
            self.predictor = self.predictor - difference as i32;
        } else {
            self.predictor = self.predictor + difference as i32;
        }
        if self.predictor < -32768 {
            self.predictor = -32768;
        } else if self.predictor > 32767 {
            self.predictor = 32767;
        }
        let scale = step_scale_q8(magnitude);
        assert(step * scale <= 24576 * 614) by (nonlinear_arith)
            requires
                scale <= 614,
                step <= 24576,
        ;
        let scaled = (step * scale) / 256;
        self.step = if scaled < STEP_MIN {
            STEP_MIN
        } else if scaled > STEP_MAX {
            STEP_MAX
        } else {
            scaled
        };
        self.predictor as i16
    }
}

/// Decode Yamaha 4-bit ADPCM into interleaved signed 16-bit PCM.
///
/// SMAF uses the same byte ordering as FFmpeg's ADPCM_YAMAHA decoder:
///
/// * mono: low nibble first, then high nibble, both through one state machine;
/// * stereo: low nibble is left and high nibble is right, with independent
///   predictor/step state for each channel.
///
/// Any other channel count is refused.
pub fn decode_yamaha_adpcm(data: &[u8], channels: u8) -> (samples: Option<Vec<i16>>)
    ensures
        samples is Some <==> channels == 1 || channels == 2,
        samples matches Some(decoded) ==> decoded_adpcm(data@, channels) == Some(decoded@),
{
    match channels {
        1 => Some(decode_mono(data)),
        2 => Some(decode_stereo(data)),
        _ => None,
    }
}

fn decode_mono(data: &[u8]) -> (result: Vec<i16>)
    ensures
        decoded_adpcm(data@, 1) == Some(result@),
{
    let ghost nibbles = interleaved(low_nibbles(data@), high_nibbles(data@));
    let mut result: Vec<i16> = Vec::new();
    let mut context = DecodeContext::new();
    let mut i: usize = 0;
    while i < data.len()
        invariant
            i <= data.len(),
            nibbles == interleaved(low_nibbles(data@), high_nibbles(data@)),
            result@ == decoded_nibbles(nibbles).take(2 * i),
            context@ == state_after(nibbles, (2 * i) as nat),
            context@.valid(),
        decreases data.len() - i,
    {
        let byte = data[i];
        assert(byte & 0x0f < 16 && byte >> 4 < 16) by (bit_vector);
        assert(nibbles[2 * i] == byte & 0x0f);
        assert(nibbles[2 * i + 1] == byte >> 4);
        result.push(context.decode_nibble(byte & 0x0f));
        assert(context@ == state_after(nibbles, (2 * i + 1) as nat));
        result.push(context.decode_nibble(byte >> 4));
        assert(context@ == state_after(nibbles, (2 * i + 2) as nat));
        i += 1;
        assert(result@ =~= decoded_nibbles(nibbles).take(2 * i));
    }
    assert(decoded_nibbles(nibbles).take(2 * i) =~= decoded_nibbles(nibbles));
    result
}

fn decode_stereo(data: &[u8]) -> (result: Vec<i16>)
    ensures
        decoded_adpcm(data@, 2) == Some(result@),
{
    let ghost low = low_nibbles(data@);
    let ghost high = high_nibbles(data@);
    let ghost all = interleaved(decoded_nibbles(low), decoded_nibbles(high));
    let mut result: Vec<i16> = Vec::new();
    let mut left = DecodeContext::new();
    let mut right = DecodeContext::new();
    let mut i: usize = 0;
    while i < data.len()
        invariant
            i <= data.len(),
            low == low_nibbles(data@),
            high == high_nibbles(data@),
            all == interleaved(decoded_nibbles(low), decoded_nibbles(high)),
            result@ == all.take(2 * i),
            left@ == state_after(low, i as nat),
            right@ == state_after(high, i as nat),
            left@.valid(),
            right@.valid(),
        decreases data.len() - i,
    {
        let byte = data[i];
        assert(byte & 0x0f < 16 && byte >> 4 < 16) by (bit_vector);
        result.push(left.decode_nibble(byte & 0x0f));
        assert(left@ == state_after(low, (i + 1) as nat));
        result.push(right.decode_nibble(byte >> 4));
        assert(right@ == state_after(high, (i + 1) as nat));
        i += 1;
        assert(result@ =~= all.take(2 * i));
    }
    assert(all.take(2 * i) =~= all);
    result
}

/// Whatever the nibbles, the predictor stays a 16-bit sample and the step stays
/// in its range.
pub proof fn law_state_stays_valid(nibbles: Seq<u8>, count: nat)
    ensures
        state_after(nibbles, count).valid(),
    decreases count,
{
    if count > 0 {
        law_state_stays_valid(nibbles, (count - 1) as nat);
    }
}

/// The state depends on the nibbles so far only.
proof fn lemma_state_of_prefix(shorter: Seq<u8>, longer: Seq<u8>, count: nat)
    requires
        count <= shorter.len() <= longer.len(),
        shorter == longer.take(shorter.len() as int),
    ensures
        state_after(shorter, count) == state_after(longer, count),
    decreases count,
{
    if count > 0 {
        lemma_state_of_prefix(shorter, longer, (count - 1) as nat);
        assert(longer.take(shorter.len() as int)[count - 1] == longer[count - 1]);
    }
}

/// Each byte decodes to two samples, and what a block decodes to is the start of
/// what any longer block decodes to.
pub proof fn law_longer_block_extends(data: Seq<u8>, more: Seq<u8>, channels: u8)
    requires
        channels == 1 || channels == 2,
    ensures
        decoded_adpcm(data, channels) is Some,
        decoded_adpcm(data, channels).unwrap().len() == 2 * data.len(),
        decoded_adpcm(data, channels).unwrap() == decoded_adpcm(
            data + more,
            channels,
        ).unwrap().take(2 * data.len() as int),
{
    let all = data + more;
    let (low, high) = (low_nibbles(data), high_nibbles(data));
    let (all_low, all_high) = (low_nibbles(all), high_nibbles(all));
    assert(low =~= all_low.take(low.len() as int));
    assert(high =~= all_high.take(high.len() as int));
    let both = interleaved(low, high);
    let all_both = interleaved(all_low, all_high);
    assert(both =~= all_both.take(both.len() as int));
    let short = decoded_adpcm(data, channels).unwrap();
    let long = decoded_adpcm(all, channels).unwrap();
    assert forall|i: int| 0 <= i < short.len() implies short[i] == long[i] by {
        if channels == 1 {
            lemma_state_of_prefix(both, all_both, (i + 1) as nat);
        } else if i % 2 == 0 {
            lemma_state_of_prefix(low, all_low, (i / 2 + 1) as nat);
        } else {
            lemma_state_of_prefix(high, all_high, (i / 2 + 1) as nat);
        }
    }
    assert(short =~= long.take(2 * data.len() as int));
}

/// The two channels of a stereo block do not touch each other: blocks with the
/// same low nibbles have the same left samples, blocks with the same high nibbles
/// the same right ones.
pub proof fn law_stereo_channels_are_independent(one: Seq<u8>, other: Seq<u8>, frame: int)
    requires
        one.len() == other.len(),
        0 <= frame < one.len(),
    ensures
        low_nibbles(one) == low_nibbles(other) ==> decoded_adpcm(one, 2).unwrap()[2 * frame]
            == decoded_adpcm(other, 2).unwrap()[2 * frame],
        high_nibbles(one) == high_nibbles(other) ==> decoded_adpcm(one, 2).unwrap()[2 * frame + 1]
            == decoded_adpcm(other, 2).unwrap()[2 * frame + 1],
{
}

/// The step after a nibble is the step before times 230, 230, 230, 230, 307, 409, 512
/// or 614 for magnitudes 0 to 7, divided by 256, within 127 and 24576.  Magnitudes up
/// to 3 never raise it, the others never lower it, and 6 doubles it up to the limit.
pub proof fn law_step_follows_the_magnitude(state: AdpcmState, nibble: u8)
    requires
        state.valid(),
        nibble < 16,
    ensures
        ({
            let magnitude = nibble % 8;
            let before = state.step;
            let after = after_nibble(state, nibble).step;
            let scaled = before * seq![230int, 230, 230, 230, 307, 409, 512, 614][magnitude as int];
            &&& 127 <= after <= 24576
            &&& scaled < 127 * 256 ==> after == 127
            &&& scaled >= 24576 * 256 ==> after == 24576
            &&& 127 * 256 <= scaled < 24576 * 256 ==> 256 * after <= scaled < 256 * after + 256
            &&& magnitude <= 3 ==> after <= before
            &&& magnitude >= 4 ==> after >= before
            &&& magnitude == 6 ==> after == (if 2 * before > 24576 {
                24576
            } else {
                2 * before
            })
        }),
{
}

/// A nibble moves the sample by 1, 3, 5, 7, 9, 11, 13 or 15 eighths of the step for
/// magnitudes 0 to 7, rounded down: upwards for nibbles 0 to 7, downwards for 8 to 15,
/// as far as 16 bits reach.
pub proof fn law_nibble_moves_the_sample(state: AdpcmState, nibble: u8)
    requires
        state.valid(),
        nibble < 16,
    ensures
        ({
            let weight = 2 * (nibble % 8) + 1;
            let before = state.predictor;
            let after = after_nibble(state, nibble).predictor;
            &&& -32768 <= after <= 32767
            &&& nibble < 8 ==> after >= before && 8 * (after - before) <= weight * state.step && (
            after < 32767 ==> weight * state.step < 8 * (after - before) + 8)
            &&& nibble >= 8 ==> after <= before && 8 * (before - after) <= weight * state.step && (
            after > -32768 ==> weight * state.step < 8 * (before - after) + 8)
        }),
{
    let weight = 2 * (nibble % 8) + 1;
    assert(weight * state.step >= 0) by (nonlinear_arith)
        requires
            weight >= 0,
            state.step >= 0,
    ;
    assert((nibble as int % 8 * 2 + 1) * state.step == weight * state.step);
}

/// The sample of a mono block that comes before sample `i`, silence before the first.
pub open spec fn sample_before(samples: Seq<i16>, i: int) -> int {
    if i == 0 {
        0
    } else {
        samples[i - 1] as int
    }
}

/// In a mono block the low half of a byte gives the sample before that of the high
/// half; a half of 0 to 7 never lowers the sample, one of 8 to 15 never raises it, and
/// it moves by at least 127 eighths of its weight where 16 bits allow.  The first
/// sample is that of step 127 from silence.
pub proof fn law_mono_samples_follow_their_nibbles(data: Seq<u8>, i: int)
    requires
        0 <= i < 2 * data.len(),
    ensures
        ({
            let samples = decoded_adpcm(data, 1).unwrap();
            let nibble = if i % 2 == 0 {
                data[i / 2] % 16
            } else {
                data[i / 2] / 16
            };
            let weight = 2 * (nibble % 8) + 1;
            let before = sample_before(samples, i);
            &&& samples.len() == 2 * data.len()
            &&& nibble < 8 ==> samples[i] >= before && (samples[i] < 32767 ==> 8 * (samples[i]
                - before) > weight * 127 - 8)
            &&& nibble >= 8 ==> samples[i] <= before && (samples[i] > -32768 ==> 8 * (before
                - samples[i]) > weight * 127 - 8)
            &&& i == 0 ==> samples[0] == (if nibble < 8 {
                weight * 127 / 8
            } else {
                -(weight * 127 / 8)
            })
        }),
{
    let nibbles = interleaved(low_nibbles(data), high_nibbles(data));
    lemma_halves(data[i / 2]);
    law_state_stays_valid(nibbles, i as nat);
    law_state_stays_valid(nibbles, (i + 1) as nat);
    let state = state_after(nibbles, i as nat);
    law_nibble_moves_the_sample(state, nibbles[i]);
    let weight = 2 * (nibbles[i] % 8) + 1;
    assert(weight * state.step >= weight * 127) by (nonlinear_arith)
        requires
            weight >= 0,
            state.step >= 127,
    ;
    if i == 0 {
        assert((nibbles[0] as int % 8 * 2 + 1) * 127 == weight * 127);
    }
}

proof fn lemma_halves(byte: u8)
    by (bit_vector)
    ensures
        byte & 0x0f == byte % 16,
        byte >> 4 == byte / 16,
        byte >> 4 < 16,
{
}

/// A stereo block is two mono blocks: its left samples are those of the mono block
/// whose bytes hold its low halves two by two, the earlier one low, its right samples
/// those of the one with its high halves.
pub proof fn law_stereo_is_two_monos(data: Seq<u8>, left: Seq<u8>, right: Seq<u8>, i: int)
    requires
        data.len() == 2 * left.len(),
        data.len() == 2 * right.len(),
        forall|k: int|
            0 <= k < left.len() ==> #[trigger] left[k] == data[2 * k] % 16 + 16 * (data[2 * k + 1]
                % 16),
        forall|k: int|
            0 <= k < right.len() ==> #[trigger] right[k] == data[2 * k] / 16 + 16 * (data[2 * k + 1]
                / 16),
        0 <= i < data.len(),
    ensures
        decoded_adpcm(data, 2).unwrap()[2 * i] == decoded_adpcm(left, 1).unwrap()[i],
        decoded_adpcm(data, 2).unwrap()[2 * i + 1] == decoded_adpcm(right, 1).unwrap()[i],
{
    let (low, high) = (low_nibbles(data), high_nibbles(data));
    let left_both = interleaved(low_nibbles(left), high_nibbles(left));
    let right_both = interleaved(low_nibbles(right), high_nibbles(right));
    assert forall|k: int| 0 <= k < data.len() implies low[k] == left_both[k] && high[k]
        == right_both[k] by {
        lemma_halves(data[k]);
        lemma_halves(left[k / 2]);
        lemma_halves(right[k / 2]);
        if k % 2 == 0 {
            assert(data[k] == data[2 * (k / 2)]);
        } else {
            assert(data[k] == data[2 * (k / 2) + 1]);
        }
    }
    assert(low =~= left_both);
    assert(high =~= right_both);
}

} // verus!
