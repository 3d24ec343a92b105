//! The discrete side of the FM voice: how operators are connected, what stage
//! their envelopes are in, which waveform they select, and how long a note lasts.
use vstd::prelude::*;

verus! {

/// The longest release tail of a note, in milliseconds.
pub const MAX_RELEASE_MS: u32 = 5_000;

/// Stage of an operator's envelope.
#[derive(Clone, Copy, Debug, PartialEq, Eq, Structural)]
pub enum EnvelopeStage {
    Attack,
    Decay,
    Sustain,
    Release,
    Done,
}

impl EnvelopeStage {
    /// The stage behind a key-off.  An operator may be set to ignore it.
    pub open spec fn released(self, ignore_key_off: bool) -> Self {
        if ignore_key_off || self == EnvelopeStage::Done {
            self
        } else {
            EnvelopeStage::Release
        }
    }

    /// The stage that follows when the level has reached the stage's target.
    pub open spec fn next(self) -> Self {
        match self {
            EnvelopeStage::Attack => EnvelopeStage::Decay,
            EnvelopeStage::Decay => EnvelopeStage::Sustain,
            EnvelopeStage::Sustain => EnvelopeStage::Done,
            EnvelopeStage::Release => EnvelopeStage::Done,
            EnvelopeStage::Done => EnvelopeStage::Done,
        }
    }
}

/// The operators that are heard: those that modulate no other one.
///
/// A voice of two operators only knows the first two connections.
pub open spec fn carriers(algorithm: u8, operator_count: u8) -> Seq<usize> {
    if operator_count <= 2 {
        if algorithm & 1 == 0 {
            seq![1usize]
        } else {
            seq![0usize, 1]
        }
    } else {
        outputs(algorithm)
    }
}

/// The operators whose sum a connection puts out.
pub open spec fn outputs(algorithm: u8) -> Seq<usize> {
    let connection = algorithm & 7;
    if connection == 0 {
        seq![1usize]
    } else if connection == 1 {
        seq![0usize, 1]
    } else if connection == 2 {
        seq![0usize, 1, 2, 3]
    } else if connection == 3 || connection == 4 {
        seq![3usize]
    } else if connection == 5 {
        seq![1usize, 3]
    } else if connection == 6 {
        seq![0usize, 3]
    } else {
        seq![0usize, 2, 3]
    }
}

/// The operators whose sum modulates an operator.
pub open spec fn modulators(algorithm: u8, operator: usize) -> Seq<usize> {
    let connection = algorithm & 7;
    if operator == 1 && (connection == 0 || connection == 4 || connection == 5) {
        seq![0usize]
    } else if operator == 2 && connection == 3 {
        seq![0usize, 1]
    } else if operator == 2 && (connection == 4 || connection == 6 || connection == 7) {
        seq![1usize]
    } else if operator == 3 && 3 <= connection <= 6 {
        seq![2usize]
    } else {
        Seq::empty()
    }
}

/// How many operators a connection runs.
pub open spec fn running_operators(algorithm: u8) -> nat {
    if algorithm & 7 <= 1 {
        2
    } else {
        4
    }
}

/// The weight of a connection's sum, in thousandths.
pub open spec fn output_weight(algorithm: u8) -> nat {
    let connection = algorithm & 7;
    if connection == 1 || connection == 5 || connection == 6 {
        500
    } else if connection == 2 {
        350
    } else if connection == 7 {
        400
    } else {
        1000
    }
}

/// The operators that are heard.
pub fn carrier_indices(algorithm: u8, operator_count: u8) -> (indices: &'static [usize])
    ensures
        indices@ == carriers(algorithm, operator_count),
{
    if operator_count <= 2 {
        let indices: &'static [usize] = if algorithm & 1 == 0 {
            &[1]
        } else {
            &[0, 1]
        };
        assert(indices@ =~= carriers(algorithm, operator_count));
        return indices;
    }
    output_indices(algorithm)
}

/// The operators whose sum a connection puts out.
pub fn output_indices(algorithm: u8) -> (indices: &'static [usize])
    ensures
        indices@ == outputs(algorithm),
{
    let indices: &'static [usize] = match algorithm & 7 {
        0 => &[1],
        1 => &[0, 1],
        2 => &[0, 1, 2, 3],
        3 | 4 => &[3],
        5 => &[1, 3],
        6 => &[0, 3],
        _ => &[0, 2, 3],
    };
    assert(indices@ =~= outputs(algorithm));
    indices
}

/// The operators whose sum modulates an operator.
pub fn modulator_indices(algorithm: u8, operator: usize) -> (indices: &'static [usize])
    ensures
        indices@ == modulators(algorithm, operator),
{
    let indices: &'static [usize] = match (operator, algorithm & 7) {
        (1, 0) | (1, 4) | (1, 5) => &[0],
        (2, 3) => &[0, 1],
        (2, 4) | (2, 6) | (2, 7) => &[1],
        (3, 3) | (3, 4) | (3, 5) | (3, 6) => &[2],
        _ => &[],
    };
    assert(indices@ =~= modulators(algorithm, operator));
    indices
}

/// How many operators a connection runs.
pub fn running_count(algorithm: u8) -> (count: usize)
    ensures
        count == running_operators(algorithm),
{
    if algorithm & 7 <= 1 {
        2
    } else {
        4
    }
}

/// The weight of a connection's sum, in thousandths.
pub fn output_gain_per_mille(algorithm: u8) -> (weight: u16)
    ensures
        weight == output_weight(algorithm),
{
    match algorithm & 7 {
        1 | 5 | 6 => 500,
        2 => 350,
        7 => 400,
        _ => 1000,
    }
}

/// The envelope stages of a voice.
#[derive(Clone, Copy, Debug, PartialEq, Eq)]
pub struct VoiceStages {
    pub algorithm: u8,
    pub operator_count: u8,
    pub stages: [EnvelopeStage; 4],
    pub ignore_key_off: [bool; 4],
}

impl VoiceStages {
    /// Whether all operators that are heard have come to their end.
    pub open spec fn silent(self) -> bool {
        forall|i: int|
            0 <= i < carriers(self.algorithm, self.operator_count).len()
                ==> self.stages@[#[trigger] carriers(
                self.algorithm,
                self.operator_count,
            )[i] as int] == EnvelopeStage::Done
    }

    /// The stages of a voice whose key goes down.
    pub fn new(algorithm: u8, operator_count: u8, ignore_key_off: [bool; 4]) -> (voice: Self)
        ensures
            voice.algorithm == algorithm,
            voice.operator_count == operator_count,
            voice.ignore_key_off == ignore_key_off,
            forall|i: int| 0 <= i < 4 ==> voice.stages@[i] == EnvelopeStage::Attack,
    {
        VoiceStages { algorithm, operator_count, stages: [EnvelopeStage::Attack;4], ignore_key_off }
    }

    /// The key goes up.
    ///
    /// XOF explicitly means Ignore KeyOff in VM35.  Such an operator keeps
    /// following its own decay/sustain envelope.
    pub fn key_off(&mut self)
        ensures
            final(self).algorithm == old(self).algorithm,
            final(self).operator_count == old(self).operator_count,
            final(self).ignore_key_off == old(self).ignore_key_off,
            forall|i: int|
                0 <= i < 4 ==> #[trigger] final(self).stages@[i] == if i
                    < old(self).operator_count {
                    old(self).stages@[i].released(old(self).ignore_key_off@[i])
                } else {
                    old(self).stages@[i]
                },
    {
        let mut i: usize = 0;
        while i < 4 && i < self.operator_count as usize
            invariant
                i <= 4,
                i <= old(self).operator_count || i == 0,
                self.algorithm == old(self).algorithm,
                self.operator_count == old(self).operator_count,
                self.ignore_key_off == old(self).ignore_key_off,
                forall|k: int|
                    0 <= k < 4 ==> #[trigger] self.stages@[k] == if k < i {
                        old(self).stages@[k].released(old(self).ignore_key_off@[k])
                    } else {
                        old(self).stages@[k]
                    },
            decreases 4 - i,
        {
            if !(self.ignore_key_off[i] || self.stages[i] == EnvelopeStage::Done) {
                self.stages[i] = EnvelopeStage::Release;
            }
            i += 1;
        }
    }

    /// The level of an operator has reached the target of its stage.
    pub fn advance(&mut self, operator: usize)
        requires
            operator < 4,
        ensures
            final(self).algorithm == old(self).algorithm,
            final(self).operator_count == old(self).operator_count,
            final(self).ignore_key_off == old(self).ignore_key_off,
            final(self).stages@ == old(self).stages@.update(
                operator as int,
                old(self).stages@[operator as int].next(),
            ),
    {
        self.stages[operator] = match self.stages[operator] {
            EnvelopeStage::Attack => EnvelopeStage::Decay,
            EnvelopeStage::Decay => EnvelopeStage::Sustain,
            EnvelopeStage::Sustain => EnvelopeStage::Done,
            EnvelopeStage::Release => EnvelopeStage::Done,
            EnvelopeStage::Done => EnvelopeStage::Done,
        };
    }

    /// Whether the voice has come to its end.
    ///
    /// A modulator with RR=0/XOF can legitimately keep running after every
    /// audible carrier is silent.  Waiting for all operators creates several
    /// seconds of false tail.  Playback is complete when all carriers for the
    /// selected connection algorithm have completed.
    pub fn finished(&self) -> (over: bool)
        ensures
            over == self.silent(),
    {
        let indices = carrier_indices(self.algorithm, self.operator_count);
        let mut i: usize = 0;
        while i < indices.len()
            invariant
                i <= indices.len(),
                indices@ == carriers(self.algorithm, self.operator_count),
                forall|k: int|
                    0 <= k < i ==> self.stages@[#[trigger] carriers(
                        self.algorithm,
                        self.operator_count,
                    )[k] as int] == EnvelopeStage::Done,
            decreases indices.len() - i,
        {
            assert(indices@[i as int] < 4);
            if self.stages[indices[i]] != EnvelopeStage::Done {
                assert(carriers(self.algorithm, self.operator_count)[i as int]
                    == indices@[i as int]);
                return false;
            }
            i += 1;
        }
        true
    }
}

/// Family of an operator's waveform.
#[derive(Clone, Copy, Debug, PartialEq, Eq, Structural)]
pub enum WaveFamily {
    /// OPL3-compatible, with the shape.
    Opl(u8),
    /// Clipped OPL3-compatible, with the shape.
    Clipped(u8),
    Square,
    Triangle(u8),
    Saw(u8),
    Silent,
}

/// The family that a waveform selector stands for.
pub open spec fn wave_family(selector: u8) -> WaveFamily {
    let shape = selector & 31;
    if shape <= 7 {
        WaveFamily::Opl(selector & 7)
    } else if shape <= 13 {
        WaveFamily::Clipped(((selector - 8) as u8) & 7)
    } else if shape == 14 || shape == 22 || shape == 30 {
        WaveFamily::Square
    } else if shape == 15 || shape == 23 || shape == 31 {
        WaveFamily::Silent
    } else if shape <= 21 {
        WaveFamily::Triangle((selector - 16) as u8)
    } else {
        WaveFamily::Saw((selector - 24) as u8)
    }
}

/// The family that a waveform selector stands for.
///
/// WS0..7 are the OPL3-compatible family, WS8..13 amplitude-clipped variants of
/// WS0..5, WS14/22/30 square-wave variants, WS16..21 triangle-family and WS24..29
/// saw-family variants.  WS15/23/31 are waveform-memory selectors on MA-3/MA-5; a
/// VM35 patch alone does not contain that RAM waveform, and silence is safer than
/// fabricating an unrelated oscillator.
pub fn waveform_family(selector: u8) -> (family: WaveFamily)
    ensures
        family == wave_family(selector),
{
    let shape = selector & 31;
    assert(selector & 31 <= selector) by (bit_vector);
    match shape {
        0..=7 => WaveFamily::Opl(selector & 7),
        8..=13 => WaveFamily::Clipped((selector - 8) & 7),
        14 | 22 | 30 => WaveFamily::Square,
        15 | 23 | 31 => WaveFamily::Silent,
        16..=21 => WaveFamily::Triangle(selector - 16),
        _ => {
            assert(selector & 31 <= 31) by (bit_vector);
            WaveFamily::Saw(selector - 24)
        },
    }
}

/// Twice an operator's frequency multiple.
///
/// MA/YMF825 MULTI is linear: 0 means x0.5, 1..15 mean x1..x15.
pub fn doubled_multiple(multi: u8) -> (doubled: u8)
    ensures
        doubled == (if multi == 0 { 1 } else { 2 * (multi & 15) }),
        1 <= multi <= 15 ==> doubled == multi + multi,
        multi > 15 ==> doubled == 2 * (multi % 16),
{
    assert(multi & 15 == multi % 16) by (bit_vector);
    if multi == 0 {
        1
    } else {
        2 * (multi & 15)
    }
}

/// How long an FM note sounds, in frames: while its key is down, and behind it
/// until the voice has come to its end, but no longer than the release limit.
#[derive(Clone, Copy, Debug, PartialEq, Eq, Structural)]
pub struct NoteGate {
    pub gate_frames_remaining: u64,
    pub release_frames_rendered: u64,
    pub release_limit: u64,
    pub key_off: bool,
}

impl NoteGate {
    /// No more frames of release have sounded than may.
    pub open spec fn valid(self) -> bool {
        self.release_frames_rendered <= self.release_limit
    }

    /// The most frames that can still sound.
    pub open spec fn longest(self) -> int {
        self.gate_frames_remaining + self.release_limit - self.release_frames_rendered
    }

    /// The key goes down.
    pub fn new(gate_ms: u32, sample_rate: u32) -> (gate: Self)
        ensures
            gate.gate_frames_remaining == gate_ms * sample_rate / 1000,
            gate.release_frames_rendered == 0,
            gate.release_limit == MAX_RELEASE_MS * sample_rate / 1000,
            gate.release_limit == 5 * sample_rate,
            1000 * gate.gate_frames_remaining <= gate_ms * sample_rate < 1000 * (
            gate.gate_frames_remaining + 1),
            !gate.key_off,
            gate.valid(),
    {
        assert(gate_ms * sample_rate <= 0xffff_ffff * 0xffff_ffff) by (nonlinear_arith)
            requires
                gate_ms <= 0xffff_ffff,
                sample_rate <= 0xffff_ffff,
        ;
        NoteGate {
            gate_frames_remaining: gate_ms as u64 * sample_rate as u64 / 1000,
            release_frames_rendered: 0,
            release_limit: MAX_RELEASE_MS as u64 * sample_rate as u64 / 1000,
            key_off: false,
        }
    }

    /// Whether the key goes up before the next frame.  It does so once.
    pub fn key_goes_up(&mut self) -> (up: bool)
        ensures
            up == (old(self).gate_frames_remaining == 0 && !old(self).key_off),
            *final(self) == (NoteGate { key_off: old(self).key_off || up, ..*old(self) }),
    {
        if self.gate_frames_remaining == 0 && !self.key_off {
            self.key_off = true;
            true
        } else {
            false
        }
    }

    /// Whether another frame sounds, of a voice that has or has not come to its
    /// end.
    pub fn next_frame(&mut self, finished: bool) -> (sounds: bool)
        requires
            old(self).gate_frames_remaining == 0 ==> old(self).key_off,
        ensures
            old(self).valid() ==> final(self).valid(),
            sounds ==> final(self).longest() == old(self).longest() - 1,
            sounds == (old(self).gate_frames_remaining > 0 || !finished
                && old(self).release_frames_rendered < old(self).release_limit),
            *final(self) == if !sounds {
                *old(self)
            } else if old(self).gate_frames_remaining > 0 {
                NoteGate {
                    gate_frames_remaining: (old(self).gate_frames_remaining - 1) as u64,
                    ..*old(self)
                }
            } else {
                NoteGate {
                    release_frames_rendered: (old(self).release_frames_rendered + 1) as u64,
                    ..*old(self)
                }
            },
    {
        if self.gate_frames_remaining != 0 {
            self.gate_frames_remaining -= 1;
            return true;
        }
        if self.release_frames_rendered >= self.release_limit || finished {
            return false;
        }
        self.release_frames_rendered += 1;
        true
    }
}

/// A connection feeds forward: what modulates an operator stands before it, so
/// that one pass over the operators in order computes them all.
pub proof fn law_connections_feed_forward(algorithm: u8, operator: usize, i: int)
    requires
        operator < running_operators(algorithm),
        0 <= i < modulators(algorithm, operator).len(),
    ensures
        modulators(algorithm, operator)[i] < operator,
{
}

/// Every operator that a connection runs is either heard or modulates another
/// one, and none does both.
pub proof fn law_operators_have_one_use(algorithm: u8, operator: usize)
    requires
        operator < running_operators(algorithm),
    ensures
        outputs(algorithm).contains(operator) <==> !exists|other: usize|
            other < running_operators(algorithm) && #[trigger] modulators(
                algorithm,
                other,
            ).contains(operator),
{
    let connection = algorithm & 7;
    assert(algorithm & 7 <= 7) by (bit_vector);
    let heard = outputs(algorithm);
    assert(heard.contains(operator) <==> exists|i: int|
        0 <= i < heard.len() && #[trigger] heard[i] == operator);
    assert(heard.len() >= 1 ==> heard.contains(heard[0]));
    assert(heard.len() >= 2 ==> heard.contains(heard[1]));
    assert(heard.len() >= 3 ==> heard.contains(heard[2]));
    assert(heard.len() >= 4 ==> heard.contains(heard[3]));
    let first = modulators(algorithm, 1);
    let second = modulators(algorithm, 2);
    let third = modulators(algorithm, 3);
    assert(first.len() >= 1 ==> first.contains(first[0]));
    assert(second.len() >= 1 ==> second.contains(second[0]));
    assert(second.len() >= 2 ==> second.contains(second[1]));
    assert(third.len() >= 1 ==> third.contains(third[0]));
}

/// The operators that end a note are the ones that are heard.
pub proof fn law_carriers_are_the_outputs(algorithm: u8, operator_count: u8)
    requires
        operator_count > 2 || algorithm & 7 <= 1,
    ensures
        carriers(algorithm, operator_count) == outputs(algorithm),
{
    assert(algorithm & 7 == 0 ==> algorithm & 1 == 0) by (bit_vector);
    assert(algorithm & 7 == 1 ==> algorithm & 1 == 1) by (bit_vector);
}

/// An envelope that is done stays done, and a second key-off changes nothing.
pub proof fn law_envelopes_stay_done(stage: EnvelopeStage, ignore_key_off: bool)
    ensures
        EnvelopeStage::Done.next() == EnvelopeStage::Done,
        EnvelopeStage::Done.released(ignore_key_off) == EnvelopeStage::Done,
        stage.released(ignore_key_off).released(ignore_key_off) == stage.released(ignore_key_off),
        stage.next().next().next() == EnvelopeStage::Done,
{
}

proof fn lemma_selectors(number: u8)
    by (bit_vector)
    ensures
        number & 7 == number % 8,
        number & 1 == number % 2,
        number & 31 == number % 32,
        number >= 8 ==> ((number - 8) as u8) & 7 == number % 8,
{
}

/// Whether an operator modulates another one.
pub open spec fn feeds(algorithm: u8, from: usize, to: usize) -> bool {
    modulators(algorithm, to).contains(from)
}

/// The connections: the first operator modulates the second in 0, 4 and 5 and the third
/// in 3, the second the third in 3, 4, 6 and 7, the third the fourth in 3 to 6, and there
/// is no other modulation.
pub proof fn law_connections_are_wired(algorithm: u8, from: usize, to: usize)
    ensures
        ({
            let connection = algorithm % 8;
            feeds(algorithm, from, to) <==> {
                ||| from == 0 && to == 1 && (connection == 0 || connection == 4 || connection == 5)
                ||| from == 0 && to == 2 && connection == 3
                ||| from == 1 && to == 2 && (connection == 3 || connection == 4 || connection == 6
                    || connection == 7)
                ||| from == 2 && to == 3 && 3 <= connection <= 6
            }
        }),
{
    lemma_selectors(algorithm);
    let list = modulators(algorithm, to);
    assert(list.len() >= 1 ==> list.contains(list[0]));
    assert(list.len() >= 2 ==> list.contains(list[1]));
}

/// The first operator is heard in connections 1, 2, 6 and 7, the second in 0, 1, 2 and 5,
/// the third in 2 and 7, and the fourth in all from 2 on; each is heard once.  Connections
/// 0 and 1 run two operators, the others four.
pub proof fn law_connections_are_heard(algorithm: u8, operator: usize)
    ensures
        ({
            let connection = algorithm % 8;
            outputs(algorithm).contains(operator) <==> {
                ||| operator == 0 && (connection == 1 || connection == 2 || connection == 6
                    || connection == 7)
                ||| operator == 1 && (connection == 0 || connection == 1 || connection == 2
                    || connection == 5)
                ||| operator == 2 && (connection == 2 || connection == 7)
                ||| operator == 3 && connection >= 2
            }
        }),
        outputs(algorithm).no_duplicates(),
        running_operators(algorithm) == 2 <==> algorithm % 8 < 2,
        running_operators(algorithm) == 4 <==> algorithm % 8 >= 2,
{
    lemma_selectors(algorithm);
    let list = outputs(algorithm);
    assert(list.len() >= 1 ==> list.contains(list[0]));
    assert(list.len() >= 2 ==> list.contains(list[1]));
    assert(list.len() >= 3 ==> list.contains(list[2]));
    assert(list.len() >= 4 ==> list.contains(list[3]));
}

/// A voice of two operators ends with its second operator for even algorithms, with both
/// for odd ones; one of more operators with those that are heard.
pub proof fn law_voices_end_with_their_carriers(
    algorithm: u8,
    operator_count: u8,
    operator: usize,
)
    ensures
        operator_count <= 2 ==> (carriers(algorithm, operator_count).contains(operator)
            <==> operator == 1 || operator == 0 && algorithm % 2 == 1),
        operator_count > 2 ==> (carriers(algorithm, operator_count).contains(operator)
            <==> outputs(algorithm).contains(operator)),
{
    lemma_selectors(algorithm);
    let list = carriers(algorithm, operator_count);
    assert(list.len() >= 1 ==> list.contains(list[0]));
    assert(list.len() >= 2 ==> list.contains(list[1]));
}

/// A single operator is heard at full weight, two at a half each, four at 350 and three
/// at 400 thousandths each.
pub proof fn law_weights_follow_the_outputs(algorithm: u8)
    ensures
        outputs(algorithm).len() == 1 ==> output_weight(algorithm) == 1000,
        outputs(algorithm).len() == 2 ==> output_weight(algorithm) == 500,
        outputs(algorithm).len() == 3 ==> output_weight(algorithm) == 400,
        outputs(algorithm).len() == 4 ==> output_weight(algorithm) == 350,
        1 <= outputs(algorithm).len() <= 4,
{
    lemma_selectors(algorithm);
}

/// Selectors 0 to 7 are the OPL shapes and 8 to 13 the first six of them clipped; 16 to
/// 21 are triangles and 24 to 29 saws; 14, 22 and 30 are squares; 15, 23 and 31 are silent.
pub proof fn law_selectors_have_families(selector: u8)
    requires
        selector < 32,
    ensures
        selector <= 7 <==> wave_family(selector) == WaveFamily::Opl(selector),
        8 <= selector <= 13 ==> wave_family(selector) == WaveFamily::Clipped((selector - 8) as u8),
        16 <= selector <= 21 ==> wave_family(selector) == WaveFamily::Triangle(
            (selector - 16) as u8,
        ),
        24 <= selector <= 29 ==> wave_family(selector) == WaveFamily::Saw((selector - 24) as u8),
        selector == 14 || selector == 22 || selector == 30 <==> wave_family(selector)
            == WaveFamily::Square,
        selector == 15 || selector == 23 || selector == 31 <==> wave_family(selector)
            == WaveFamily::Silent,
{
    lemma_selectors(selector);
}

/// An envelope goes from attack through decay and sustain to its end, and a release goes
/// straight there; a key-off leads to the release from wherever it is not yet done, unless
/// the operator ignores it.
pub proof fn law_envelopes_run_through_their_stages(stage: EnvelopeStage)
    ensures
        EnvelopeStage::Attack.next() is Decay,
        EnvelopeStage::Attack.next().next() is Sustain,
        EnvelopeStage::Attack.next().next().next() is Done,
        EnvelopeStage::Release.next() is Done,
        stage.released(true) == stage,
        stage.released(false) is Release <==> !(stage is Done),
        stage.released(false) is Done <==> stage is Done,
{
}

/// A voice is over exactly when every operator that it ends with is done.
pub proof fn law_voices_are_over_with_their_carriers(voice: VoiceStages)
    ensures
        voice.silent() <==> forall|operator: usize|
            carriers(voice.algorithm, voice.operator_count).contains(operator)
                ==> #[trigger] voice.stages@[operator as int] is Done,
{
    let list = carriers(voice.algorithm, voice.operator_count);
    if voice.silent() {
        assert forall|operator: usize| list.contains(
            operator,
        ) implies #[trigger] voice.stages@[operator as int] is Done by {
            let i = choose|i: int| 0 <= i < list.len() && list[i] == operator;
            assert(voice.stages@[list[i] as int] == EnvelopeStage::Done);
        }
    }
    if forall|operator: usize|
        list.contains(operator) ==> #[trigger] voice.stages@[operator as int] is Done {
        assert forall|i: int| 0 <= i < list.len() implies voice.stages@[#[trigger] list[i] as int]
            == EnvelopeStage::Done by {
            assert(list.contains(list[i]));
        }
    }
}

} // verus!
