//! Which samples of a wave sound in which frame of the output.
use vstd::arithmetic::div_mod::{
    lemma_div_is_ordered, lemma_div_multiples_vanish, lemma_fundamental_div_mod,
    lemma_mod_multiples_basic, lemma_multiply_divide_lt,
};
use vstd::arithmetic::mul::{lemma_mul_inequality, lemma_mul_is_commutative, lemma_mul_nonnegative};
use vstd::prelude::*;

verus! {

/// Frames in the output for `source_frames` frames of a wave, rounded up, as far
/// as 64 bits count.
pub open spec fn frames_out(source_frames: int, source_rate: u32, target_rate: u32) -> int {
    let scaled = source_frames * target_rate + source_rate - 1;
    if scaled > u64::MAX {
        u64::MAX as int / source_rate as int
    } else {
        scaled / source_rate as int
    }
}

/// How a wave is resampled to the rate of the output.
#[derive(Clone, Copy, Debug, PartialEq, Eq, Structural)]
pub struct WavePlan {
    pub channels: u8,
    pub source_rate: u32,
    pub source_frames: usize,
    pub target_rate: u32,
    pub output_frames: u64,
}

/// What sounds in one frame of the output: a frame of the wave and its neighbour,
/// mixed `numerator` parts of the target rate towards the neighbour.
#[derive(Clone, Copy, Debug, PartialEq, Eq, Structural)]
pub struct WaveFrame {
    pub left_index: usize,
    pub right_index: usize,
    pub numerator: u64,
}

impl WavePlan {
    /// A plan for a wave of one or two channels that is not empty.
    pub open spec fn valid(self) -> bool {
        &&& self.channels == 1 || self.channels == 2
        &&& self.source_rate > 0
        &&& self.source_frames > 0
        &&& self.target_rate > 0
        &&& self.source_frames * self.target_rate <= u64::MAX
        &&& self.output_frames == frames_out(
            self.source_frames as int,
            self.source_rate,
            self.target_rate,
        )
    }

    /// The frame of the wave that sounds in a frame of the output.
    pub open spec fn source_frame(self, output_frame: int) -> int {
        (output_frame * self.source_rate) / self.target_rate as int
    }

    /// A plan for `samples` interleaved samples.  None for a wave of any other
    /// number of channels, without a rate or without a frame.
    pub fn new(channels: u8, source_rate: u32, samples: usize, target_rate: u32) -> (plan: Option<
        Self,
    >)
        requires
            target_rate > 0,
            source_rate > 0 && (channels == 1 || channels == 2) ==> (samples / channels as usize)
                * target_rate <= u64::MAX,
        ensures
            plan is Some <==> (channels == 1 || channels == 2) && source_rate > 0 && samples
                >= channels,
            plan matches Some(found) ==> {
                &&& found.valid()
                &&& found.channels == channels
                &&& found.source_rate == source_rate
                &&& found.source_frames == samples / channels as usize
                &&& found.target_rate == target_rate
            },
    {
        if !(channels == 1 || channels == 2) || source_rate == 0 {
            return None;
        }
        let source_frames = samples / channels as usize;
        proof {
            if channels == 1 {
                assert(source_frames == samples / 1);
            } else {
                assert(source_frames == samples / 2);
            }
        }
        if source_frames == 0 {
            return None;
        }
        let scaled = source_frames as u64 * target_rate as u64;
        let output_frames = scaled.saturating_add(source_rate as u64 - 1) / source_rate as u64;
        Some(WavePlan { channels, source_rate, source_frames, target_rate, output_frames })
    }

    /// What sounds in a frame of the output.
    pub fn frame(&self, output_frame: u64) -> (found: WaveFrame)
        requires
            self.valid(),
            output_frame < self.output_frames,
        ensures
            found.left_index == self.source_frame(output_frame as int),
            found.left_index < self.source_frames,
            found.right_index == (if found.left_index + 1 < self.source_frames {
                found.left_index + 1
            } else {
                self.source_frames - 1
            }),
            found.numerator == (output_frame * self.source_rate) % self.target_rate as int,
            found.numerator < self.target_rate,
            found.left_index * self.target_rate + found.numerator == output_frame
                * self.source_rate,
            found.left_index <= found.right_index < self.source_frames,
            found.right_index == found.left_index ==> found.left_index == self.source_frames - 1,
            found.right_index <= found.left_index + 1,
    {
        proof {
            lemma_within(*self, output_frame as int);
            lemma_fundamental_div_mod(output_frame * self.source_rate, self.target_rate as int);
            lemma_mul_is_commutative(
                self.target_rate as int,
                self.source_frame(output_frame as int),
            );
        }
        let numerator = output_frame * self.source_rate as u64;
        let left_index = (numerator / self.target_rate as u64) as usize;
        let right_index = if left_index < self.source_frames - 1 {
            left_index + 1
        } else {
            self.source_frames - 1
        };
        WaveFrame { left_index, right_index, numerator: numerator % self.target_rate as u64 }
    }

    /// Where a side of a frame lies among the wave's samples.  A wave of one
    /// channel sounds on both sides.
    pub fn sample_index(&self, frame: usize, side: usize) -> (index: usize)
        requires
            self.valid(),
            self.source_frames * self.channels <= usize::MAX,
            frame < self.source_frames,
            side < 2,
        ensures
            index == frame * self.channels + (if self.channels == 1 { 0 } else { side as int }),
            index < self.source_frames * self.channels,
            self.channels == 2 ==> index / 2 == frame && index % 2 == side,
            self.channels == 1 ==> index == frame,
    {
        if self.channels == 1 {
            frame
        } else {
            frame * 2 + side
        }
    }
}

/// A frame of the output lies within the wave.
proof fn lemma_within(plan: WavePlan, output_frame: int)
    requires
        plan.valid(),
        0 <= output_frame < plan.output_frames,
    ensures
        0 <= output_frame * plan.source_rate < plan.source_frames * plan.target_rate,
        0 <= plan.source_frame(output_frame) < plan.source_frames,
{
    let rate = plan.source_rate as int;
    let scaled = plan.source_frames * plan.target_rate;
    let rounded = scaled + rate - 1;
    let kept = if rounded > u64::MAX {
        u64::MAX as int
    } else {
        rounded
    };
    let frames = kept / rate;
    lemma_fundamental_div_mod(kept, rate);
    lemma_mul_inequality(output_frame + 1, frames, rate);
    lemma_mul_is_commutative(frames, rate);
    assert((output_frame + 1) * rate == output_frame * rate + rate) by (nonlinear_arith);
    lemma_mul_nonnegative(output_frame, rate);
    assert(output_frame * rate < scaled);
    lemma_mul_is_commutative(plan.source_frames as int, plan.target_rate as int);
    lemma_multiply_divide_lt(
        output_frame * rate,
        plan.target_rate as int,
        plan.source_frames as int,
    );
    assert(0 <= (output_frame * rate) / plan.target_rate as int) by (nonlinear_arith)
        requires
            output_frame * rate >= 0,
            plan.target_rate > 0,
    ;
}

/// Every frame of the output reads within the wave, and none reads further back
/// than the one before.
pub proof fn law_reads_forward_within_the_wave(plan: WavePlan, earlier: int, later: int)
    requires
        plan.valid(),
        0 <= earlier <= later < plan.output_frames,
    ensures
        0 <= plan.source_frame(earlier) <= plan.source_frame(later) < plan.source_frames,
{
    lemma_within(plan, earlier);
    lemma_within(plan, later);
    lemma_mul_inequality(earlier, later, plan.source_rate as int);
    lemma_div_is_ordered(
        earlier * plan.source_rate,
        later * plan.source_rate,
        plan.target_rate as int,
    );
}

/// At its own rate a wave comes out frame by frame as it is.
pub proof fn law_own_rate_is_identity(plan: WavePlan, frame: int)
    requires
        plan.valid(),
        plan.source_rate == plan.target_rate,
        plan.source_frames * plan.target_rate + plan.source_rate - 1 <= u64::MAX,
        0 <= frame < plan.output_frames,
    ensures
        plan.output_frames == plan.source_frames,
        plan.source_frame(frame) == frame,
        (frame * plan.source_rate) % plan.target_rate as int == 0,
{
    let rate = plan.source_rate as int;
    let frames = plan.source_frames as int;
    lemma_div_multiples_vanish(frame, rate);
    lemma_mul_is_commutative(frame, rate);
    lemma_mod_multiples_basic(frame, rate);
    assert((frames * rate + rate - 1) / rate == frames) by (nonlinear_arith)
        requires
            rate > 0,
            frames >= 0,
    ;
}

/// A wave lasts as long in the output as at its own rate, the last frame of the output
/// begun: one frame less would not reach its end.
pub proof fn law_waves_keep_their_length(source_frames: int, source_rate: u32, target_rate: u32)
    requires
        source_frames > 0,
        source_rate > 0,
        source_frames * target_rate + source_rate <= u64::MAX,
    ensures
        ({
            let frames = frames_out(source_frames, source_rate, target_rate);
            (frames - 1) * source_rate < source_frames * target_rate <= frames * source_rate
        }),
{
    let rate = source_rate as int;
    let scaled = source_frames * target_rate + rate - 1;
    lemma_fundamental_div_mod(scaled, rate);
    let frames = scaled / rate;
    assert((frames - 1) * rate == rate * frames - rate) by (nonlinear_arith);
    assert(frames * rate == rate * frames) by (nonlinear_arith);
}

/// A frame of the output reads the frame of the wave that sounds at its time: no later
/// one, and no earlier one.
pub proof fn law_frames_sound_at_their_time(plan: WavePlan, output_frame: int)
    requires
        plan.valid(),
        0 <= output_frame,
    ensures
        ({
            let frame = plan.source_frame(output_frame);
            frame * plan.target_rate <= output_frame * plan.source_rate < (frame + 1)
                * plan.target_rate
        }),
{
    let rate = plan.target_rate as int;
    lemma_fundamental_div_mod(output_frame * plan.source_rate, rate);
    let frame = plan.source_frame(output_frame);
    assert((frame + 1) * rate == rate * frame + rate) by (nonlinear_arith);
    assert(frame * rate == rate * frame) by (nonlinear_arith);
}

} // verus!
