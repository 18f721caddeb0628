//! The waveshaper: a symmetric hard clip at the threshold, scaled so that the
//! clip point comes out as full scale.

use crate::parameter::{Parameter, ParameterModel};
use crate::smoother::lemma_after_adds;
use crate::units::{clamp_to, greatest, least, lemma_mul_div_bounds, mul_div, scale, ONE};
use vstd::prelude::*;

verus! {

/// The shaped sample: the input, held within the threshold on either side of
/// zero, as a fraction of the threshold.
pub open spec fn shaped(input: int, threshold: int) -> int {
    if input >= 0 {
        mul_div(least(input, threshold), ONE as int, threshold)
    } else {
        mul_div(greatest(input, -threshold), ONE as int, threshold)
    }
}

/// Range: the shaped sample lies within full scale, whatever the input and the
/// positive threshold. Identity: at a threshold of `ONE` an input within full
/// scale comes out as it went in.
pub proof fn lemma_shaped_bounds(input: int, threshold: int)
    requires
        0 < threshold,
    ensures
        -ONE <= shaped(input, threshold) <= ONE,
        input >= 0 ==> shaped(input, threshold) >= 0,
        input <= 0 ==> shaped(input, threshold) <= 0,
        input >= threshold ==> shaped(input, threshold) == ONE,
        input <= -threshold ==> shaped(input, threshold) == -ONE,
        -ONE <= input <= ONE ==> shaped(input, ONE as int) == input,
{
    let held = if input >= 0 {
        least(input, threshold)
    } else {
        greatest(input, -threshold)
    };
    lemma_mul_div_bounds(held, ONE as int, threshold);
    if -ONE <= input <= ONE {
        let one = ONE as int;
        assert((input * one) / one == input) by (nonlinear_arith)
            requires
                one > 0,
        ;
        assert(((-(input * one)) / one) == -input) by (nonlinear_arith)
            requires
                one > 0,
        ;
    }
    if held == -threshold {
        assert((-threshold) * ONE == -(threshold * ONE)) by (nonlinear_arith);
        lemma_mul_div_bounds(threshold, ONE as int, threshold);
    }
}

/// Symmetry: negating the input negates the shaped sample.
pub proof fn lemma_shaped_odd(input: int, threshold: int)
    requires
        0 < threshold,
    ensures
        shaped(-input, threshold) == -shaped(input, threshold),
{
    let one = ONE as int;
    if input > 0 {
        let held = least(input, threshold);
        assert(greatest(-input, -threshold) == -held);
        assert((-held) * one == -(held * one)) by (nonlinear_arith);
        assert(held * one >= 0) by (nonlinear_arith)
            requires
                held >= 0,
                one > 0,
        ;
    } else if input < 0 {
        let held = least(-input, threshold);
        assert(greatest(input, -threshold) == -held);
        assert((-held) * one == -(held * one)) by (nonlinear_arith);
        assert(held * one >= 0) by (nonlinear_arith)
            requires
                held >= 0,
                one > 0,
        ;
    } else {
        assert(0 * one == 0);
    }
}

/// Shapes one sample at a positive threshold.
pub fn process_sample(input: i64, threshold: i64) -> (output: i64)
    requires
        0 < threshold,
    ensures
        output == shaped(input as int, threshold as int),
        -ONE <= output <= ONE,
{
    proof {
        lemma_shaped_bounds(input as int, threshold as int);
    }
    let held = clamp_to(input, -threshold, threshold);
    scale(held, ONE, threshold)
}

/// Number of sample frames in a buffer of channels.
pub open spec fn frames(buffer: Seq<Vec<i64>>) -> nat {
    if buffer.len() == 0 {
        0
    } else {
        buffer[0].len() as nat
    }
}

/// Every channel holds the same number of samples.
pub open spec fn rectangular(buffer: Seq<Vec<i64>>) -> bool {
    forall|c: int| 0 <= c < buffer.len() ==> (#[trigger] buffer[c]).len() == frames(buffer)
}

/// Shapes a block of audio in place. `buffer` holds one vector of samples for
/// each channel. Each sample frame takes one smoothed value of the threshold,
/// and every channel of the frame is shaped at that same value.
pub fn process_block(buffer: &mut Vec<Vec<i64>>, threshold: &mut Parameter)
    requires
        rectangular(old(buffer)@),
        old(threshold)@.range.lower() > 0,
    ensures
        final(buffer).len() == old(buffer).len(),
        rectangular(final(buffer)@),
        frames(final(buffer)@) == frames(old(buffer)@),
        forall|c: int, i: int|
            0 <= c < old(buffer).len() && 0 <= i < frames(old(buffer)@)
                ==> #[trigger] final(buffer)[c][i] == shaped(
                old(buffer)[c][i] as int,
                old(threshold)@.ramp.after((i + 1) as nat).current,
            ),
        final(threshold)@ == old(threshold)@.after(frames(old(buffer)@)),
{
    let channels = buffer.len();
    if channels == 0 {
        return ;
    }
    let length = buffer[0].len();
    let ghost before = buffer@;
    let ghost start: ParameterModel = threshold@;
    let mut i: usize = 0;
    while i < length
        invariant
            i <= length,
            channels == buffer.len(),
            channels == before.len(),
            channels > 0,
            length == frames(before),
            rectangular(before),
            rectangular(buffer@),
            frames(buffer@) == length,
            start.range.lower() > 0,
            threshold@ == start.after(i as nat),
            forall|c: int, j: int|
                0 <= c < channels && 0 <= j < i ==> #[trigger] buffer[c][j] == shaped(
                    before[c][j] as int,
                    start.ramp.after((j + 1) as nat).current,
                ),
            forall|c: int, j: int|
                0 <= c < channels && i <= j < length ==> #[trigger] buffer[c][j] == before[c][j],
        decreases length - i,
    {
        let level = threshold.next_smoothed_value();
        proof {
            lemma_after_adds(start.ramp, i as nat, 1);
        }
        let mut c: usize = 0;
        while c < channels
            invariant
                c <= channels,
                i < length,
                channels == buffer.len(),
                channels == before.len(),
                channels > 0,
                length == frames(before),
                rectangular(before),
                rectangular(buffer@),
                frames(buffer@) == length,
                level > 0,
                level == start.ramp.after((i + 1) as nat).current,
                forall|d: int, j: int|
                    0 <= d < channels && 0 <= j < i ==> #[trigger] buffer[d][j] == shaped(
                        before[d][j] as int,
                        start.ramp.after((j + 1) as nat).current,
                    ),
                forall|d: int, j: int|
                    0 <= d < channels && i < j < length ==> #[trigger] buffer[d][j]
                        == before[d][j],
                forall|d: int|
                    0 <= d < c ==> #[trigger] buffer[d][i as int] == shaped(
                        before[d][i as int] as int,
                        level as int,
                    ),
                forall|d: int|
                    c <= d < channels ==> #[trigger] buffer[d][i as int] == before[d][i as int],
            decreases channels - c,
        {
            let sample = buffer[c][i];
            buffer[c][i] = process_sample(sample, level);
            c = c + 1;
        }
        i = i + 1;
    }
}

} // verus!
